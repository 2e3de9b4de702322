//! Page table entries and mapping permissions.

use vstd::prelude::*;

verus! {

/// Permission bits of one mapping: readable, writable, executable,
/// user-accessible. The valid bit is represented by presence of the entry in
/// the page table: an absent entry means "unmapped".
#[derive(Clone, Copy, PartialEq, Eq, Structural, Debug)]
pub struct MapPermission {
    pub readable: bool,
    pub writable: bool,
    pub executable: bool,
    pub user: bool,
}

/// One page table entry: the physical page number backing a virtual page,
/// together with the permission bits of the mapping.
#[derive(Clone, Copy, PartialEq, Eq, Structural, Debug)]
pub struct PageTableEntry {
    pub ppn: usize,
    pub perm: MapPermission,
}

impl PageTableEntry {
    /// Physical page number backing this mapping.
    pub fn ppn(&self) -> (r: usize)
        ensures
            r == self.ppn,
    {
        self.ppn
    }
}

/// A requested `port` permission mask is valid when only the low three bits
/// (readable, writable, executable) are used and at least one of them is set.
pub open spec fn spec_valid_port(port: usize) -> bool {
    port & !0x7 == 0 && port & 0x7 != 0
}

/// The permission bits a user mapping request `port` asks for: bit 0 is
/// readable, bit 1 writable, bit 2 executable; user access is implied for all
/// user-requested mappings.
pub open spec fn spec_perm_of_port(port: usize) -> MapPermission {
    MapPermission {
        readable: port & 0x1 != 0,
        writable: port & 0x2 != 0,
        executable: port & 0x4 != 0,
        user: true,
    }
}

/// Decides whether a requested `port` permission mask is valid.
pub fn valid_port(port: usize) -> (r: bool)
    ensures
        r == spec_valid_port(port),
{
    port & !0x7 == 0 && port & 0x7 != 0
}

/// Builds the permission bits for a user mapping request.
pub fn perm_of_port(port: usize) -> (r: MapPermission)
    ensures
        r == spec_perm_of_port(port),
{
    MapPermission {
        readable: port & 0x1 != 0,
        writable: port & 0x2 != 0,
        executable: port & 0x4 != 0,
        user: true,
    }
}

} // verus!
