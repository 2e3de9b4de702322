//! Virtual and physical address arithmetic.
//!
//! An address is a plain `usize`; it decomposes into a page number and an
//! in-page offset. `floor`/`ceil` convert a byte address to the containing or
//! next page number, and alignment means the in-page offset is zero.

use vstd::prelude::*;

use crate::config::PAGE_SIZE;

verus! {

/// Page number containing the byte at address `a`.
pub open spec fn spec_page_floor(a: int) -> int {
    a / (PAGE_SIZE as int)
}

/// First page number at or after the byte address `a`.
pub open spec fn spec_page_ceil(a: int) -> int {
    (a + PAGE_SIZE - 1) / (PAGE_SIZE as int)
}

/// Offset of the byte at address `a` within its page.
pub open spec fn spec_page_offset(a: int) -> int {
    a % (PAGE_SIZE as int)
}

/// An address is page-aligned when its in-page offset is zero.
pub open spec fn spec_page_aligned(a: int) -> bool {
    spec_page_offset(a) == 0
}

/// Page number containing the byte at address `a`.
pub fn page_floor(a: usize) -> (r: usize)
    ensures
        r == spec_page_floor(a as int),
{
    a / PAGE_SIZE
}

/// First page number at or after the byte address `a`.
pub fn page_ceil(a: usize) -> (r: usize)
    ensures
        r == spec_page_ceil(a as int),
{
    if a % PAGE_SIZE == 0 {
        proof {
            assert((a + PAGE_SIZE - 1) / (PAGE_SIZE as int) == a as int / (PAGE_SIZE as int));
        }
        a / PAGE_SIZE
    } else {
        proof {
            assert((a + PAGE_SIZE - 1) / (PAGE_SIZE as int) == a as int / (PAGE_SIZE as int) + 1);
        }
        a / PAGE_SIZE + 1
    }
}

/// Offset of the byte at address `a` within its page.
pub fn page_offset(a: usize) -> (r: usize)
    ensures
        r == spec_page_offset(a as int),
{
    a % PAGE_SIZE
}

/// An address is page-aligned when its in-page offset is zero.
pub fn page_aligned(a: usize) -> (r: bool)
    ensures
        r == spec_page_aligned(a as int),
{
    a % PAGE_SIZE == 0
}

} // verus!
