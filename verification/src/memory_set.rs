//! A task's address space: its page table and the frames backing it.
//!
//! The page table maps virtual page numbers to [`PageTableEntry`] values.
//! Absence of an entry means the page is unmapped. Every mapped page is
//! backed by exactly one physical frame, owned by this address space alone.

use std::collections::HashMap;

use vstd::prelude::*;

use crate::addr::{spec_page_floor, spec_page_offset};
use crate::config::{MAX_FRAMES, PAGE_SIZE};
use crate::page_table::{MapPermission, PageTableEntry};
use crate::phys::PhysMemory;

verus! {

broadcast use vstd::std_specs::hash::group_hash_axioms;

/// A task's address space: a page table plus the opaque token that identifies
/// it to the hardware (the handle installed on a context switch).
pub struct MemorySet {
    /// Valid page table entries, keyed by virtual page number.
    pub page_table: HashMap<usize, PageTableEntry>,
    /// Opaque handle identifying this page table to the hardware.
    pub token: usize,
}

impl MemorySet {
    /// A virtual page number has a valid entry.
    pub open spec fn mapped(self, vpn: usize) -> bool {
        self.page_table@.contains_key(vpn)
    }

    /// The entry for a mapped virtual page number.
    pub open spec fn pte_at(self, vpn: usize) -> PageTableEntry
        recommends
            self.mapped(vpn),
    {
        self.page_table@[vpn]
    }

    /// No two mapped pages share a backing frame, and every backing frame has
    /// been handed out by the allocator (its number is below `frames`).
    pub open spec fn wf(self, frames: usize) -> bool {
        &&& forall|v: usize| #[trigger] self.mapped(v) ==> self.pte_at(v).ppn < frames
        &&& forall|v1: usize, v2: usize|
            #[trigger] self.mapped(v1) && #[trigger] self.mapped(v2) && v1 != v2 ==> self.pte_at(
                v1,
            ).ppn != self.pte_at(v2).ppn
    }

    /// The physical address the virtual address `va` translates to.
    pub open spec fn spec_translate(self, va: usize) -> int
        recommends
            self.mapped(spec_page_floor(va as int) as usize),
    {
        self.pte_at(spec_page_floor(va as int) as usize).ppn * PAGE_SIZE + spec_page_offset(
            va as int,
        )
    }

    /// A fresh, empty address space with the given hardware token.
    pub fn new(token: usize) -> (r: MemorySet)
        ensures
            forall|v: usize| !(#[trigger] r.mapped(v)),
            r.wf(0),
            r.token == token,
    {
        MemorySet { page_table: HashMap::new(), token }
    }

    /// Returns the page table entry for a virtual page number, if present.
    pub fn find_pte(&self, vpn: usize) -> (r: Option<PageTableEntry>)
        ensures
            r is Some <==> self.mapped(vpn),
            r matches Some(pte) ==> pte == self.pte_at(vpn),
    {
        match self.page_table.get(&vpn) {
            Some(pte) => Some(*pte),
            None => None,
        }
    }

    /// Maps every page in `[start_vpn, end_vpn)` to a freshly allocated
    /// zeroed frame with the given permission. The caller must have checked
    /// that no page in the range is mapped yet; this component does not
    /// re-validate.
    pub fn insert_framed_area(
        &mut self,
        phys: &mut PhysMemory,
        start_vpn: usize,
        end_vpn: usize,
        perm: MapPermission,
    )
        requires
            old(self).wf(old(phys).num_frames),
            old(phys).wf(),
            start_vpn <= end_vpn,
            forall|v: usize| start_vpn <= v < end_vpn ==> !(#[trigger] old(self).mapped(v)),
            old(phys).num_frames + (end_vpn - start_vpn) <= MAX_FRAMES,
        ensures
            final(self).wf(final(phys).num_frames),
            final(phys).wf(),
            final(self).token == old(self).token,
            final(phys).num_frames == old(phys).num_frames + (end_vpn - start_vpn),
            // every page in the range is now mapped, to a fresh frame, with
            // the requested permission
            forall|v: usize|
                start_vpn <= v < end_vpn ==> #[trigger] final(self).mapped(v) && final(self).pte_at(
                    v,
                ) == (PageTableEntry {
                    ppn: (old(phys).num_frames + (v - start_vpn)) as usize,
                    perm,
                }),
            // pages outside the range are untouched
            forall|v: usize|
                !(start_vpn <= v < end_vpn) ==> (#[trigger] final(self).mapped(v) <==> old(
                    self,
                ).mapped(v)) && (old(self).mapped(v) ==> final(self).pte_at(v) == old(self).pte_at(
                    v,
                )),
            // previously handed-out memory words are untouched; new frames
            // are zero-filled
            forall|k: int|
                0 <= k < old(phys).words.len() ==> final(phys).words[k] == old(phys).words[k],
            forall|k: int|
                old(phys).words.len() <= k < final(phys).words.len() ==> final(phys).words[k] == 0,
    {
        let base = phys.num_frames;
        let mut vpn = start_vpn;
        while vpn < end_vpn
            invariant
                start_vpn <= vpn <= end_vpn,
                old(self).wf(old(phys).num_frames),
                old(phys).wf(),
                phys.wf(),
                self.token == old(self).token,
                phys.num_frames == base + (vpn - start_vpn),
                base == old(phys).num_frames,
                base + (end_vpn - start_vpn) <= MAX_FRAMES,
                forall|v: usize| start_vpn <= v < end_vpn ==> !(#[trigger] old(self).mapped(v)),
                forall|v: usize|
                    start_vpn <= v < vpn ==> #[trigger] self.mapped(v) && self.pte_at(v)
                        == (PageTableEntry { ppn: (base + (v - start_vpn)) as usize, perm }),
                forall|v: usize|
                    !(start_vpn <= v < vpn) ==> (#[trigger] self.mapped(v) <==> old(self).mapped(
                        v,
                    )) && (old(self).mapped(v) ==> self.pte_at(v) == old(self).pte_at(v)),
                forall|k: int|
                    0 <= k < old(phys).words.len() ==> phys.words[k] == old(phys).words[k],
                forall|k: int|
                    old(phys).words.len() <= k < phys.words.len() ==> phys.words[k] == 0,
            decreases end_vpn - vpn,
        {
            let ghost prev_self = *self;
            let ghost prev_phys = *phys;
            let ppn = phys.alloc_frame();
            self.page_table.insert(vpn, PageTableEntry { ppn, perm });
            proof {
                assert(self.page_table@ == prev_self.page_table@.insert(
                    vpn,
                    PageTableEntry { ppn, perm },
                ));
                assert forall|v: usize| start_vpn <= v <= vpn implies #[trigger] self.mapped(v)
                    && self.pte_at(v) == (PageTableEntry {
                    ppn: (base + (v - start_vpn)) as usize,
                    perm,
                }) by {
                    if v < vpn {
                        assert(prev_self.mapped(v));
                        assert(self.pte_at(v) == prev_self.pte_at(v));
                    } else {
                        assert(self.pte_at(v) == (PageTableEntry { ppn, perm }));
                    }
                }
                assert forall|v: usize| !(start_vpn <= v <= vpn) implies (
                #[trigger] self.mapped(v) <==> old(self).mapped(v)) && (old(self).mapped(v)
                    ==> self.pte_at(v) == old(self).pte_at(v)) by {
                    assert(prev_self.mapped(v) <==> old(self).mapped(v));
                    if old(self).mapped(v) {
                        assert(self.pte_at(v) == prev_self.pte_at(v));
                    }
                }
                assert forall|k: int| 0 <= k < old(phys).words.len() implies phys.words[k] == old(
                    phys,
                ).words[k] by {
                    assert(prev_phys.words[k] == old(phys).words[k]);
                    assert(phys.words[k] == prev_phys.words[k]);
                }
                assert forall|k: int|
                    old(phys).words.len() <= k < phys.words.len() implies phys.words[k] == 0 by {
                    if k < prev_phys.words.len() {
                        assert(prev_phys.words[k] == 0);
                        assert(phys.words[k] == prev_phys.words[k]);
                    }
                }
            }
            vpn = vpn + 1;
        }
        proof {
            assert forall|v: usize| #[trigger] self.mapped(v) implies self.pte_at(v).ppn
                < phys.num_frames by {
                if !(start_vpn <= v < end_vpn) {
                    assert(old(self).mapped(v));
                    assert(old(self).pte_at(v).ppn < old(phys).num_frames);
                }
            }
            assert forall|v1: usize, v2: usize|
                #[trigger] self.mapped(v1) && #[trigger] self.mapped(v2) && v1 != v2 implies
            self.pte_at(v1).ppn != self.pte_at(v2).ppn by {
                if !(start_vpn <= v1 < end_vpn) && !(start_vpn <= v2 < end_vpn) {
                    assert(old(self).mapped(v1) && old(self).mapped(v2));
                    assert(old(self).pte_at(v1).ppn != old(self).pte_at(v2).ppn);
                } else if !(start_vpn <= v1 < end_vpn) {
                    assert(old(self).mapped(v1));
                    assert(old(self).pte_at(v1).ppn < old(phys).num_frames);
                } else if !(start_vpn <= v2 < end_vpn) {
                    assert(old(self).mapped(v2));
                    assert(old(self).pte_at(v2).ppn < old(phys).num_frames);
                }
            }
        }
    }

    /// Invalidates the entry of every page in `[start_vpn, end_vpn)`. The
    /// caller must have checked that every page in the range is mapped; the
    /// backing frames are released for later reclamation.
    pub fn unmap(&mut self, start_vpn: usize, end_vpn: usize)
        requires
            start_vpn <= end_vpn,
            forall|v: usize| start_vpn <= v < end_vpn ==> #[trigger] old(self).mapped(v),
        ensures
            final(self).token == old(self).token,
            forall|v: usize|
                start_vpn <= v < end_vpn ==> !(#[trigger] final(self).mapped(v)),
            forall|v: usize|
                !(start_vpn <= v < end_vpn) ==> (#[trigger] final(self).mapped(v) <==> old(
                    self,
                ).mapped(v)) && (old(self).mapped(v) ==> final(self).pte_at(v) == old(self).pte_at(
                    v,
                )),
            forall|frames: usize| old(self).wf(frames) ==> final(self).wf(frames),
    {
        let mut vpn = start_vpn;
        while vpn < end_vpn
            invariant
                start_vpn <= vpn <= end_vpn,
                self.token == old(self).token,
                forall|v: usize| start_vpn <= v < vpn ==> !(#[trigger] self.mapped(v)),
                forall|v: usize|
                    !(start_vpn <= v < vpn) ==> (#[trigger] self.mapped(v) <==> old(self).mapped(
                        v,
                    )) && (old(self).mapped(v) ==> self.pte_at(v) == old(self).pte_at(v)),
            decreases end_vpn - vpn,
        {
            let ghost prev_self = *self;
            self.page_table.remove(&vpn);
            proof {
                assert(self.page_table@ == prev_self.page_table@.remove(vpn));
                assert forall|v: usize| start_vpn <= v <= vpn implies !(
                #[trigger] self.mapped(v)) by {
                    if v < vpn {
                        assert(!prev_self.mapped(v));
                    }
                }
                assert forall|v: usize| !(start_vpn <= v <= vpn) implies (
                #[trigger] self.mapped(v) <==> old(self).mapped(v)) && (old(self).mapped(v)
                    ==> self.pte_at(v) == old(self).pte_at(v)) by {
                    assert(prev_self.mapped(v) <==> old(self).mapped(v));
                    if old(self).mapped(v) {
                        assert(self.pte_at(v) == prev_self.pte_at(v));
                    }
                }
            }
            vpn = vpn + 1;
        }
        proof {
            assert forall|frames: usize| old(self).wf(frames) implies self.wf(frames) by {
                assert forall|v: usize| #[trigger] self.mapped(v) implies self.pte_at(v).ppn
                    < frames by {
                    assert(old(self).mapped(v));
                }
                assert forall|v1: usize, v2: usize|
                    #[trigger] self.mapped(v1) && #[trigger] self.mapped(v2) && v1 != v2 implies
                self.pte_at(v1).ppn != self.pte_at(v2).ppn by {
                    assert(old(self).mapped(v1) && old(self).mapped(v2));
                    assert(old(self).pte_at(v1).ppn != old(self).pte_at(v2).ppn);
                }
            }
        }
    }

    /// Translates a virtual address through this page table: the backing
    /// frame's base address plus the in-page offset. Returns `None` when the
    /// containing page is unmapped.
    pub fn translate(&self, va: usize) -> (r: Option<usize>)
        requires
            forall|v: usize| #[trigger] self.mapped(v) ==> self.pte_at(v).ppn < MAX_FRAMES,
        ensures
            r is Some <==> self.mapped(spec_page_floor(va as int) as usize),
            r matches Some(pa) ==> pa == self.spec_translate(va),
    {
        let vpn = crate::addr::page_floor(va);
        match self.find_pte(vpn) {
            Some(pte) => {
                proof {
                    assert(self.pte_at(vpn).ppn * PAGE_SIZE + PAGE_SIZE <= MAX_FRAMES * PAGE_SIZE)
                        by (nonlinear_arith)
                        requires
                            self.pte_at(vpn).ppn < MAX_FRAMES,
                            self.pte_at(vpn).ppn >= 0,
                    ;
                }
                Some(pte.ppn * PAGE_SIZE + crate::addr::page_offset(va))
            },
            None => None,
        }
    }
}

/// Mapping a range and then unmapping the same range is idempotent with
/// respect to mapped-ness: an address space in which `[start_vpn, end_vpn)`
/// was entirely unmapped, after a map of that range followed by an unmap of
/// that range, is back in its prior state — the same pages are mapped, with
/// the same entries, as before the round trip.
pub proof fn lemma_map_unmap_roundtrip(
    before: MemorySet,
    mapped_st: MemorySet,
    after: MemorySet,
    start_vpn: usize,
    end_vpn: usize,
)
    requires
        // the range was free beforehand
        forall|v: usize| start_vpn <= v < end_vpn ==> !(#[trigger] before.mapped(v)),
        // `mapped_st` is `before` after mapping exactly that range
        forall|v: usize|
            !(start_vpn <= v < end_vpn) ==> (#[trigger] mapped_st.mapped(v) <==> before.mapped(v))
                && (before.mapped(v) ==> mapped_st.pte_at(v) == before.pte_at(v)),
        // `after` is `mapped_st` after unmapping exactly that range
        forall|v: usize| start_vpn <= v < end_vpn ==> !(#[trigger] after.mapped(v)),
        forall|v: usize|
            !(start_vpn <= v < end_vpn) ==> (#[trigger] after.mapped(v) <==> mapped_st.mapped(v))
                && (mapped_st.mapped(v) ==> after.pte_at(v) == mapped_st.pte_at(v)),
    ensures
        forall|v: usize| #[trigger] after.mapped(v) <==> before.mapped(v),
        forall|v: usize| #[trigger] before.mapped(v) ==> after.pte_at(v) == before.pte_at(v),
{
    assert forall|v: usize| #[trigger] after.mapped(v) <==> before.mapped(v) by {
        if start_vpn <= v < end_vpn {
            assert(!before.mapped(v));
            assert(!after.mapped(v));
        } else {
            assert(mapped_st.mapped(v) <==> before.mapped(v));
        }
    }
    assert forall|v: usize| #[trigger] before.mapped(v) implies after.pte_at(v) == before.pte_at(
        v,
    ) by {
        assert(!(start_vpn <= v < end_vpn));
        assert(mapped_st.mapped(v));
        assert(mapped_st.pte_at(v) == before.pte_at(v));
        assert(after.mapped(v));
        assert(after.pte_at(v) == mapped_st.pte_at(v));
    }
}

} // verus!
