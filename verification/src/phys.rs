//! Physical frame allocation and word-granularity physical memory.
//!
//! The surrounding system's frame allocator is assumed to hand out zeroed
//! pages on demand and, within this core's guarantees, never to fail. It is
//! modelled here as a bump allocator over a growable store of machine words:
//! frame numbers are handed out in order and never reused, so every frame
//! handed out is fresh and exclusively owned by its requester until released.
//! (Released frames are reclaimed at an unspecified later time, which this
//! model represents by simply not reusing them.)

use vstd::prelude::*;

use crate::config::{MAX_FRAMES, PAGE_SIZE, WORDS_PER_PAGE, WORD_SIZE};

verus! {

/// Physical memory: the pool of frames handed out so far, with the contents
/// of each as machine words.
pub struct PhysMemory {
    /// Number of frames handed out so far; the next frame number to allocate.
    pub num_frames: usize,
    /// Contents of all handed-out frames, `WORDS_PER_PAGE` words per frame.
    pub words: Vec<usize>,
}

impl PhysMemory {
    /// The word store covers exactly the handed-out frames, and the frame
    /// count stays below the machine bound.
    pub open spec fn wf(self) -> bool {
        &&& self.words.len() == self.num_frames * WORDS_PER_PAGE
        &&& self.num_frames <= MAX_FRAMES
    }

    /// The machine word stored at physical address `pa`.
    pub open spec fn word_at(self, pa: int) -> usize {
        self.words[pa / (WORD_SIZE as int)]
    }

    /// An empty pool: no frames handed out yet.
    pub fn new() -> (r: PhysMemory)
        ensures
            r.wf(),
            r.num_frames == 0,
    {
        PhysMemory { num_frames: 0, words: Vec::new() }
    }

    /// Hands out the next fresh frame, zero-filled.
    pub fn alloc_frame(&mut self) -> (ppn: usize)
        requires
            old(self).wf(),
            old(self).num_frames < MAX_FRAMES,
        ensures
            final(self).wf(),
            ppn == old(self).num_frames,
            final(self).num_frames == old(self).num_frames + 1,
            final(self).words.len() == old(self).words.len() + WORDS_PER_PAGE,
            forall|k: int|
                0 <= k < old(self).words.len() ==> final(self).words[k] == old(self).words[k],
            forall|k: int|
                old(self).words.len() <= k < final(self).words.len() ==> final(self).words[k]
                    == 0,
    {
        let ppn = self.num_frames;
        self.num_frames = ppn + 1;
        let mut i: usize = 0;
        while i < WORDS_PER_PAGE
            invariant
                i <= WORDS_PER_PAGE,
                self.num_frames == ppn + 1,
                self.words.len() == old(self).words.len() + i,
                forall|k: int|
                    0 <= k < old(self).words.len() ==> self.words[k] == old(self).words[k],
                forall|k: int|
                    old(self).words.len() <= k < self.words.len() ==> self.words[k] == 0,
            decreases WORDS_PER_PAGE - i,
        {
            self.words.push(0);
            i = i + 1;
        }
        ppn
    }

    /// Reads the machine word at a word-aligned physical address inside a
    /// handed-out frame.
    pub fn read_word(&self, pa: usize) -> (r: usize)
        requires
            self.wf(),
            pa % WORD_SIZE == 0,
            pa < self.num_frames * PAGE_SIZE,
        ensures
            r == self.word_at(pa as int),
    {
        proof {
            assert(self.num_frames * PAGE_SIZE == self.num_frames * WORDS_PER_PAGE * WORD_SIZE);
            assert(pa as int / (WORD_SIZE as int) < self.words.len());
        }
        self.words[pa / WORD_SIZE]
    }

    /// Writes the machine word at a word-aligned physical address inside a
    /// handed-out frame; all other words are untouched.
    pub fn write_word(&mut self, pa: usize, val: usize)
        requires
            old(self).wf(),
            pa % WORD_SIZE == 0,
            pa < old(self).num_frames * PAGE_SIZE,
        ensures
            final(self).wf(),
            final(self).num_frames == old(self).num_frames,
            final(self).word_at(pa as int) == val,
            final(self).words.len() == old(self).words.len(),
            forall|q: int|
                0 <= q && q % (WORD_SIZE as int) == 0 && q < old(self).num_frames * PAGE_SIZE && q
                    != pa ==> final(self).word_at(q) == old(self).word_at(q),
    {
        proof {
            assert(old(self).num_frames * PAGE_SIZE == old(self).num_frames * WORDS_PER_PAGE
                * WORD_SIZE);
            assert(pa as int / (WORD_SIZE as int) < self.words.len());
        }
        let idx = pa / WORD_SIZE;
        let slot = &mut self.words[idx];
        *slot = val;
        proof {
            assert forall|q: int|
                0 <= q && q % (WORD_SIZE as int) == 0 && q < old(self).num_frames * PAGE_SIZE && q
                    != pa implies self.word_at(q) == old(self).word_at(q) by {
                assert(q / (WORD_SIZE as int) != pa as int / (WORD_SIZE as int));
            }
        }
    }
}

} // verus!
