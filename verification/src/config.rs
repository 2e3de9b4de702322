//! Global constants of the kernel core.

use vstd::prelude::*;

verus! {

/// Bytes in one page of virtual or physical address space.
pub const PAGE_SIZE: usize = 4096;

/// Bytes in one machine word as stored in physical memory.
pub const WORD_SIZE: usize = 8;

/// Words in one page (`PAGE_SIZE / WORD_SIZE`).
pub const WORDS_PER_PAGE: usize = 512;

/// Number of distinct syscall identifiers for which each task keeps an
/// invocation counter.
pub const MAX_SYSCALL_NUM: usize = 500;

/// Upper bound on the number of physical frames the allocator may hand out.
/// Chosen so that any physical address (frame number times `PAGE_SIZE` plus an
/// in-page offset) fits in `usize` on every supported machine.
pub const MAX_FRAMES: usize = 0x80000;

} // verus!
