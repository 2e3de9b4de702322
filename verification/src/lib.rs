//! Core of a small cooperative multitasking kernel.
//!
//! Each task owns a private address space (a page table mapping virtual page
//! numbers to physical frames), and the task manager drives a non-preemptive
//! round-robin scheduling policy over an ordered list of task control blocks.
//! The syscall layer validates arguments, translates user pointers through the
//! calling task's own page table, and performs mapping, unmapping, time and
//! task-state queries.

pub mod addr;
pub mod config;
pub mod manager;
pub mod memory_set;
pub mod page_table;
pub mod phys;
pub mod process;
pub mod sched;
pub mod task;
