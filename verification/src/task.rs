//! Task control blocks and the task state machine.

use vstd::prelude::*;

use crate::config::MAX_SYSCALL_NUM;
use crate::memory_set::MemorySet;

verus! {

/// Lifecycle state of a task. `UnInit` exists only before the task is
/// constructed at boot; `Exited` is terminal.
#[derive(Clone, Copy, PartialEq, Eq, Structural, Debug)]
pub enum TaskStatus {
    UnInit,
    Ready,
    Running,
    Exited,
}

/// Saved kernel-mode execution state used by the context-switch primitive.
/// The switch primitive itself is an external capability; this core only
/// stores and hands over the saved state.
#[derive(Clone, Copy, PartialEq, Eq, Structural, Debug)]
pub struct TaskContext {
    pub ra: usize,
    pub sp: usize,
}

impl TaskContext {
    /// An all-zero saved context, used before a task has ever been suspended.
    pub fn zero_init() -> (r: TaskContext)
        ensures
            r == (TaskContext { ra: 0, sp: 0 }),
    {
        TaskContext { ra: 0, sp: 0 }
    }
}

/// Saved user-mode register state captured on entry into the kernel.
#[derive(Clone, Copy, PartialEq, Eq, Structural, Debug)]
pub struct TrapContext {
    pub sepc: usize,
    pub sp: usize,
}

impl TrapContext {
    /// An all-zero trap context.
    pub fn zero_init() -> (r: TrapContext)
        ensures
            r == (TrapContext { sepc: 0, sp: 0 }),
    {
        TrapContext { sepc: 0, sp: 0 }
    }
}

/// One task: its status, saved contexts, private address space, per-syscall
/// invocation counters and the timestamp of its first scheduling.
pub struct TaskControlBlock {
    pub task_status: TaskStatus,
    pub task_cx: TaskContext,
    pub trap_cx: TrapContext,
    pub memory_set: MemorySet,
    /// Invocation counters, one per syscall identifier.
    pub syscall_times: Vec<u32>,
    /// Counter sample, in microseconds, taken when the scheduler first
    /// picked the task; `None` before the task ever ran.
    pub start_time: Option<usize>,
}

impl TaskControlBlock {
    /// Structural invariant relative to the frame pool: the address space is
    /// well formed and the counter table has one slot per syscall identifier.
    pub open spec fn wf(self, frames: usize) -> bool {
        &&& self.memory_set.wf(frames)
        &&& self.syscall_times.len() == MAX_SYSCALL_NUM
    }

    /// Builds the task control block of a freshly loaded application: status
    /// `Ready`, an empty address space identified by `token`, zeroed contexts
    /// and counters, never scheduled.
    pub fn new(token: usize) -> (r: TaskControlBlock)
        ensures
            r.wf(0),
            r.task_status is Ready,
            r.task_cx == TaskContext::spec_zero(),
            r.trap_cx == TrapContext::spec_zero(),
            forall|v: usize| !(#[trigger] r.memory_set.mapped(v)),
            r.memory_set.token == token,
            r.syscall_times.len() == MAX_SYSCALL_NUM,
            forall|i: int| 0 <= i < MAX_SYSCALL_NUM ==> r.syscall_times[i] == 0,
            r.start_time is None,
    {
        let mut syscall_times: Vec<u32> = Vec::new();
        let mut i: usize = 0;
        while i < MAX_SYSCALL_NUM
            invariant
                i <= MAX_SYSCALL_NUM,
                syscall_times.len() == i,
                forall|j: int| 0 <= j < i ==> syscall_times[j] == 0,
            decreases MAX_SYSCALL_NUM - i,
        {
            syscall_times.push(0);
            i = i + 1;
        }
        TaskControlBlock {
            task_status: TaskStatus::Ready,
            task_cx: TaskContext::zero_init(),
            trap_cx: TrapContext::zero_init(),
            memory_set: MemorySet::new(token),
            syscall_times,
            start_time: None,
        }
    }

    /// The opaque page-table handle the hardware needs for the task.
    pub fn get_user_token(&self) -> (r: usize)
        ensures
            r == self.memory_set.token,
    {
        self.memory_set.token
    }
}

impl TaskContext {
    /// The all-zero saved context.
    pub open spec fn spec_zero() -> TaskContext {
        TaskContext { ra: 0, sp: 0 }
    }
}

impl TrapContext {
    /// The all-zero trap context.
    pub open spec fn spec_zero() -> TrapContext {
        TrapContext { sepc: 0, sp: 0 }
    }
}

/// A counter table with one counter incremented.
pub open spec fn bump(s: Seq<u32>, id: int) -> Seq<u32> {
    s.update(id, (s[id] + 1) as u32)
}

/// A counter table after `k` increments of the same counter.
pub open spec fn bumps(s: Seq<u32>, id: int, k: nat) -> Seq<u32>
    decreases k,
{
    if k == 0 {
        s
    } else {
        bump(bumps(s, id, (k - 1) as nat), id)
    }
}

/// Incrementing one syscall counter `k` times adds exactly `k` to that
/// counter and leaves every other counter untouched.
pub proof fn lemma_counter_after_k(s: Seq<u32>, id: int, k: nat)
    requires
        0 <= id < s.len(),
        s[id] + k <= u32::MAX,
    ensures
        bumps(s, id, k).len() == s.len(),
        bumps(s, id, k)[id] == s[id] + k,
        forall|j: int| 0 <= j < s.len() && j != id ==> bumps(s, id, k)[j] == s[j],
    decreases k,
{
    if k > 0 {
        lemma_counter_after_k(s, id, (k - 1) as nat);
    }
}

/// What a task-state query reports about syscall counters: starting from the
/// all-zero table a freshly built task carries, after `k` recorded
/// invocations of syscall `id` the table reads exactly `k` for `id` and `0`
/// for every syscall never invoked.
pub proof fn lemma_task_info_counts(s: Seq<u32>, id: int, k: nat)
    requires
        forall|j: int| 0 <= j < s.len() ==> s[j] == 0,
        0 <= id < s.len(),
        k <= u32::MAX,
    ensures
        bumps(s, id, k)[id] == k,
        forall|j: int| 0 <= j < s.len() && j != id ==> bumps(s, id, k)[j] == 0,
{
    lemma_counter_after_k(s, id, k);
    assert forall|j: int| 0 <= j < s.len() && j != id implies bumps(s, id, k)[j] == 0 by {
        assert(bumps(s, id, k)[j] == s[j]);
        assert(s[j] == 0);
    }
}

} // verus!
