//! The task manager: the ordered task list, the current-task index and the
//! round-robin scheduler, plus the accessors scoped to the currently running
//! task.
//!
//! The surrounding system holds exactly one authoritative `TaskManager`,
//! constructed once at startup and threaded through every syscall handler;
//! Rust's exclusive references play the role of the single-owner guard around
//! the inner state (there is a single logical thread of control, so exclusive
//! access is enforced statically rather than checked at run time). The
//! context-switch primitive itself is an external capability: the scheduler
//! here performs every state transition and returns the index of the task to
//! switch to, and the caller transfers control.

use vstd::prelude::*;

use crate::addr::{page_floor, spec_page_ceil, spec_page_floor, spec_page_offset};
use crate::config::{MAX_FRAMES, MAX_SYSCALL_NUM, PAGE_SIZE, WORD_SIZE};
use crate::memory_set::MemorySet;
use crate::page_table::{MapPermission, PageTableEntry};
use crate::phys::PhysMemory;
use crate::sched::{next_task, scan_ready};
use crate::task::{TaskControlBlock, TaskStatus, TrapContext};

verus! {

/// The task manager's guarded inner state: the task list (index-stable, in
/// boot load order), the index of the current task, and the physical frame
/// pool shared by all address spaces.
pub struct TaskManagerInner {
    pub tasks: Vec<TaskControlBlock>,
    pub current_task: usize,
    pub phys: PhysMemory,
}

/// The task manager.
pub struct TaskManager {
    /// Total number of tasks, fixed at boot.
    pub num_app: usize,
    pub inner: TaskManagerInner,
}

/// The task control block as it looks right after the scheduler picks it:
/// `Running`, with its first-scheduled timestamp captured exactly once.
pub open spec fn scheduled_tcb(t: TaskControlBlock, now_us: usize) -> TaskControlBlock {
    TaskControlBlock {
        task_status: TaskStatus::Running,
        start_time: if t.start_time is None {
            Some(now_us)
        } else {
            t.start_time
        },
        ..t
    }
}

/// The task control block with only its status replaced.
pub open spec fn tcb_with_status(t: TaskControlBlock, st: TaskStatus) -> TaskControlBlock {
    TaskControlBlock { task_status: st, ..t }
}

/// Two task control blocks agree on everything except, possibly, the address
/// space.
pub open spec fn same_but_memory(a: TaskControlBlock, b: TaskControlBlock) -> bool {
    &&& a.task_status == b.task_status
    &&& a.task_cx == b.task_cx
    &&& a.trap_cx == b.trap_cx
    &&& a.syscall_times == b.syscall_times
    &&& a.start_time == b.start_time
}

/// Exclusive access to one task control block in the list.
fn tcb_mut(tasks: &mut Vec<TaskControlBlock>, i: usize) -> (t: &mut TaskControlBlock)
    requires
        i < old(tasks).len(),
    ensures
        *t == old(tasks)[i as int],
        final(tasks)@ == old(tasks)@.update(i as int, *final(t)),
{
    &mut tasks[i]
}

/// Exclusive access to one task's address space together with the shared
/// frame pool (two disjoint parts of the inner state).
fn mem_phys_mut(inner: &mut TaskManagerInner, i: usize) -> (r: (&mut MemorySet, &mut PhysMemory))
    requires
        i < old(inner).tasks.len(),
    ensures
        *r.0 == old(inner).tasks[i as int].memory_set,
        *r.1 == old(inner).phys,
        final(inner).tasks@ == old(inner).tasks@.update(
            i as int,
            (TaskControlBlock { memory_set: *final(r.0), ..old(inner).tasks[i as int] }),
        ),
        final(inner).phys == *final(r.1),
        final(inner).current_task == old(inner).current_task,
{
    (&mut inner.tasks[i].memory_set, &mut inner.phys)
}

impl TaskManager {
    /// Index of the current task.
    pub open spec fn cur(self) -> int {
        self.inner.current_task as int
    }

    /// The current task's control block.
    pub open spec fn cur_task(self) -> TaskControlBlock {
        self.inner.tasks[self.cur()]
    }

    /// The current task's address space.
    pub open spec fn cur_mem(self) -> MemorySet {
        self.cur_task().memory_set
    }

    /// The status of every task, in task order.
    pub open spec fn statuses(self) -> Seq<TaskStatus> {
        Seq::new(self.inner.tasks@.len(), |i: int| self.inner.tasks[i].task_status)
    }

    /// No two tasks' address spaces share a physical frame.
    pub open spec fn frames_disjoint(self) -> bool {
        forall|i: int, j: int, v1: usize, v2: usize|
            0 <= i < self.inner.tasks.len() && 0 <= j < self.inner.tasks.len() && i != j
                && #[trigger] self.inner.tasks[i].memory_set.mapped(v1)
                && #[trigger] self.inner.tasks[j].memory_set.mapped(v2)
                ==> self.inner.tasks[i].memory_set.pte_at(v1).ppn
                != self.inner.tasks[j].memory_set.pte_at(v2).ppn
    }

    /// Structural invariant: the task list has one slot per application, the
    /// current index is in range, every task is well formed against the frame
    /// pool, at most one task is `Running` and it is the current one, and no
    /// frame backs two mappings.
    pub open spec fn wf(self) -> bool {
        &&& self.inner.tasks.len() == self.num_app
        &&& 1 <= self.num_app < usize::MAX
        &&& self.inner.current_task < self.num_app
        &&& self.inner.phys.wf()
        &&& forall|i: int|
            0 <= i < self.num_app ==> (#[trigger] self.inner.tasks[i]).wf(
                self.inner.phys.num_frames,
            )
        &&& forall|i: int|
            0 <= i < self.num_app && (#[trigger] self.inner.tasks[i]).task_status is Running
                ==> i == self.cur()
        &&& self.frames_disjoint()
    }

    /// Builds the manager for `num_app` statically loaded applications: one
    /// `Ready` task per application, current index 0, empty frame pool.
    pub fn new(num_app: usize) -> (r: TaskManager)
        requires
            1 <= num_app < usize::MAX,
        ensures
            r.wf(),
            r.num_app == num_app,
            r.inner.current_task == 0,
            r.inner.phys.num_frames == 0,
            forall|i: int|
                0 <= i < num_app ==> (#[trigger] r.inner.tasks[i]).task_status is Ready
                    && r.inner.tasks[i].start_time is None && r.inner.tasks[i].memory_set.token
                    == i,
            forall|i: int, v: usize|
                0 <= i < num_app ==> !(#[trigger] r.inner.tasks[i].memory_set.mapped(v)),
            forall|i: int, s: int|
                0 <= i < num_app && 0 <= s < MAX_SYSCALL_NUM ==> r.inner.tasks[i].syscall_times[s]
                    == 0,
    {
        let mut tasks: Vec<TaskControlBlock> = Vec::new();
        let mut i: usize = 0;
        while i < num_app
            invariant
                i <= num_app,
                tasks.len() == i,
                forall|j: int|
                    0 <= j < i ==> (#[trigger] tasks[j]).task_status is Ready && tasks[j].wf(0)
                        && tasks[j].start_time is None && tasks[j].memory_set.token == j,
                forall|j: int, v: usize|
                    0 <= j < i ==> !(#[trigger] tasks[j].memory_set.mapped(v)),
                forall|j: int, s: int|
                    0 <= j < i && 0 <= s < MAX_SYSCALL_NUM ==> tasks[j].syscall_times[s] == 0,
            decreases num_app - i,
        {
            tasks.push(TaskControlBlock::new(i));
            i = i + 1;
        }
        let r = TaskManager {
            num_app,
            inner: TaskManagerInner { tasks, current_task: 0, phys: PhysMemory::new() },
        };
        proof {
            assert forall|i2: int| 0 <= i2 < num_app implies (#[trigger] r.inner.tasks[i2]).wf(
                r.inner.phys.num_frames,
            ) by {
                assert(r.inner.tasks[i2].wf(0));
            }
        }
        r
    }

    /// Changes the status of the current `Running` task to `Ready`.
    pub fn mark_current_suspended(&mut self)
        requires
            old(self).wf(),
        ensures
            final(self).wf(),
            final(self).num_app == old(self).num_app,
            final(self).inner.current_task == old(self).inner.current_task,
            final(self).inner.phys == old(self).inner.phys,
            final(self).inner.tasks@ == old(self).inner.tasks@.update(
                old(self).cur(),
                tcb_with_status(old(self).cur_task(), TaskStatus::Ready),
            ),
    {
        let current = self.inner.current_task;
        let t = tcb_mut(&mut self.inner.tasks, current);
        t.task_status = TaskStatus::Ready;
    }

    /// Changes the status of the current `Running` task to `Exited`.
    pub fn mark_current_exited(&mut self)
        requires
            old(self).wf(),
        ensures
            final(self).wf(),
            final(self).num_app == old(self).num_app,
            final(self).inner.current_task == old(self).inner.current_task,
            final(self).inner.phys == old(self).inner.phys,
            final(self).inner.tasks@ == old(self).inner.tasks@.update(
                old(self).cur(),
                tcb_with_status(old(self).cur_task(), TaskStatus::Exited),
            ),
    {
        let current = self.inner.current_task;
        let t = tcb_mut(&mut self.inner.tasks, current);
        t.task_status = TaskStatus::Exited;
    }

    /// Finds the next task to run: the first `Ready` task scanning from the
    /// slot after the current one, wrapping through all slots. Implements
    /// exactly the round-robin choice [`next_task`].
    pub fn find_next_task(&self) -> (r: Option<usize>)
        requires
            self.wf(),
        ensures
            r is None <==> next_task(self.statuses(), self.cur()) is None,
            r matches Some(id) ==> next_task(self.statuses(), self.cur()) == Some(id as int) && id
                < self.num_app,
    {
        let n = self.num_app;
        let cur = self.inner.current_task;
        let ghost st = self.statuses();
        let mut off: usize = 1;
        let mut id: usize = if cur + 1 == n {
            0
        } else {
            cur + 1
        };
        proof {
            crate::sched::lemma_mod_step(cur as int, n as int);
            vstd::arithmetic::div_mod::lemma_small_mod(cur as nat, n as nat);
        }
        while off <= n
            invariant
                self.wf(),
                n == self.num_app,
                cur == self.inner.current_task,
                st == self.statuses(),
                1 <= off <= n + 1,
                off <= n ==> id == (cur + off) % (n as int) && id < n,
                scan_ready(st, cur as int, 1) == scan_ready(st, cur as int, off as int),
            decreases n + 1 - off,
        {
            if self.inner.tasks[id].task_status == TaskStatus::Ready {
                proof {
                    assert(st[id as int] is Ready);
                    assert(scan_ready(st, cur as int, off as int) == Some(id as int));
                }
                return Some(id);
            }
            proof {
                assert(scan_ready(st, cur as int, off as int) == scan_ready(
                    st,
                    cur as int,
                    off as int + 1,
                ));
            }
            proof {
                crate::sched::lemma_mod_step(cur as int + off as int, n as int);
            }
            off = off + 1;
            id = if id + 1 == n {
                0
            } else {
                id + 1
            };
        }
        proof {
            assert(scan_ready(st, cur as int, n as int + 1) is None);
        }
        None
    }

    /// Hands the processor to the next `Ready` task: marks it `Running`,
    /// captures its first-scheduled timestamp if this is its first run,
    /// updates the current index and returns its index so the caller can
    /// invoke the switch primitive. Returns `None`, changing nothing, when no
    /// task is `Ready` (all work is done; the caller halts the system).
    pub fn run_next_task(&mut self, now_us: usize) -> (r: Option<usize>)
        requires
            old(self).wf(),
            !(old(self).cur_task().task_status is Running),
        ensures
            final(self).wf(),
            final(self).num_app == old(self).num_app,
            r is None <==> next_task(old(self).statuses(), old(self).cur()) is None,
            r is None ==> *final(self) == *old(self),
            r matches Some(id) ==> next_task(old(self).statuses(), old(self).cur()) == Some(
                id as int,
            ) && final(self).inner.current_task == id && final(self).inner.phys == old(self).inner.phys && final(self).inner.tasks@ == old(self).inner.tasks@.update(
                id as int,
                scheduled_tcb(old(self).inner.tasks[id as int], now_us),
            ),
    {
        match self.find_next_task() {
            Some(next) => {
                let t = tcb_mut(&mut self.inner.tasks, next);
                t.task_status = TaskStatus::Running;
                match t.start_time {
                    None => {
                        t.start_time = Some(now_us);
                    },
                    _ => {},
                }
                self.inner.current_task = next;
                proof {
                    let prev = *old(self);
                    assert(self.inner.tasks[next as int] == scheduled_tcb(
                        prev.inner.tasks[next as int],
                        now_us,
                    ));
                    assert forall|i: int| 0 <= i < self.num_app implies (
                    #[trigger] self.inner.tasks[i]).wf(self.inner.phys.num_frames) by {
                        assert(prev.inner.tasks[i].wf(prev.inner.phys.num_frames));
                    }
                    assert forall|i: int|
                        0 <= i < self.num_app && (#[trigger] self.inner.tasks[i]).task_status
                            is Running implies i == self.cur() by {
                        if i != next {
                            assert(prev.inner.tasks[i].task_status is Running);
                        }
                    }
                    assert forall|i: int, j: int, v1: usize, v2: usize|
                        0 <= i < self.inner.tasks.len() && 0 <= j < self.inner.tasks.len() && i != j
                            && #[trigger] self.inner.tasks[i].memory_set.mapped(v1)
                            && #[trigger] self.inner.tasks[j].memory_set.mapped(v2) implies
                    self.inner.tasks[i].memory_set.pte_at(v1).ppn
                        != self.inner.tasks[j].memory_set.pte_at(v2).ppn by {
                        assert(self.inner.tasks[i].memory_set == prev.inner.tasks[i].memory_set);
                        assert(self.inner.tasks[j].memory_set == prev.inner.tasks[j].memory_set);
                        assert(prev.inner.tasks[i].memory_set.mapped(v1));
                        assert(prev.inner.tasks[j].memory_set.mapped(v2));
                    }
                }
                Some(next)
            },
            None => None,
        }
    }

    /// Schedules the very first task at boot: task 0 becomes `Running` with
    /// its first-scheduled timestamp captured. Used exactly once, before any
    /// task has run.
    pub fn run_first_task(&mut self, now_us: usize)
        requires
            old(self).wf(),
            old(self).inner.current_task == 0,
            forall|i: int|
                0 <= i < old(self).num_app ==> !((#[trigger] old(self).inner.tasks[i]).task_status
                    is Running),
            old(self).inner.tasks[0].task_status is Ready,
        ensures
            final(self).wf(),
            final(self).num_app == old(self).num_app,
            final(self).inner.current_task == 0,
            final(self).inner.phys == old(self).inner.phys,
            final(self).inner.tasks@ == old(self).inner.tasks@.update(
                0,
                scheduled_tcb(old(self).inner.tasks[0], now_us),
            ),
    {
        let t = tcb_mut(&mut self.inner.tasks, 0);
        t.task_status = TaskStatus::Running;
        match t.start_time {
            None => {
                t.start_time = Some(now_us);
            },
            _ => {},
        }
        proof {
            let prev = *old(self);
            assert(self.inner.tasks[0] == scheduled_tcb(prev.inner.tasks[0], now_us));
            assert forall|i: int| 0 <= i < self.num_app implies (#[trigger] self.inner.tasks[i]).wf(
                self.inner.phys.num_frames,
            ) by {
                assert(prev.inner.tasks[i].wf(prev.inner.phys.num_frames));
            }
            assert forall|i: int, j: int, v1: usize, v2: usize|
                0 <= i < self.inner.tasks.len() && 0 <= j < self.inner.tasks.len() && i != j
                    && #[trigger] self.inner.tasks[i].memory_set.mapped(v1)
                    && #[trigger] self.inner.tasks[j].memory_set.mapped(v2) implies
            self.inner.tasks[i].memory_set.pte_at(v1).ppn
                != self.inner.tasks[j].memory_set.pte_at(v2).ppn by {
                assert(self.inner.tasks[i].memory_set == prev.inner.tasks[i].memory_set);
                assert(self.inner.tasks[j].memory_set == prev.inner.tasks[j].memory_set);
                assert(prev.inner.tasks[i].memory_set.mapped(v1));
                assert(prev.inner.tasks[j].memory_set.mapped(v2));
            }
        }
    }

    /// The current task's address-space token (the opaque handle the hardware
    /// needs to install its page table).
    pub fn get_current_token(&self) -> (r: usize)
        requires
            self.wf(),
        ensures
            r == self.cur_mem().token,
    {
        self.inner.tasks[self.inner.current_task].get_user_token()
    }

    /// A snapshot of the current task's trap context.
    pub fn get_current_trap_cx(&self) -> (r: TrapContext)
        requires
            self.wf(),
        ensures
            r == self.cur_task().trap_cx,
    {
        self.inner.tasks[self.inner.current_task].trap_cx
    }

    /// Looks up a mapping in the current task's address space.
    pub fn find_pte(&self, vpn: usize) -> (r: Option<PageTableEntry>)
        requires
            self.wf(),
        ensures
            r is Some <==> self.cur_mem().mapped(vpn),
            r matches Some(pte) ==> pte == self.cur_mem().pte_at(vpn),
    {
        self.inner.tasks[self.inner.current_task].memory_set.find_pte(vpn)
    }

    /// Maps every page of `[floor(start_va), ceil(end_va))` in the current
    /// task's address space, each page backed by a fresh zeroed frame with
    /// the given permission. The caller must have checked that no page of the
    /// range is mapped yet.
    pub fn insert_framed_area(&mut self, start_va: usize, end_va: usize, perm: MapPermission)
        requires
            old(self).wf(),
            start_va <= end_va,
            forall|v: usize|
                spec_page_floor(start_va as int) <= v < spec_page_ceil(end_va as int) ==> !(
                #[trigger] old(self).cur_mem().mapped(v)),
            old(self).inner.phys.num_frames + (spec_page_ceil(end_va as int) - spec_page_floor(
                start_va as int,
            )) <= MAX_FRAMES,
        ensures
            final(self).wf(),
            final(self).num_app == old(self).num_app,
            final(self).inner.current_task == old(self).inner.current_task,
            forall|i: int|
                0 <= i < old(self).num_app && i != old(self).cur() ==> final(self).inner.tasks[i]
                    == old(self).inner.tasks[i],
            same_but_memory(final(self).cur_task(), old(self).cur_task()),
            final(self).cur_mem().token == old(self).cur_mem().token,
            final(self).inner.phys.num_frames == old(self).inner.phys.num_frames + (spec_page_ceil(
                end_va as int,
            ) - spec_page_floor(start_va as int)),
            forall|v: usize|
                spec_page_floor(start_va as int) <= v < spec_page_ceil(end_va as int)
                    ==> #[trigger] final(self).cur_mem().mapped(v) && final(self).cur_mem().pte_at(
                    v,
                ).perm == perm && final(self).cur_mem().pte_at(v).ppn >= old(self).inner.phys.num_frames,
            forall|v: usize|
                !(spec_page_floor(start_va as int) <= v < spec_page_ceil(end_va as int)) ==> (
                #[trigger] final(self).cur_mem().mapped(v) <==> old(self).cur_mem().mapped(v)) && (
                old(self).cur_mem().mapped(v) ==> final(self).cur_mem().pte_at(v) == old(self).cur_mem().pte_at(v)),
            forall|k: int|
                0 <= k < old(self).inner.phys.words.len() ==> final(self).inner.phys.words[k]
                    == old(self).inner.phys.words[k],
    {
        let current = self.inner.current_task;
        let l = page_floor(start_va);
        let r = crate::addr::page_ceil(end_va);
        proof {
            vstd::arithmetic::div_mod::lemma_div_is_ordered(
                start_va as int,
                end_va as int + PAGE_SIZE - 1,
                PAGE_SIZE as int,
            );
        }
        let ghost prev = *self;
        let (ms, ph) = mem_phys_mut(&mut self.inner, current);
        proof {
            assert forall|v: usize| l <= v < r implies !(#[trigger] ms.mapped(v)) by {
                assert(!prev.cur_mem().mapped(v));
            }
        }
        ms.insert_framed_area(ph, l, r, perm);
        proof {
            let cur = prev.cur();
            let oldframes = prev.inner.phys.num_frames;
            assert forall|v: usize| l <= v < r implies #[trigger] self.cur_mem().mapped(v)
                && self.cur_mem().pte_at(v).perm == perm && self.cur_mem().pte_at(v).ppn
                >= oldframes by {
                assert(self.cur_mem().mapped(v));
                assert(self.cur_mem().pte_at(v) == (PageTableEntry {
                    ppn: (oldframes + (v - l)) as usize,
                    perm,
                }));
                assert(oldframes + (v - l) <= MAX_FRAMES);
            }
            assert forall|i: int| 0 <= i < self.num_app implies (#[trigger] self.inner.tasks[i]).wf(
                self.inner.phys.num_frames,
            ) by {
                if i != cur {
                    assert(prev.inner.tasks[i].wf(oldframes));
                    assert forall|v: usize| #[trigger] self.inner.tasks[i].memory_set.mapped(
                        v,
                    ) implies self.inner.tasks[i].memory_set.pte_at(v).ppn
                        < self.inner.phys.num_frames by {
                        assert(prev.inner.tasks[i].memory_set.mapped(v));
                    }
                }
            }
            assert forall|i: int, j: int, v1: usize, v2: usize|
                0 <= i < self.inner.tasks.len() && 0 <= j < self.inner.tasks.len() && i != j
                    && #[trigger] self.inner.tasks[i].memory_set.mapped(v1)
                    && #[trigger] self.inner.tasks[j].memory_set.mapped(v2) implies
            self.inner.tasks[i].memory_set.pte_at(v1).ppn != self.inner.tasks[j].memory_set.pte_at(
                v2,
            ).ppn by {
                if i == cur {
                    assert(prev.inner.tasks[j].memory_set.mapped(v2));
                    assert(prev.inner.tasks[j].memory_set.pte_at(v2).ppn < oldframes);
                    if l <= v1 < r {
                    } else {
                        assert(prev.inner.tasks[i].memory_set.mapped(v1));
                    }
                } else if j == cur {
                    assert(prev.inner.tasks[i].memory_set.mapped(v1));
                    assert(prev.inner.tasks[i].memory_set.pte_at(v1).ppn < oldframes);
                    if l <= v2 < r {
                    } else {
                        assert(prev.inner.tasks[j].memory_set.mapped(v2));
                    }
                } else {
                    assert(prev.inner.tasks[i].memory_set.mapped(v1));
                    assert(prev.inner.tasks[j].memory_set.mapped(v2));
                }
            }
        }
    }

    /// Invalidates the mapping of every page of `[start_vpn, end_vpn)` in the
    /// current task's address space. The caller must have checked that every
    /// page of the range is mapped.
    pub fn unmap(&mut self, start_vpn: usize, end_vpn: usize)
        requires
            old(self).wf(),
            start_vpn <= end_vpn,
            forall|v: usize|
                start_vpn <= v < end_vpn ==> #[trigger] old(self).cur_mem().mapped(v),
        ensures
            final(self).wf(),
            final(self).num_app == old(self).num_app,
            final(self).inner.current_task == old(self).inner.current_task,
            final(self).inner.phys == old(self).inner.phys,
            forall|i: int|
                0 <= i < old(self).num_app && i != old(self).cur() ==> final(self).inner.tasks[i]
                    == old(self).inner.tasks[i],
            same_but_memory(final(self).cur_task(), old(self).cur_task()),
            final(self).cur_mem().token == old(self).cur_mem().token,
            forall|v: usize|
                start_vpn <= v < end_vpn ==> !(#[trigger] final(self).cur_mem().mapped(v)),
            forall|v: usize|
                !(start_vpn <= v < end_vpn) ==> (#[trigger] final(self).cur_mem().mapped(v) <==> old(self).cur_mem().mapped(v)) && (old(self).cur_mem().mapped(v) ==> final(self).cur_mem().pte_at(v) == old(self).cur_mem().pte_at(v)),
    {
        let current = self.inner.current_task;
        let ghost prev = *self;
        let (ms, _ph) = mem_phys_mut(&mut self.inner, current);
        proof {
            assert forall|v: usize| start_vpn <= v < end_vpn implies #[trigger] ms.mapped(v) by {
                assert(prev.cur_mem().mapped(v));
            }
        }
        ms.unmap(start_vpn, end_vpn);
        proof {
            let cur = prev.cur();
            assert forall|i: int| 0 <= i < self.num_app implies (#[trigger] self.inner.tasks[i]).wf(
                self.inner.phys.num_frames,
            ) by {
                assert(prev.inner.tasks[i].wf(prev.inner.phys.num_frames));
                if i == cur {
                    assert(prev.inner.tasks[i].memory_set.wf(prev.inner.phys.num_frames));
                    assert(self.inner.tasks[i].memory_set.wf(prev.inner.phys.num_frames));
                }
            }
            assert forall|i: int, j: int, v1: usize, v2: usize|
                0 <= i < self.inner.tasks.len() && 0 <= j < self.inner.tasks.len() && i != j
                    && #[trigger] self.inner.tasks[i].memory_set.mapped(v1)
                    && #[trigger] self.inner.tasks[j].memory_set.mapped(v2) implies
            self.inner.tasks[i].memory_set.pte_at(v1).ppn != self.inner.tasks[j].memory_set.pte_at(
                v2,
            ).ppn by {
                assert(prev.inner.tasks[i].memory_set.mapped(v1));
                assert(prev.inner.tasks[j].memory_set.mapped(v2));
            }
        }
    }

    /// Adds one to the current task's invocation counter for `syscall_id`.
    pub fn update_syscall_time(&mut self, syscall_id: usize)
        requires
            old(self).wf(),
            syscall_id < MAX_SYSCALL_NUM,
            old(self).cur_task().syscall_times[syscall_id as int] < u32::MAX,
        ensures
            final(self).wf(),
            final(self).num_app == old(self).num_app,
            final(self).inner.current_task == old(self).inner.current_task,
            final(self).inner.phys == old(self).inner.phys,
            forall|i: int|
                0 <= i < old(self).num_app && i != old(self).cur() ==> final(self).inner.tasks[i]
                    == old(self).inner.tasks[i],
            final(self).cur_task().task_status == old(self).cur_task().task_status,
            final(self).cur_task().task_cx == old(self).cur_task().task_cx,
            final(self).cur_task().trap_cx == old(self).cur_task().trap_cx,
            final(self).cur_task().memory_set == old(self).cur_task().memory_set,
            final(self).cur_task().start_time == old(self).cur_task().start_time,
            final(self).cur_task().syscall_times@ == crate::task::bump(
                old(self).cur_task().syscall_times@,
                syscall_id as int,
            ),
    {
        let current = self.inner.current_task;
        let t = tcb_mut(&mut self.inner.tasks, current);
        let c = t.syscall_times[syscall_id];
        let slot = &mut t.syscall_times[syscall_id];
        *slot = c + 1;
    }

    /// Translates a pointer supplied by the current task through its own
    /// page table. The caller must only pass pointers into the task's own
    /// previously mapped memory.
    pub fn get_pa(&self, ptr: usize) -> (r: usize)
        requires
            self.wf(),
            self.cur_mem().mapped(spec_page_floor(ptr as int) as usize),
        ensures
            r == self.cur_mem().spec_translate(ptr),
    {
        let current = self.inner.current_task;
        let ms = &self.inner.tasks[current].memory_set;
        proof {
            assert forall|v: usize| #[trigger] ms.mapped(v) implies ms.pte_at(v).ppn
                < MAX_FRAMES by {
                assert(self.inner.tasks[current as int].wf(self.inner.phys.num_frames));
            }
        }
        let pa = ms.translate(ptr);
        pa.unwrap()
    }

    /// Distinct word-aligned virtual addresses of one task never translate
    /// to the same physical address: within a page the offsets differ, and
    /// across pages the backing frames differ.
    pub proof fn lemma_translate_distinct(self, va1: usize, va2: usize)
        requires
            self.wf(),
            va1 % WORD_SIZE == 0,
            va2 % WORD_SIZE == 0,
            va1 != va2,
            self.cur_mem().mapped(spec_page_floor(va1 as int) as usize),
            self.cur_mem().mapped(spec_page_floor(va2 as int) as usize),
        ensures
            self.cur_mem().spec_translate(va1) != self.cur_mem().spec_translate(va2),
    {
        let ms = self.cur_mem();
        let f1 = spec_page_floor(va1 as int) as usize;
        let f2 = spec_page_floor(va2 as int) as usize;
        let o1 = spec_page_offset(va1 as int);
        let o2 = spec_page_offset(va2 as int);
        vstd::arithmetic::div_mod::lemma_fundamental_div_mod(va1 as int, PAGE_SIZE as int);
        vstd::arithmetic::div_mod::lemma_fundamental_div_mod(va2 as int, PAGE_SIZE as int);
        assert(self.inner.tasks[self.cur()].wf(self.inner.phys.num_frames));
        if f1 == f2 {
            assert(o1 != o2);
        } else {
            assert(ms.pte_at(f1).ppn != ms.pte_at(f2).ppn);
            assert(ms.pte_at(f1).ppn * PAGE_SIZE + o1 != ms.pte_at(f2).ppn * PAGE_SIZE + o2)
                by (nonlinear_arith)
                requires
                    ms.pte_at(f1).ppn != ms.pte_at(f2).ppn,
                    0 <= o1 < PAGE_SIZE,
                    0 <= o2 < PAGE_SIZE,
                    ms.pte_at(f1).ppn >= 0,
                    ms.pte_at(f2).ppn >= 0,
            ;
        }
    }

    /// Reads the machine word at a word-aligned virtual address of the
    /// current task, through its page table.
    pub fn read_user_word(&self, va: usize) -> (r: usize)
        requires
            self.wf(),
            va % WORD_SIZE == 0,
            self.cur_mem().mapped(spec_page_floor(va as int) as usize),
        ensures
            r == self.inner.phys.word_at(self.cur_mem().spec_translate(va)),
    {
        let pa = self.get_pa(va);
        proof {
            self.lemma_pa_word_bounds(va);
        }
        self.inner.phys.read_word(pa)
    }

    /// The physical address of a mapped, word-aligned virtual address is
    /// itself word-aligned and inside the handed-out frames.
    pub proof fn lemma_pa_word_bounds(self, va: usize)
        requires
            self.wf(),
            va % WORD_SIZE == 0,
            self.cur_mem().mapped(spec_page_floor(va as int) as usize),
        ensures
            self.cur_mem().spec_translate(va) % (WORD_SIZE as int) == 0,
            0 <= self.cur_mem().spec_translate(va) < self.inner.phys.num_frames * PAGE_SIZE,
    {
        let ms = self.cur_mem();
        let f = spec_page_floor(va as int) as usize;
        let ppn = ms.pte_at(f).ppn;
        let off = spec_page_offset(va as int);
        assert(self.inner.tasks[self.cur()].wf(self.inner.phys.num_frames));
        assert(ppn < self.inner.phys.num_frames);
        vstd::arithmetic::div_mod::lemma_mod_mod(va as int, WORD_SIZE as int, 512);
        assert(off % (WORD_SIZE as int) == va as int % (WORD_SIZE as int));
        assert(ppn * PAGE_SIZE % (WORD_SIZE as int) == 0) by (nonlinear_arith)
            requires
                ppn >= 0,
        ;
        vstd::arithmetic::div_mod::lemma_add_mod_noop(
            ppn * PAGE_SIZE,
            off,
            WORD_SIZE as int,
        );
        assert((ppn + 1) * PAGE_SIZE <= self.inner.phys.num_frames * PAGE_SIZE)
            by (nonlinear_arith)
            requires
                ppn < self.inner.phys.num_frames,
        ;
        assert(ppn * PAGE_SIZE + off < (ppn + 1) * PAGE_SIZE) by (nonlinear_arith)
            requires
                0 <= off < PAGE_SIZE,
        ;
    }

    /// Writes the machine word at a word-aligned virtual address of the
    /// current task, through its page table; every other word of physical
    /// memory, and all task state, is untouched.
    pub fn write_user_word(&mut self, va: usize, val: usize)
        requires
            old(self).wf(),
            va % WORD_SIZE == 0,
            old(self).cur_mem().mapped(spec_page_floor(va as int) as usize),
        ensures
            final(self).wf(),
            final(self).num_app == old(self).num_app,
            final(self).inner.tasks == old(self).inner.tasks,
            final(self).inner.current_task == old(self).inner.current_task,
            final(self).inner.phys.num_frames == old(self).inner.phys.num_frames,
            final(self).inner.phys.word_at(old(self).cur_mem().spec_translate(va)) == val,
            forall|q: int|
                0 <= q && q % (WORD_SIZE as int) == 0 && q < old(self).inner.phys.num_frames
                    * PAGE_SIZE && q != old(self).cur_mem().spec_translate(va) ==> final(self).inner.phys.word_at(q) == old(self).inner.phys.word_at(q),
    {
        let ghost prev = *self;
        let pa = self.get_pa(va);
        proof {
            self.lemma_pa_word_bounds(va);
        }
        self.inner.phys.write_word(pa, val);
        proof {
            assert forall|i: int| 0 <= i < self.num_app implies (#[trigger] self.inner.tasks[i]).wf(
                self.inner.phys.num_frames,
            ) by {
                assert(prev.inner.tasks[i].wf(prev.inner.phys.num_frames));
            }
        }
    }
}

/// The task list after a yield: the old current task set back to `Ready`,
/// then the chosen task scheduled `Running`.
pub open spec fn yield_tasks(
    tasks: Seq<TaskControlBlock>,
    cur: int,
    nxt: int,
    now_us: usize,
) -> Seq<TaskControlBlock> {
    let t1 = tasks.update(cur, tcb_with_status(tasks[cur], TaskStatus::Ready));
    t1.update(nxt, scheduled_tcb(t1[nxt], now_us))
}

/// The task list after an exit followed by a reschedule.
pub open spec fn exit_tasks(
    tasks: Seq<TaskControlBlock>,
    cur: int,
    nxt: int,
    now_us: usize,
) -> Seq<TaskControlBlock> {
    let t1 = tasks.update(cur, tcb_with_status(tasks[cur], TaskStatus::Exited));
    t1.update(nxt, scheduled_tcb(t1[nxt], now_us))
}

/// Runs the first task at boot (see [`TaskManager::run_first_task`]).
pub fn run_first_task(tm: &mut TaskManager, now_us: usize)
    requires
        old(tm).wf(),
        old(tm).inner.current_task == 0,
        forall|i: int|
            0 <= i < old(tm).num_app ==> !((#[trigger] old(tm).inner.tasks[i]).task_status
                is Running),
        old(tm).inner.tasks[0].task_status is Ready,
    ensures
        final(tm).wf(),
        final(tm).num_app == old(tm).num_app,
        final(tm).inner.current_task == 0,
        final(tm).inner.phys == old(tm).inner.phys,
        final(tm).inner.tasks@ == old(tm).inner.tasks@.update(
            0,
            scheduled_tcb(old(tm).inner.tasks[0], now_us),
        ),
{
    tm.run_first_task(now_us);
}

/// Suspends the current `Running` task (it becomes `Ready`) and schedules the
/// round-robin successor, whose index is returned so the caller can invoke
/// the switch primitive. Because the suspended task itself is `Ready` again,
/// a successor always exists.
pub fn suspend_current_and_run_next(tm: &mut TaskManager, now_us: usize) -> (r: usize)
    requires
        old(tm).wf(),
        old(tm).cur_task().task_status is Running,
    ensures
        final(tm).wf(),
        final(tm).num_app == old(tm).num_app,
        r < old(tm).num_app,
        next_task(
            old(tm).statuses().update(old(tm).cur(), TaskStatus::Ready),
            old(tm).cur(),
        ) == Some(r as int),
        final(tm).inner.current_task == r,
        final(tm).inner.phys == old(tm).inner.phys,
        final(tm).inner.tasks@ == yield_tasks(old(tm).inner.tasks@, old(tm).cur(), r as int, now_us),
{
    tm.mark_current_suspended();
    let ghost mid = *tm;
    let ghost cur = old(tm).cur();
    let ghost st1 = old(tm).statuses().update(cur, TaskStatus::Ready);
    proof {
        assert(mid.statuses() =~= st1);
        let n = st1.len() as int;
        assert(st1[(cur + n) % n] is Ready) by {
            vstd::arithmetic::div_mod::lemma_mod_multiples_vanish(1, cur, n);
            vstd::arithmetic::div_mod::lemma_small_mod(cur as nat, n as nat);
        }
        assert(n <= n <= st1.len() && st1[(cur + n) % n] is Ready);
        crate::sched::lemma_scan_finds(st1, cur, 1);
    }
    let r = tm.run_next_task(now_us);
    let next = match r {
        Some(x) => x,
        None => {
            proof {
                assert(false);
            }
            0
        },
    };
    proof {
        assert(tm.inner.tasks@ =~= yield_tasks(old(tm).inner.tasks@, cur, next as int, now_us));
    }
    next
}

/// Exits the current task (terminal) and schedules the round-robin successor
/// if any task is still `Ready`; returns `None` when all work is done, in
/// which case the caller halts the system.
pub fn exit_current_and_run_next(tm: &mut TaskManager, now_us: usize) -> (r: Option<usize>)
    requires
        old(tm).wf(),
        old(tm).cur_task().task_status is Running,
    ensures
        final(tm).wf(),
        final(tm).num_app == old(tm).num_app,
        r is None <==> next_task(
            old(tm).statuses().update(old(tm).cur(), TaskStatus::Exited),
            old(tm).cur(),
        ) is None,
        r is None ==> final(tm).inner.current_task == old(tm).inner.current_task && final(tm).inner.phys == old(tm).inner.phys && final(tm).inner.tasks@ == old(tm).inner.tasks@.update(
            old(tm).cur(),
            tcb_with_status(old(tm).cur_task(), TaskStatus::Exited),
        ),
        r matches Some(id) ==> id < old(tm).num_app && next_task(
            old(tm).statuses().update(old(tm).cur(), TaskStatus::Exited),
            old(tm).cur(),
        ) == Some(id as int) && final(tm).inner.current_task == id && final(tm).inner.phys == old(tm).inner.phys && final(tm).inner.tasks@ == exit_tasks(
            old(tm).inner.tasks@,
            old(tm).cur(),
            id as int,
            now_us,
        ),
{
    tm.mark_current_exited();
    let ghost mid = *tm;
    let ghost cur = old(tm).cur();
    let ghost st1 = old(tm).statuses().update(cur, TaskStatus::Exited);
    proof {
        assert(mid.statuses() =~= st1);
    }
    let r = tm.run_next_task(now_us);
    proof {
        if r is Some {
            assert(tm.inner.tasks@ =~= exit_tasks(
                old(tm).inner.tasks@,
                cur,
                r.unwrap() as int,
                now_us,
            ));
        }
    }
    r
}

/// The current task's address-space token.
pub fn current_user_token(tm: &TaskManager) -> (r: usize)
    requires
        tm.wf(),
    ensures
        r == tm.cur_mem().token,
{
    tm.get_current_token()
}

/// A snapshot of the current task's trap context.
pub fn current_trap_cx(tm: &TaskManager) -> (r: TrapContext)
    requires
        tm.wf(),
    ensures
        r == tm.cur_task().trap_cx,
{
    tm.get_current_trap_cx()
}

/// Looks up a mapping in the current task's address space.
pub fn find_pte(tm: &TaskManager, vpn: usize) -> (r: Option<PageTableEntry>)
    requires
        tm.wf(),
    ensures
        r is Some <==> tm.cur_mem().mapped(vpn),
        r matches Some(pte) ==> pte == tm.cur_mem().pte_at(vpn),
{
    tm.find_pte(vpn)
}

/// Unmaps `[start_vpn, end_vpn)` in the current task's address space (see
/// [`TaskManager::unmap`]).
pub fn unmap(tm: &mut TaskManager, start_vpn: usize, end_vpn: usize)
    requires
        old(tm).wf(),
        start_vpn <= end_vpn,
        forall|v: usize| start_vpn <= v < end_vpn ==> #[trigger] old(tm).cur_mem().mapped(v),
    ensures
        final(tm).wf(),
        final(tm).num_app == old(tm).num_app,
        final(tm).inner.current_task == old(tm).inner.current_task,
        final(tm).inner.phys == old(tm).inner.phys,
        forall|i: int|
            0 <= i < old(tm).num_app && i != old(tm).cur() ==> final(tm).inner.tasks[i] == old(tm).inner.tasks[i],
        same_but_memory(final(tm).cur_task(), old(tm).cur_task()),
        final(tm).cur_mem().token == old(tm).cur_mem().token,
        forall|v: usize| start_vpn <= v < end_vpn ==> !(#[trigger] final(tm).cur_mem().mapped(v)),
        forall|v: usize|
            !(start_vpn <= v < end_vpn) ==> (#[trigger] final(tm).cur_mem().mapped(v) <==> old(tm).cur_mem().mapped(v)) && (old(tm).cur_mem().mapped(v) ==> final(tm).cur_mem().pte_at(v)
                == old(tm).cur_mem().pte_at(v)),
{
    tm.unmap(start_vpn, end_vpn);
}

/// Maps `[floor(start_va), ceil(end_va))` in the current task's address
/// space (see [`TaskManager::insert_framed_area`]).
pub fn insert_framed_area(tm: &mut TaskManager, start_va: usize, end_va: usize, perm: MapPermission)
    requires
        old(tm).wf(),
        start_va <= end_va,
        forall|v: usize|
            spec_page_floor(start_va as int) <= v < spec_page_ceil(end_va as int) ==> !(
            #[trigger] old(tm).cur_mem().mapped(v)),
        old(tm).inner.phys.num_frames + (spec_page_ceil(end_va as int) - spec_page_floor(
            start_va as int,
        )) <= MAX_FRAMES,
    ensures
        final(tm).wf(),
        final(tm).num_app == old(tm).num_app,
        final(tm).inner.current_task == old(tm).inner.current_task,
        forall|i: int|
            0 <= i < old(tm).num_app && i != old(tm).cur() ==> final(tm).inner.tasks[i] == old(tm).inner.tasks[i],
        same_but_memory(final(tm).cur_task(), old(tm).cur_task()),
        final(tm).cur_mem().token == old(tm).cur_mem().token,
        final(tm).inner.phys.num_frames == old(tm).inner.phys.num_frames + (spec_page_ceil(
            end_va as int,
        ) - spec_page_floor(start_va as int)),
        forall|v: usize|
            spec_page_floor(start_va as int) <= v < spec_page_ceil(end_va as int)
                ==> #[trigger] final(tm).cur_mem().mapped(v) && final(tm).cur_mem().pte_at(v).perm
                == perm,
        forall|v: usize|
            !(spec_page_floor(start_va as int) <= v < spec_page_ceil(end_va as int)) ==> (
            #[trigger] final(tm).cur_mem().mapped(v) <==> old(tm).cur_mem().mapped(v)) && (old(tm).cur_mem().mapped(v) ==> final(tm).cur_mem().pte_at(v) == old(tm).cur_mem().pte_at(v)),
        forall|k: int|
            0 <= k < old(tm).inner.phys.words.len() ==> final(tm).inner.phys.words[k] == old(tm).inner.phys.words[k],
{
    tm.insert_framed_area(start_va, end_va, perm);
}

/// Adds one to the current task's invocation counter for `syscall_id` (see
/// [`TaskManager::update_syscall_time`]).
pub fn update_syscall_time(tm: &mut TaskManager, syscall_id: usize)
    requires
        old(tm).wf(),
        syscall_id < MAX_SYSCALL_NUM,
        old(tm).cur_task().syscall_times[syscall_id as int] < u32::MAX,
    ensures
        final(tm).wf(),
        final(tm).num_app == old(tm).num_app,
        final(tm).inner.current_task == old(tm).inner.current_task,
        final(tm).inner.phys == old(tm).inner.phys,
        forall|i: int|
            0 <= i < old(tm).num_app && i != old(tm).cur() ==> final(tm).inner.tasks[i] == old(tm).inner.tasks[i],
        final(tm).cur_task().task_status == old(tm).cur_task().task_status,
        final(tm).cur_task().memory_set == old(tm).cur_task().memory_set,
        final(tm).cur_task().start_time == old(tm).cur_task().start_time,
        final(tm).cur_task().syscall_times@ == crate::task::bump(
            old(tm).cur_task().syscall_times@,
            syscall_id as int,
        ),
{
    tm.update_syscall_time(syscall_id);
}

/// Translates a pointer supplied by the current task through its own page
/// table (see [`TaskManager::get_pa`]).
pub fn get_pa(tm: &TaskManager, ptr: usize) -> (r: usize)
    requires
        tm.wf(),
        tm.cur_mem().mapped(spec_page_floor(ptr as int) as usize),
    ensures
        r == tm.cur_mem().spec_translate(ptr),
{
    tm.get_pa(ptr)
}

} // verus!
