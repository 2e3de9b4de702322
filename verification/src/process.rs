//! Process management syscalls.
//!
//! All syscalls return a signed result: `0` (or a non-negative value) on
//! success, `-1` on failure. The exit syscall never hands control back to the
//! exiting task; here it returns the scheduling decision so the caller can
//! transfer control (or halt when no task is left to run).
//!
//! The monotonic microsecond counter is an external device: each syscall that
//! needs the time takes the sampled counter value `now_us` as an argument.
//! Values destined for the calling task's memory are written through its own
//! page table, one machine word at a time, after translating the
//! user-supplied pointer.

use vstd::prelude::*;

use crate::addr::{page_aligned, page_ceil, page_floor, spec_page_aligned, spec_page_ceil,
    spec_page_floor};
use crate::config::{MAX_FRAMES, MAX_SYSCALL_NUM, WORD_SIZE};
use crate::manager::{exit_current_and_run_next, suspend_current_and_run_next, tcb_with_status,
    yield_tasks, TaskManager};
use crate::page_table::{perm_of_port, spec_perm_of_port, spec_valid_port, valid_port};
use crate::sched::{all_ready_but_current, next_task, one_yield};
use crate::task::TaskStatus;

verus! {

/// A snapshot of elapsed time since boot: whole seconds and the sub-second
/// remainder in microseconds.
#[derive(Clone, Copy, PartialEq, Eq, Structural, Debug)]
pub struct TimeVal {
    pub sec: usize,
    pub usec: usize,
}

/// A snapshot of one task's state: its status, its per-syscall invocation
/// counters and its run time in milliseconds since it was first scheduled.
pub struct TaskInfo {
    pub status: TaskStatus,
    pub syscall_times: Vec<u32>,
    pub time: usize,
}

/// The word a task status is encoded as when written to user memory.
pub open spec fn spec_status_code(st: TaskStatus) -> usize {
    match st {
        TaskStatus::UnInit => 0,
        TaskStatus::Ready => 1,
        TaskStatus::Running => 2,
        TaskStatus::Exited => 3,
    }
}

/// Encodes a task status as one machine word.
pub fn status_code(st: TaskStatus) -> (r: usize)
    ensures
        r == spec_status_code(st),
{
    match st {
        TaskStatus::UnInit => 0,
        TaskStatus::Ready => 1,
        TaskStatus::Running => 2,
        TaskStatus::Exited => 3,
    }
}

/// Milliseconds a task has run for: the sampled counter minus its
/// first-scheduled timestamp, in milliseconds; zero if it never ran.
pub open spec fn spec_elapsed_ms(start_time: Option<usize>, now_us: usize) -> int {
    match start_time {
        Some(st) => (now_us - st) / 1000,
        None => 0,
    }
}

/// Splits a sampled microsecond counter value into a `TimeVal`: whole
/// seconds and the sub-second remainder in microseconds. The two fields
/// recompose the sample exactly: `sec * 1_000_000 + usec == now_us`.
pub fn time_val_of(now_us: usize) -> (r: TimeVal)
    ensures
        r.sec == now_us as int / 1_000_000,
        r.usec == now_us as int % 1_000_000,
        r.sec * 1_000_000 + r.usec == now_us,
{
    proof {
        vstd::arithmetic::div_mod::lemma_fundamental_div_mod(now_us as int, 1_000_000);
    }
    TimeVal { sec: now_us / 1_000_000, usec: now_us % 1_000_000 }
}

/// Terminates the calling task (terminal transition to `Exited`) and hands
/// the processor to the round-robin successor. Control never returns to the
/// exiting task: the result is the index of the task to switch to, or `None`
/// when no task is left to run and the system halts.
pub fn sys_exit(tm: &mut TaskManager, _exit_code: i32, now_us: usize) -> (r: Option<usize>)
    requires
        old(tm).wf(),
        old(tm).cur_task().task_status is Running,
    ensures
        final(tm).wf(),
        final(tm).num_app == old(tm).num_app,
        r is None <==> next_task(
            old(tm).statuses().update(old(tm).cur(), TaskStatus::Exited),
            old(tm).cur(),
        ) is None,
        r is None ==> final(tm).inner.tasks@ == old(tm).inner.tasks@.update(
            old(tm).cur(),
            tcb_with_status(old(tm).cur_task(), TaskStatus::Exited),
        ),
        r matches Some(id) ==> next_task(
            old(tm).statuses().update(old(tm).cur(), TaskStatus::Exited),
            old(tm).cur(),
        ) == Some(id as int) && final(tm).inner.current_task == id && final(tm).inner.tasks@
            == crate::manager::exit_tasks(old(tm).inner.tasks@, old(tm).cur(), id as int, now_us),
        final(tm).cur_task().task_status is Exited || final(tm).cur_task().task_status is Running,
{
    exit_current_and_run_next(tm, now_us)
}

/// The calling task voluntarily gives up the processor: it becomes `Ready`
/// and the round-robin successor becomes `Running`. Returns `0` (once the
/// task is rescheduled).
pub fn sys_yield(tm: &mut TaskManager, now_us: usize) -> (r: isize)
    requires
        old(tm).wf(),
        old(tm).cur_task().task_status is Running,
    ensures
        r == 0,
        final(tm).wf(),
        final(tm).num_app == old(tm).num_app,
        final(tm).inner.phys == old(tm).inner.phys,
        next_task(old(tm).statuses().update(old(tm).cur(), TaskStatus::Ready), old(tm).cur())
            == Some(final(tm).cur()),
        final(tm).inner.tasks@ == yield_tasks(
            old(tm).inner.tasks@,
            old(tm).cur(),
            final(tm).cur(),
            now_us,
        ),
        // round-robin fairness, tied to the policy specification: from a
        // state where every other task is ready, one yield is exactly one
        // step of the specified cyclic visiting order
        all_ready_but_current(old(tm).statuses(), old(tm).cur()) ==> final(tm).statuses()
            == one_yield(old(tm).statuses(), old(tm).cur()).0 && final(tm).cur() == one_yield(
            old(tm).statuses(),
            old(tm).cur(),
        ).1,
{
    let next = suspend_current_and_run_next(tm, now_us);
    proof {
        let st = old(tm).statuses();
        let cur = old(tm).cur();
        let s1 = st.update(cur, TaskStatus::Ready);
        if all_ready_but_current(st, cur) {
            assert(next_task(s1, cur) == Some(next as int));
            assert(one_yield(st, cur).1 == next as int);
            assert(tm.statuses() =~= s1.update(next as int, TaskStatus::Running));
        }
    }
    0
}

/// Reads the monotonic microsecond counter (sampled by the caller as
/// `now_us`) and writes `{ sec, usec }` into the calling task's own memory at
/// the translated address `ts`. The timezone argument is accepted and
/// ignored. Returns `0`.
///
/// The two machine words written recompose the sampled counter exactly:
/// `sec * 1_000_000 + usec == now_us`.
pub fn sys_get_time(tm: &mut TaskManager, ts: usize, _tz: usize, now_us: usize) -> (r: isize)
    requires
        old(tm).wf(),
        ts % WORD_SIZE == 0,
        ts + WORD_SIZE + WORD_SIZE <= usize::MAX,
        old(tm).cur_mem().mapped(spec_page_floor(ts as int) as usize),
        old(tm).cur_mem().mapped(spec_page_floor(ts as int + WORD_SIZE) as usize),
    ensures
        r == 0,
        final(tm).wf(),
        final(tm).num_app == old(tm).num_app,
        final(tm).inner.tasks == old(tm).inner.tasks,
        final(tm).inner.current_task == old(tm).inner.current_task,
        final(tm).inner.phys.num_frames == old(tm).inner.phys.num_frames,
        final(tm).inner.phys.word_at(old(tm).cur_mem().spec_translate(ts)) == now_us as int
            / 1_000_000,
        final(tm).inner.phys.word_at(
            old(tm).cur_mem().spec_translate((ts + WORD_SIZE) as usize),
        ) == now_us as int % 1_000_000,
        final(tm).inner.phys.word_at(old(tm).cur_mem().spec_translate(ts)) * 1_000_000 + final(tm).inner.phys.word_at(old(tm).cur_mem().spec_translate((ts + WORD_SIZE) as usize))
            == now_us,
{
    let tv = time_val_of(now_us);
    let ts2 = ts + WORD_SIZE;
    proof {
        old(tm).lemma_translate_distinct(ts, ts2);
        old(tm).lemma_pa_word_bounds(ts);
    }
    tm.write_user_word(ts, tv.sec);
    proof {
        assert(tm.cur_mem() == old(tm).cur_mem());
    }
    tm.write_user_word(ts2, tv.usec);
    proof {
        vstd::arithmetic::div_mod::lemma_fundamental_div_mod(now_us as int, 1_000_000);
    }
    0
}

/// Deliberate stub: this scheduling policy has no priorities, so the request
/// is accepted and ignored. Always returns `-1`.
pub fn sys_set_priority(_prio: isize) -> (r: isize)
    ensures
        r == -1,
{
    -1
}

/// Requests a mapping of `len` bytes (rounded up to whole pages) at the
/// page-aligned virtual address `start`, with permission mask `port` (bit 0
/// readable, bit 1 writable, bit 2 executable; all other bits must be zero,
/// and a mapping with no permissions is rejected). Fails, leaving the
/// address space untouched, iff `start` is unaligned, `port` is invalid, or
/// any page of `[floor(start), ceil(start + len))` is already mapped.
/// On success every page of the range is freshly mapped, user-accessible,
/// with exactly the requested permission bits. Returns `0` on success, `-1`
/// on any validation failure.
#[verifier::rlimit(50)]
pub fn sys_mmap(tm: &mut TaskManager, start: usize, len: usize, port: usize) -> (r: isize)
    requires
        old(tm).wf(),
        start + len <= usize::MAX,
        old(tm).inner.phys.num_frames + (spec_page_ceil(start as int + len) - spec_page_floor(
            start as int,
        )) <= MAX_FRAMES,
    ensures
        r == 0 || r == -1,
        r == 0 <==> spec_page_aligned(start as int) && spec_valid_port(port) && (forall|v: usize|
            spec_page_floor(start as int) <= v < spec_page_ceil(start as int + len) ==> !(
            #[trigger] old(tm).cur_mem().mapped(v))),
        r == -1 ==> *final(tm) == *old(tm),
        r == 0 ==> final(tm).wf(),
        r == 0 ==> final(tm).num_app == old(tm).num_app,
        r == 0 ==> final(tm).inner.phys.num_frames == old(tm).inner.phys.num_frames + (
        spec_page_ceil(start as int + len) - spec_page_floor(start as int)),
        r == 0 ==> final(tm).inner.current_task == old(tm).inner.current_task,
        r == 0 ==> forall|i: int|
            0 <= i < old(tm).num_app && i != old(tm).cur() ==> final(tm).inner.tasks[i] == old(
                tm,
            ).inner.tasks[i],
        r == 0 ==> crate::manager::same_but_memory(final(tm).cur_task(), old(tm).cur_task()),
        r == 0 ==> forall|v: usize|
            spec_page_floor(start as int) <= v < spec_page_ceil(start as int + len)
                ==> #[trigger] final(tm).cur_mem().mapped(v) && final(tm).cur_mem().pte_at(v).perm
                == spec_perm_of_port(port),
        r == 0 ==> forall|v: usize|
            !(spec_page_floor(start as int) <= v < spec_page_ceil(start as int + len)) ==> (
            #[trigger] final(tm).cur_mem().mapped(v) <==> old(tm).cur_mem().mapped(v)),
        r == 0 ==> forall|v: usize|
            !(spec_page_floor(start as int) <= v < spec_page_ceil(start as int + len)) && old(
                tm,
            ).cur_mem().mapped(v) ==> #[trigger] final(tm).cur_mem().pte_at(v) == old(
                tm,
            ).cur_mem().pte_at(v),
{
    let end_va = start + len;
    if !page_aligned(start) {
        return -1;
    }
    if !valid_port(port) {
        return -1;
    }
    let l = page_floor(start);
    let r_end = page_ceil(end_va);
    proof {
        vstd::arithmetic::div_mod::lemma_div_is_ordered(
            start as int,
            end_va as int + crate::config::PAGE_SIZE - 1,
            crate::config::PAGE_SIZE as int,
        );
    }
    let mut vpn = l;
    while vpn < r_end
        invariant
            tm.wf(),
            *tm == *old(tm),
            l <= vpn <= r_end,
            l == spec_page_floor(start as int),
            r_end == spec_page_ceil(start as int + len),
            forall|v: usize| l <= v < vpn ==> !(#[trigger] tm.cur_mem().mapped(v)),
        decreases r_end - vpn,
    {
        match tm.find_pte(vpn) {
            Some(_) => {
                return -1;
            },
            None => {},
        }
        vpn = vpn + 1;
    }
    let perm = perm_of_port(port);
    tm.insert_framed_area(start, end_va, perm);
    // defensive re-check that every page of the range is now mapped (the
    // frame allocator is assumed never to fail, and the mapping contract
    // indeed rules the failure out)
    let ghost after_insert = *tm;
    let mut vpn = l;
    while vpn < r_end
        invariant
            l <= vpn <= r_end,
            l == spec_page_floor(start as int),
            r_end == spec_page_ceil(start as int + len),
            tm.wf(),
            *tm == after_insert,
            forall|v: usize| l <= v < r_end ==> #[trigger] tm.cur_mem().mapped(v),
        decreases r_end - vpn,
    {
        match tm.find_pte(vpn) {
            None => {
                proof {
                    assert(false);
                }
                return -1;
            },
            Some(_) => {},
        }
        vpn = vpn + 1;
    }
    proof {
        assert forall|v: usize| l <= v < r_end implies #[trigger] tm.cur_mem().mapped(v)
            && tm.cur_mem().pte_at(v).perm == spec_perm_of_port(port) by {
            assert(after_insert.cur_mem().mapped(v));
            assert(after_insert.cur_mem().pte_at(v).perm == spec_perm_of_port(port));
        }
        assert forall|v: usize| !(l <= v < r_end) implies (#[trigger] tm.cur_mem().mapped(v)
            <==> old(tm).cur_mem().mapped(v)) by {
            assert(after_insert.cur_mem().mapped(v) <==> old(tm).cur_mem().mapped(v));
        }
        assert forall|v: usize|
            !(l <= v < r_end) && old(tm).cur_mem().mapped(v) implies #[trigger] tm.cur_mem().pte_at(
            v,
        ) == old(tm).cur_mem().pte_at(v) by {
            assert(after_insert.cur_mem().mapped(v) <==> old(tm).cur_mem().mapped(v));
            assert(after_insert.cur_mem().pte_at(v) == old(tm).cur_mem().pte_at(v));
        }
    }
    0
}

/// Removes the mapping of every page of `[floor(start), ceil(start + len))`
/// from the calling task's address space. Fails, changing nothing, iff
/// `start` is unaligned or any page of the range is currently unmapped.
/// Returns `0` on success, `-1` on failure.
pub fn sys_munmap(tm: &mut TaskManager, start: usize, len: usize) -> (r: isize)
    requires
        old(tm).wf(),
        start + len <= usize::MAX,
    ensures
        r == 0 || r == -1,
        r == 0 <==> spec_page_aligned(start as int) && (forall|v: usize|
            spec_page_floor(start as int) <= v < spec_page_ceil(start as int + len)
                ==> #[trigger] old(tm).cur_mem().mapped(v)),
        r == -1 ==> *final(tm) == *old(tm),
        r == 0 ==> {
            &&& final(tm).wf()
            &&& final(tm).num_app == old(tm).num_app
            &&& final(tm).inner.current_task == old(tm).inner.current_task
            &&& final(tm).inner.phys == old(tm).inner.phys
            &&& forall|i: int|
                0 <= i < old(tm).num_app && i != old(tm).cur() ==> final(tm).inner.tasks[i] == old(
                    tm,
                ).inner.tasks[i]
            &&& crate::manager::same_but_memory(final(tm).cur_task(), old(tm).cur_task())
            &&& forall|v: usize|
                spec_page_floor(start as int) <= v < spec_page_ceil(start as int + len) ==> !(
                #[trigger] final(tm).cur_mem().mapped(v))
            &&& forall|v: usize|
                !(spec_page_floor(start as int) <= v < spec_page_ceil(start as int + len)) ==> (
                #[trigger] final(tm).cur_mem().mapped(v) <==> old(tm).cur_mem().mapped(v)) && (old(
                    tm,
                ).cur_mem().mapped(v) ==> final(tm).cur_mem().pte_at(v) == old(tm).cur_mem().pte_at(
                    v,
                ))
        },
{
    let end_va = start + len;
    if !page_aligned(start) {
        return -1;
    }
    let l = page_floor(start);
    let r_end = page_ceil(end_va);
    proof {
        vstd::arithmetic::div_mod::lemma_div_is_ordered(
            start as int,
            end_va as int + crate::config::PAGE_SIZE - 1,
            crate::config::PAGE_SIZE as int,
        );
    }
    let mut vpn = l;
    while vpn < r_end
        invariant
            tm.wf(),
            *tm == *old(tm),
            l <= vpn <= r_end,
            l == spec_page_floor(start as int),
            r_end == spec_page_ceil(start as int + len),
            forall|v: usize| l <= v < vpn ==> #[trigger] tm.cur_mem().mapped(v),
        decreases r_end - vpn,
    {
        match tm.find_pte(vpn) {
            None => {
                return -1;
            },
            Some(_) => {},
        }
        vpn = vpn + 1;
    }
    crate::manager::unmap(tm, l, r_end);
    0
}

/// A snapshot of the current task: its status (it is the running one), a
/// copy of its per-syscall invocation counters, and its elapsed run time in
/// milliseconds since it was first scheduled (zero if it never ran). The
/// counter is monotonic, so a task's first-scheduled timestamp never exceeds
/// a later sample.
pub fn get_sys_task_info(tm: &TaskManager, now_us: usize) -> (r: TaskInfo)
    requires
        tm.wf(),
        tm.cur_task().start_time matches Some(st) ==> st <= now_us,
    ensures
        r.status is Running,
        r.syscall_times@ == tm.cur_task().syscall_times@,
        r.time == spec_elapsed_ms(tm.cur_task().start_time, now_us),
{
    let current = tm.inner.current_task;
    let src = &tm.inner.tasks[current].syscall_times;
    let mut syscall_times: Vec<u32> = Vec::new();
    let mut i: usize = 0;
    while i < src.len()
        invariant
            i <= src.len(),
            syscall_times.len() == i,
            src@ == tm.cur_task().syscall_times@,
            forall|j: int| 0 <= j < i ==> syscall_times[j] == src[j],
        decreases src.len() - i,
    {
        let c = src[i];
        syscall_times.push(c);
        i = i + 1;
    }
    proof {
        assert(syscall_times@ =~= tm.cur_task().syscall_times@);
    }
    let time = match tm.inner.tasks[current].start_time {
        Some(st) => (now_us - st) / 1000,
        None => 0,
    };
    TaskInfo { status: TaskStatus::Running, syscall_times, time }
}

/// A word offset from a word-aligned base is itself word-aligned.
proof fn lemma_word_offset_aligned(ti: usize, w: int)
    requires
        ti % WORD_SIZE == 0,
        0 <= w,
    ensures
        (ti + w * WORD_SIZE) % (WORD_SIZE as int) == 0,
{
    vstd::arithmetic::div_mod::lemma_mod_multiples_basic(w, WORD_SIZE as int);
    vstd::arithmetic::div_mod::lemma_add_mod_noop(ti as int, w * WORD_SIZE, WORD_SIZE as int);
}

/// Writes a snapshot of the current task into the calling task's own memory
/// at the translated address `ti`, laid out as machine words: the status
/// code, then one word per syscall invocation counter, then the elapsed run
/// time in milliseconds since first scheduled. Returns `0`.
pub fn sys_task_info(tm: &mut TaskManager, ti: usize, now_us: usize) -> (r: isize)
    requires
        old(tm).wf(),
        ti % WORD_SIZE == 0,
        ti + (2 + MAX_SYSCALL_NUM) * WORD_SIZE <= usize::MAX,
        forall|w: int|
            0 <= w < 2 + MAX_SYSCALL_NUM ==> #[trigger] old(tm).cur_mem().mapped(
                spec_page_floor(ti + w * WORD_SIZE) as usize,
            ),
        old(tm).cur_task().start_time matches Some(st) ==> st <= now_us,
    ensures
        r == 0,
        final(tm).wf(),
        final(tm).num_app == old(tm).num_app,
        final(tm).inner.tasks == old(tm).inner.tasks,
        final(tm).inner.current_task == old(tm).inner.current_task,
        final(tm).inner.phys.num_frames == old(tm).inner.phys.num_frames,
        final(tm).inner.phys.word_at(old(tm).cur_mem().spec_translate(ti)) == spec_status_code(
            TaskStatus::Running,
        ),
        forall|k: int|
            0 <= k < MAX_SYSCALL_NUM ==> #[trigger] final(tm).inner.phys.word_at(
                old(tm).cur_mem().spec_translate((ti + (1 + k) * WORD_SIZE) as usize),
            ) == old(tm).cur_task().syscall_times[k],
        final(tm).inner.phys.word_at(
            old(tm).cur_mem().spec_translate((ti + (1 + MAX_SYSCALL_NUM) * WORD_SIZE) as usize),
        ) == spec_elapsed_ms(old(tm).cur_task().start_time, now_us),
{
    let info = get_sys_task_info(tm, now_us);
    let code = status_code(info.status);
    proof {
        assert(old(tm).cur_mem().mapped(spec_page_floor(ti + 0 * WORD_SIZE) as usize));
    }
    tm.write_user_word(ti, code);
    let mut k: usize = 0;
    while k < MAX_SYSCALL_NUM
        invariant
            tm.wf(),
            old(tm).wf(),
            tm.inner.tasks == old(tm).inner.tasks,
            tm.inner.current_task == old(tm).inner.current_task,
            tm.inner.phys.num_frames == old(tm).inner.phys.num_frames,
            tm.num_app == old(tm).num_app,
            k <= MAX_SYSCALL_NUM,
            ti % WORD_SIZE == 0,
            ti + (2 + MAX_SYSCALL_NUM) * WORD_SIZE <= usize::MAX,
            forall|w: int|
                0 <= w < 2 + MAX_SYSCALL_NUM ==> #[trigger] old(tm).cur_mem().mapped(
                    spec_page_floor(ti + w * WORD_SIZE) as usize,
                ),
            info.syscall_times@ == old(tm).cur_task().syscall_times@,
            info.syscall_times.len() == MAX_SYSCALL_NUM,
            tm.inner.phys.word_at(old(tm).cur_mem().spec_translate(ti)) == spec_status_code(
                TaskStatus::Running,
            ),
            forall|j: int|
                0 <= j < k ==> #[trigger] tm.inner.phys.word_at(
                    old(tm).cur_mem().spec_translate((ti + (1 + j) * WORD_SIZE) as usize),
                ) == old(tm).cur_task().syscall_times[j],
        decreases MAX_SYSCALL_NUM - k,
    {
        let va = ti + (1 + k) * WORD_SIZE;
        let c = info.syscall_times[k];
        let ghost prev = *tm;
        proof {
            lemma_word_offset_aligned(ti, 1 + k as int);
            assert(old(tm).cur_mem().mapped(
                spec_page_floor(ti + (1 + k as int) * WORD_SIZE) as usize,
            ));
            assert(va as int == ti + (1 + k as int) * WORD_SIZE);
            assert(tm.cur_mem() == old(tm).cur_mem());
        }
        tm.write_user_word(va, c as usize);
        proof {
            assert forall|j: int| 0 <= j < k + 1 implies #[trigger] tm.inner.phys.word_at(
                old(tm).cur_mem().spec_translate((ti + (1 + j) * WORD_SIZE) as usize),
            ) == old(tm).cur_task().syscall_times[j] by {
                let vaj = (ti + (1 + j) * WORD_SIZE) as usize;
                if j < k {
                    lemma_word_offset_aligned(ti, 1 + j);
                    assert(old(tm).cur_mem().mapped(spec_page_floor(ti + (1 + j) * WORD_SIZE) as usize));
                    prev.lemma_translate_distinct(vaj, va);
                    prev.lemma_pa_word_bounds(vaj);
                    assert(prev.inner.phys.word_at(prev.cur_mem().spec_translate(vaj)) == old(
                        tm,
                    ).cur_task().syscall_times[j]);
                }
            }
            assert(tm.inner.phys.word_at(old(tm).cur_mem().spec_translate(ti))
                == spec_status_code(TaskStatus::Running)) by {
                assert(old(tm).cur_mem().mapped(spec_page_floor(ti + 0 * WORD_SIZE) as usize));
                prev.lemma_translate_distinct(ti, va);
                prev.lemma_pa_word_bounds(ti);
            }
        }
        k = k + 1;
    }
    let time_va = ti + (1 + MAX_SYSCALL_NUM) * WORD_SIZE;
    let ghost prev = *tm;
    proof {
        lemma_word_offset_aligned(ti, 1 + MAX_SYSCALL_NUM as int);
        assert(old(tm).cur_mem().mapped(
            spec_page_floor(ti + (1 + MAX_SYSCALL_NUM as int) * WORD_SIZE) as usize,
        ));
        assert(time_va as int == ti + (1 + MAX_SYSCALL_NUM as int) * WORD_SIZE);
        assert(tm.cur_mem() == old(tm).cur_mem());
    }
    tm.write_user_word(time_va, info.time);
    proof {
        assert forall|j: int| 0 <= j < MAX_SYSCALL_NUM implies #[trigger] tm.inner.phys.word_at(
            old(tm).cur_mem().spec_translate((ti + (1 + j) * WORD_SIZE) as usize),
        ) == old(tm).cur_task().syscall_times[j] by {
            let vaj = (ti + (1 + j) * WORD_SIZE) as usize;
            lemma_word_offset_aligned(ti, 1 + j);
            assert(old(tm).cur_mem().mapped(spec_page_floor(ti + (1 + j) * WORD_SIZE) as usize));
            prev.lemma_translate_distinct(vaj, time_va);
            prev.lemma_pa_word_bounds(vaj);
            assert(prev.inner.phys.word_at(prev.cur_mem().spec_translate(vaj)) == old(
                tm,
            ).cur_task().syscall_times[j]);
        }
        assert(tm.inner.phys.word_at(old(tm).cur_mem().spec_translate(ti)) == spec_status_code(
            TaskStatus::Running,
        )) by {
            assert(old(tm).cur_mem().mapped(spec_page_floor(ti + 0 * WORD_SIZE) as usize));
            prev.lemma_translate_distinct(ti, time_va);
            prev.lemma_pa_word_bounds(ti);
        }
    }
    0
}

} // verus!
