use os4::config::{MAX_SYSCALL_NUM, WORD_SIZE};
use os4::manager::{
    current_trap_cx, current_user_token, exit_current_and_run_next, get_pa, run_first_task,
    suspend_current_and_run_next, update_syscall_time, TaskManager,
};
use os4::process::{
    get_sys_task_info, sys_exit, sys_get_time, sys_mmap, sys_munmap, sys_set_priority,
    sys_task_info, sys_yield,
};
use os4::task::TaskStatus;

const SYSCALL_GET_TIME: usize = 169;
const SYSCALL_TASK_INFO: usize = 410;

fn booted(num_app: usize, now_us: usize) -> TaskManager {
    let mut tm = TaskManager::new(num_app);
    run_first_task(&mut tm, now_us);
    tm
}

#[test]
fn boot_runs_task_zero() {
    let tm = booted(3, 1000);
    assert_eq!(tm.inner.current_task, 0);
    assert_eq!(tm.inner.tasks[0].task_status, TaskStatus::Running);
    assert_eq!(tm.inner.tasks[0].start_time, Some(1000));
    assert_eq!(tm.inner.tasks[1].task_status, TaskStatus::Ready);
    assert_eq!(current_user_token(&tm), 0);
    let cx = current_trap_cx(&tm);
    assert_eq!(cx.sepc, 0);
}

#[test]
fn round_robin_yield_visits_tasks_in_cyclic_order() {
    // with n tasks all ready, repeated yields visit (i+1)%n, (i+2)%n, ..., i
    let mut tm = booted(3, 0);
    let mut visited = Vec::new();
    for _ in 0..6 {
        assert_eq!(sys_yield(&mut tm, 10), 0);
        visited.push(tm.inner.current_task);
    }
    assert_eq!(visited, vec![1, 2, 0, 1, 2, 0]);
}

#[test]
fn yield_with_single_task_reschedules_itself() {
    let mut tm = booted(1, 0);
    assert_eq!(sys_yield(&mut tm, 5), 0);
    assert_eq!(tm.inner.current_task, 0);
    assert_eq!(tm.inner.tasks[0].task_status, TaskStatus::Running);
}

#[test]
fn first_scheduled_timestamp_is_captured_once() {
    let mut tm = booted(2, 100);
    assert_eq!(tm.inner.tasks[0].start_time, Some(100));
    let next = suspend_current_and_run_next(&mut tm, 200);
    assert_eq!(next, 1);
    assert_eq!(tm.inner.tasks[1].start_time, Some(200));
    let next = suspend_current_and_run_next(&mut tm, 300);
    assert_eq!(next, 0);
    // task 0 keeps its original first-scheduled timestamp
    assert_eq!(tm.inner.tasks[0].start_time, Some(100));
}

#[test]
fn exit_schedules_successor_and_halts_when_none_left() {
    let mut tm = booted(2, 0);
    let r = sys_exit(&mut tm, 0, 10);
    assert_eq!(r, Some(1));
    assert_eq!(tm.inner.tasks[0].task_status, TaskStatus::Exited);
    assert_eq!(tm.inner.current_task, 1);
    assert_eq!(tm.inner.tasks[1].task_status, TaskStatus::Running);
    let r = exit_current_and_run_next(&mut tm, 20);
    assert_eq!(r, None);
    assert_eq!(tm.inner.tasks[1].task_status, TaskStatus::Exited);
}

#[test]
fn set_priority_is_a_stub() {
    assert_eq!(sys_set_priority(5), -1);
    assert_eq!(sys_set_priority(-3), -1);
}

#[test]
fn mmap_rejects_bad_port_values() {
    // port 0 and any port with bits above bit 2 are always rejected
    let mut tm = booted(1, 0);
    assert_eq!(sys_mmap(&mut tm, 0x10000, 4096, 0), -1);
    assert_eq!(sys_mmap(&mut tm, 0x10000, 4096, 0b1000), -1);
    assert_eq!(sys_mmap(&mut tm, 0x10000, 4096, 0b1011), -1);
    assert_eq!(sys_mmap(&mut tm, 0x10000, 4096, 0x100), -1);
    // nothing was mapped by the failed calls
    assert!(os4::manager::find_pte(&tm, 16).is_none());
}

#[test]
fn mmap_rejects_unaligned_start() {
    let mut tm = booted(1, 0);
    assert_eq!(sys_mmap(&mut tm, 0x10001, 4096, 0b011), -1);
}

#[test]
fn munmap_rejects_unmapped_range_and_unaligned_start() {
    let mut tm = booted(1, 0);
    assert_eq!(sys_munmap(&mut tm, 0x10000, 4096), -1);
    assert_eq!(sys_mmap(&mut tm, 0x10000, 4096, 0b011), 0);
    assert_eq!(sys_munmap(&mut tm, 0x10001, 4096), -1);
    // a range that is only partly mapped is rejected as a whole
    assert_eq!(sys_munmap(&mut tm, 0x10000, 2 * 4096), -1);
    assert!(os4::manager::find_pte(&tm, 16).is_some());
}

#[test]
fn mmap_write_read_remap_cycle() {
    // end to end: map read+write, use the memory, remap fails, unmap,
    // then the same range can be mapped again
    let mut tm = booted(1, 0);
    assert_eq!(sys_mmap(&mut tm, 0x10000, 4096, 0b011), 0);
    tm.write_user_word(0x10000, 0xc0ffee);
    assert_eq!(tm.read_user_word(0x10000), 0xc0ffee);
    assert_eq!(sys_mmap(&mut tm, 0x10000, 4096, 0b011), -1);
    assert_eq!(sys_munmap(&mut tm, 0x10000, 4096), 0);
    assert_eq!(sys_mmap(&mut tm, 0x10000, 4096, 0b011), 0);
    // the remapped page is backed by a fresh zeroed frame
    assert_eq!(tm.read_user_word(0x10000), 0);
}

#[test]
fn mmap_rounds_length_up_to_whole_pages() {
    let mut tm = booted(1, 0);
    assert_eq!(sys_mmap(&mut tm, 0x10000, 4097, 0b001), 0);
    assert!(os4::manager::find_pte(&tm, 16).is_some());
    assert!(os4::manager::find_pte(&tm, 17).is_some());
    assert!(os4::manager::find_pte(&tm, 18).is_none());
    // overlapping request fails even if only one page overlaps
    assert_eq!(sys_mmap(&mut tm, 0x11000, 4096, 0b001), -1);
}

#[test]
fn mmap_honors_permission_bits() {
    let mut tm = booted(1, 0);
    assert_eq!(sys_mmap(&mut tm, 0x10000, 4096, 0b101), 0);
    let pte = os4::manager::find_pte(&tm, 16).unwrap();
    assert!(pte.perm.readable);
    assert!(!pte.perm.writable);
    assert!(pte.perm.executable);
    assert!(pte.perm.user);
}

#[test]
fn translation_adds_page_offset() {
    let mut tm = booted(1, 0);
    assert_eq!(sys_mmap(&mut tm, 0x10000, 8192, 0b011), 0);
    // the first frame handed out is frame 0, the second frame 1
    assert_eq!(get_pa(&tm, 0x10000 + 40), 40);
    assert_eq!(get_pa(&tm, 0x11000 + 8), 4096 + 8);
}

#[test]
fn get_time_splits_the_counter() {
    let mut tm = booted(1, 0);
    assert_eq!(sys_mmap(&mut tm, 0x10000, 4096, 0b011), 0);
    let ts = 0x10000;
    let now_us: usize = 3_456_789;
    assert_eq!(sys_get_time(&mut tm, ts, 0, now_us), 0);
    let sec = tm.read_user_word(ts);
    let usec = tm.read_user_word(ts + WORD_SIZE);
    assert_eq!(sec, 3);
    assert_eq!(usec, 456_789);
    // the two fields recompose the sampled counter exactly
    assert_eq!(sec * 1_000_000 + usec, now_us);
}

#[test]
fn task_info_counts_invocations_exactly() {
    // after k recorded invocations of one syscall the counter reads k, and
    // 0 for syscalls never invoked
    let mut tm = booted(1, 500_000);
    for _ in 0..3 {
        update_syscall_time(&mut tm, SYSCALL_GET_TIME);
    }
    update_syscall_time(&mut tm, SYSCALL_TASK_INFO);
    let info = get_sys_task_info(&tm, 2_500_000);
    assert_eq!(info.status, TaskStatus::Running);
    assert_eq!(info.syscall_times.len(), MAX_SYSCALL_NUM);
    assert_eq!(info.syscall_times[SYSCALL_GET_TIME], 3);
    assert_eq!(info.syscall_times[SYSCALL_TASK_INFO], 1);
    assert_eq!(info.syscall_times[93], 0);
    // elapsed milliseconds since first scheduled
    assert_eq!(info.time, 2_000);
}

#[test]
fn task_info_is_written_into_user_memory() {
    let mut tm = booted(1, 1_000);
    assert_eq!(sys_mmap(&mut tm, 0x20000, 4096, 0b011), 0);
    update_syscall_time(&mut tm, SYSCALL_TASK_INFO);
    update_syscall_time(&mut tm, SYSCALL_TASK_INFO);
    let ti = 0x20000;
    assert_eq!(sys_task_info(&mut tm, ti, 5_000), 0);
    // layout: status word, one word per counter, elapsed-time word
    assert_eq!(tm.read_user_word(ti), 2); // Running
    assert_eq!(tm.read_user_word(ti + (1 + SYSCALL_TASK_INFO) * WORD_SIZE), 2);
    assert_eq!(tm.read_user_word(ti + (1 + SYSCALL_GET_TIME) * WORD_SIZE), 0);
    // elapsed: first scheduled at 1_000 us, sampled at 5_000 us -> 4 ms
    assert_eq!(tm.read_user_word(ti + (1 + MAX_SYSCALL_NUM) * WORD_SIZE), 4);
}

#[test]
fn counters_are_tracked_per_task() {
    let mut tm = booted(2, 0);
    update_syscall_time(&mut tm, SYSCALL_GET_TIME);
    let next = suspend_current_and_run_next(&mut tm, 10);
    assert_eq!(next, 1);
    update_syscall_time(&mut tm, SYSCALL_GET_TIME);
    update_syscall_time(&mut tm, SYSCALL_GET_TIME);
    let info = get_sys_task_info(&tm, 100);
    assert_eq!(info.syscall_times[SYSCALL_GET_TIME], 2);
    assert_eq!(tm.inner.tasks[0].syscall_times[SYSCALL_GET_TIME], 1);
}

#[test]
fn address_spaces_are_private_to_each_task() {
    let mut tm = booted(2, 0);
    assert_eq!(sys_mmap(&mut tm, 0x10000, 4096, 0b011), 0);
    tm.write_user_word(0x10000, 41);
    suspend_current_and_run_next(&mut tm, 10);
    // the same virtual page is unmapped in the second task's space
    assert!(os4::manager::find_pte(&tm, 16).is_none());
    assert_eq!(sys_mmap(&mut tm, 0x10000, 4096, 0b011), 0);
    tm.write_user_word(0x10000, 42);
    assert_eq!(tm.read_user_word(0x10000), 42);
    // and the first task's copy is untouched
    suspend_current_and_run_next(&mut tm, 20);
    assert_eq!(tm.read_user_word(0x10000), 41);
}

#[test]
fn zero_length_requests_cover_no_page() {
    let mut tm = booted(1, 0);
    // an aligned zero-length request rounds to an empty page range
    assert_eq!(sys_mmap(&mut tm, 0x10000, 0, 0b001), 0);
    assert!(os4::manager::find_pte(&tm, 16).is_none());
    assert_eq!(sys_munmap(&mut tm, 0x10000, 0), 0);
}

#[test]
fn round_robin_skips_exited_tasks() {
    let mut tm = booted(3, 0);
    assert_eq!(sys_exit(&mut tm, 0, 1), Some(1));
    assert_eq!(sys_yield(&mut tm, 2), 0);
    assert_eq!(tm.inner.current_task, 2);
    // task 0 is exited, so the wrap goes straight back to task 1
    assert_eq!(sys_yield(&mut tm, 3), 0);
    assert_eq!(tm.inner.current_task, 1);
    assert_eq!(tm.inner.tasks[0].task_status, TaskStatus::Exited);
}
