use os4::addr::{page_aligned, page_ceil, page_floor, page_offset};
use os4::config::{MAX_SYSCALL_NUM, PAGE_SIZE, WORD_SIZE};
use os4::memory_set::MemorySet;
use os4::page_table::{perm_of_port, valid_port};
use os4::phys::PhysMemory;
use os4::task::{TaskControlBlock, TaskStatus};

#[test]
fn page_arithmetic_exact_values() {
    assert_eq!(page_floor(0), 0);
    assert_eq!(page_floor(4095), 0);
    assert_eq!(page_floor(4096), 1);
    assert_eq!(page_floor(0x10000), 16);
    assert_eq!(page_ceil(0), 0);
    assert_eq!(page_ceil(1), 1);
    assert_eq!(page_ceil(4096), 1);
    assert_eq!(page_ceil(4097), 2);
    assert_eq!(page_offset(0x10008), 8);
    assert!(page_aligned(0));
    assert!(page_aligned(0x10000));
    assert!(!page_aligned(0x10001));
    assert_eq!(PAGE_SIZE, 4096);
}

#[test]
fn zero_length_range_spans_no_page() {
    // a zero-length byte range starting at an aligned address covers no page
    assert_eq!(page_floor(0x2000), page_ceil(0x2000));
    // but an unaligned zero-length range still sits inside one page
    assert_eq!(page_floor(0x2001), 2);
    assert_eq!(page_ceil(0x2001), 3);
}

#[test]
fn port_validation() {
    assert!(!valid_port(0));
    assert!(valid_port(0b001));
    assert!(valid_port(0b010));
    assert!(valid_port(0b011));
    assert!(valid_port(0b111));
    assert!(!valid_port(0b1000));
    assert!(!valid_port(0b1011));
    assert!(!valid_port(1 << 63 | 1));
    let p = perm_of_port(0b011);
    assert!(p.readable && p.writable && !p.executable && p.user);
}

#[test]
fn memory_set_map_find_translate_unmap() {
    let mut phys = PhysMemory::new();
    let mut ms = MemorySet::new(7);
    assert!(ms.find_pte(16).is_none());
    assert!(ms.translate(0x10000).is_none());

    ms.insert_framed_area(&mut phys, 16, 18, perm_of_port(0b011));
    let pte = ms.find_pte(16).expect("page 16 mapped");
    assert_eq!(pte.ppn(), 0);
    assert!(pte.perm.readable && pte.perm.writable && pte.perm.user);
    let pte17 = ms.find_pte(17).expect("page 17 mapped");
    assert_eq!(pte17.ppn, 1);
    assert!(ms.find_pte(18).is_none());

    // translation: frame base plus in-page offset
    assert_eq!(ms.translate(0x10000 + 12), Some(12));
    assert_eq!(ms.translate(0x11000 + 8), Some(4096 + 8));

    ms.unmap(16, 18);
    assert!(ms.find_pte(16).is_none());
    assert!(ms.find_pte(17).is_none());
    assert!(ms.translate(0x10000).is_none());
}

#[test]
fn fresh_frames_are_zeroed() {
    let mut phys = PhysMemory::new();
    let ppn = phys.alloc_frame();
    assert_eq!(ppn, 0);
    for w in 0..4 {
        assert_eq!(phys.read_word(w * WORD_SIZE), 0);
    }
    phys.write_word(16, 0xdead);
    assert_eq!(phys.read_word(16), 0xdead);
    assert_eq!(phys.read_word(8), 0);
}

#[test]
fn task_control_block_starts_ready_with_zero_counters() {
    let t = TaskControlBlock::new(3);
    assert_eq!(t.task_status, TaskStatus::Ready);
    assert_eq!(t.get_user_token(), 3);
    assert_eq!(t.syscall_times.len(), MAX_SYSCALL_NUM);
    assert!(t.syscall_times.iter().all(|&c| c == 0));
    assert!(t.start_time.is_none());
}
