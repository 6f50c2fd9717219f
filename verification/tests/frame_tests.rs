use mos::err::Error;
use mos::frame::{
    frame_alloc, frame_base_phy_addr, frame_base_size, frame_dealloc, frame_decref, frame_incref, init_memory,
    num_free_frames, FrameAllocator,
};
use mos::mmu::{PhysPageNum, VirtAddr, KSEG0};
use mos::page_table::Pte;

fn boot_frames(nframes: usize, used: usize) -> FrameAllocator {
    let mut fa = FrameAllocator::new();
    fa.init(VirtAddr::new(KSEG0 + used * 4096), nframes, VirtAddr::new(KSEG0 + 0x10000));
    fa
}

fn refcount_total(fa: &FrameAllocator) -> usize {
    let mut sum = 0usize;
    for i in 0..fa.num_frames() {
        sum += fa.refcount(PhysPageNum::new(i)) as usize;
    }
    sum
}

fn free_list_of(fa: &FrameAllocator) -> Vec<usize> {
    (0..fa.num_frames()).filter(|i| fa.is_free(PhysPageNum::new(*i))).collect()
}

#[test]
fn boot_marks_kernel_frames_used() {
    let fa = boot_frames(64, 8);
    assert_eq!(fa.num_frames(), 64);
    assert_eq!(fa.num_free(), 56);
    assert_eq!(fa.refcount(PhysPageNum::new(0)), 1);
    assert_eq!(fa.refcount(PhysPageNum::new(7)), 1);
    assert_eq!(fa.refcount(PhysPageNum::new(8)), 0);
    assert!(!fa.is_free(PhysPageNum::new(7)));
    assert!(fa.is_free(PhysPageNum::new(8)));
    assert_eq!(fa.base_size(), 128);
    assert_eq!(fa.base_phy_addr().as_usize(), 0x10000);
}

#[test]
fn boot_with_partial_first_free_page() {
    let mut fa = FrameAllocator::new();
    fa.init(VirtAddr::new(KSEG0 + 3 * 4096 + 1), 16, VirtAddr::new(KSEG0));
    assert_eq!(fa.num_free(), 12);
    assert_eq!(fa.refcount(PhysPageNum::new(3)), 1);
    assert!(!fa.is_free(PhysPageNum::new(3)));
    assert_eq!(fa.refcount(PhysPageNum::new(4)), 0);
    assert_eq!(fa.allocate(), Ok(PhysPageNum::new(4)));
    let mut whole = FrameAllocator::new();
    whole.init(VirtAddr::new(KSEG0 + 3 * 4096), 16, VirtAddr::new(KSEG0));
    assert_eq!(whole.num_free(), 13);
    assert_eq!(whole.allocate(), Ok(PhysPageNum::new(3)));
    let mut none_used = FrameAllocator::new();
    none_used.init(VirtAddr::new(KSEG0), 4, VirtAddr::new(KSEG0));
    assert_eq!(none_used.num_free(), 4);
    let mut all_used = FrameAllocator::new();
    all_used.init(VirtAddr::new(KSEG0 + 4 * 4096 - 1), 4, VirtAddr::new(KSEG0));
    assert_eq!(all_used.num_free(), 0);
    assert_eq!(all_used.allocate(), Err(Error::NoMem));
}

#[test]
fn allocation_is_first_in_first_out() {
    let mut fa = boot_frames(16, 4);
    assert_eq!(fa.allocate(), Ok(PhysPageNum::new(4)));
    assert_eq!(fa.allocate(), Ok(PhysPageNum::new(5)));
    fa.dealloc(PhysPageNum::new(4));
    assert_eq!(fa.allocate(), Ok(PhysPageNum::new(6)));
    for expected in 7..16 {
        assert_eq!(fa.allocate(), Ok(PhysPageNum::new(expected)));
    }
    assert_eq!(fa.allocate(), Ok(PhysPageNum::new(4)));
}

#[test]
fn exhaustion_gives_no_mem() {
    let mut fa = boot_frames(6, 4);
    assert!(fa.allocate().is_ok());
    assert!(fa.allocate().is_ok());
    assert_eq!(fa.allocate(), Err(Error::NoMem));
    assert_eq!(fa.allocate(), Err(Error::NoMem));
    assert_eq!(fa.num_free(), 0);
}

#[test]
fn reallocated_frame_is_zeroed() {
    let mut fa = boot_frames(5, 4);
    let f = fa.allocate().unwrap();
    fa.write_entry(f, 0, Pte::new(0xDEADBEEF));
    assert_eq!(fa.read_entry(f, 0).as_usize(), 0xDEADBEEF);
    fa.dealloc(f);
    let g = fa.allocate().unwrap();
    assert_eq!(g, f);
    assert_eq!(fa.read_entry(g, 0).as_usize(), 0);
}

#[test]
fn decref_to_zero_frees_the_frame() {
    let mut fa = boot_frames(8, 4);
    let f = fa.allocate().unwrap();
    fa.incref(f);
    fa.incref(f);
    assert_eq!(fa.refcount(f), 2);
    fa.decref(f);
    assert_eq!(fa.refcount(f), 1);
    assert!(!fa.is_free(f));
    fa.decref(f);
    assert_eq!(fa.refcount(f), 0);
    assert!(fa.is_free(f));
    assert_eq!(fa.num_free(), 4);
}

#[test]
fn refcount_sum_counts_frames_in_use() {
    let mut fa = boot_frames(32, 5);
    assert_eq!(refcount_total(&fa), 32 - fa.num_free());
    let mut held = Vec::new();
    for _ in 0..10 {
        let f = fa.allocate().unwrap();
        fa.incref(f);
        held.push(f);
        assert_eq!(refcount_total(&fa), 32 - fa.num_free());
    }
    for f in held {
        fa.decref(f);
        assert_eq!(refcount_total(&fa), 32 - fa.num_free());
    }
    assert_eq!(fa.num_free(), 27);
}

#[test]
fn free_list_never_holds_a_frame_twice() {
    let mut fa = boot_frames(12, 2);
    let a = fa.allocate().unwrap();
    let b = fa.allocate().unwrap();
    fa.dealloc(b);
    fa.dealloc(a);
    let listed = free_list_of(&fa);
    assert_eq!(listed.len(), fa.num_free());
    let mut seen = Vec::new();
    while let Ok(f) = fa.allocate() {
        assert!(!seen.contains(&f));
        seen.push(f);
    }
    assert_eq!(seen.len(), 10);
    assert_eq!(seen[8], b);
    assert_eq!(seen[9], a);
}

#[test]
fn bytes_are_stored_least_significant_first() {
    let mut fa = boot_frames(4, 1);
    let f = fa.allocate().unwrap();
    fa.store_bytes(f, 6, &vec![0x11, 0x22, 0x33, 0x44], 1, 3);
    assert_eq!(fa.load_byte(f, 5), 0);
    assert_eq!(fa.load_byte(f, 6), 0x22);
    assert_eq!(fa.load_byte(f, 7), 0x33);
    assert_eq!(fa.load_byte(f, 8), 0x44);
    assert_eq!(fa.read_entry(f, 1).as_usize(), 0x3322_0000);
    assert_eq!(fa.read_entry(f, 2).as_usize(), 0x44);
    fa.store_byte(f, 6, 0xAB);
    assert_eq!(fa.read_entry(f, 1).as_usize(), 0x33AB_0000);
}

#[test]
fn free_functions_act_on_the_allocator() {
    let mut fa = FrameAllocator::new();
    init_memory(&mut fa, 64 * 4096 + 100, VirtAddr::new(KSEG0 + 2 * 4096), VirtAddr::new(KSEG0 + 4096));
    assert_eq!(num_free_frames(&fa), 62);
    assert_eq!(frame_base_size(&fa), 128);
    assert_eq!(frame_base_phy_addr(&fa).as_usize(), 4096);
    let f = frame_alloc(&mut fa).unwrap();
    assert_eq!(f, PhysPageNum::new(2));
    frame_incref(&mut fa, f);
    assert_eq!(fa.refcount(f), 1);
    frame_decref(&mut fa, f);
    assert!(fa.is_free(f));
    let g = frame_alloc(&mut fa).unwrap();
    frame_dealloc(&mut fa, g);
    assert_eq!(num_free_frames(&fa), 62);
}

#[test]
fn a_reference_takes_a_frame_off_the_free_list() {
    let mut fa = boot_frames(16, 4);
    assert_eq!(free_list_of(&fa), (4..16).collect::<Vec<usize>>());
    fa.incref(PhysPageNum::new(6));
    assert_eq!(fa.refcount(PhysPageNum::new(6)), 1);
    assert!(!fa.is_free(PhysPageNum::new(6)));
    assert_eq!(fa.num_free(), 11);
    assert_eq!(fa.allocate(), Ok(PhysPageNum::new(4)));
    assert_eq!(fa.allocate(), Ok(PhysPageNum::new(5)));
    assert_eq!(fa.allocate(), Ok(PhysPageNum::new(7)));
    frame_incref(&mut fa, PhysPageNum::new(15));
    assert_eq!(fa.num_free(), 7);
    fa.decref(PhysPageNum::new(6));
    assert!(fa.is_free(PhysPageNum::new(6)));
    assert_eq!(fa.num_free(), 8);
    let mut order = Vec::new();
    while let Ok(f) = fa.allocate() {
        order.push(f.as_usize());
    }
    assert_eq!(order, vec![8, 9, 10, 11, 12, 13, 14, 6]);
    assert_eq!(refcount_total(&fa), 4 + 1);
}

#[test]
fn releasing_a_listed_frame_moves_it_to_the_tail() {
    let mut fa = boot_frames(8, 4);
    let f = fa.allocate().unwrap();
    assert_eq!(f, PhysPageNum::new(4));
    fa.dealloc(f);
    assert_eq!(free_list_of(&fa), vec![4, 5, 6, 7]);
    fa.dealloc(f);
    assert_eq!(fa.num_free(), 4);
    frame_dealloc(&mut fa, PhysPageNum::new(6));
    assert_eq!(fa.num_free(), 4);
    let mut order = Vec::new();
    while let Ok(g) = fa.allocate() {
        order.push(g.as_usize());
    }
    assert_eq!(order, vec![5, 7, 4, 6]);
}
