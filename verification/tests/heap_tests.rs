use mos::heap::{floor_log2_of, low_zero_bits_of, pow2_of, prev_power_of_two, Heap, HeapAllocator};

fn heap_over(start: usize, size: usize) -> Heap<32> {
    let mut h = Heap::<32>::new();
    h.init(start, size);
    h
}

fn free_lists(h: &Heap<32>) -> Vec<(usize, Vec<usize>)> {
    (0..32).filter(|c| !h.free_blocks(*c).is_empty()).map(|c| (c, h.free_blocks(c).clone())).collect()
}

#[test]
fn powers_and_logarithms() {
    assert_eq!(pow2_of(0), 1);
    assert_eq!(pow2_of(12), 4096);
    assert_eq!(pow2_of(31), 0x8000_0000);
    assert_eq!(prev_power_of_two(1), 1);
    assert_eq!(prev_power_of_two(4095), 2048);
    assert_eq!(prev_power_of_two(4096), 4096);
    assert_eq!(prev_power_of_two(0xffff_ffff), 0x8000_0000);
    assert_eq!(floor_log2_of(1000), (9, 512));
    assert_eq!(low_zero_bits_of(0x0030_0000), (20, 0x0010_0000));
    assert_eq!(low_zero_bits_of(7), (0, 1));
}

#[test]
fn memory_is_cut_into_aligned_blocks() {
    let h = heap_over(0x1000, 0x1000);
    assert_eq!(free_lists(&h), vec![(12, vec![0x1000])]);
    assert_eq!(h.stats_total_bytes(), 0x1000);
    let h = heap_over(0x1004, 0x1c);
    assert_eq!(free_lists(&h), vec![(2, vec![0x1004]), (3, vec![0x1008]), (4, vec![0x1010])]);
    assert_eq!(h.stats_total_bytes(), 0x1c);
    let h = heap_over(0x1001, 0x0e);
    assert_eq!(free_lists(&h), vec![(2, vec![0x1004, 0x1008])]);
    assert_eq!(h.stats_total_bytes(), 8);
    let h = heap_over(0x1000, 2);
    assert!(free_lists(&h).is_empty());
    assert_eq!(h.stats_total_bytes(), 0);
}

#[test]
fn allocation_splits_the_smallest_block_that_fits() {
    let mut h = heap_over(0x1000, 0x1000);
    assert_eq!(h.allocate(100, 8), Ok(0x1000));
    assert_eq!(h.stats_alloc_user(), 100);
    assert_eq!(h.stats_alloc_actual(), 128);
    assert_eq!(
        free_lists(&h),
        vec![(7, vec![0x1080]), (8, vec![0x1100]), (9, vec![0x1200]), (10, vec![0x1400]), (11, vec![0x1800])]
    );
    assert_eq!(h.allocate(1, 1), Ok(0x1080));
    assert_eq!(h.stats_alloc_actual(), 132);
    assert_eq!(h.allocate(16, 256), Ok(0x1100));
    assert_eq!(h.allocate(0x1000, 4), Err(()));
    assert_eq!(h.allocate(0x800, 4), Ok(0x1800));
    assert_eq!(h.allocate(0x800, 4), Err(()));
    assert_eq!(h.stats_alloc_user(), 100 + 1 + 16 + 0x800);
}

#[test]
fn freed_buddies_are_joined() {
    let mut h = heap_over(0x1000, 0x1000);
    let a = h.allocate(1024, 4).unwrap();
    let b = h.allocate(1024, 4).unwrap();
    let c = h.allocate(1024, 4).unwrap();
    assert_eq!((a, b, c), (0x1000, 0x1400, 0x1800));
    h.dealloc(a, 1024, 4);
    assert_eq!(free_lists(&h), vec![(10, vec![0x1c00, 0x1000])]);
    h.dealloc(c, 1024, 4);
    assert_eq!(free_lists(&h), vec![(10, vec![0x1000]), (11, vec![0x1800])]);
    h.dealloc(b, 1024, 4);
    assert_eq!(free_lists(&h), vec![(12, vec![0x1000])]);
    assert_eq!(h.stats_alloc_user(), 0);
    assert_eq!(h.stats_alloc_actual(), 0);
    assert_eq!(h.stats_total_bytes(), 0x1000);
}

#[test]
fn the_block_freed_last_is_handed_out_first() {
    let mut h = heap_over(0x1000, 0x1000);
    let a = h.allocate(64, 4).unwrap();
    let _b = h.allocate(64, 4).unwrap();
    let c = h.allocate(64, 4).unwrap();
    let _d = h.allocate(64, 4).unwrap();
    h.dealloc(a, 64, 4);
    h.dealloc(c, 64, 4);
    assert_eq!(h.allocate(64, 4), Ok(c));
    assert_eq!(h.allocate(64, 4), Ok(a));
}

#[test]
fn requests_beyond_the_largest_class_fail() {
    let mut h = Heap::<8>::empty();
    h.init(0x100, 0x80);
    assert_eq!(h.allocate(256, 4), Err(()));
    assert_eq!(h.allocate(4, 256), Err(()));
    assert_eq!(h.allocate(128, 4), Ok(0x100));
}

#[test]
fn the_kernel_allocator_wraps_a_heap() {
    let mut a = HeapAllocator::<32>::empty();
    a.init(0x8040_0000, 0x10_0000);
    assert_eq!(a.0.stats_total_bytes(), 0x10_0000);
    assert_eq!(a.0.allocate(0x8000, 4096), Ok(0x8040_0000));
    assert_eq!(a.0.allocate(204 * 1024, 4), Ok(0x8044_0000));
}
