use vitros_kernel::heap::{
    align_down, align_up, max_order_for_size, order_to_size, size_to_class, size_to_order, BuddyAllocator,
    KernelAllocator, Layout, SlabCache,
};

const HEAP_START: usize = 0x0100_0000;
const HEAP_SIZE: usize = 0x0400_0000;

fn heap() -> KernelAllocator {
    let mut h = KernelAllocator::new();
    h.init(HEAP_START, HEAP_SIZE);
    h
}

#[test]
fn size_classes_follow_powers_of_two() {
    assert_eq!(size_to_class(0), Some(0));
    assert_eq!(size_to_class(1), Some(0));
    assert_eq!(size_to_class(8), Some(0));
    assert_eq!(size_to_class(9), Some(1));
    assert_eq!(size_to_class(12), Some(1));
    assert_eq!(size_to_class(200), Some(5));
    assert_eq!(size_to_class(256), Some(5));
    assert_eq!(size_to_class(2049), Some(9));
    assert_eq!(size_to_class(4096), Some(9));
    assert_eq!(size_to_class(4097), None);
}

#[test]
fn every_size_up_to_a_page_has_a_class() {
    for size in 0..=4096usize {
        let c = size_to_class(size).unwrap();
        assert!(size <= 8usize << c);
        assert!(c == 0 || size > 8usize << (c - 1));
        assert_eq!(size_to_class(size), Some(c));
    }
}

#[test]
fn buddy_orders_and_sizes() {
    assert_eq!(size_to_order(1), 0);
    assert_eq!(size_to_order(4096), 0);
    assert_eq!(size_to_order(4097), 1);
    assert_eq!(size_to_order(8192), 1);
    assert_eq!(size_to_order(0x10_0000), 8);
    assert_eq!(size_to_order(0x100_0000), 12);
    assert_eq!(size_to_order(0x100_0001), 13);
    assert_eq!(size_to_order(0x400_0000), 14);
    assert_eq!(size_to_order(usize::MAX), 52);
    assert_eq!(order_to_size(0), 4096);
    assert_eq!(order_to_size(12), 0x100_0000);
    assert_eq!(max_order_for_size(4095), 0);
    assert_eq!(max_order_for_size(12288), 1);
    assert_eq!(max_order_for_size(0x400_0000), 12);
}

#[test]
fn alignment_helpers() {
    assert_eq!(align_up(0x1001, 0x1000), 0x2000);
    assert_eq!(align_up(0x2000, 0x1000), 0x2000);
    assert_eq!(align_down(0x1fff, 0x1000), 0x1000);
    assert_eq!(align_down(0x2000, 0x1000), 0x2000);
}

#[test]
fn heap_dispatch() {
    let mut h = heap();
    let small = Layout::from_size_align(12, 1);
    let before = h.slab_free_count(1);
    let p = h.allocate(small).unwrap();
    assert_eq!(p % 16, 0);
    assert!(p < h.buddy().region_start());
    assert_eq!(h.slab_free_count(1), before - 1);
    h.deallocate(p, small);
    assert_eq!(h.slab_free_count(1), before);

    let mid = Layout::from_size_align(200, 1);
    let before256 = h.slab_free_count(5);
    let q = h.allocate(mid).unwrap();
    assert_eq!(q % 256, 0);
    assert_eq!(h.slab_free_count(5), before256 - 1);

    let big = Layout::from_size_align(8192, 8);
    let start = h.buddy().region_start();
    let r = h.allocate(big).unwrap();
    assert!(r >= start);
    assert_eq!((r - start) % 8192, 0);
    assert_eq!(r % 8, 0);
}

#[test]
fn slab_push_then_pop_returns_the_same_block() {
    let mut cache = SlabCache::new(64);
    cache.add_slab(0x1000, 64 * 4);
    cache.deallocate(0x9000);
    assert_eq!(cache.allocate(), Some(0x9000));
    assert_eq!(cache.allocate(), Some(0x1000 + 3 * 64));
}

#[test]
fn slab_blocks_are_reused_last_in_first_out() {
    let mut h = heap();
    let layout = Layout::from_size_align(24, 8);
    let a = h.allocate(layout).unwrap();
    let b = h.allocate(layout).unwrap();
    assert_ne!(a, b);
    h.deallocate(a, layout);
    assert_eq!(h.allocate(layout), Some(a));
}

#[test]
fn allocations_are_aligned_and_large_enough() {
    let mut h = heap();
    for &(size, align) in &[(1usize, 1usize), (7, 8), (33, 16), (100, 64), (3000, 4096), (5000, 8), (70000, 4096)] {
        let layout = Layout::from_size_align(size, align);
        let p = h.allocate(layout).unwrap();
        assert_eq!(p % align, 0);
        assert_eq!(p % 8, 0);
    }
}

fn total_free(h: &KernelAllocator) -> usize {
    let mut total = 0;
    for c in 0..10 {
        total += h.slab_free_count(c) * (8usize << c);
    }
    for k in 0..13 {
        total += h.buddy().count_free_blocks(k) * order_to_size(k);
    }
    total
}

#[test]
fn alloc_then_free_restores_free_capacity() {
    let mut h = heap();
    let start = total_free(&h);
    for &(size, align) in &[(12usize, 1usize), (4096, 4096), (8192, 8), (0x30_0000, 16)] {
        let layout = Layout::from_size_align(size, align);
        let p = h.allocate(layout).unwrap();
        assert!(total_free(&h) < start);
        h.deallocate(p, layout);
        assert_eq!(total_free(&h), start);
    }
}

#[test]
fn zero_size_free_is_ignored() {
    let mut h = heap();
    let start = total_free(&h);
    h.deallocate(0x1234, Layout::from_size_align(0, 1));
    assert_eq!(total_free(&h), start);
}

#[test]
fn exhausted_heap_returns_none() {
    let mut h = KernelAllocator::new();
    h.init(0x10_0000, 0x4000);
    assert_eq!(h.allocate(Layout::from_size_align(0x100_0000, 8)), None);
    assert_eq!(h.allocate(Layout::from_size_align(0x200_0000, 8)), None);
}

#[test]
fn buddy_coalescing() {
    let mut b = BuddyAllocator::new();
    b.init(0x40_0000, 0x40_0000);
    assert_eq!(b.count_free_blocks(10), 1);
    for k in 0..13 {
        if k != 10 {
            assert_eq!(b.count_free_blocks(k), 0);
        }
    }
    let mb = Layout::from_size_align(0x10_0000, 8);
    let blocks: Vec<usize> = (0..4).map(|_| b.allocate(mb).unwrap()).collect();
    assert_eq!(b.count_free_blocks(10), 0);
    for k in 0..13 {
        assert_eq!(b.count_free_blocks(k), 0);
    }
    for &p in blocks.iter().rev() {
        b.deallocate(p, mb);
    }
    assert_eq!(b.count_free_blocks(10), 1);
    assert_eq!(b.free_blocks(10)[0], 0x40_0000);
    assert_eq!(b.count_free_blocks(8), 0);
    assert_eq!(b.count_free_blocks(9), 0);
}

#[test]
fn freeing_next_to_a_free_buddy_merges_both() {
    let mut b = BuddyAllocator::new();
    b.init(0x10_0000, 0x2000);
    assert_eq!(b.count_free_blocks(1), 1);
    let page = Layout::from_size_align(4096, 8);
    let first = b.allocate(page).unwrap();
    assert_eq!(first, 0x10_0000);
    assert_eq!(b.free_blocks(0).as_slice(), &[0x10_1000]);
    assert_eq!(b.buddy_address(first, 0), 0x10_1000);
    b.deallocate(first, page);
    assert_eq!(b.count_free_blocks(0), 0);
    assert_eq!(b.free_blocks(1).as_slice(), &[0x10_0000]);
}

#[test]
fn split_frees_upper_halves() {
    let mut b = BuddyAllocator::new();
    b.init(0x100_0000, 0x4000);
    let page = Layout::from_size_align(1, 1);
    let p = b.allocate(page).unwrap();
    assert_eq!(p, 0x100_0000);
    assert_eq!(b.free_blocks(1).as_slice(), &[0x100_2000]);
    assert_eq!(b.free_blocks(0).as_slice(), &[0x100_1000]);
}

#[test]
fn buddy_region_is_trimmed_to_pages() {
    let mut b = BuddyAllocator::new();
    b.init(0x1001, 0x5000);
    assert_eq!(b.region_start(), 0x2000);
    assert_eq!(b.region_size(), 0x4000);
    assert_eq!(b.free_blocks(2).as_slice(), &[0x2000usize]);
    assert_eq!(b.count_free_blocks(0), 0);
}

#[test]
fn large_alignments_are_honoured() {
    let mut h = heap();
    for &(size, align) in &[(8192usize, 8192usize), (4096, 0x10_0000), (0x20_0000, 0x20_0000), (100, 0x4000)] {
        let p = h.allocate(Layout::from_size_align(size, align)).unwrap();
        assert_eq!(p % align, 0);
    }
}

#[test]
fn heap_init_fills_every_slab_class() {
    let h = heap();
    let share = HEAP_SIZE / 2 / 10;
    for c in 0..10 {
        let size = 8usize << c;
        let base = HEAP_START + c * share;
        let start = (base + size - 1) / size * size;
        assert_eq!(h.slab_free_count(c), (base + share - start) / size);
    }
    assert_eq!(h.buddy().region_start(), 0x300_0000);
    assert_eq!(h.buddy().region_size(), 0x200_0000);
}

#[test]
fn buddy_region_starts_on_a_sixteen_mib_boundary() {
    let mut h = KernelAllocator::new();
    h.init(0x10_0000, 0x300_0000);
    assert_eq!(h.buddy().region_start(), 0x200_0000);
    assert_eq!(h.buddy().region_size(), 0x110_0000);
}
