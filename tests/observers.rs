use vitros_kernel::observer::{
    AllocatorObserver, CompositorObserver,
    count_free_blocks, on_allocate_hook, on_deallocate_hook, on_framebuffer_init_hook, AllocationStats,
    NoOpAllocatorObserver, NoOpObserver,
};

#[test]
fn noop_allocator_observer_is_zst() {
    assert_eq!(core::mem::size_of::<NoOpAllocatorObserver>(), 0);
}

#[test]
fn noop_observer_is_zst() {
    assert_eq!(core::mem::size_of::<NoOpObserver>(), 0);
}

#[test]
fn allocation_hooks_count_blocks_in_use() {
    let mut stats = AllocationStats::new();
    on_allocate_hook(&mut stats, 1);
    on_allocate_hook(&mut stats, 1);
    on_allocate_hook(&mut stats, 3);
    assert_eq!(stats.used(1), 2);
    assert_eq!(stats.used(3), 1);
    on_deallocate_hook(&mut stats, 1);
    assert_eq!(stats.used(1), 1);
    on_deallocate_hook(&mut stats, 0);
    assert_eq!(stats.used(0), 0);
    on_allocate_hook(&mut stats, 42);
    assert_eq!(stats.used(42), 0);
    assert_eq!(count_free_blocks(&stats, 1, 10), 9);
    assert_eq!(count_free_blocks(&stats, 3, 0), 0);
    on_framebuffer_init_hook(&mut stats, 0x8000_0000, 800, 600);
    assert_eq!(stats.used(1), 1);
}

#[test]
fn noop_observers_report_nothing() {
    assert_eq!(NoOpAllocatorObserver.count_free_blocks(3), 0);
    assert_eq!(NoOpAllocatorObserver.large_alloc_usage(), (0, 0));
    let mut o = NoOpObserver;
    assert!(!o.on_frame_start(2, 640, 480));
}
