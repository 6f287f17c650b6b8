use vstd::prelude::*;
use crate::buffer::DrawCommand;
use crate::heap::NUM_SIZE_CLASSES;
use crate::region::Region;

verus! {

/// Watches the heap's allocations and frees; every method does nothing
/// unless an implementation says otherwise.
pub trait AllocatorObserver {
    /// What the observer reports as free blocks of a size class.
    spec fn spec_free_blocks(&self, class_idx: usize) -> usize;

    /// What the observer reports as `(used, total)` bytes of the large-block tier.
    spec fn spec_large_usage(&self) -> (usize, usize);

    fn on_allocate(&self, class_idx: usize, ptr: usize) {
    }

    fn on_deallocate(&self, class_idx: usize, ptr: usize) {
    }

    /// Free blocks of a size class.
    fn count_free_blocks(&self, class_idx: usize) -> (r: usize)
        ensures
            r == self.spec_free_blocks(class_idx),
    ;

    /// `(used, total)` bytes of the large-block tier.
    fn large_alloc_usage(&self) -> (r: (usize, usize))
        ensures
            r == self.spec_large_usage(),
    ;
}

/// The observer that watches nothing.
#[derive(Debug, Clone, Copy, Default)]
pub struct NoOpAllocatorObserver;

impl AllocatorObserver for NoOpAllocatorObserver {
    open spec fn spec_free_blocks(&self, class_idx: usize) -> usize {
        0
    }

    open spec fn spec_large_usage(&self) -> (usize, usize) {
        (0, 0)
    }

    fn count_free_blocks(&self, class_idx: usize) -> (r: usize) {
        0
    }

    fn large_alloc_usage(&self) -> (r: (usize, usize)) {
        (0, 0)
    }
}

/// Watches the phases of the compositor; every method does nothing unless
/// an implementation says otherwise.
pub trait CompositorObserver {
    fn on_buffer_registered(&mut self, buffer_index: usize) {
    }

    /// Whether the observer takes over the rendering of frames.
    spec fn spec_skips_rendering(&self) -> bool;

    /// Called as a frame starts; `true` asks the compositor to skip its own
    /// rendering for that frame.
    fn on_frame_start(&mut self, buffer_count: usize, width: u32, height: u32) -> (r: bool)
        ensures
            r == old(self).spec_skips_rendering(),
    ;

    fn on_command_processed(&mut self, buffer_idx: usize, region: &Region, cmd: &DrawCommand) {
    }

    fn on_blit_complete(&mut self) {
    }
}

/// The observer that watches nothing.
#[derive(Debug, Clone, Copy, Default)]
pub struct NoOpObserver;

impl CompositorObserver for NoOpObserver {
    open spec fn spec_skips_rendering(&self) -> bool {
        false
    }

    fn on_frame_start(&mut self, buffer_count: usize, width: u32, height: u32) -> (r: bool) {
        false
    }
}

/// Blocks in use per slab class, as counted by the allocation hooks, and
/// the frame buffer the occupancy view draws into.
pub struct AllocationStats {
    used: Vec<usize>,
    fb_base: u64,
    screen_width: u32,
    screen_height: u32,
}

impl AllocationStats {
    pub closed spec fn spec_used(&self) -> Seq<usize> {
        self.used@
    }

    pub closed spec fn spec_screen(&self) -> (u64, u32, u32) {
        (self.fb_base, self.screen_width, self.screen_height)
    }

    pub fn new() -> (r: AllocationStats)
        ensures
            r.spec_used().len() == NUM_SIZE_CLASSES,
            forall|c: int| 0 <= c < NUM_SIZE_CLASSES ==> #[trigger] r.spec_used()[c] == 0,
            r.spec_screen() == (0u64, 0u32, 0u32),
    {
        let mut used: Vec<usize> = Vec::new();
        let mut c: usize = 0;
        while c < NUM_SIZE_CLASSES
            invariant
                c <= NUM_SIZE_CLASSES,
                used@.len() == c,
                forall|j: int| 0 <= j < c ==> #[trigger] used@[j] == 0,
            decreases NUM_SIZE_CLASSES - c,
        {
            used.push(0);
            c = c + 1;
        }
        AllocationStats { used, fb_base: 0, screen_width: 0, screen_height: 0 }
    }

    /// Blocks in use in class `class_idx`.
    pub fn used(&self, class_idx: usize) -> (r: usize)
        ensures
            class_idx < self.spec_used().len() ==> r == self.spec_used()[class_idx as int],
            class_idx >= self.spec_used().len() ==> r == 0,
    {
        if class_idx < self.used.len() {
            self.used[class_idx]
        } else {
            0
        }
    }
}

/// Counts one more block in use in class `class_idx` (saturating); an
/// unknown class is ignored.
pub fn on_allocate_hook(stats: &mut AllocationStats, class_idx: usize)
    ensures
        final(stats).spec_used().len() == old(stats).spec_used().len(),
        final(stats).spec_screen() == old(stats).spec_screen(),
        class_idx < old(stats).spec_used().len() ==> final(stats).spec_used() == old(stats).spec_used().update(
            class_idx as int,
            if old(stats).spec_used()[class_idx as int] < usize::MAX { (old(stats).spec_used()[class_idx as int] + 1) as usize } else { usize::MAX },
        ),
        class_idx >= old(stats).spec_used().len() ==> final(stats).spec_used() == old(stats).spec_used(),
{
    if class_idx < stats.used.len() {
        let n = stats.used[class_idx];
        let m = if n < usize::MAX { n + 1 } else { usize::MAX };
        stats.used.set(class_idx, m);
    }
}

/// Counts one block fewer in use in class `class_idx`, never below zero; an
/// unknown class is ignored.
pub fn on_deallocate_hook(stats: &mut AllocationStats, class_idx: usize)
    ensures
        final(stats).spec_used().len() == old(stats).spec_used().len(),
        final(stats).spec_screen() == old(stats).spec_screen(),
        class_idx < old(stats).spec_used().len() ==> final(stats).spec_used() == old(stats).spec_used().update(
            class_idx as int,
            if old(stats).spec_used()[class_idx as int] > 0 { (old(stats).spec_used()[class_idx as int] - 1) as usize } else { 0 },
        ),
        class_idx >= old(stats).spec_used().len() ==> final(stats).spec_used() == old(stats).spec_used(),
{
    if class_idx < stats.used.len() {
        let n = stats.used[class_idx];
        let m = if n > 0 { n - 1 } else { 0 };
        stats.used.set(class_idx, m);
    }
}

/// Records the frame buffer the occupancy view draws into.
pub fn on_framebuffer_init_hook(stats: &mut AllocationStats, fb_base: u64, width: u32, height: u32)
    ensures
        final(stats).spec_screen() == (fb_base, width, height),
        final(stats).spec_used() == old(stats).spec_used(),
{
    stats.fb_base = fb_base;
    stats.screen_width = width;
    stats.screen_height = height;
}

/// Free blocks of class `class_idx` out of `total_blocks`: those not counted
/// as in use, never below zero.
pub fn count_free_blocks(stats: &AllocationStats, class_idx: usize, total_blocks: usize) -> (r: usize)
    ensures
        class_idx < stats.spec_used().len() ==> r == if total_blocks >= stats.spec_used()[class_idx as int] {
            (total_blocks - stats.spec_used()[class_idx as int]) as usize
        } else {
            0
        },
        class_idx >= stats.spec_used().len() ==> r == total_blocks,
{
    let used = stats.used(class_idx);
    if total_blocks >= used {
        total_blocks - used
    } else {
        0
    }
}

} // verus!
