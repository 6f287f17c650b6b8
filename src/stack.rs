use vstd::prelude::*;
use crate::paging::PAGE_SIZE;

verus! {

/// Whether a page fault at `fault_addr` hit the guard page below the kernel
/// stack, the page starting at `guard_page` (none when there is no guard).
pub fn is_guard_page_fault(guard_page: Option<u64>, fault_addr: u64) -> (r: bool)
    ensures
        r == match guard_page {
            Some(g) => g <= fault_addr < g + PAGE_SIZE,
            None => false,
        },
{
    match guard_page {
        Some(guard_addr) => fault_addr >= guard_addr && fault_addr - guard_addr < PAGE_SIZE,
        None => false,
    }
}

/// The guard page of a stack whose lowest byte is at `stack_bottom`: the
/// page right below it; none when the stack starts in the first page.
pub fn guard_page_below(stack_bottom: u64) -> (r: Option<u64>)
    ensures
        stack_bottom >= PAGE_SIZE ==> r == Some((stack_bottom - PAGE_SIZE) as u64),
        stack_bottom < PAGE_SIZE ==> r is None,
{
    if stack_bottom >= PAGE_SIZE {
        Some(stack_bottom - PAGE_SIZE)
    } else {
        None
    }
}

} // verus!
