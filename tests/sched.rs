use vitros_kernel::sched::quantum_expired;
use vitros_kernel::sched::{ms_to_ticks, Scheduler, TaskId, TaskState, WaitQueue};
use vitros_kernel::stack::{guard_page_below, is_guard_page_fault};

#[test]
fn tick_conversion() {
    assert_eq!(ms_to_ticks(100, 1000), 100);
    assert_eq!(ms_to_ticks(16, 100), 1);
    assert_eq!(ms_to_ticks(1, 1_000_000), 1000);
    assert_eq!(ms_to_ticks(u64::MAX, u64::MAX), u64::MAX);
}

#[test]
fn sleep_ordering() {
    let mut s = Scheduler::new(1000);
    let b = s.add_task(String::from("B"), 0);
    let c = s.add_task(String::from("C"), 0);
    assert_eq!(s.schedule(), Some(b));
    assert_eq!(s.sleep_ms(100), Some(c));
    assert_eq!(s.task_state(b), Some(TaskState::Sleeping));
    for _ in 0..99 {
        s.timer_tick();
        assert_eq!(s.task_state(b), Some(TaskState::Sleeping));
        assert!(!s.ready_queue().contains(&b.as_u64()));
    }
    s.timer_tick();
    assert_eq!(s.current_tick(), 100);
    assert_eq!(s.task_state(b), Some(TaskState::Ready));
    assert_eq!(s.ready_queue().as_slice(), &[b.as_u64()]);
    assert_eq!(s.schedule(), Some(b));
    assert_eq!(s.ready_queue().as_slice(), &[c.as_u64()]);
    assert_eq!(s.current_task_id(), Some(b));
}

#[test]
fn equal_nice_runs_first_in_first_out() {
    let mut s = Scheduler::new(1000);
    let a = s.add_task(String::from("a"), 5);
    let b = s.add_task(String::from("b"), 5);
    let c = s.add_task(String::from("c"), 5);
    assert_eq!(s.schedule(), Some(a));
    assert_eq!(s.schedule(), Some(b));
    assert_eq!(s.schedule(), Some(c));
    assert_eq!(s.schedule(), Some(a));
    assert_eq!(s.schedule(), Some(b));
}

#[test]
fn lower_nice_runs_first() {
    let mut s = Scheduler::new(1000);
    let slow = s.add_task(String::from("slow"), 10);
    let fast = s.add_task(String::from("fast"), -5);
    assert_eq!(s.schedule(), Some(fast));
    assert_eq!(s.schedule(), Some(fast));
    assert_eq!(s.block_current_task(), Some(slow));
    assert_eq!(s.task_state(fast), Some(TaskState::Blocked));
    assert!(s.unblock_task(fast));
    assert!(!s.unblock_task(fast));
    assert_eq!(s.schedule(), Some(fast));
}

#[test]
fn blocked_task_waits_for_unblock() {
    let mut s = Scheduler::new(1000);
    let a = s.add_task(String::from("a"), 0);
    let b = s.add_task(String::from("b"), 0);
    assert_eq!(s.schedule(), Some(a));
    assert_eq!(s.block_current_task(), Some(b));
    assert_eq!(s.schedule(), Some(b));
    assert_eq!(s.task_state(a), Some(TaskState::Blocked));
    assert!(s.unblock_task(a));
    assert_eq!(s.task_state(a), Some(TaskState::Ready));
    assert_eq!(s.schedule(), Some(a));
    assert!(!s.unblock_task(TaskId::from_u64(99)));
}

#[test]
fn empty_scheduler_runs_nothing() {
    let mut s = Scheduler::new(1000);
    assert_eq!(s.schedule(), None);
    assert_eq!(s.current_task_id(), None);
}

#[test]
fn wait_queue_wakes_in_order() {
    let mut s = Scheduler::new(1000);
    let a = s.add_task(String::from("a"), 0);
    let b = s.add_task(String::from("b"), 0);
    let c = s.add_task(String::from("c"), 0);
    let mut q = WaitQueue::new();
    assert_eq!(s.schedule(), Some(a));
    assert_eq!(q.wait(&mut s), Some(b));
    assert_eq!(q.wait(&mut s), Some(c));
    assert_eq!(s.task_state(a), Some(TaskState::Blocked));
    assert_eq!(s.task_state(b), Some(TaskState::Blocked));
    assert!(q.wake_one(&mut s));
    assert_eq!(s.task_state(a), Some(TaskState::Ready));
    assert_eq!(s.task_state(b), Some(TaskState::Blocked));
    let before = s.ready_queue().clone();
    q.wake_all(&mut s);
    assert_eq!(s.task_state(b), Some(TaskState::Ready));
    let mut expected = before;
    expected.push(b.as_u64());
    assert_eq!(s.ready_queue(), &expected);
    assert!(!q.wake_one(&mut s));
}

#[test]
fn guard_page_fault() {
    let guard = guard_page_below(0x20_0000);
    assert_eq!(guard, Some(0x1F_F000));
    assert!(is_guard_page_fault(guard, 0x1F_F000));
    assert!(is_guard_page_fault(guard, 0x1F_FFF8));
    assert!(!is_guard_page_fault(guard, 0x20_0000));
    assert!(!is_guard_page_fault(guard, 0x1F_EFFF));
    assert!(!is_guard_page_fault(None, 0x1F_F000));
    assert_eq!(guard_page_below(0x800), None);
}

use vitros_kernel::sched::{BlockingMutex, LockOutcome};

#[test]
fn blocking_mutex_parks_and_wakes_one() {
    let mut s = Scheduler::new(1000);
    let a = s.add_task(String::from("a"), 0);
    let b = s.add_task(String::from("b"), 0);
    let c = s.add_task(String::from("c"), 0);
    let mut m = BlockingMutex::new();
    assert!(m.try_lock());
    assert!(!m.try_lock());
    assert_eq!(s.schedule(), Some(a));
    assert_eq!(m.lock(&mut s), LockOutcome::Blocked { next: Some(b) });
    assert_eq!(m.lock(&mut s), LockOutcome::Blocked { next: Some(c) });
    m.unlock(&mut s);
    assert!(!m.is_locked());
    assert_eq!(s.task_state(a), Some(TaskState::Ready));
    assert_eq!(s.task_state(b), Some(TaskState::Blocked));
    assert_eq!(m.lock(&mut s), LockOutcome::Acquired);
}

#[test]
fn quantum_expiry() {
    assert!(!quantum_expired(104, 100, 5));
    assert!(quantum_expired(105, 100, 5));
    assert!(!quantum_expired(99, 100, 5));
}
