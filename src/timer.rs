use vstd::prelude::*;

verus! {

/// A hardware timer that can wait.
pub trait TimerDevice {
    fn is_available(&self) -> bool;

    /// Ticks per second.
    fn frequency(&self) -> u64;

    fn delay_ns(&self, ns: u64);
}

/// A timer that can also tell how much time has passed.
pub trait ElapsedTimer: TimerDevice {
    fn elapsed_ns(&self) -> u64;
}

/// Nanoseconds in `us` microseconds, saturating.
pub fn us_to_ns(us: u64) -> (r: u64)
    ensures
        r == if us as int * 1000 <= u64::MAX { us as int * 1000 } else { u64::MAX as int },
{
    if us > u64::MAX / 1000 {
        u64::MAX
    } else {
        us * 1000
    }
}

/// Nanoseconds in `ms` milliseconds, saturating.
pub fn ms_to_ns(ms: u64) -> (r: u64)
    ensures
        r == if ms as int * 1_000_000 <= u64::MAX { ms as int * 1_000_000 } else { u64::MAX as int },
{
    if ms > u64::MAX / 1_000_000 {
        u64::MAX
    } else {
        ms * 1_000_000
    }
}

/// Waits `us` microseconds on `timer`.
pub fn delay_us<T: TimerDevice>(timer: &T, us: u64) {
    timer.delay_ns(us_to_ns(us));
}

/// Waits `ms` milliseconds on `timer`.
pub fn delay_ms<T: TimerDevice>(timer: &T, ms: u64) {
    timer.delay_ns(ms_to_ns(ms));
}

/// Whole microseconds elapsed on `timer`.
pub fn elapsed_us<T: ElapsedTimer>(timer: &T) -> u64 {
    timer.elapsed_ns() / 1000
}

/// Whole milliseconds elapsed on `timer`.
pub fn elapsed_ms<T: ElapsedTimer>(timer: &T) -> u64 {
    timer.elapsed_ns() / 1_000_000
}

} // verus!
