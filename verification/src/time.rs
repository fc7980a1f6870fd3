//! Timer arithmetic and decisions for the browser, where timers are
//! scheduled with `setTimeout`, which takes a signed 32-bit delay in
//! milliseconds.

use vstd::prelude::*;

verus! {

/// The farthest a timer is scheduled ahead, in milliseconds: `i32::MAX`,
/// about 24.8 days.
pub const FAR_FUTURE_MILLIS: u64 = 2147483647;

/// A duration in milliseconds as a timer delay: durations beyond
/// `i32::MAX` milliseconds are cut to it.
pub fn dur_to_millis(millis: u128) -> (r: i32)
    ensures
        r == (if millis <= i32::MAX as u128 {
            millis as int
        } else {
            i32::MAX as int
        }),
{
    if millis <= 2147483647u128 {
        millis as i32
    } else {
        i32::MAX
    }
}

/// The delay of a timer for a deadline: `remaining` is the time from now
/// to the deadline in milliseconds, or `None` when the deadline has passed,
/// in which case the timer fires at once.
pub fn timer_delay(remaining: Option<u128>) -> (r: i32)
    ensures
        r >= 0,
        remaining is None ==> r == 0,
        remaining matches Some(ms) ==> r == (if ms <= i32::MAX as u128 {
            ms as int
        } else {
            i32::MAX as int
        }),
{
    match remaining {
        Some(ms) => dur_to_millis(ms),
        None => 0,
    }
}

/// The error of a timeout whose deadline passed first.
#[derive(Debug, Clone, Copy, PartialEq, Eq, Structural)]
pub struct Elapsed;

impl Elapsed {
    /// The error's text.
    pub fn message(&self) -> (r: &'static str)
        ensures
            r@ == "deadline has elapsed"@,
    {
        "deadline has elapsed"
    }
}

/// One poll of a timeout: the wrapped future is asked first, so a future
/// that completes together with the deadline still wins.  `inner` is the
/// future's output if it completed; `elapsed` whether the sleep fired.
/// `None` means the timeout is still pending.
pub fn timeout_poll<T>(inner: Option<T>, elapsed: bool) -> (r: Option<Result<T, Elapsed>>)
    ensures
        inner matches Some(v) ==> r == Some(Ok::<T, Elapsed>(v)),
        inner is None && elapsed ==> r == Some(Err::<T, Elapsed>(Elapsed)),
        inner is None && !elapsed ==> r is None,
{
    match inner {
        Some(v) => Some(Ok(v)),
        None => if elapsed {
            Some(Err(Elapsed))
        } else {
            None
        },
    }
}

} // verus!
