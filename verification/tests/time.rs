use helix_wasm::time::{dur_to_millis, timeout_poll, timer_delay, Elapsed, FAR_FUTURE_MILLIS};

#[test]
fn delays_are_cut_to_i32_max() {
    assert_eq!(dur_to_millis(0), 0);
    assert_eq!(dur_to_millis(1500), 1500);
    assert_eq!(dur_to_millis(2147483647), i32::MAX);
    assert_eq!(dur_to_millis(2147483648), i32::MAX);
    assert_eq!(dur_to_millis(u128::MAX), i32::MAX);
    assert_eq!(FAR_FUTURE_MILLIS, i32::MAX as u64);
}

#[test]
fn past_deadlines_fire_at_once() {
    assert_eq!(timer_delay(None), 0);
    assert_eq!(timer_delay(Some(250)), 250);
    assert_eq!(timer_delay(Some(1u128 << 40)), i32::MAX);
}

#[test]
fn timeout_prefers_the_future() {
    assert_eq!(timeout_poll(Some(3), true), Some(Ok(3)));
    assert_eq!(timeout_poll(Some(3), false), Some(Ok(3)));
    assert_eq!(timeout_poll::<u8>(None, true), Some(Err(Elapsed)));
    assert_eq!(timeout_poll::<u8>(None, false), None);
    assert_eq!(Elapsed.message(), "deadline has elapsed");
}
