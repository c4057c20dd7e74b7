//! Timer wheel and provided-buffer-ring bookkeeping tests.

use uring_driver::bufring::{
    classify_register_error, BufRingState, CheckoutError, RegisterError, EEXIST, EINVAL,
};
use uring_driver::driver::{kernel_timeout_needed, split_nanos, want_completions, DriverCore};
use uring_driver::timer::TimerWheel;

#[test]
fn timer_ids_are_monotonic() {
    let mut wheel: TimerWheel<u64> = TimerWheel::new();
    assert_eq!(wheel.insert(10, 100), 0);
    assert_eq!(wheel.insert(10, 101), 1);
    assert_eq!(wheel.insert(20, 102), 2);
}

#[test]
fn due_timers_fire_in_one_batch() {
    // two timers with deadlines 60 and 50, inserted in that order, are both
    // past deadline at 100: one processing pass delivers both wakers
    // together, in ascending deadline order
    let mut wheel: TimerWheel<u64> = TimerWheel::new();
    wheel.insert(60, 601);
    wheel.insert(50, 501);
    let mut wakers: Vec<u64> = Vec::new();
    let dur = wheel.process(100, &mut wakers);
    assert_eq!(dur, Some(0));
    assert_eq!(wakers, vec![501, 601]);
    // nothing is left armed
    let mut again: Vec<u64> = Vec::new();
    assert_eq!(wheel.process(100, &mut again), None);
    assert!(again.is_empty());
}

#[test]
fn equal_deadlines_fire_in_id_order() {
    // equal deadlines tie-break by the monotonic id, so insertion order wins
    let mut wheel: TimerWheel<u64> = TimerWheel::new();
    wheel.insert(50, 1);
    wheel.insert(50, 2);
    wheel.insert(50, 3);
    let mut wakers: Vec<u64> = Vec::new();
    assert_eq!(wheel.process(100, &mut wakers), Some(0));
    assert_eq!(wakers, vec![1, 2, 3]);
}

#[test]
fn zero_duration_timer_requests_zero_completions() {
    // a timer at or before now forces a zero sleep, so the next wait asks
    // the kernel for no completions
    let mut wheel: TimerWheel<u64> = TimerWheel::new();
    wheel.insert(100, 7);
    let mut wakers: Vec<u64> = Vec::new();
    let dur = wheel.process(100, &mut wakers);
    assert_eq!(dur, Some(0));
    assert_eq!(want_completions(dur), 0);
    // a deadline exactly at now is not yet strictly past: it fires next turn
    assert!(wakers.is_empty());
    let mut later: Vec<u64> = Vec::new();
    let dur2 = wheel.process(101, &mut later);
    assert_eq!(dur2, Some(0));
    assert_eq!(later, vec![7]);

    let mut wheel2: TimerWheel<u64> = TimerWheel::new();
    wheel2.insert(90, 8);
    let mut fired: Vec<u64> = Vec::new();
    let dur3 = wheel2.process(100, &mut fired);
    assert_eq!(dur3, Some(0));
    assert_eq!(want_completions(dur3), 0);
    assert_eq!(fired, vec![8]);
}

#[test]
fn pending_timer_reports_gap_to_deadline() {
    let mut wheel: TimerWheel<u64> = TimerWheel::new();
    wheel.insert(250, 1);
    wheel.insert(180, 2);
    let mut wakers: Vec<u64> = Vec::new();
    let dur = wheel.process(100, &mut wakers);
    assert_eq!(dur, Some(80));
    assert!(wakers.is_empty());
}

#[test]
fn removed_timer_does_not_fire() {
    let mut wheel: TimerWheel<u64> = TimerWheel::new();
    let id = wheel.insert(50, 9);
    wheel.remove(50, id);
    let mut wakers: Vec<u64> = Vec::new();
    assert_eq!(wheel.process(100, &mut wakers), None);
    assert!(wakers.is_empty());
}

#[test]
fn removal_of_unknown_timer_is_noop() {
    let mut wheel: TimerWheel<u64> = TimerWheel::new();
    wheel.insert(50, 9);
    wheel.remove(51, 17);
    let mut wakers: Vec<u64> = Vec::new();
    assert_eq!(wheel.process(100, &mut wakers), Some(0));
    assert_eq!(wakers, vec![9]);
}

#[test]
fn batch_threshold_drains_eagerly() {
    // a bursty workload queues many inserts; the wheel stays consistent
    // through the threshold drain and fires them all
    let mut wheel: TimerWheel<u64> = TimerWheel::new();
    for i in 0..1500u64 {
        wheel.insert(10 + i, i);
    }
    let mut wakers: Vec<u64> = Vec::new();
    let dur = wheel.process(100_000, &mut wakers);
    assert_eq!(dur, Some(0));
    assert_eq!(wakers.len(), 1500);
    assert_eq!(wakers[0], 0);
    assert_eq!(wakers[1499], 1499);
}

#[test]
fn timer_sleep_submission_model() {
    // a timer 50 units out: the driver sleeps 50, then the next pass at the
    // deadline plus one wait cycle fires the waker
    let mut core: DriverCore<u64, u8> = DriverCore::new();
    core.insert_timer(150, 77);
    let mut wakers: Vec<u64> = Vec::new();
    let dur = core.process_timers(100, &mut wakers);
    assert_eq!(dur, Some(50));
    assert_eq!(want_completions(dur), 1);
    assert!(wakers.is_empty());
    let dur2 = core.process_timers(151, &mut wakers);
    assert_eq!(dur2, Some(0));
    assert_eq!(wakers, vec![77]);
}

#[test]
fn driver_timer_removal() {
    let mut core: DriverCore<u64, u8> = DriverCore::new();
    let id = core.insert_timer(150, 77);
    core.remove_timer(150, id);
    let mut wakers: Vec<u64> = Vec::new();
    assert_eq!(core.process_timers(200, &mut wakers), None);
    assert!(wakers.is_empty());
}

#[test]
fn kernel_timeout_only_for_positive_sleep() {
    assert_eq!(kernel_timeout_needed(None), None);
    assert_eq!(kernel_timeout_needed(Some(0)), None);
    assert_eq!(kernel_timeout_needed(Some(50_000_000)), Some(50_000_000));
}

#[test]
fn nanosecond_split() {
    assert_eq!(split_nanos(0), (0, 0));
    assert_eq!(split_nanos(999_999_999), (0, 999_999_999));
    assert_eq!(split_nanos(2_500_000_000), (2, 500_000_000));
}

#[test]
fn register_error_classification() {
    assert_eq!(classify_register_error(EINVAL), RegisterError::Unsupported);
    assert_eq!(classify_register_error(EEXIST), RegisterError::DuplicateGroup);
    assert_eq!(classify_register_error(13), RegisterError::Generic(13));
}

#[test]
fn buffer_checkout_is_exclusive_and_reusable() {
    // a recv checks a buffer out; releasing it lets a later recv reuse the
    // same slot
    let mut ring = BufRingState::new(128, 4096);
    assert_eq!(ring.checkout(10, 5), Ok(()));
    assert_eq!(ring.checkout(10, 5), Err(CheckoutError::AlreadyOut));
    ring.release(5);
    assert_eq!(ring.checkout(10, 5), Ok(()));
    // other slots are unaffected
    assert_eq!(ring.checkout(4096, 6), Ok(()));
}

#[test]
fn buffer_checkout_rejections() {
    let mut ring = BufRingState::new(128, 4096);
    assert_eq!(ring.checkout(10, 128), Err(CheckoutError::BadId));
    assert_eq!(ring.checkout(4097, 0), Err(CheckoutError::TooLong));
    assert_eq!(ring.checkout(4096, 0), Ok(()));
}
