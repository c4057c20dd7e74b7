//! Lifecycle tests: completion normalization, slot routing, polling,
//! drop-cancellation and multi-shot aggregation, driven with plain token
//! wakers and payloads in place of real ones.

use uring_driver::cqe::{buffer_select, cqe_result, more, CqeResult};
use uring_driver::driver::{
    absorb_wait_result, cookie_for, is_reserved_cookie, want_completions, Action, DriverCore,
    CANCEL_COOKIE, EBUSY, EINTR, TIMER_COOKIE,
};
use uring_driver::state::{complete_transition, drop_transition, poll_transition, OpState};
use uring_driver::timeout::{State, Timeout, TimeoutError, ECANCELED, ETIME};
use uring_driver::write::Write;

fn ok(n: i32) -> CqeResult {
    cqe_result(n, 0)
}

fn ok_more(n: i32) -> CqeResult {
    cqe_result(n, 2)
}

#[test]
fn cqe_normalization() {
    let c = cqe_result(4, 0);
    assert_eq!(c.result, Ok(4));
    assert_eq!(c.flags, 0);
    let e = cqe_result(-11, 8);
    assert_eq!(e.result, Err(11));
    assert_eq!(e.flags, 8);
    let min = cqe_result(i32::MIN, 0);
    assert_eq!(min.result, Err(2147483648));
}

#[test]
fn more_flag_and_buffer_id() {
    assert!(more(2));
    assert!(more(3));
    assert!(!more(0));
    assert!(!more(1));
    assert_eq!(buffer_select(1 | (5 << 16)), Some(5));
    assert_eq!(buffer_select(5 << 16), None);
    assert_eq!(buffer_select(0), None);
}

#[test]
fn cookie_layout() {
    assert_eq!(cookie_for(0), Some(0));
    assert_eq!(cookie_for(41), Some(41));
    assert!(!is_reserved_cookie(0));
    assert!(is_reserved_cookie(TIMER_COOKIE));
    assert!(is_reserved_cookie(CANCEL_COOKIE));
    assert_eq!(TIMER_COOKIE, u64::MAX - 1);
    assert_eq!(CANCEL_COOKIE, u64::MAX);
}

#[test]
fn slot_keys_distinct_while_occupied() {
    let mut core: DriverCore<u64, u8> = DriverCore::new();
    let k1 = core.insert_submitted();
    let k2 = core.insert_submitted();
    let k3 = core.insert_submitted();
    assert_ne!(k1, k2);
    assert_ne!(k1, k3);
    assert_ne!(k2, k3);
    assert_eq!(core.in_flight(), 3);
}

#[test]
fn completion_routes_to_its_slot_only() {
    let mut core: DriverCore<u64, u8> = DriverCore::new();
    let k1 = core.insert_submitted();
    let k2 = core.insert_submitted();
    // terminal completion for k1 only
    assert!(core.routable(k1 as u64));
    let w = core.on_completion(k1 as u64, 4, 0);
    assert_eq!(w, None);
    // k1 is ready with the routed result; k2 still pending
    let r1 = core.poll_op(k1, 10, false);
    assert_eq!(r1.ready.map(|c| c.result), Some(Ok(4)));
    let r2 = core.poll_op(k2, 11, false);
    assert!(r2.ready.is_none());
}

#[test]
fn reserved_cookies_are_skipped() {
    let mut core: DriverCore<u64, u8> = DriverCore::new();
    let k = core.insert_submitted();
    assert!(core.routable(TIMER_COOKIE));
    assert!(core.routable(CANCEL_COOKIE));
    let w = core.on_completion(TIMER_COOKIE, -62, 0);
    assert_eq!(w, None);
    let w2 = core.on_completion(CANCEL_COOKIE, 0, 0);
    assert_eq!(w2, None);
    assert_eq!(core.in_flight(), 1);
    // the real slot is untouched and still pending
    let r = core.poll_op(k, 9, false);
    assert!(r.ready.is_none());
}

#[test]
fn waiting_waker_is_fired_on_completion() {
    let mut core: DriverCore<u64, u8> = DriverCore::new();
    let k = core.insert_submitted();
    let r = core.poll_op(k, 7, false);
    assert!(r.ready.is_none());
    let w = core.on_completion(k as u64, 4, 0);
    assert_eq!(w, Some(7));
}

#[test]
fn single_read_lifecycle() {
    // a read of four bytes: submit, one completion, poll ready with count 4
    let mut core: DriverCore<u64, u8> = DriverCore::new();
    let k = core.insert_submitted();
    let r = core.poll_op(k, 7, false);
    assert!(r.ready.is_none());
    let w = core.on_completion(k as u64, 4, 0);
    assert_eq!(w, Some(7));
    let r2 = core.poll_op(k, 7, true);
    assert_eq!(r2.ready.map(|c| c.result), Some(Ok(4)));
    assert!(r2.updates.is_empty());
    assert!(!r2.rearm);
    // ready was consumed: the slot is gone
    assert_eq!(core.in_flight(), 0);
    assert!(!core.routable(k as u64));
}

#[test]
fn drop_before_completion_then_terminal_reclaims_slot() {
    // an accept dropped right after submission: the slot parks as ignored,
    // a cancel is requested, and the cancel completion reclaims the slot
    let mut core: DriverCore<u64, u8> = DriverCore::new();
    let baseline = core.in_flight();
    let k = core.insert_submitted();
    let cancel = core.drop_op(k, 42);
    assert!(cancel);
    assert_eq!(core.in_flight(), baseline + 1);
    let neg_ecanceled = -(ECANCELED as i32);
    let w = core.on_completion(k as u64, neg_ecanceled, 0);
    assert_eq!(w, None);
    assert_eq!(core.in_flight(), baseline);
}

#[test]
fn drop_after_completion_discards() {
    let mut core: DriverCore<u64, u8> = DriverCore::new();
    let k = core.insert_submitted();
    core.on_completion(k as u64, 4, 0);
    let cancel = core.drop_op(k, 42);
    assert!(!cancel);
    assert_eq!(core.in_flight(), 0);
}

#[test]
fn drop_of_vacant_key_is_noop() {
    let mut core: DriverCore<u64, u8> = DriverCore::new();
    let cancel = core.drop_op(3, 42);
    assert!(!cancel);
    assert_eq!(core.in_flight(), 0);
}

#[test]
fn ignored_slot_absorbs_intermediates() {
    let mut core: DriverCore<u64, u8> = DriverCore::new();
    let k = core.insert_submitted();
    assert!(core.drop_op(k, 42));
    // an intermediate completion keeps the parked slot alive
    let w = core.on_completion(k as u64, 5, 2);
    assert_eq!(w, None);
    assert_eq!(core.in_flight(), 1);
    // the terminal completion reclaims it
    let w2 = core.on_completion(k as u64, 0, 0);
    assert_eq!(w2, None);
    assert_eq!(core.in_flight(), 0);
}

#[test]
fn multishot_updates_in_order_then_complete_once() {
    // three peers connect on a multi-shot accept, then the listener closes
    let mut core: DriverCore<u64, u8> = DriverCore::new();
    let k = core.insert_submitted();
    core.poll_op(k, 7, false);
    let w = core.on_completion(k as u64, 31, 2);
    assert_eq!(w, Some(7));
    core.on_completion(k as u64, 32, 2);
    core.on_completion(k as u64, 33, 2);
    core.on_completion(k as u64, 0, 0);
    // one poll feeds the three intermediates in arrival order and re-arms
    let r = core.poll_op(k, 7, true);
    assert!(r.ready.is_none());
    assert!(r.rearm);
    let fds: Vec<Result<u32, u32>> = r.updates.iter().map(|c| c.result).collect();
    assert_eq!(fds, vec![Ok(31), Ok(32), Ok(33)]);
    // the re-poll delivers the terminal exactly once
    let r2 = core.poll_op(k, 7, true);
    assert_eq!(r2.ready.map(|c| c.result), Some(Ok(0)));
    assert_eq!(core.in_flight(), 0);
}

#[test]
fn multishot_without_terminal_stays_pollable() {
    let mut core: DriverCore<u64, u8> = DriverCore::new();
    let k = core.insert_submitted();
    core.poll_op(k, 7, false);
    core.on_completion(k as u64, 31, 2);
    core.on_completion(k as u64, 32, 2);
    let r = core.poll_op(k, 7, true);
    assert!(r.ready.is_none());
    assert!(r.rearm);
    assert_eq!(r.updates.len(), 2);
    assert_eq!(core.in_flight(), 1);
}

#[test]
fn drop_of_live_multishot_parks_and_cancels() {
    let mut core: DriverCore<u64, u8> = DriverCore::new();
    let k = core.insert_submitted();
    // last arrival still flags more: completions are still owed
    core.on_completion(k as u64, 31, 2);
    let cancel = core.drop_op(k, 42);
    assert!(cancel);
    assert_eq!(core.in_flight(), 1);
    core.on_completion(k as u64, 0, 0);
    assert_eq!(core.in_flight(), 0);
}

#[test]
fn drop_of_finished_multishot_removes() {
    let mut core: DriverCore<u64, u8> = DriverCore::new();
    let k = core.insert_submitted();
    core.on_completion(k as u64, 31, 2);
    core.on_completion(k as u64, 0, 0);
    // the terminal already arrived: nothing is owed, no cancel
    let cancel = core.drop_op(k, 42);
    assert!(!cancel);
    assert_eq!(core.in_flight(), 0);
}

#[test]
fn state_transitions_on_plain_values() {
    // submitted + terminal entry parks a completed state
    let s = complete_transition(OpState::<u64, u8>::Submitted, ok(4));
    assert!(matches!(s.next, Some(OpState::Completed(c)) if c.result == Ok(4)));
    assert!(s.waker.is_none());
    // submitted + non-terminal entry opens a completion list
    let s = complete_transition(OpState::<u64, u8>::Submitted, ok_more(4));
    assert!(matches!(s.next, Some(OpState::CompletionList(ref l)) if l.len() == 1));
    // waiting hands the waker back
    let s = complete_transition(OpState::<u64, u8>::Waiting(9), ok(4));
    assert_eq!(s.waker, Some(9));
    // a list appends
    let s = complete_transition(
        OpState::<u64, u8>::CompletionList(vec![ok_more(1)]),
        ok(2),
    );
    assert!(matches!(s.next, Some(OpState::CompletionList(ref l)) if l.len() == 2));
    assert!(s.waker.is_none());
}

#[test]
fn poll_transition_parks_and_replaces_wakers() {
    let r = poll_transition(OpState::<u64, u8>::Submitted, 7, false);
    assert!(matches!(r.next, Some(OpState::Waiting(7))));
    // a stored waker that would wake the current task is kept
    let r = poll_transition(OpState::<u64, u8>::Waiting(5), 7, true);
    assert!(matches!(r.next, Some(OpState::Waiting(5))));
    // one that would not is replaced by the current waker
    let r = poll_transition(OpState::<u64, u8>::Waiting(5), 7, false);
    assert!(matches!(r.next, Some(OpState::Waiting(7))));
}

#[test]
fn drop_transition_on_plain_values() {
    let d = drop_transition(OpState::<u64, u8>::Submitted, 42);
    assert!(d.cancel);
    assert!(matches!(d.next, Some(OpState::Ignored(42))));
    let d = drop_transition(OpState::<u64, u8>::Completed(ok(1)), 42);
    assert!(!d.cancel);
    assert!(d.next.is_none());
    let d = drop_transition(OpState::<u64, u8>::CompletionList(vec![ok_more(1), ok(0)]), 42);
    assert!(!d.cancel);
    assert!(d.next.is_none());
}

#[test]
fn transient_wait_errors_are_absorbed() {
    assert_eq!(absorb_wait_result(Ok(3)), Ok(true));
    assert_eq!(absorb_wait_result(Err(EBUSY)), Ok(false));
    assert_eq!(absorb_wait_result(Err(EINTR)), Ok(false));
    assert_eq!(absorb_wait_result(Err(5)), Err(5));
}

#[test]
fn transient_wait_error_loses_no_state() {
    let mut core: DriverCore<u64, u8> = DriverCore::new();
    let k = core.insert_submitted();
    core.poll_op(k, 7, false);
    // the kernel reported busy: the iteration ends with no dispatch
    assert_eq!(absorb_wait_result(Err(EBUSY)), Ok(false));
    // nothing was woken and nothing was lost: the op completes next turn
    let w = core.on_completion(k as u64, 4, 0);
    assert_eq!(w, Some(7));
}

#[test]
fn want_zero_only_for_zero_sleep() {
    assert_eq!(want_completions(Some(0)), 0);
    assert_eq!(want_completions(Some(5)), 1);
    assert_eq!(want_completions(None), 1);
}

#[test]
fn timeout_outcomes() {
    let mut a = Action::new(Timeout { sec: 0, nsec: 0 }, 1);
    let neg_etime = -(ETIME as i32);
    let neg_ecanceled = -(ECANCELED as i32);
    assert_eq!(a.poll_timeout(cqe_result(neg_etime, 0)), Ok(State::Elapsed));
    assert_eq!(a.poll_timeout(cqe_result(neg_ecanceled, 0)), Ok(State::Canceled));
    assert_eq!(a.poll_timeout(cqe_result(0, 0)), Ok(State::Link));
    assert_eq!(a.poll_timeout(cqe_result(3, 0)), Err(TimeoutError::Unexpected(3)));
    assert_eq!(a.poll_timeout(cqe_result(-9, 0)), Err(TimeoutError::Os(9)));
}

#[test]
fn linked_timeout_pair() {
    // a read linked to a timeout: the timeout fires first, the read is
    // canceled, the timeout resolves as a fired link
    let mut core: DriverCore<u64, u8> = DriverCore::new();
    let read_key = core.insert_submitted();
    let timeout_key = core.insert_submitted();
    let neg_ecanceled = -(ECANCELED as i32);
    core.on_completion(read_key as u64, neg_ecanceled, 0);
    core.on_completion(timeout_key as u64, 0, 0);
    let read = core.poll_op(read_key, 1, false);
    assert_eq!(read.ready.map(|c| c.result), Some(Err(ECANCELED)));
    let t = core.poll_op(timeout_key, 2, false);
    let mut a = Action::new(Timeout { sec: 0, nsec: 0 }, timeout_key);
    assert_eq!(a.poll_timeout(t.ready.unwrap()), Ok(State::Link));
}

#[test]
fn write_completion_maps_to_count() {
    let mut a = Action::new(Write { buf: vec![1, 2, 3, 4] }, 1);
    assert_eq!(a.poll_write(ok(4)), Ok(4));
    assert_eq!(a.poll_write(cqe_result(-32, 0)), Err(32));
}

#[test]
fn action_payload_taken_once() {
    let mut a = Action::new(7u8, 3);
    assert_eq!(a.key, 3);
    assert_eq!(a.take_op(), Some(7));
    assert_eq!(a.take_op(), None);
}
