//! The driver core: the in-flight slot table and the timer wheel, with the
//! routing and wait-planning decisions of one dispatch iteration.
//!
//! The kernel ring itself lives outside: it hands completions in as plain
//! `(user_data, result, flags)` triples and receives back which waker to
//! fire, whether a cancel must be pushed, and how many completions the next
//! submit-and-wait should ask for.

use vstd::prelude::*;
use crate::cqe::CqeResult;
use crate::cqe::cqe_result;
use crate::cqe::spec_cqe_result;
use crate::slots::SlotTable;
use crate::state::CompleteStep;
use crate::state::DropStep;
use crate::state::OpState;
use crate::state::PollStep;
use crate::state::complete_spec;
use crate::state::complete_transition;
use crate::state::drop_spec;
use crate::state::drop_transition;
use crate::state::poll_spec;
use crate::state::poll_transition;
use crate::timer::TimerCmd;
use crate::timer::TimerWheel;
use crate::timer::apply_cmds;
use crate::timer::kept_seq;
use crate::timer::min_deadline;
use crate::timer::ready_seq;
use crate::timer::sorted_entries;

verus! {

/// User-data cookie of the driver's own standalone timeout submission.
pub const TIMER_COOKIE: u64 = u64::MAX - 1;

/// User-data cookie of async-cancel submissions issued when a handle drops.
pub const CANCEL_COOKIE: u64 = u64::MAX;

/// Cookies at or above this value are internal bookkeeping, never slot keys.
pub const RESERVED_MIN_COOKIE: u64 = u64::MAX - 1;

/// Errno for a device or resource that is busy.
pub const EBUSY: u32 = 16;

/// Errno for an interrupted system call.
pub const EINTR: u32 = 4;

/// The cookie a submission for slot `key` is tagged with, or `None` for a
/// key so large it would collide with the reserved cookies.
pub fn cookie_for(key: usize) -> (r: Option<u64>)
    ensures
        r == (if (key as u64) < RESERVED_MIN_COOKIE {
            Some(key as u64)
        } else {
            None::<u64>
        }),
{
    if (key as u64) < RESERVED_MIN_COOKIE {
        Some(key as u64)
    } else {
        None
    }
}

/// Whether a completion's user-data cookie is internal bookkeeping that the
/// dispatch loop must skip.
pub fn is_reserved_cookie(user_data: u64) -> (r: bool)
    ensures
        r == (user_data >= RESERVED_MIN_COOKIE),
{
    user_data >= RESERVED_MIN_COOKIE
}

/// What the outcome of one submit-and-wait means: a busy or interrupted
/// kernel ends the iteration with no work, quietly; any other error
/// propagates; success proceeds to drain the completion queue.
pub open spec fn spec_absorb_wait_result(r: Result<usize, u32>) -> Result<bool, u32> {
    match r {
        Ok(_) => Ok(true),
        Err(e) => if e == EBUSY || e == EINTR {
            Ok(false)
        } else {
            Err(e)
        },
    }
}

/// Classify the result of the kernel submit-and-wait call: `Ok(true)` means
/// drain completions, `Ok(false)` means a transient busy or interrupt was
/// absorbed and the iteration ends with no work and no state change,
/// `Err` carries every other error out.
pub fn absorb_wait_result(r: Result<usize, u32>) -> (out: Result<bool, u32>)
    ensures
        out == spec_absorb_wait_result(r),
{
    match r {
        Ok(_) => Ok(true),
        Err(e) => {
            if e == EBUSY || e == EINTR {
                Ok(false)
            } else {
                Err(e)
            }
        },
    }
}

/// Whether this iteration must submit a kernel timeout entry, and for how
/// long: only a positive sleep is worth a kernel timer; a zero sleep is
/// handled by asking for no completions, and no sleep means no deadline.
pub fn kernel_timeout_needed(dur: Option<u64>) -> (r: Option<u64>)
    ensures
        r == (match dur {
            Some(d) => if d > 0 {
                Some(d)
            } else {
                None::<u64>
            },
            None => None::<u64>,
        }),
{
    match dur {
        Some(d) => if d > 0 {
            Some(d)
        } else {
            None
        },
        None => None,
    }
}

/// Split a duration in nanoseconds into the whole seconds and the
/// nanosecond remainder a kernel timespec wants.
pub fn split_nanos(d: u64) -> (r: (u64, u32))
    ensures
        r.0 == d / 1_000_000_000,
        r.1 == d % 1_000_000_000,
        r.1 < 1_000_000_000,
{
    (d / 1_000_000_000, (d % 1_000_000_000) as u32)
}

/// How many completions the submit-and-wait of this iteration asks for:
/// none when a timer already fired (the sleep is zero), one otherwise.
pub fn want_completions(dur: Option<u64>) -> (n: usize)
    ensures
        n == (if dur == Some(0u64) {
            0usize
        } else {
            1usize
        }),
{
    match dur {
        Some(d) => if d == 0 {
            0
        } else {
            1
        },
        None => 1,
    }
}

/// Task-facing outcome of one poll: the terminal completion if the op is
/// ready, the intermediate completions to feed to the op's update hook in
/// arrival order, and whether the current waker must be re-armed.
pub struct PollOutcome {
    pub ready: Option<CqeResult>,
    pub updates: Vec<CqeResult>,
    pub rearm: bool,
}

/// Task-side handle data of one submitted op: the owned payload and the
/// slot key it is in flight under. The payload is taken out once, either to
/// finish the op on its terminal completion or to park it in the slot when
/// the handle drops early.
pub struct Action<T> {
    pub op: Option<T>,
    pub key: usize,
}

impl<T> Action<T> {
    /// A handle for payload `op`, in flight under `key`.
    pub fn new(op: T, key: usize) -> (r: Action<T>)
        ensures
            r.op == Some(op),
            r.key == key,
    {
        Action { op: Some(op), key }
    }

    /// Take the payload out of the handle.
    pub fn take_op(&mut self) -> (r: Option<T>)
        ensures
            r == old(self).op,
            final(self).op is None,
            final(self).key == old(self).key,
    {
        let mut cell: Option<T> = None;
        core::mem::swap(&mut self.op, &mut cell);
        cell
    }
}

/// The mutable interior of the driver: the in-flight table and the timer
/// wheel. `W` is the waker type, `P` the parked payload type.
pub struct DriverCore<W, P> {
    ops: SlotTable<OpState<W, P>>,
    timers: TimerWheel<W>,
}

impl<W, P> DriverCore<W, P> {
    /// The in-flight slot table.
    pub closed spec fn ops_table(self) -> SlotTable<OpState<W, P>> {
        self.ops
    }

    /// The timer wheel.
    pub closed spec fn wheel(self) -> TimerWheel<W> {
        self.timers
    }

    /// Both components are internally consistent.
    pub open spec fn wf(self) -> bool {
        self.ops_table().wf() && self.wheel().wf()
    }

    /// A fresh core: no in-flight op, no timer.
    pub fn new() -> (r: DriverCore<W, P>)
        ensures
            r.wf(),
            r.ops_table().spec_len() == 0,
            forall|k: int| !r.ops_table().occupied(k),
            r.wheel().entries_seq().len() == 0,
            r.wheel().batch_seq().len() == 0,
            r.wheel().spec_next_id() == 0,
    {
        DriverCore { ops: SlotTable::new(), timers: TimerWheel::new() }
    }

    /// Number of in-flight slots.
    pub fn in_flight(&self) -> (n: usize)
        ensures
            n == self.ops_table().spec_len(),
    {
        self.ops.len()
    }

    /// Read the state under `key`, if any, without disturbing it. The
    /// caller uses this to compare a parked waker with the current one.
    pub fn peek(&self, key: usize) -> (r: Option<&OpState<W, P>>)
        ensures
            match r {
                Some(s) => self.ops_table().spec_get(key as int) == Some(*s),
                None => !self.ops_table().occupied(key as int),
            },
    {
        self.ops.get(key)
    }

    /// Open a fresh slot for a request about to be pushed: the key was
    /// vacant, is now `Submitted`, and every other slot is untouched.
    pub fn insert_submitted(&mut self) -> (k: usize)
        requires
            old(self).wf(),
        ensures
            final(self).wf(),
            !old(self).ops_table().occupied(k as int),
            final(self).ops_table().spec_get(k as int) == Some(OpState::<W, P>::Submitted),
            forall|j: int|
                j != k as int ==> final(self).ops_table().spec_get(j) == old(
                    self,
                ).ops_table().spec_get(j),
            final(self).ops_table().spec_len() == old(self).ops_table().spec_len() + 1,
            final(self).wheel() == old(self).wheel(),
    {
        self.ops.insert(OpState::Submitted)
    }

    /// Whether a completion with this cookie may be routed: reserved cookies
    /// are always skipped, and a real key must address an occupied slot that
    /// does not still hold an unconsumed terminal completion.
    pub open spec fn spec_routable(self, user_data: u64) -> bool {
        user_data >= RESERVED_MIN_COOKIE || (user_data <= usize::MAX && (match self.ops_table().spec_get(
            user_data as int,
        ) {
            Some(s) => !(s is Completed),
            None => false,
        }))
    }

    /// Exec test of [`DriverCore::spec_routable`].
    pub fn routable(&self, user_data: u64) -> (r: bool)
        ensures
            r == self.spec_routable(user_data),
    {
        if user_data >= RESERVED_MIN_COOKIE {
            true
        } else if user_data > (usize::MAX as u64) {
            false
        } else {
            match self.ops.get(user_data as usize) {
                Some(s) => !(s matches OpState::Completed(_)),
                None => false,
            }
        }
    }

    /// Route one raw completion entry. A reserved cookie changes nothing.
    /// Otherwise exactly the addressed slot transitions by the completion
    /// rules, every other slot is untouched, and the parked waker (if the
    /// task was waiting) is handed back to be fired.
    pub fn on_completion(&mut self, user_data: u64, res: i32, flags: u32) -> (w: Option<W>)
        requires
            old(self).wf(),
            old(self).spec_routable(user_data),
        ensures
            final(self).wf(),
            final(self).wheel() == old(self).wheel(),
            user_data >= RESERVED_MIN_COOKIE ==> final(self).ops_table() == old(self).ops_table()
                && w is None,
            user_data < RESERVED_MIN_COOKIE ==> {
                let k = user_data as int;
                &&& old(self).ops_table().spec_get(k) matches Some(s) && complete_spec(
                    s,
                    spec_cqe_result(res, flags),
                    (CompleteStep { next: final(self).ops_table().spec_get(k), waker: w }),
                )
                &&& forall|j: int|
                    j != k ==> final(self).ops_table().spec_get(j) == old(
                        self,
                    ).ops_table().spec_get(j)
                &&& final(self).ops_table().spec_len() == old(self).ops_table().spec_len() - (
                if final(self).ops_table().spec_get(k) is None {
                    1int
                } else {
                    0int
                })
            },
    {
        if user_data >= RESERVED_MIN_COOKIE {
            return None;
        }
        let key = user_data as usize;
        let cqe = cqe_result(res, flags);
        let s = self.ops.replace(key, OpState::Submitted);
        let step = complete_transition(s, cqe);
        let CompleteStep { next, waker } = step;
        match next {
            Some(ns) => {
                let _placeholder = self.ops.replace(key, ns);
            },
            None => {
                let _placeholder = self.ops.remove(key);
            },
        }
        waker
    }

    /// Poll the op under `key` for the task whose waker is `cur`.
    /// `stored_wakes_current` reports whether a waker already parked in the
    /// slot would wake the polling task. The slot takes one poll step; a ready
    /// result removes the slot, so it can be delivered only once.
    pub fn poll_op(&mut self, key: usize, cur: W, stored_wakes_current: bool) -> (r: PollOutcome)
        requires
            old(self).wf(),
            old(self).ops_table().spec_get(key as int) matches Some(s) && !(s is Ignored),
        ensures
            final(self).wf(),
            final(self).wheel() == old(self).wheel(),
            old(self).ops_table().spec_get(key as int) matches Some(s) && poll_spec(
                s,
                cur,
                stored_wakes_current,
                (PollStep {
                    next: final(self).ops_table().spec_get(key as int),
                    ready: r.ready,
                    updates: r.updates,
                    rearm: r.rearm,
                }),
            ),
            forall|j: int|
                j != key as int ==> final(self).ops_table().spec_get(j) == old(
                    self,
                ).ops_table().spec_get(j),
            final(self).ops_table().spec_len() == old(self).ops_table().spec_len() - (
            if final(self).ops_table().spec_get(key as int) is None {
                1int
            } else {
                0int
            }),
    {
        let s = self.ops.replace(key, OpState::Submitted);
        let step = poll_transition(s, cur, stored_wakes_current);
        let PollStep { next, ready, updates, rearm } = step;
        match next {
            Some(ns) => {
                let _placeholder = self.ops.replace(key, ns);
            },
            None => {
                let _placeholder = self.ops.remove(key);
            },
        }
        PollOutcome { ready, updates, rearm }
    }

    /// Drop the task-side handle of the op under `key`, parking `payload`
    /// in the slot if completions are still owed. Returns whether an
    /// async-cancel submission must be pushed. A vacant key is a no-op.
    pub fn drop_op(&mut self, key: usize, payload: P) -> (cancel: bool)
        requires
            old(self).wf(),
            !(old(self).ops_table().spec_get(key as int) matches Some(s) && s is Ignored),
        ensures
            final(self).wf(),
            final(self).wheel() == old(self).wheel(),
            old(self).ops_table().spec_get(key as int) is None ==> final(self).ops_table() == old(
                self,
            ).ops_table() && !cancel,
            old(self).ops_table().spec_get(key as int) matches Some(s) ==> {
                &&& drop_spec(
                    s,
                    payload,
                    (DropStep { next: final(self).ops_table().spec_get(key as int), cancel }),
                )
                &&& forall|j: int|
                    j != key as int ==> final(self).ops_table().spec_get(j) == old(
                        self,
                    ).ops_table().spec_get(j)
                &&& final(self).ops_table().spec_len() == old(self).ops_table().spec_len() - (
                if final(self).ops_table().spec_get(key as int) is None {
                    1int
                } else {
                    0int
                })
            },
    {
        if !self.ops.contains(key) {
            return false;
        }
        let s = self.ops.replace(key, OpState::Submitted);
        let step = drop_transition(s, payload);
        let DropStep { next, cancel } = step;
        match next {
            Some(ns) => {
                let _placeholder = self.ops.replace(key, ns);
            },
            None => {
                let _placeholder = self.ops.remove(key);
            },
        }
        cancel
    }

    /// Arm a timer; see [`TimerWheel::insert`].
    pub fn insert_timer(&mut self, when: u64, waker: W) -> (id: u64)
        requires
            old(self).wf(),
        ensures
            final(self).wf(),
            final(self).ops_table() == old(self).ops_table(),
            id == old(self).wheel().spec_next_id(),
            final(self).wheel().spec_next_id() == (if id == u64::MAX {
                0u64
            } else {
                (id + 1) as u64
            }),
            ({
                let queued = old(self).wheel().batch_seq().push(TimerCmd::Insert(when, id, waker));
                if queued.len() >= crate::timer::TIMER_BATCH_LIMIT {
                    final(self).wheel().batch_seq().len() == 0 && final(self).wheel().entries_seq()
                        == apply_cmds(old(self).wheel().entries_seq(), queued)
                } else {
                    final(self).wheel().batch_seq() == queued && final(self).wheel().entries_seq()
                        == old(self).wheel().entries_seq()
                }
            }),
    {
        self.timers.insert(when, waker)
    }

    /// Disarm the timer keyed `(when, id)`; see [`TimerWheel::remove`].
    pub fn remove_timer(&mut self, when: u64, id: u64)
        requires
            old(self).wf(),
        ensures
            final(self).wf(),
            final(self).ops_table() == old(self).ops_table(),
            final(self).wheel().spec_next_id() == old(self).wheel().spec_next_id(),
            ({
                let queued = old(self).wheel().batch_seq().push(TimerCmd::Remove(when, id));
                if queued.len() >= crate::timer::TIMER_BATCH_LIMIT {
                    final(self).wheel().batch_seq().len() == 0 && final(self).wheel().entries_seq()
                        == apply_cmds(old(self).wheel().entries_seq(), queued)
                } else {
                    final(self).wheel().batch_seq() == queued && final(self).wheel().entries_seq()
                        == old(self).wheel().entries_seq()
                }
            }),
    {
        self.timers.remove(when, id)
    }

    /// Fire the due timers and compute the sleep; see [`TimerWheel::process`].
    pub fn process_timers(&mut self, now: u64, wakers: &mut Vec<W>) -> (dur: Option<u64>)
        requires
            old(self).wf(),
        ensures
            final(self).wf(),
            final(self).ops_table() == old(self).ops_table(),
            final(self).wheel().spec_next_id() == old(self).wheel().spec_next_id(),
            final(self).wheel().batch_seq().len() == 0,
            final(self).wheel().entries_seq() == kept_seq(old(self).wheel().model(), now),
            final(wakers)@ == old(wakers)@ + ready_seq(old(self).wheel().model(), now),
            sorted_entries(old(self).wheel().model()),
            dur == (if ready_seq(old(self).wheel().model(), now).len() > 0 {
                Some(0u64)
            } else if kept_seq(old(self).wheel().model(), now).len() > 0 {
                Some((min_deadline(kept_seq(old(self).wheel().model(), now)) - now) as u64)
            } else {
                None::<u64>
            }),
    {
        self.timers.process(now, wakers)
    }
}

} // verus!
