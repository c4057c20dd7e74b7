//! Per-request lifecycle state and its transition rules.
//!
//! A slot advances on three events: a completion entry arriving from the
//! kernel, a poll by the owning task, and the drop of the task-side handle.
//! Each transition is a total function on plain values; the surrounding
//! driver stores the successor state, fires the returned waker and issues
//! the cancel submission it is told to.

use vstd::prelude::*;
use crate::cqe::CqeResult;
use crate::cqe::more;
use crate::cqe::spec_more;

verus! {

/// State of one in-flight slot. `W` is the stored waker, `P` the op's owned
/// payload kept alive while the kernel may still touch its buffers.
pub enum OpState<W, P> {
    /// Request pushed; no poll and no completion seen yet.
    Submitted,
    /// The task has polled and parked; the waker fires on the next completion.
    Waiting(W),
    /// A terminal completion is waiting to be consumed by the next poll.
    Completed(CqeResult),
    /// Intermediate completions of a multi-shot op; no terminal one yet
    /// consumed by a poll.
    CompletionList(Vec<CqeResult>),
    /// The handle was dropped; completions are absorbed, the payload is kept.
    Ignored(P),
}

/// Outcome of routing one completion entry to a slot: the successor state
/// (`None` removes the slot) and the waker to fire, if one was parked.
pub struct CompleteStep<W, P> {
    pub next: Option<OpState<W, P>>,
    pub waker: Option<W>,
}

/// Exactly what arriving completion `cqe` does to a slot in state `s`.
pub open spec fn complete_spec<W, P>(
    s: OpState<W, P>,
    cqe: CqeResult,
    r: CompleteStep<W, P>,
) -> bool {
    match s {
        OpState::Submitted => {
            &&& r.waker is None
            &&& arrival_next(cqe, r.next)
        },
        OpState::Waiting(w) => {
            &&& r.waker == Some(w)
            &&& arrival_next(cqe, r.next)
        },
        OpState::CompletionList(xs) => {
            &&& r.waker is None
            &&& (r.next matches Some(n) && (n matches OpState::CompletionList(l) && l@ == xs@.push(
                cqe,
            )))
        },
        OpState::Ignored(p) => {
            &&& r.waker is None
            &&& if spec_more(cqe.flags) {
                r.next == Some(OpState::<W, P>::Ignored(p))
            } else {
                r.next is None
            }
        },
        OpState::Completed(_) => false,
    }
}

/// Successor of a slot that had no stored completion yet: a terminal entry
/// parks as `Completed`, a non-terminal one opens a completion list.
pub open spec fn arrival_next<W, P>(cqe: CqeResult, next: Option<OpState<W, P>>) -> bool {
    if spec_more(cqe.flags) {
        next matches Some(n) && (n matches OpState::CompletionList(l) && l@ == seq![cqe])
    } else {
        next == Some(OpState::<W, P>::Completed(cqe))
    }
}

/// Route one completion entry to a slot. A slot holding an unconsumed
/// terminal completion cannot receive another entry.
pub fn complete_transition<W, P>(s: OpState<W, P>, cqe: CqeResult) -> (r: CompleteStep<W, P>)
    requires
        !(s is Completed),
    ensures
        complete_spec(s, cqe, r),
{
    match s {
        OpState::Submitted => CompleteStep { next: Some(arrival_state(cqe)), waker: None },
        OpState::Waiting(w) => CompleteStep { next: Some(arrival_state(cqe)), waker: Some(w) },
        OpState::CompletionList(xs) => {
            let mut l = xs;
            l.push(cqe);
            CompleteStep { next: Some(OpState::CompletionList(l)), waker: None }
        },
        OpState::Ignored(p) => {
            if more(cqe.flags) {
                CompleteStep { next: Some(OpState::Ignored(p)), waker: None }
            } else {
                CompleteStep { next: None, waker: None }
            }
        },
        OpState::Completed(_) => CompleteStep { next: None, waker: None },
    }
}

/// Build the state a fresh completion parks a slot in.
fn arrival_state<W, P>(cqe: CqeResult) -> (r: OpState<W, P>)
    ensures
        arrival_next(cqe, Some(r)),
{
    if more(cqe.flags) {
        let mut l: Vec<CqeResult> = Vec::new();
        l.push(cqe);
        proof {
            assert(l@ =~= seq![cqe]);
        }
        OpState::CompletionList(l)
    } else {
        OpState::Completed(cqe)
    }
}

/// Index of the first terminal entry of a completion list, or its length if
/// every entry is non-terminal.
pub open spec fn first_terminal(xs: Seq<CqeResult>) -> int
    decreases xs.len(),
{
    if xs.len() == 0 {
        0
    } else if !spec_more(xs[0].flags) {
        0
    } else {
        1 + first_terminal(xs.drop_first())
    }
}

/// The characterizing facts of [`first_terminal`]: everything before it is
/// non-terminal, and it points at a terminal entry when one exists.
pub proof fn lemma_first_terminal(xs: Seq<CqeResult>)
    ensures
        0 <= first_terminal(xs) <= xs.len(),
        forall|i: int| 0 <= i < first_terminal(xs) ==> spec_more(xs[i].flags),
        first_terminal(xs) < xs.len() ==> !spec_more(xs[first_terminal(xs)].flags),
    decreases xs.len(),
{
    if xs.len() > 0 && spec_more(xs[0].flags) {
        lemma_first_terminal(xs.drop_first());
        assert forall|i: int| 0 <= i < first_terminal(xs) implies spec_more(xs[i].flags) by {
            if i > 0 {
                assert(xs.drop_first()[i - 1] == xs[i]);
            }
        }
    }
}

/// Outcome of one poll of a slot: the successor state (`None` removes the
/// slot), the terminal completion to deliver if the op is ready, the
/// intermediate completions to feed to the op's update hook in arrival
/// order, and whether the current waker must be re-armed so the task is
/// promptly re-polled.
pub struct PollStep<W, P> {
    pub next: Option<OpState<W, P>>,
    pub ready: Option<CqeResult>,
    pub updates: Vec<CqeResult>,
    pub rearm: bool,
}

/// Exactly what a poll with current waker `cur` does to a slot in state `s`.
/// `stored_wakes_current` reports whether the already-stored waker would wake
/// the current task, in which case it is kept.
pub open spec fn poll_spec<W, P>(
    s: OpState<W, P>,
    cur: W,
    stored_wakes_current: bool,
    r: PollStep<W, P>,
) -> bool {
    match s {
        OpState::Submitted => {
            &&& r.next == Some(OpState::<W, P>::Waiting(cur))
            &&& r.ready is None
            &&& r.updates@.len() == 0
            &&& !r.rearm
        },
        OpState::Waiting(w) => {
            &&& r.next == Some(OpState::<W, P>::Waiting(if stored_wakes_current { w } else { cur }))
            &&& r.ready is None
            &&& r.updates@.len() == 0
            &&& !r.rearm
        },
        OpState::Completed(c) => {
            &&& r.next is None
            &&& r.ready == Some(c)
            &&& r.updates@.len() == 0
            &&& !r.rearm
        },
        OpState::CompletionList(xs) => {
            let m = first_terminal(xs@);
            &&& r.updates@ == xs@.take(m)
            &&& r.ready is None
            &&& r.rearm == (m > 0)
            &&& if m < xs@.len() {
                r.next == Some(OpState::<W, P>::Completed(xs@[m]))
            } else {
                r.next == Some(OpState::<W, P>::Waiting(cur))
            }
        },
        OpState::Ignored(_) => false,
    }
}

/// Poll a slot. A dropped handle cannot be polled, so `Ignored` is ruled
/// out. A ready result is delivered at most once: delivering it removes the
/// slot, and a removed slot cannot be polled again.
pub fn poll_transition<W, P>(s: OpState<W, P>, cur: W, stored_wakes_current: bool) -> (r: PollStep<
    W,
    P,
>)
    requires
        !(s is Ignored),
    ensures
        poll_spec(s, cur, stored_wakes_current, r),
{
    match s {
        OpState::Submitted => PollStep {
            next: Some(OpState::Waiting(cur)),
            ready: None,
            updates: Vec::new(),
            rearm: false,
        },
        OpState::Waiting(w) => {
            let kept = if stored_wakes_current {
                OpState::Waiting(w)
            } else {
                OpState::Waiting(cur)
            };
            PollStep { next: Some(kept), ready: None, updates: Vec::new(), rearm: false }
        },
        OpState::Completed(c) => PollStep {
            next: None,
            ready: Some(c),
            updates: Vec::new(),
            rearm: false,
        },
        OpState::CompletionList(xs) => {
            proof {
                lemma_first_terminal(xs@);
            }
            let mut updates: Vec<CqeResult> = Vec::new();
            let mut i: usize = 0;
            while i < xs.len() && more(xs[i].flags)
                invariant
                    0 <= i <= xs@.len(),
                    forall|j: int| 0 <= j < i ==> spec_more(xs@[j].flags),
                    updates@ == xs@.take(i as int),
                decreases xs@.len() - i,
            {
                updates.push(xs[i]);
                proof {
                    assert(updates@ =~= xs@.take(i + 1 as int));
                }
                i = i + 1;
            }
            proof {
                assert(i as int == first_terminal(xs@));
            }
            let rearm = i > 0;
            if i < xs.len() {
                PollStep {
                    next: Some(OpState::Completed(xs[i])),
                    ready: None,
                    updates,
                    rearm,
                }
            } else {
                PollStep { next: Some(OpState::Waiting(cur)), ready: None, updates, rearm }
            }
        },
        OpState::Ignored(_) => PollStep {
            next: None,
            ready: None,
            updates: Vec::new(),
            rearm: false,
        },
    }
}

/// Outcome of dropping the task-side handle: the successor state (`None`
/// removes the slot) and whether an async-cancel submission must be issued.
pub struct DropStep<W, P> {
    pub next: Option<OpState<W, P>>,
    pub cancel: bool,
}

/// Exactly what dropping the handle does to a slot in state `s`. `payload`
/// is the op's owned storage, parked in the slot while the kernel may still
/// reference it.
pub open spec fn drop_spec<W, P>(s: OpState<W, P>, payload: P, r: DropStep<W, P>) -> bool {
    match s {
        OpState::Submitted => r.next == Some(OpState::<W, P>::Ignored(payload)) && r.cancel,
        OpState::Waiting(_) => r.next == Some(OpState::<W, P>::Ignored(payload)) && r.cancel,
        OpState::Completed(_) => r.next is None && !r.cancel,
        OpState::CompletionList(xs) => {
            if xs@.len() > 0 && spec_more(xs@.last().flags) {
                r.next == Some(OpState::<W, P>::Ignored(payload)) && r.cancel
            } else {
                r.next is None && !r.cancel
            }
        },
        OpState::Ignored(_) => false,
    }
}

/// Drop the task-side handle of a slot. Before the terminal completion the
/// slot is parked as `Ignored` and a cancel is requested; with the terminal
/// completion already seen the slot is removed outright.
pub fn drop_transition<W, P>(s: OpState<W, P>, payload: P) -> (r: DropStep<W, P>)
    requires
        !(s is Ignored),
    ensures
        drop_spec(s, payload, r),
{
    match s {
        OpState::Submitted => DropStep { next: Some(OpState::<W, P>::Ignored(payload)), cancel: true },
        OpState::Waiting(_) => DropStep { next: Some(OpState::Ignored(payload)), cancel: true },
        OpState::Completed(_) => DropStep { next: None, cancel: false },
        OpState::CompletionList(xs) => {
            let n = xs.len();
            if n > 0 && more(xs[n - 1].flags) {
                DropStep { next: Some(OpState::Ignored(payload)), cancel: true }
            } else {
                DropStep { next: None, cancel: false }
            }
        },
        OpState::Ignored(_) => DropStep { next: None, cancel: false },
    }
}

/// A ready result is consumed by the poll that delivers it: whenever a poll
/// hands out a terminal completion, the successor state is removal, so the
/// op cannot reach ready twice.
pub proof fn lemma_ready_consumes<W, P>(
    s: OpState<W, P>,
    cur: W,
    stored_wakes_current: bool,
    r: PollStep<W, P>,
)
    requires
        poll_spec(s, cur, stored_wakes_current, r),
        r.ready is Some,
    ensures
        r.next is None,
        s matches OpState::Completed(c) && r.ready == Some(c),
{
}

/// Dropping a handle before the terminal completion does not leak the slot:
/// the drop parks the slot, and the next completion without the more flag
/// removes it.
pub proof fn lemma_drop_then_terminal<W, P>(
    s: OpState<W, P>,
    payload: P,
    d: DropStep<W, P>,
    n: OpState<W, P>,
    cqe: CqeResult,
    c: CompleteStep<W, P>,
)
    requires
        drop_spec(s, payload, d),
        d.next == Some(n),
        complete_spec(n, cqe, c),
        !spec_more(cqe.flags),
    ensures
        c.next is None,
{
    assert(n == OpState::<W, P>::Ignored(payload));
}

/// Multi-shot aggregation: when a completion list holds some intermediate
/// entries followed by one terminal entry, a poll feeds exactly the
/// intermediates to the update hook, in arrival order, parks the terminal
/// for the next poll to deliver once, and re-arms the waker exactly when an
/// intermediate was consumed.
pub proof fn lemma_multishot_aggregation<W, P>(
    s: OpState<W, P>,
    cur: W,
    stored_wakes_current: bool,
    r: PollStep<W, P>,
    xs: Seq<CqeResult>,
)
    requires
        s matches OpState::CompletionList(v) && v@ == xs,
        xs.len() >= 1,
        forall|i: int| 0 <= i < xs.len() - 1 ==> spec_more(xs[i].flags),
        !spec_more(xs[xs.len() - 1].flags),
        poll_spec(s, cur, stored_wakes_current, r),
    ensures
        r.updates@ == xs.take(xs.len() - 1),
        r.next == Some(OpState::<W, P>::Completed(xs[xs.len() - 1])),
        r.rearm == (xs.len() > 1),
{
    lemma_first_terminal(xs);
    let ft = first_terminal(xs);
    if ft < xs.len() - 1 {
        assert(spec_more(xs[ft].flags));
        assert(false);
    }
    if ft == xs.len() {
        assert(spec_more(xs[xs.len() - 1].flags));
        assert(false);
    }
}

} // verus!
