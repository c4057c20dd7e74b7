//! Timer wheel: an ordered set of `(deadline, id)`-keyed wakers with a
//! batched operation log.
//!
//! Inserts and removals are queued and applied lazily, either when the batch
//! reaches its threshold or when the driver is about to wait. The entries
//! are kept sorted by `(deadline, id)`, so `process` — which drains the
//! batch, fires every waker whose deadline lies strictly before `now`, and
//! reports how long the driver may sleep — delivers due wakers in ascending
//! key order, with the monotonic ids arbitrating equal deadlines.

use vstd::prelude::*;

verus! {

/// Batched timer operations are applied once this many are queued.
pub const TIMER_BATCH_LIMIT: usize = 1000;

/// One armed timer: a deadline in nanoseconds, the monotonic id that
/// disambiguates equal deadlines, and the waker to fire.
pub struct TimerEntry<W> {
    pub deadline: u64,
    pub id: u64,
    pub waker: W,
}

/// A queued timer operation, applied to the wheel when the batch drains.
pub enum TimerCmd<W> {
    Insert(u64, u64, W),
    Remove(u64, u64),
}

/// Strict order on timer keys: by deadline, then by id.
pub open spec fn key_lt(d1: u64, i1: u64, d2: u64, i2: u64) -> bool {
    d1 < d2 || (d1 == d2 && i1 < i2)
}

/// The entries of `s` are in strictly ascending `(deadline, id)` order.
pub open spec fn sorted_entries<W>(s: Seq<TimerEntry<W>>) -> bool {
    forall|i: int, j: int| #![trigger s[i], s[j]]
        0 <= i < j < s.len() ==> key_lt(s[i].deadline, s[i].id, s[j].deadline, s[j].id)
}

/// Whether some entry of `s` carries key `(d, id)`.
pub open spec fn has_key<W>(s: Seq<TimerEntry<W>>, d: u64, id: u64) -> bool {
    exists|i: int| 0 <= i < s.len() && s[i].deadline == d && s[i].id == id
}

/// The position of key `(d, id)` in `s`; meaningful under [`has_key`] and
/// key uniqueness.
pub open spec fn key_idx<W>(s: Seq<TimerEntry<W>>, d: u64, id: u64) -> int {
    choose|i: int| 0 <= i < s.len() && s[i].deadline == d && s[i].id == id
}

/// No two entries of `s` carry the same key.
pub open spec fn uniq_keys<W>(s: Seq<TimerEntry<W>>) -> bool {
    forall|i: int, j: int| #![trigger s[i], s[j]]
        0 <= i < j < s.len() ==> !(s[i].deadline == s[j].deadline && s[i].id == s[j].id)
}

/// `i` splits sorted `s` at key `(d, id)`: every entry before `i` has a
/// smaller key, no entry from `i` on does.
pub open spec fn split_point_ok<W>(s: Seq<TimerEntry<W>>, d: u64, id: u64, i: int) -> bool {
    &&& 0 <= i <= s.len()
    &&& forall|j: int| 0 <= j < i ==> key_lt(#[trigger] s[j].deadline, s[j].id, d, id)
    &&& forall|j: int| i <= j < s.len() ==> !key_lt(#[trigger] s[j].deadline, s[j].id, d, id)
}

/// The position where key `(d, id)` belongs in sorted `s`.
pub open spec fn ins_idx<W>(s: Seq<TimerEntry<W>>, d: u64, id: u64) -> int {
    choose|i: int| split_point_ok(s, d, id, i)
}

/// `s` with entry `e` stored under its key: replaces the entry with the same
/// key if one exists, else inserts at the key's sorted position.
pub open spec fn upsert<W>(s: Seq<TimerEntry<W>>, e: TimerEntry<W>) -> Seq<TimerEntry<W>> {
    if has_key(s, e.deadline, e.id) {
        s.update(key_idx(s, e.deadline, e.id), e)
    } else {
        s.take(ins_idx(s, e.deadline, e.id)) + seq![e] + s.skip(ins_idx(s, e.deadline, e.id))
    }
}

/// `s` without the entry keyed `(d, id)`, if present.
pub open spec fn del<W>(s: Seq<TimerEntry<W>>, d: u64, id: u64) -> Seq<TimerEntry<W>> {
    if has_key(s, d, id) {
        s.remove(key_idx(s, d, id))
    } else {
        s
    }
}

/// What one queued operation does to the wheel's entries.
pub open spec fn cmd_step<W>(s: Seq<TimerEntry<W>>, c: TimerCmd<W>) -> Seq<TimerEntry<W>> {
    match c {
        TimerCmd::Insert(d, id, w) => upsert(s, TimerEntry { deadline: d, id: id, waker: w }),
        TimerCmd::Remove(d, id) => del(s, d, id),
    }
}

/// The entries after applying every queued operation, oldest first.
pub open spec fn apply_cmds<W>(s: Seq<TimerEntry<W>>, cmds: Seq<TimerCmd<W>>) -> Seq<
    TimerEntry<W>,
>
    decreases cmds.len(),
{
    if cmds.len() == 0 {
        s
    } else {
        cmd_step(apply_cmds(s, cmds.drop_last()), cmds.last())
    }
}

/// The wakers of all entries strictly past their deadline at `now`, in entry
/// order — for sorted entries, ascending key order.
pub open spec fn ready_seq<W>(s: Seq<TimerEntry<W>>, now: u64) -> Seq<W>
    decreases s.len(),
{
    if s.len() == 0 {
        Seq::empty()
    } else if s.last().deadline < now {
        ready_seq(s.drop_last(), now).push(s.last().waker)
    } else {
        ready_seq(s.drop_last(), now)
    }
}

/// The entries not yet due at `now`, in entry order.
pub open spec fn kept_seq<W>(s: Seq<TimerEntry<W>>, now: u64) -> Seq<TimerEntry<W>>
    decreases s.len(),
{
    if s.len() == 0 {
        Seq::empty()
    } else if s.last().deadline < now {
        kept_seq(s.drop_last(), now)
    } else {
        kept_seq(s.drop_last(), now).push(s.last())
    }
}

/// The earliest deadline among the entries of non-empty `s`.
pub open spec fn min_deadline<W>(s: Seq<TimerEntry<W>>) -> u64
    decreases s.len(),
{
    if s.len() <= 1 {
        s[0].deadline
    } else if s.last().deadline < min_deadline(s.drop_last()) {
        s.last().deadline
    } else {
        min_deadline(s.drop_last())
    }
}

/// The timer wheel with its batched operation log and the id counter.
pub struct TimerWheel<W> {
    entries: Vec<TimerEntry<W>>,
    batch: Vec<TimerCmd<W>>,
    next_id: u64,
}

impl<W> TimerWheel<W> {
    /// The armed timers in ascending key order, as last applied; queued
    /// batch operations are not yet reflected here.
    pub closed spec fn entries_seq(self) -> Seq<TimerEntry<W>> {
        self.entries@
    }

    /// The queued, not yet applied operations, oldest first.
    pub closed spec fn batch_seq(self) -> Seq<TimerCmd<W>> {
        self.batch@
    }

    /// The next monotonic id to assign.
    pub closed spec fn spec_next_id(self) -> u64 {
        self.next_id
    }

    /// The armed timers with the queued batch applied: what the wheel
    /// denotes.
    pub open spec fn model(self) -> Seq<TimerEntry<W>> {
        apply_cmds(self.entries_seq(), self.batch_seq())
    }

    /// The entries stand in ascending `(deadline, id)` order.
    pub closed spec fn wf(self) -> bool {
        sorted_entries(self.entries@)
    }

    /// A consistent wheel's entries are sorted, and so is its model.
    pub proof fn lemma_wf_sorted(self)
        requires
            self.wf(),
        ensures
            sorted_entries(self.entries_seq()),
            sorted_entries(self.model()),
    {
        lemma_apply_sorted(self.entries_seq(), self.batch_seq());
    }

    /// An empty wheel, next id zero.
    pub fn new() -> (r: TimerWheel<W>)
        ensures
            r.wf(),
            r.entries_seq().len() == 0,
            r.batch_seq().len() == 0,
            r.spec_next_id() == 0,
    {
        TimerWheel { entries: Vec::new(), batch: Vec::new(), next_id: 0 }
    }

    /// Arm a timer for `when`: assigns the next monotonic id (wrapping) and
    /// queues the insert, draining the batch at the threshold.
    pub fn insert(&mut self, when: u64, waker: W) -> (id: u64)
        requires
            old(self).wf(),
        ensures
            final(self).wf(),
            id == old(self).spec_next_id(),
            final(self).spec_next_id() == (if id == u64::MAX {
                0u64
            } else {
                (id + 1) as u64
            }),
            ({
                let queued = old(self).batch_seq().push(TimerCmd::Insert(when, id, waker));
                if queued.len() >= TIMER_BATCH_LIMIT {
                    final(self).batch_seq().len() == 0 && final(self).entries_seq() == apply_cmds(
                        old(self).entries_seq(),
                        queued,
                    )
                } else {
                    final(self).batch_seq() == queued && final(self).entries_seq() == old(
                        self,
                    ).entries_seq()
                }
            }),
    {
        let id = self.next_id;
        if self.next_id == u64::MAX {
            self.next_id = 0;
        } else {
            self.next_id = self.next_id + 1;
        }
        self.batch.push(TimerCmd::Insert(when, id, waker));
        if self.batch.len() >= TIMER_BATCH_LIMIT {
            self.drain_batch();
        }
        id
    }

    /// Queue the removal of the timer keyed `(when, id)`, draining the batch
    /// at the threshold.
    pub fn remove(&mut self, when: u64, id: u64)
        requires
            old(self).wf(),
        ensures
            final(self).wf(),
            final(self).spec_next_id() == old(self).spec_next_id(),
            ({
                let queued = old(self).batch_seq().push(TimerCmd::Remove(when, id));
                if queued.len() >= TIMER_BATCH_LIMIT {
                    final(self).batch_seq().len() == 0 && final(self).entries_seq() == apply_cmds(
                        old(self).entries_seq(),
                        queued,
                    )
                } else {
                    final(self).batch_seq() == queued && final(self).entries_seq() == old(
                        self,
                    ).entries_seq()
                }
            }),
    {
        self.batch.push(TimerCmd::Remove(when, id));
        if self.batch.len() >= TIMER_BATCH_LIMIT {
            self.drain_batch();
        }
    }

    /// Apply every queued operation to the entries, oldest first.
    pub fn drain_batch(&mut self)
        requires
            old(self).wf(),
        ensures
            final(self).wf(),
            final(self).spec_next_id() == old(self).spec_next_id(),
            final(self).batch_seq().len() == 0,
            final(self).entries_seq() == old(self).model(),
    {
        let mut cmds: Vec<TimerCmd<W>> = Vec::new();
        core::mem::swap(&mut self.batch, &mut cmds);
        let ghost all = cmds@;
        let ghost done: int = 0;
        proof {
            assert(all.take(0) =~= Seq::<TimerCmd<W>>::empty());
        }
        while cmds.len() > 0
            invariant
                0 <= done <= all.len(),
                cmds@ == all.skip(done),
                self.batch@.len() == 0,
                self.next_id == old(self).next_id,
                sorted_entries(self.entries@),
                self.entries@ == apply_cmds(old(self).entries@, all.take(done)),
            decreases cmds@.len(),
        {
            let c = cmds.remove(0);
            proof {
                assert(all.skip(done)[0] == all[done]);
                assert(all.skip(done).remove(0) =~= all.skip(done + 1));
            }
            match c {
                TimerCmd::Insert(d, id, w) => {
                    upsert_entry(&mut self.entries, TimerEntry { deadline: d, id: id, waker: w });
                },
                TimerCmd::Remove(d, id) => {
                    del_entry(&mut self.entries, d, id);
                },
            }
            proof {
                let stepped = all.take(done + 1);
                assert(stepped.drop_last() =~= all.take(done));
                assert(stepped.last() == all[done]);
                done = done + 1;
            }
        }
        proof {
            assert(all.take(done) =~= all);
        }
    }

    /// Drain the batch, fire every waker strictly past its deadline — in
    /// ascending `(deadline, id)` order, since the applied entries are
    /// sorted — and say how long the driver may sleep: zero if anything
    /// fired, the gap to the earliest remaining deadline if any timer stays
    /// armed, nothing otherwise.
    pub fn process(&mut self, now: u64, wakers: &mut Vec<W>) -> (dur: Option<u64>)
        requires
            old(self).wf(),
        ensures
            final(self).wf(),
            final(self).spec_next_id() == old(self).spec_next_id(),
            final(self).batch_seq().len() == 0,
            final(self).entries_seq() == kept_seq(old(self).model(), now),
            final(wakers)@ == old(wakers)@ + ready_seq(old(self).model(), now),
            sorted_entries(old(self).model()),
            dur == (if ready_seq(old(self).model(), now).len() > 0 {
                Some(0u64)
            } else if kept_seq(old(self).model(), now).len() > 0 {
                Some((min_deadline(kept_seq(old(self).model(), now)) - now) as u64)
            } else {
                None::<u64>
            }),
    {
        proof {
            old(self).lemma_wf_sorted();
        }
        self.drain_batch();
        let ghost applied = self.entries@;
        let mut pending: Vec<TimerEntry<W>> = Vec::new();
        core::mem::swap(&mut self.entries, &mut pending);
        let ghost seen: int = 0;
        let fired_before = wakers.len();
        proof {
            assert(applied.take(0) =~= Seq::<TimerEntry<W>>::empty());
        }
        while pending.len() > 0
            invariant
                0 <= seen <= applied.len(),
                pending@ == applied.skip(seen),
                self.entries@ == kept_seq(applied.take(seen), now),
                wakers@ == old(wakers)@ + ready_seq(applied.take(seen), now),
                fired_before == old(wakers)@.len(),
                self.batch@.len() == 0,
                self.next_id == old(self).next_id,
            decreases pending@.len(),
        {
            let e = pending.remove(0);
            proof {
                assert(applied.skip(seen)[0] == applied[seen]);
                assert(applied.skip(seen).remove(0) =~= applied.skip(seen + 1));
                let stepped = applied.take(seen + 1);
                assert(stepped.drop_last() =~= applied.take(seen));
                assert(stepped.last() == applied[seen]);
            }
            if e.deadline < now {
                wakers.push(e.waker);
            } else {
                self.entries.push(e);
            }
            proof {
                seen = seen + 1;
            }
        }
        proof {
            assert(applied.take(seen) =~= applied);
            lemma_kept_sorted(applied, now);
        }
        let dur: Option<u64> = if wakers.len() > fired_before {
            Some(0)
        } else if self.entries.len() > 0 {
            proof {
                lemma_kept_not_due(applied, now);
            }
            let mut best = self.entries[0].deadline;
            let mut i: usize = 1;
            proof {
                assert(self.entries@.take(1) =~= seq![self.entries@[0]]);
            }
            while i < self.entries.len()
                invariant
                    1 <= i <= self.entries@.len(),
                    self.entries@.len() > 0,
                    best == min_deadline(self.entries@.take(i as int)),
                decreases self.entries@.len() - i,
            {
                proof {
                    let stepped = self.entries@.take(i + 1 as int);
                    assert(stepped.drop_last() =~= self.entries@.take(i as int));
                    assert(stepped.last() == self.entries@[i as int]);
                    assert(stepped.len() > 1);
                }
                if self.entries[i].deadline < best {
                    best = self.entries[i].deadline;
                }
                i = i + 1;
            }
            proof {
                assert(self.entries@.take(i as int) =~= self.entries@);
                lemma_min_is_member(self.entries@);
            }
            Some(best - now)
        } else {
            None
        };
        dur
    }
}

/// Exec test of [`key_lt`].
fn key_before(d1: u64, i1: u64, d2: u64, i2: u64) -> (r: bool)
    ensures
        r == key_lt(d1, i1, d2, i2),
{
    d1 < d2 || (d1 == d2 && i1 < i2)
}

/// Store `e` in sorted `v` under its key: replace the entry with the same
/// key, or insert at the key's sorted position.
fn upsert_entry<W>(v: &mut Vec<TimerEntry<W>>, e: TimerEntry<W>)
    requires
        sorted_entries(old(v)@),
    ensures
        sorted_entries(final(v)@),
        final(v)@ == upsert(old(v)@, e),
{
    let mut i: usize = 0;
    while i < v.len() && key_before(v[i].deadline, v[i].id, e.deadline, e.id)
        invariant
            0 <= i <= v@.len(),
            v@ == old(v)@,
            sorted_entries(old(v)@),
            forall|j: int| 0 <= j < i ==> key_lt(#[trigger] v@[j].deadline, v@[j].id, e.deadline, e.id),
        decreases v@.len() - i,
    {
        i = i + 1;
    }
    proof {
        assert(split_point_ok(v@, e.deadline, e.id, i as int)) by {
            assert forall|j: int| i as int <= j < v@.len() implies !key_lt(
                #[trigger] v@[j].deadline,
                v@[j].id,
                e.deadline,
                e.id,
            ) by {
                if j > i as int {
                    assert(key_lt(v@[i as int].deadline, v@[i as int].id, v@[j].deadline, v@[j].id));
                }
            }
        }
        lemma_split_exists(old(v)@, e.deadline, e.id);
        lemma_split_unique(old(v)@, e.deadline, e.id, i as int, ins_idx(old(v)@, e.deadline, e.id));
    }
    if i < v.len() && v[i].deadline == e.deadline && v[i].id == e.id {
        proof {
            assert(has_key(v@, e.deadline, e.id));
            lemma_sorted_uniq(v@);
            let k = key_idx(v@, e.deadline, e.id);
            assert(v@[k].deadline == e.deadline && v@[k].id == e.id);
            let ii = i as int;
            if k < ii {
                assert(key_lt(v@[k].deadline, v@[k].id, e.deadline, e.id));
                assert(false);
            } else if k > ii {
                assert(!(v@[ii].deadline == v@[k].deadline && v@[ii].id == v@[k].id));
                assert(false);
            }
        }
        v.set(i, e);
        proof {
            lemma_upsert_sorted(old(v)@, e);
        }
    } else {
        proof {
            assert(!has_key(v@, e.deadline, e.id)) by {
                if has_key(v@, e.deadline, e.id) {
                    let k = key_idx(v@, e.deadline, e.id);
                    assert(v@[k].deadline == e.deadline && v@[k].id == e.id);
                    let ii = i as int;
                    if k < ii {
                        assert(key_lt(v@[k].deadline, v@[k].id, e.deadline, e.id));
                        assert(false);
                    } else if k > ii {
                        // sorted: the entry at the split point already has a
                        // key at or above e's, so a later equal key is impossible
                        assert(key_lt(v@[ii].deadline, v@[ii].id, v@[k].deadline, v@[k].id));
                        assert(!key_lt(v@[ii].deadline, v@[ii].id, e.deadline, e.id));
                        assert(false);
                    } else {
                        assert(false);
                    }
                }
            }
        }
        v.insert(i, e);
        proof {
            assert(v@ =~= old(v)@.take(i as int) + seq![e] + old(v)@.skip(i as int));
            lemma_upsert_sorted(old(v)@, e);
        }
    }
}

/// Remove the entry keyed `(d, id)` from sorted `v`, if present.
fn del_entry<W>(v: &mut Vec<TimerEntry<W>>, d: u64, id: u64)
    requires
        sorted_entries(old(v)@),
    ensures
        sorted_entries(final(v)@),
        final(v)@ == del(old(v)@, d, id),
{
    proof {
        lemma_sorted_uniq(old(v)@);
    }
    let mut i: usize = 0;
    while i < v.len()
        invariant
            0 <= i <= v@.len(),
            v@ == old(v)@,
            sorted_entries(old(v)@),
            uniq_keys(old(v)@),
            forall|j: int| 0 <= j < i ==> !(v@[j].deadline == d && v@[j].id == id),
        decreases v@.len() - i,
    {
        if v[i].deadline == d && v[i].id == id {
            proof {
                assert(has_key(v@, d, id));
                let i0 = key_idx(v@, d, id);
                assert(v@[i0].deadline == d && v@[i0].id == id);
                let ii = i as int;
                if i0 < ii {
                    assert(!(v@[i0].deadline == v@[ii].deadline && v@[i0].id == v@[ii].id));
                    assert(false);
                } else if i0 > ii {
                    assert(!(v@[ii].deadline == v@[i0].deadline && v@[ii].id == v@[i0].id));
                    assert(false);
                }
            }
            v.remove(i);
            proof {
                lemma_del_sorted(old(v)@, d, id);
            }
            return ;
        }
        i = i + 1;
    }
    proof {
        assert(!has_key(v@, d, id));
    }
}

/// A strictly sorted sequence has no repeated key.
pub proof fn lemma_sorted_uniq<W>(s: Seq<TimerEntry<W>>)
    requires
        sorted_entries(s),
    ensures
        uniq_keys(s),
{
}

/// In a sorted sequence every key has a split point.
pub proof fn lemma_split_exists<W>(s: Seq<TimerEntry<W>>, d: u64, id: u64)
    requires
        sorted_entries(s),
    ensures
        split_point_ok(s, d, id, ins_idx(s, d, id)),
    decreases s.len(),
{
    if s.len() == 0 {
        assert(split_point_ok(s, d, id, 0));
    } else if key_lt(s[0].deadline, s[0].id, d, id) {
        let rest = s.drop_first();
        assert(sorted_entries(rest)) by {
            assert(forall|i: int| 0 <= i < rest.len() ==> rest[i] == s[i + 1]);
        }
        lemma_split_exists(rest, d, id);
        let i = ins_idx(rest, d, id);
        assert(split_point_ok(s, d, id, i + 1)) by {
            assert forall|j: int| 0 <= j < i + 1 implies key_lt(
                #[trigger] s[j].deadline,
                s[j].id,
                d,
                id,
            ) by {
                if j > 0 {
                    assert(rest[j - 1] == s[j]);
                }
            }
            assert forall|j: int| i + 1 <= j < s.len() implies !key_lt(
                #[trigger] s[j].deadline,
                s[j].id,
                d,
                id,
            ) by {
                assert(rest[j - 1] == s[j]);
            }
        }
    } else {
        assert(split_point_ok(s, d, id, 0)) by {
            assert forall|j: int| 0 <= j < s.len() implies !key_lt(
                #[trigger] s[j].deadline,
                s[j].id,
                d,
                id,
            ) by {
                if j > 0 {
                    assert(key_lt(s[0].deadline, s[0].id, s[j].deadline, s[j].id));
                }
            }
        }
    }
}

/// A key's split point is unique.
pub proof fn lemma_split_unique<W>(s: Seq<TimerEntry<W>>, d: u64, id: u64, i1: int, i2: int)
    requires
        split_point_ok(s, d, id, i1),
        split_point_ok(s, d, id, i2),
    ensures
        i1 == i2,
{
    if i1 < i2 {
        assert(key_lt(s[i1].deadline, s[i1].id, d, id));
        assert(!key_lt(s[i1].deadline, s[i1].id, d, id));
    } else if i2 < i1 {
        assert(key_lt(s[i2].deadline, s[i2].id, d, id));
        assert(!key_lt(s[i2].deadline, s[i2].id, d, id));
    }
}

/// Upserting into a sorted sequence keeps it sorted.
pub proof fn lemma_upsert_sorted<W>(s: Seq<TimerEntry<W>>, e: TimerEntry<W>)
    requires
        sorted_entries(s),
    ensures
        sorted_entries(upsert(s, e)),
{
    if has_key(s, e.deadline, e.id) {
        let k = key_idx(s, e.deadline, e.id);
        assert(s[k].deadline == e.deadline && s[k].id == e.id);
        let r = s.update(k, e);
        assert forall|a: int, b: int| #![trigger r[a], r[b]]
            0 <= a < b < r.len() implies key_lt(r[a].deadline, r[a].id, r[b].deadline, r[b].id) by {
            assert(key_lt(s[a].deadline, s[a].id, s[b].deadline, s[b].id));
        }
    } else {
        lemma_split_exists(s, e.deadline, e.id);
        let i = ins_idx(s, e.deadline, e.id);
        let r = s.take(i) + seq![e] + s.skip(i);
        assert forall|a: int, b: int| #![trigger r[a], r[b]]
            0 <= a < b < r.len() implies key_lt(r[a].deadline, r[a].id, r[b].deadline, r[b].id) by {
            if a < i {
                assert(r[a] == s[a]);
                assert(key_lt(s[a].deadline, s[a].id, e.deadline, e.id));
            } else if a == i {
                assert(r[a] == e);
            } else {
                assert(r[a] == s[a - 1]);
            }
            if b < i {
                assert(r[b] == s[b]);
            } else if b == i {
                assert(r[b] == e);
            } else {
                assert(r[b] == s[b - 1]);
                assert(!key_lt(s[b - 1].deadline, s[b - 1].id, e.deadline, e.id));
                assert(!(s[b - 1].deadline == e.deadline && s[b - 1].id == e.id));
            }
            if a < i && b > i && a < b - 1 {
                assert(key_lt(s[a].deadline, s[a].id, s[b - 1].deadline, s[b - 1].id));
            }
        }
    }
}

/// Deleting from a sorted sequence keeps it sorted.
pub proof fn lemma_del_sorted<W>(s: Seq<TimerEntry<W>>, d: u64, id: u64)
    requires
        sorted_entries(s),
    ensures
        sorted_entries(del(s, d, id)),
{
    if has_key(s, d, id) {
        let k = key_idx(s, d, id);
        assert(0 <= k < s.len());
        let r = s.remove(k);
        assert forall|a: int, b: int| #![trigger r[a], r[b]]
            0 <= a < b < r.len() implies key_lt(r[a].deadline, r[a].id, r[b].deadline, r[b].id) by {
            let a0 = if a < k {
                a
            } else {
                a + 1
            };
            let b0 = if b < k {
                b
            } else {
                b + 1
            };
            assert(r[a] == s[a0] && r[b] == s[b0]);
            assert(key_lt(s[a0].deadline, s[a0].id, s[b0].deadline, s[b0].id));
        }
    }
}

/// Applying a batch to sorted entries keeps them sorted.
pub proof fn lemma_apply_sorted<W>(s: Seq<TimerEntry<W>>, cmds: Seq<TimerCmd<W>>)
    requires
        sorted_entries(s),
    ensures
        sorted_entries(apply_cmds(s, cmds)),
    decreases cmds.len(),
{
    if cmds.len() > 0 {
        lemma_apply_sorted(s, cmds.drop_last());
        match cmds.last() {
            TimerCmd::Insert(d, id, w) => {
                lemma_upsert_sorted(
                    apply_cmds(s, cmds.drop_last()),
                    TimerEntry { deadline: d, id: id, waker: w },
                );
            },
            TimerCmd::Remove(d, id) => {
                lemma_del_sorted(apply_cmds(s, cmds.drop_last()), d, id);
            },
        }
    }
}

/// On sorted entries the due ones form a prefix: the fired wakers are
/// exactly the wakers of the first entries, in ascending key order, and the
/// first entry after them (if any) is not yet due.
pub proof fn lemma_ready_prefix<W>(s: Seq<TimerEntry<W>>, now: u64)
    requires
        sorted_entries(s),
    ensures
        ready_seq(s, now).len() <= s.len(),
        forall|a: int|
            0 <= a < ready_seq(s, now).len() ==> #[trigger] ready_seq(s, now)[a] == s[a].waker
                && s[a].deadline < now,
        ready_seq(s, now).len() < s.len() ==> s[ready_seq(s, now).len() as int].deadline >= now,
    decreases s.len(),
{
    if s.len() > 0 {
        let dl = s.drop_last();
        assert(sorted_entries(dl)) by {
            assert(forall|i: int| 0 <= i < dl.len() ==> dl[i] == s[i]);
        }
        lemma_ready_prefix(dl, now);
        let r = ready_seq(s, now);
        let rd = ready_seq(dl, now);
        if s.last().deadline < now {
            // everything before the last entry has a smaller key, so a due
            // last entry means every entry is due
            assert forall|i: int| 0 <= i < dl.len() implies (#[trigger] dl[i]).deadline < now by {
                assert(key_lt(s[i].deadline, s[i].id, s[s.len() - 1].deadline, s[s.len() - 1].id));
            }
            if rd.len() < dl.len() {
                assert(dl[rd.len() as int].deadline >= now);
                assert(false);
            }
            assert(r == rd.push(s.last().waker));
            assert forall|a: int|
                0 <= a < r.len() implies #[trigger] r[a] == s[a].waker
                && s[a].deadline < now by {
                if a < r.len() - 1 {
                    assert(r[a] == rd[a]);
                    assert(dl[a] == s[a]);
                } else {
                    assert(r[a] == s[s.len() - 1].waker);
                }
            }
        } else {
            assert(r == rd);
            assert forall|a: int|
                0 <= a < r.len() implies #[trigger] r[a] == s[a].waker
                && s[a].deadline < now by {
                assert(rd[a] == dl[a].waker);
                assert(dl[a] == s[a]);
            }
            if r.len() < s.len() {
                if r.len() < dl.len() {
                    assert(dl[r.len() as int] == s[r.len() as int]);
                } else {
                    assert(r.len() == s.len() - 1);
                }
            }
        }
    }
}

/// Timer ordering: two timers both past deadline are delivered in the same
/// batch, in ascending `(deadline, id)` order — the earlier key's waker
/// stands before the later key's.
pub proof fn lemma_due_wakers_in_key_order<W>(s: Seq<TimerEntry<W>>, now: u64, i: int, j: int)
    requires
        sorted_entries(s),
        0 <= i < j < s.len(),
        s[j].deadline < now,
    ensures
        ready_seq(s, now).len() > j,
        ready_seq(s, now)[i] == s[i].waker,
        ready_seq(s, now)[j] == s[j].waker,
{
    lemma_ready_prefix(s, now);
    let n = ready_seq(s, now).len() as int;
    if n <= j {
        if n < j {
            assert(key_lt(s[n].deadline, s[n].id, s[j].deadline, s[j].id));
        }
        assert(s[n].deadline >= now);
        assert(false);
    }
}

/// Every entry the split keeps is at or past `now`.
pub proof fn lemma_kept_not_due<W>(s: Seq<TimerEntry<W>>, now: u64)
    ensures
        forall|i: int|
            0 <= i < kept_seq(s, now).len() ==> (#[trigger] kept_seq(s, now)[i]).deadline >= now,
    decreases s.len(),
{
    if s.len() > 0 {
        lemma_kept_not_due(s.drop_last(), now);
        let k = kept_seq(s, now);
        let kd = kept_seq(s.drop_last(), now);
        assert forall|i: int| 0 <= i < k.len() implies (#[trigger] k[i]).deadline >= now by {
            if s.last().deadline < now {
                assert(k[i] == kd[i]);
            } else if i < k.len() - 1 {
                assert(k[i] == kd[i]);
            } else {
                assert(k[i] == s.last());
            }
        }
    }
}

/// Ascending key order survives the split.
pub proof fn lemma_kept_sorted<W>(s: Seq<TimerEntry<W>>, now: u64)
    requires
        sorted_entries(s),
    ensures
        sorted_entries(kept_seq(s, now)),
    decreases s.len(),
{
    if s.len() > 0 {
        let dl = s.drop_last();
        assert(sorted_entries(dl)) by {
            assert(forall|i: int| 0 <= i < dl.len() ==> dl[i] == s[i]);
        }
        lemma_kept_sorted(dl, now);
        lemma_kept_is_member(dl, now);
        if !(s.last().deadline < now) {
            let k = kept_seq(s, now);
            let kd = kept_seq(dl, now);
            assert forall|a: int, b: int| #![trigger k[a], k[b]]
                0 <= a < b < k.len() implies key_lt(k[a].deadline, k[a].id, k[b].deadline, k[b].id) by {
                if b < k.len() - 1 {
                    assert(k[a] == kd[a] && k[b] == kd[b]);
                } else {
                    assert(k[a] == kd[a] && k[b] == s.last());
                    let j0 = choose|j: int| 0 <= j < dl.len() && dl[j] == kd[a];
                    let last = s.len() - 1;
                    assert(key_lt(s[j0].deadline, s[j0].id, s[last].deadline, s[last].id));
                }
            }
        }
    }
}

/// Each kept entry occurs somewhere in `s`.
pub proof fn lemma_kept_is_member<W>(s: Seq<TimerEntry<W>>, now: u64)
    ensures
        forall|i: int|
            0 <= i < kept_seq(s, now).len() ==> exists|j: int|
                0 <= j < s.len() && s[j] == #[trigger] kept_seq(s, now)[i],
    decreases s.len(),
{
    if s.len() > 0 {
        lemma_kept_is_member(s.drop_last(), now);
        assert forall|i: int| 0 <= i < kept_seq(s, now).len() implies exists|j: int|
            0 <= j < s.len() && s[j] == #[trigger] kept_seq(s, now)[i] by {
            if s.last().deadline < now || i < kept_seq(s, now).len() - 1 {
                if i < kept_seq(s.drop_last(), now).len() {
                    let j0 = choose|j: int|
                        0 <= j < s.drop_last().len() && s.drop_last()[j] == kept_seq(
                            s.drop_last(),
                            now,
                        )[i];
                    assert(s[j0] == kept_seq(s, now)[i]);
                }
            } else {
                assert(s[s.len() - 1] == kept_seq(s, now)[i]);
            }
        }
    }
}

/// The minimum deadline is attained by some entry and bounds them all.
pub proof fn lemma_min_is_member<W>(s: Seq<TimerEntry<W>>)
    requires
        s.len() > 0,
    ensures
        exists|i: int| 0 <= i < s.len() && (#[trigger] s[i]).deadline == min_deadline(s),
        forall|i: int| 0 <= i < s.len() ==> (#[trigger] s[i]).deadline >= min_deadline(s),
    decreases s.len(),
{
    if s.len() > 1 {
        lemma_min_is_member(s.drop_last());
        assert forall|i: int| 0 <= i < s.len() implies (#[trigger] s[i]).deadline
            >= min_deadline(s) by {
            if i < s.len() - 1 {
                assert(s.drop_last()[i] == s[i]);
            }
        }
        if !(s.last().deadline < min_deadline(s.drop_last())) {
            let i0 = choose|i: int|
                0 <= i < s.drop_last().len() && (#[trigger] s.drop_last()[i]).deadline
                    == min_deadline(s.drop_last());
            assert(s[i0].deadline == min_deadline(s));
        }
    } else {
        assert(s[0].deadline == min_deadline(s));
    }
}

/// A timer past its deadline has its waker in the fired batch; two such
/// timers are thus delivered together in one processing pass.
pub proof fn lemma_due_waker_fired<W>(s: Seq<TimerEntry<W>>, now: u64, i: int)
    requires
        0 <= i < s.len(),
        s[i].deadline < now,
    ensures
        exists|k: int| 0 <= k < ready_seq(s, now).len() && ready_seq(s, now)[k] == s[i].waker,
    decreases s.len(),
{
    if i == s.len() - 1 {
        let r = ready_seq(s, now);
        assert(r[r.len() - 1] == s[i].waker);
    } else {
        lemma_due_waker_fired(s.drop_last(), now, i);
        let w = s[i].waker;
        let k0 = choose|k: int|
            0 <= k < ready_seq(s.drop_last(), now).len() && ready_seq(s.drop_last(), now)[k] == w;
        assert(ready_seq(s, now)[k0] == s[i].waker);
    }
}

/// A timer at or past its deadline forces the sleep that `process` reports
/// to be zero, so the following wait asks the kernel for no completions.
pub proof fn lemma_due_timer_forces_zero_wait<W>(s: Seq<TimerEntry<W>>, now: u64, i: int)
    requires
        0 <= i < s.len(),
        s[i].deadline <= now,
    ensures
        (if ready_seq(s, now).len() > 0 {
            Some(0u64)
        } else if kept_seq(s, now).len() > 0 {
            Some((min_deadline(kept_seq(s, now)) - now) as u64)
        } else {
            None::<u64>
        }) == Some(0u64),
{
    lemma_due_timer_zero_sleep(s, now, i);
}

/// A timer at or past its deadline forces a zero sleep: either some timer
/// fired, or the earliest kept deadline is `now` itself.
pub proof fn lemma_due_timer_zero_sleep<W>(s: Seq<TimerEntry<W>>, now: u64, i: int)
    requires
        0 <= i < s.len(),
        s[i].deadline <= now,
    ensures
        ready_seq(s, now).len() > 0 || (kept_seq(s, now).len() > 0 && min_deadline(
            kept_seq(s, now),
        ) == now),
    decreases s.len(),
{
    if s[i].deadline < now {
        lemma_due_waker_fired(s, now, i);
    } else {
        lemma_kept_entry(s, now, i);
        lemma_kept_not_due(s, now);
        let k = choose|k: int|
            0 <= k < kept_seq(s, now).len() && kept_seq(s, now)[k] == s[i];
        lemma_min_is_member(kept_seq(s, now));
        assert(min_deadline(kept_seq(s, now)) <= now);
    }
}

/// An entry not yet due at `now` is kept by the split.
pub proof fn lemma_kept_entry<W>(s: Seq<TimerEntry<W>>, now: u64, i: int)
    requires
        0 <= i < s.len(),
        s[i].deadline >= now,
    ensures
        exists|k: int| 0 <= k < kept_seq(s, now).len() && kept_seq(s, now)[k] == s[i],
    decreases s.len(),
{
    if i == s.len() - 1 {
        let r = kept_seq(s, now);
        assert(r[r.len() - 1] == s[i]);
    } else {
        lemma_kept_entry(s.drop_last(), now, i);
        let k0 = choose|k: int|
            0 <= k < kept_seq(s.drop_last(), now).len() && kept_seq(s.drop_last(), now)[k] == s[i];
        if s.last().deadline < now {
            assert(kept_seq(s, now)[k0] == s[i]);
        } else {
            assert(kept_seq(s, now)[k0] == s[i]);
        }
    }
}

} // verus!
