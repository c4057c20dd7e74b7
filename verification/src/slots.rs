//! Dense table of in-flight operations with small, reusable integer keys.
//!
//! Keys stay valid across growth, a key is never handed out twice while its
//! slot is occupied, and a removed key becomes available again only after the
//! removal. This carries the slot-uniqueness guarantee of the driver.

use vstd::prelude::*;

verus! {

/// A dense table keyed by small integers, with O(1) insert, lookup and
/// removal. Vacant positions are recycled through a free list.
pub struct SlotTable<T> {
    slots: Vec<Option<T>>,
    free: Vec<usize>,
    count: usize,
}

impl<T> SlotTable<T> {
    /// The value stored under key `k`, or `None` if `k` is vacant.
    pub closed spec fn spec_get(self, k: int) -> Option<T> {
        if 0 <= k < self.slots@.len() {
            self.slots@[k]
        } else {
            None
        }
    }

    /// Whether key `k` currently addresses a stored value.
    pub open spec fn occupied(self, k: int) -> bool {
        self.spec_get(k) is Some
    }

    /// Number of occupied slots.
    pub closed spec fn spec_len(self) -> int {
        self.count as int
    }

    /// Internal consistency: the free list holds exactly the vacant
    /// positions, each once, and `count` counts the occupied ones.
    pub closed spec fn wf(self) -> bool {
        &&& forall|i: int|
            0 <= i < self.free@.len() ==> (#[trigger] self.free@[i] as int) < self.slots@.len()
                && self.slots@[self.free@[i] as int] is None
        &&& forall|i: int, j: int|
            0 <= i < j < self.free@.len() ==> self.free@[i] != self.free@[j]
        &&& forall|k: int|
            0 <= k < self.slots@.len() && self.slots@[k] is None ==> exists|i: int|
                0 <= i < self.free@.len() && #[trigger] self.free@[i] as int == k
        &&& self.count + self.free@.len() == self.slots@.len()
    }

    /// An empty table.
    pub fn new() -> (r: SlotTable<T>)
        ensures
            r.wf(),
            r.spec_len() == 0,
            forall|k: int| !r.occupied(k),
    {
        SlotTable { slots: Vec::new(), free: Vec::new(), count: 0 }
    }

    /// Number of occupied slots.
    pub fn len(&self) -> (r: usize)
        ensures
            r == self.spec_len(),
    {
        self.count
    }

    /// Whether key `k` addresses a stored value.
    pub fn contains(&self, k: usize) -> (r: bool)
        ensures
            r == self.occupied(k as int),
    {
        k < self.slots.len() && self.slots[k].is_some()
    }

    /// Store `v` under a key that no in-flight entry uses: the returned key
    /// was vacant before the call, and every other key keeps its value.
    pub fn insert(&mut self, v: T) -> (k: usize)
        requires
            old(self).wf(),
        ensures
            final(self).wf(),
            !old(self).occupied(k as int),
            final(self).spec_get(k as int) == Some(v),
            forall|j: int| j != k as int ==> final(self).spec_get(j) == old(self).spec_get(j),
            final(self).spec_len() == old(self).spec_len() + 1,
    {
        match self.free.pop() {
            Some(k) => {
                proof {
                    let n = self.free@.len() as int;
                    assert(old(self).free@[n] as int == k as int);
                    assert(forall|i: int|
                        0 <= i < self.free@.len() ==> #[trigger] self.free@[i]
                            == old(self).free@[i]);
                }
                self.slots.set(k, Some(v));
                let cap = self.slots.len();
                proof {
                    assert(self.count < cap);
                }
                self.count = self.count + 1;
                proof {
                    assert forall|kk: int|
                        0 <= kk < self.slots@.len() && self.slots@[kk] is None implies exists|
                        i: int,
                    |
                        0 <= i < self.free@.len() && #[trigger] self.free@[i] as int == kk by {
                        let i0 = choose|i: int|
                            0 <= i < old(self).free@.len() && #[trigger] old(self).free@[i] as int
                                == kk;
                        assert(i0 < old(self).free@.len() - 1);
                        assert(self.free@[i0] as int == kk);
                    }
                }
                k
            },
            None => {
                let k = self.slots.len();
                self.slots.push(Some(v));
                self.count = self.slots.len();
                k
            },
        }
    }

    /// Read the value under `k`, if any.
    pub fn get(&self, k: usize) -> (r: Option<&T>)
        ensures
            match r {
                Some(v) => self.spec_get(k as int) == Some(*v),
                None => !self.occupied(k as int),
            },
    {
        if k < self.slots.len() {
            self.slots[k].as_ref()
        } else {
            None
        }
    }

    /// Swap the value under occupied key `k` for `v`, returning the old one.
    pub fn replace(&mut self, k: usize, v: T) -> (r: T)
        requires
            old(self).wf(),
            old(self).occupied(k as int),
        ensures
            final(self).wf(),
            old(self).spec_get(k as int) == Some(r),
            final(self).spec_get(k as int) == Some(v),
            forall|j: int| j != k as int ==> final(self).spec_get(j) == old(self).spec_get(j),
            final(self).spec_len() == old(self).spec_len(),
    {
        let mut cell: Option<T> = Some(v);
        let slot: &mut Option<T> = &mut self.slots[k];
        core::mem::swap(slot, &mut cell);
        proof {
            assert(self.slots@ =~= old(self).slots@.update(k as int, Some(v)));
        }
        cell.unwrap()
    }

    /// Remove and return the value under occupied key `k`; the key becomes
    /// vacant and may be reused by a later insert.
    pub fn remove(&mut self, k: usize) -> (r: T)
        requires
            old(self).wf(),
            old(self).occupied(k as int),
        ensures
            final(self).wf(),
            old(self).spec_get(k as int) == Some(r),
            !final(self).occupied(k as int),
            forall|j: int| j != k as int ==> final(self).spec_get(j) == old(self).spec_get(j),
            final(self).spec_len() == old(self).spec_len() - 1,
    {
        proof {
            Self::lemma_occupied_bounds_free(*old(self), k as int);
        }
        let mut cell: Option<T> = None;
        let slot: &mut Option<T> = &mut self.slots[k];
        core::mem::swap(slot, &mut cell);
        proof {
            assert(self.slots@ =~= old(self).slots@.update(k as int, None));
        }
        self.free.push(k);
        self.count = self.count - 1;
        proof {
            assert forall|kk: int|
                0 <= kk < self.slots@.len() && self.slots@[kk] is None implies exists|i: int|
                0 <= i < self.free@.len() && #[trigger] self.free@[i] as int == kk by {
                if kk == k as int {
                    assert(self.free@[self.free@.len() - 1] as int == kk);
                } else {
                    let i0 = choose|i: int|
                        0 <= i < old(self).free@.len() && #[trigger] old(self).free@[i] as int
                            == kk;
                    assert(self.free@[i0] as int == kk);
                }
            }
        }
        cell.unwrap()
    }

    /// With some slot occupied, the free list cannot cover the whole table,
    /// so at least one slot is counted as occupied.
    proof fn lemma_occupied_bounds_free(t: SlotTable<T>, k: int)
        requires
            t.wf(),
            t.occupied(k),
        ensures
            t.free@.len() < t.slots@.len(),
    {
        let fs = t.free@.map_values(|x: usize| x as int);
        assert(fs.no_duplicates()) by {
            assert forall|i: int, j: int|
                0 <= i < fs.len() && 0 <= j < fs.len() && i != j implies fs[i] != fs[j] by {
                if i < j {
                    assert(t.free@[i] != t.free@[j]);
                } else {
                    assert(t.free@[j] != t.free@[i]);
                }
            }
        }
        fs.unique_seq_to_set();
        let n = t.slots@.len() as int;
        let bounded = vstd::set_lib::set_int_range(0, n).remove(k);
        vstd::set_lib::lemma_int_range(0, n);
        assert(fs.to_set().subset_of(bounded)) by {
            assert forall|x: int| fs.to_set().contains(x) implies bounded.contains(x) by {
                let i = choose|i: int| 0 <= i < fs.len() && fs[i] == x;
                assert(t.free@[i] as int == x);
            }
        }
        vstd::set_lib::lemma_len_subset(fs.to_set(), bounded);
        assert(bounded.len() == n - 1);
    }
}

} // verus!
