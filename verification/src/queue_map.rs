//! Insertion-ordered mapping from call IDs to values.
//!
//! The model of a `QueueMap` is the sequence of its `(id, value)` entries
//! in insertion order. `insert` appends, `remove` deletes one entry and
//! keeps the relative order of the rest, and `pop` takes the oldest entry,
//! so iteration and draining follow insertion order even after removals
//! from the middle.

use vstd::prelude::*;

verus! {

/// No call ID occurs twice in the entry sequence.
pub open spec fn distinct_ids<V>(s: Seq<(u64, V)>) -> bool {
    forall|i: int, j: int| 0 <= i < j < s.len() ==> s[i].0 != s[j].0
}

/// Some entry carries the given call ID.
pub open spec fn has_id<V>(s: Seq<(u64, V)>, id: u64) -> bool {
    exists|i: int| 0 <= i < s.len() && s[i].0 == id
}

/// Insertion-ordered map from `u64` call IDs to values.
pub struct QueueMap<V> {
    pub entries: Vec<(u64, V)>,
}

impl<V> View for QueueMap<V> {
    type V = Seq<(u64, V)>;

    open spec fn view(&self) -> Seq<(u64, V)> {
        self.entries@
    }
}

impl<V> QueueMap<V> {
    /// An empty map.
    pub fn new() -> (r: QueueMap<V>)
        ensures
            r@ =~= Seq::<(u64, V)>::empty(),
    {
        QueueMap { entries: Vec::new() }
    }

    /// Number of queued entries.
    pub fn len(&self) -> (r: usize)
        ensures
            r == self@.len(),
    {
        self.entries.len()
    }

    /// Whether no entry is queued.
    pub fn is_empty(&self) -> (r: bool)
        ensures
            r == (self@.len() == 0),
    {
        self.entries.len() == 0
    }

    /// Whether an entry with the given call ID is queued.
    pub fn contains_id(&self, id: u64) -> (r: bool)
        ensures
            r == has_id(self@, id),
    {
        let n = self.entries.len();
        let mut i: usize = 0;
        while i < n
            invariant
                n == self@.len(),
                i <= n,
                forall|k: int| 0 <= k < i ==> self@[k].0 != id,
            decreases n - i,
        {
            if self.entries[i].0 == id {
                return true;
            }
            i = i + 1;
        }
        false
    }

    /// Appends an entry for a call ID that is not yet present.
    pub fn insert(&mut self, id: u64, v: V)
        requires
            distinct_ids(old(self)@),
            !has_id(old(self)@, id),
        ensures
            final(self)@ =~= old(self)@.push((id, v)),
            distinct_ids(final(self)@),
    {
        self.entries.push((id, v));
        assert forall|i: int, j: int| 0 <= i < j < self@.len() implies self@[i].0 != self@[j].0 by {
            if j == self@.len() - 1 {
                assert(old(self)@[i].0 != id);
            }
        }
    }

    /// Removes and returns the entry with the given call ID, keeping the
    /// relative order of the remaining entries. Returns `None` and leaves
    /// the map unchanged when the ID is absent.
    pub fn remove(&mut self, id: u64) -> (r: Option<V>)
        requires
            distinct_ids(old(self)@),
        ensures
            distinct_ids(final(self)@),
            !has_id(final(self)@, id),
            match r {
                Some(v) => exists|i: int|
                    0 <= i < old(self)@.len() && old(self)@[i].0 == id && v == old(self)@[i].1
                        && final(self)@ =~= old(self)@.remove(i),
                None => !has_id(old(self)@, id) && final(self)@ =~= old(self)@,
            },
    {
        let n = self.entries.len();
        let mut i: usize = 0;
        while i < n
            invariant
                self@ =~= old(self)@,
                distinct_ids(self@),
                n == self@.len(),
                i <= n,
                forall|k: int| 0 <= k < i ==> self@[k].0 != id,
            decreases n - i,
        {
            if self.entries[i].0 == id {
                let pair = self.entries.remove(i);
                proof {
                    assert forall|k: int| 0 <= k < self@.len() implies self@[k].0 != id by {
                        if k < i {
                            assert(self@[k] == old(self)@[k]);
                        } else {
                            assert(self@[k] == old(self)@[k + 1]);
                        }
                    }
                }
                return Some(pair.1);
            }
            i = i + 1;
        }
        None
    }

    /// Removes and returns the oldest entry, or `None` when the map is
    /// empty.
    pub fn pop(&mut self) -> (r: Option<(u64, V)>)
        requires
            distinct_ids(old(self)@),
        ensures
            distinct_ids(final(self)@),
            match r {
                Some(p) => old(self)@.len() > 0 && p == old(self)@[0] && final(self)@ =~= old(
                    self,
                )@.drop_first(),
                None => old(self)@.len() == 0 && final(self)@ =~= old(self)@,
            },
    {
        if self.entries.len() == 0 {
            None
        } else {
            let pair = self.entries.remove(0);
            assert(self@ =~= old(self)@.drop_first());
            Some(pair)
        }
    }

    /// Removes all entries and returns them in insertion order.
    pub fn drain(&mut self) -> (r: Vec<(u64, V)>)
        ensures
            r@ =~= old(self)@,
            final(self)@.len() == 0,
    {
        let mut taken: Vec<(u64, V)> = Vec::new();
        core::mem::swap(&mut taken, &mut self.entries);
        taken
    }
}

/// Ordering law for removals: deleting the entry at one position (as
/// `remove` and `pop` do) keeps every surviving pair of entries in its
/// original relative order, so draining or popping after any interleaving
/// of insertions and removals still yields the survivors in insertion
/// order.
pub proof fn lemma_remove_keeps_order<V>(pre: Seq<(u64, V)>, k: int, i: int, j: int)
    requires
        0 <= k < pre.len(),
        0 <= i < j < pre.remove(k).len(),
    ensures
        exists|i0: int, j0: int|
            0 <= i0 < j0 < pre.len() && pre[i0] == pre.remove(k)[i] && pre[j0] == pre.remove(k)[j],
{
    let post = pre.remove(k);
    let i0: int = if i < k {
        i
    } else {
        i + 1
    };
    let j0: int = if j < k {
        j
    } else {
        j + 1
    };
    assert(pre[i0] == post[i]);
    assert(pre[j0] == post[j]);
}

} // verus!
