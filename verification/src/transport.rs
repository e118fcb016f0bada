//! Request correlation for one LSP connection: an id counter and the
//! table of pending requests, keyed by id.
//!
//! Every outgoing request gets a fresh, strictly increasing id and a slot
//! in the table before its bytes are written. The single reader task looks
//! each inbound response frame up by id; the slot is removed as it is
//! completed, so each response reaches exactly one waiter.

use vstd::prelude::*;

verus! {

/// The pending-request table of one LSP connection.
pub struct PendingMap {
    /// Ids with a waiting slot.
    ids: Vec<u64>,
    /// The next id to assign; every pending id is smaller.
    next_id: u64,
}

impl PendingMap {
    /// The set of ids that have a waiter.
    pub closed spec fn pending(self) -> Set<u64> {
        self.ids@.to_set()
    }

    /// The id the next request will get.
    pub closed spec fn next(self) -> u64 {
        self.next_id
    }

    /// No id occurs twice, and every pending id is below the counter.
    pub closed spec fn wf(self) -> bool {
        &&& (forall|i: int, j: int|
            0 <= i < j < self.ids@.len() ==> self.ids@[i] != self.ids@[j])
        &&& (forall|i: int| 0 <= i < self.ids@.len() ==> #[trigger] self.ids@[i] < self.next_id)
    }

    /// An empty table; ids start at 1.
    pub fn new() -> (r: PendingMap)
        ensures
            r.wf(),
            r.pending() == Set::<u64>::empty(),
            r.next() == 1,
    {
        let r = PendingMap { ids: Vec::new(), next_id: 1 };
        proof {
            assert(r.pending() =~= Set::<u64>::empty());
        }
        r
    }

    /// Register a waiter and return its id.
    ///
    /// The id is fresh: it was never pending before, and it is larger than
    /// every id handed out earlier, so ids are strictly increasing.
    pub fn register(&mut self) -> (id: u64)
        requires
            old(self).wf(),
            old(self).next() < u64::MAX,
        ensures
            final(self).wf(),
            id == old(self).next(),
            !old(self).pending().contains(id),
            final(self).pending() == old(self).pending().insert(id),
            final(self).next() == old(self).next() + 1,
    {
        let id = self.next_id;
        self.ids.push(id);
        self.next_id = self.next_id + 1;
        proof {
            old(self).ids@.lemma_push_to_set_commute(id);
            assert(!old(self).pending().contains(id)) by {
                if old(self).ids@.to_set().contains(id) {
                    let k = choose|k: int|
                        0 <= k < old(self).ids@.len() && old(self).ids@[k] == id;
                    assert(old(self).ids@[k] < old(self).next_id);
                }
            }
            assert(self.pending() =~= old(self).pending().insert(id));
        }
        id
    }

    /// Deliver a response: remove the waiter for `id`, if there is one.
    ///
    /// Returns whether a waiter was found. Afterwards `id` is pending no
    /// more, so a later frame with the same id finds no waiter: each
    /// response is delivered at most once, and to the right slot.
    pub fn complete(&mut self, id: u64) -> (delivered: bool)
        requires
            old(self).wf(),
        ensures
            final(self).wf(),
            delivered == old(self).pending().contains(id),
            final(self).pending() == old(self).pending().remove(id),
            final(self).next() == old(self).next(),
    {
        let n = self.ids.len();
        let mut i: usize = 0;
        while i < n
            invariant
                self.ids@ == old(self).ids@,
                self.next_id == old(self).next_id,
                old(self).wf(),
                n == self.ids@.len(),
                i <= n,
                forall|k: int| 0 <= k < i ==> self.ids@[k] != id,
            decreases n - i,
        {
            if self.ids[i] == id {
                self.ids.remove(i);
                proof {
                    let before = old(self).ids@;
                    let after = self.ids@;
                    assert(after =~= before.subrange(0, i as int) + before.subrange(
                        i + 1, before.len() as int));
                    assert(before.to_set().contains(id)) by {
                        assert(before[i as int] == id);
                    }
                    assert forall|x: u64| after.to_set().contains(x) implies before.to_set(
                    ).remove(id).contains(x) by {
                        let k = choose|k: int| 0 <= k < after.len() && after[k] == x;
                        if k < i {
                            assert(before[k] == x);
                        } else {
                            assert(before[k + 1] == x);
                        }
                        assert(x != id) by {
                            if k < i {
                                assert(before[k] != before[i as int]);
                            } else {
                                assert(before[k + 1] != before[i as int]);
                            }
                        }
                    }
                    assert forall|x: u64| before.to_set().remove(id).contains(x) implies after.to_set(
                    ).contains(x) by {
                        let k = choose|k: int| 0 <= k < before.len() && before[k] == x;
                        assert(k != i);
                        if k < i {
                            assert(after[k] == x);
                        } else {
                            assert(after[k - 1] == x);
                        }
                    }
                    assert(self.pending() =~= old(self).pending().remove(id));
                }
                return true;
            }
            i = i + 1;
        }
        proof {
            assert(!old(self).pending().contains(id)) by {
                if old(self).ids@.to_set().contains(id) {
                    let k = choose|k: int|
                        0 <= k < old(self).ids@.len() && old(self).ids@[k] == id;
                    assert(old(self).ids@[k] != id);
                }
            }
            assert(self.pending() =~= old(self).pending().remove(id));
        }
        false
    }

    /// Take every pending id, leaving the table empty.
    ///
    /// Used when the reader sees end-of-stream: every remaining waiter is
    /// completed with a connection-closed failure.
    pub fn drain(&mut self) -> (ids: Vec<u64>)
        requires
            old(self).wf(),
        ensures
            final(self).wf(),
            final(self).pending() == Set::<u64>::empty(),
            ids@.to_set() == old(self).pending(),
            final(self).next() == old(self).next(),
    {
        let mut out: Vec<u64> = Vec::new();
        core::mem::swap(&mut out, &mut self.ids);
        proof {
            assert(self.pending() =~= Set::<u64>::empty());
        }
        out
    }

    /// The id the next request will be assigned.
    pub fn peek_next_id(&self) -> (r: u64)
        ensures
            r == self.next(),
    {
        self.next_id
    }

    /// How many requests are waiting.
    pub fn pending_count(&self) -> (r: usize)
        requires
            self.wf(),
        ensures
            r == self.pending().len(),
    {
        proof {
            lemma_distinct_to_set_len(self.ids@);
        }
        self.ids.len()
    }
}

/// A sequence of distinct elements has as many set members as entries.
proof fn lemma_distinct_to_set_len(s: Seq<u64>)
    requires
        forall|i: int, j: int| 0 <= i < j < s.len() ==> s[i] != s[j],
    ensures
        s.to_set().len() == s.len(),
{
    assert(s.no_duplicates());
    s.unique_seq_to_set();
}

/// Delivery is exactly-once: delivering id `x` removes only `x`, so a
/// second frame with the same id finds no waiter, and a frame with a
/// different id still finds its own.
pub proof fn lemma_delivery_exactly_once(pending: Set<u64>, x: u64, y: u64)
    ensures
        !pending.remove(x).contains(x),
        y != x ==> pending.remove(x).contains(y) == pending.contains(y),
{
}

} // verus!
