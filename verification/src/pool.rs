//! The pool of live LSP clients, keyed by workspace root.
//!
//! The daemon keeps one client per workspace, created on first use and
//! dropped when idle. The pool itself is bookkeeping over plain values:
//! each entry names its workspace, a client handle token, and the time of
//! its last use. The caller owning the real client processes maps tokens
//! to them and performs the creation and teardown the pool decides on.

use vstd::prelude::*;
use vstd::string::StringExecFns;
use crate::strutil::{clone_string, string_eq_str};

verus! {

/// One pool entry: a workspace root, the token of its client, and the
/// last time the entry was looked up.
pub struct PoolEntry {
    /// The workspace root this client serves.
    pub workspace: String,
    /// Caller-chosen token naming the live client.
    pub client: u64,
    /// When the entry was last handed out.
    pub last_access: u64,
}

/// Whether an entry is fresh at time `now`: last touched within the idle
/// threshold (an entry touched in the future counts as fresh).
pub open spec fn entry_fresh(e: PoolEntry, now: u64, timeout: u64) -> bool {
    e.last_access > now || now - e.last_access <= timeout
}

/// What identifies an entry: its workspace root, client token, and
/// last-access time.
pub open spec fn entry_model(e: PoolEntry) -> (Seq<char>, u64, u64) {
    (e.workspace@, e.client, e.last_access)
}

/// Whether some entry of a list has this model.
pub open spec fn entry_listed(es: Seq<PoolEntry>, m: (Seq<char>, u64, u64)) -> bool {
    exists|i: int| 0 <= i < es.len() && entry_model(#[trigger] es[i]) == m
}

/// Whether `after` is `before` with exactly one entry taken out: the
/// one at some position serving `workspace`.
pub open spec fn removed_one(
    before: Seq<PoolEntry>,
    after: Seq<PoolEntry>,
    workspace: Seq<char>,
) -> bool {
    exists|i: int|
        0 <= i < before.len() && (#[trigger] before[i]).workspace@ == workspace && after
            == before.remove(i)
}

/// Whether a token stands in a token list.
pub open spec fn token_listed(ts: Seq<u64>, t: u64) -> bool {
    exists|i: int| 0 <= i < ts.len() && #[trigger] ts[i] == t
}

/// Whether some entry of the list is stale at `now` and carries the
/// token.
pub open spec fn stale_source(es: Seq<PoolEntry>, t: u64, now: u64, timeout: u64) -> bool {
    exists|i: int|
        0 <= i < es.len() && (#[trigger] es[i]).client == t && !entry_fresh(es[i], now, timeout)
}

/// A listed token stays listed when the list grows.
proof fn lemma_token_listed_push(ts: Seq<u64>, x: u64, t: u64)
    requires
        token_listed(ts, t),
    ensures
        token_listed(ts.push(x), t),
{
    let i = choose|i: int| 0 <= i < ts.len() && #[trigger] ts[i] == t;
    assert(ts.push(x)[i] == t);
}

/// A listed entry model stays listed when the list grows.
proof fn lemma_entry_listed_push(es: Seq<PoolEntry>, x: PoolEntry, m: (Seq<char>, u64, u64))
    requires
        entry_listed(es, m),
    ensures
        entry_listed(es.push(x), m),
{
    let i = choose|i: int| 0 <= i < es.len() && entry_model(#[trigger] es[i]) == m;
    assert(entry_model(es.push(x)[i]) == m);
}

/// The pool: at most one live client per workspace root.
pub struct LspClientPool {
    entries: Vec<PoolEntry>,
}

impl LspClientPool {
    /// The entries, in insertion order.
    pub closed spec fn entries_seq(self) -> Seq<PoolEntry> {
        self.entries@
    }

    /// No two entries share a workspace root.
    pub open spec fn wf(self) -> bool {
        forall|i: int, j: int|
            0 <= i < j < self.entries_seq().len() ==> self.entries_seq()[i].workspace@
                != self.entries_seq()[j].workspace@
    }

    /// Whether some entry serves `workspace`.
    pub open spec fn has_workspace(self, workspace: Seq<char>) -> bool {
        exists|i: int|
            0 <= i < self.entries_seq().len() && self.entries_seq()[i].workspace@ == workspace
    }

    /// An empty pool.
    pub fn new() -> (r: LspClientPool)
        ensures
            r.wf(),
            r.entries_seq() == Seq::<PoolEntry>::empty(),
    {
        LspClientPool { entries: Vec::new() }
    }

    /// Look the workspace up; if present, refresh its last-access time and
    /// return its client token.
    pub fn touch(&mut self, workspace: &str, now: u64) -> (r: Option<u64>)
        requires
            old(self).wf(),
        ensures
            final(self).wf(),
            final(self).entries_seq().len() == old(self).entries_seq().len(),
            match r {
                Some(client) => {
                    &&& old(self).has_workspace(workspace@)
                    &&& exists|i: int|
                        #![auto]
                        {
                            &&& 0 <= i < old(self).entries_seq().len()
                            &&& old(self).entries_seq()[i].workspace@ == workspace@
                            &&& old(self).entries_seq()[i].client == client
                            &&& final(self).entries_seq()[i].workspace@ == workspace@
                            &&& final(self).entries_seq()[i].client == client
                            &&& final(self).entries_seq()[i].last_access == now
                            &&& forall|k: int|
                                0 <= k < old(self).entries_seq().len() && k != i
                                    ==> final(self).entries_seq()[k] == old(self).entries_seq()[k]
                        }
                },
                None => {
                    &&& !old(self).has_workspace(workspace@)
                    &&& final(self).entries_seq() == old(self).entries_seq()
                },
            },
    {
        let n = self.entries.len();
        let mut i: usize = 0;
        while i < n
            invariant
                *self == *old(self),
                old(self).wf(),
                n == self.entries@.len(),
                i <= n,
                forall|k: int| 0 <= k < i ==> self.entries@[k].workspace@ != workspace@,
            decreases n - i,
        {
            if string_eq_str(&self.entries[i].workspace, workspace) {
                let client = self.entries[i].client;
                let ws = clone_string(&self.entries[i].workspace);
                let ghost before = self.entries@;
                self.entries.set(i, PoolEntry { workspace: ws, client, last_access: now });
                proof {
                    assert(before[i as int].workspace@ == workspace@);
                    assert(old(self).has_workspace(workspace@)) by {
                        assert(old(self).entries_seq()[i as int].workspace@ == workspace@);
                    }
                    assert(self.entries@[i as int].workspace@ == workspace@);
                    assert forall|a: int, b: int|
                        0 <= a < b < self.entries@.len() implies self.entries@[a].workspace@
                        != self.entries@[b].workspace@ by {
                        assert(before[a].workspace@ != before[b].workspace@);
                        assert(self.entries@[a].workspace@ == before[a].workspace@);
                        assert(self.entries@[b].workspace@ == before[b].workspace@);
                    }
                }
                return Some(client);
            }
            i = i + 1;
        }
        proof {
            assert(!old(self).has_workspace(workspace@)) by {
                if old(self).has_workspace(workspace@) {
                    let k = choose|k: int|
                        0 <= k < old(self).entries_seq().len() && old(self).entries_seq()[
                        k].workspace@ == workspace@;
                    assert(self.entries@[k].workspace@ != workspace@);
                }
            }
        }
        None
    }

    /// Insert a new entry for a workspace the pool does not yet serve.
    ///
    /// Keeping insertion behind this check is what makes the pool hold at
    /// most one live client per workspace root.
    pub fn insert(&mut self, workspace: &str, client: u64, now: u64) -> (r: bool)
        requires
            old(self).wf(),
        ensures
            final(self).wf(),
            r == !old(self).has_workspace(workspace@),
            r ==> {
                &&& final(self).entries_seq().len() == old(self).entries_seq().len() + 1
                &&& forall|k: int|
                    0 <= k < old(self).entries_seq().len() ==> final(self).entries_seq()[k]
                        == old(self).entries_seq()[k]
                &&& final(self).entries_seq().last().workspace@ == workspace@
                &&& final(self).entries_seq().last().client == client
                &&& final(self).entries_seq().last().last_access == now
            },
            !r ==> final(self).entries_seq() == old(self).entries_seq(),
            final(self).has_workspace(workspace@),
    {
        let n = self.entries.len();
        let mut i: usize = 0;
        while i < n
            invariant
                *self == *old(self),
                old(self).wf(),
                n == self.entries@.len(),
                i <= n,
                forall|k: int| 0 <= k < i ==> self.entries@[k].workspace@ != workspace@,
            decreases n - i,
        {
            if string_eq_str(&self.entries[i].workspace, workspace) {
                proof {
                    assert(old(self).has_workspace(workspace@)) by {
                        assert(old(self).entries_seq()[i as int].workspace@ == workspace@);
                    }
                    assert(self.has_workspace(workspace@)) by {
                        assert(self.entries_seq()[i as int].workspace@ == workspace@);
                    }
                }
                return false;
            }
            i = i + 1;
        }
        proof {
            assert(!old(self).has_workspace(workspace@)) by {
                if old(self).has_workspace(workspace@) {
                    let k = choose|k: int|
                        0 <= k < old(self).entries_seq().len() && old(self).entries_seq()[
                        k].workspace@ == workspace@;
                    assert(self.entries@[k].workspace@ != workspace@);
                }
            }
        }
        let ws = String::from_str(workspace);
        self.entries.push(PoolEntry { workspace: ws, client, last_access: now });
        proof {
            let after = self.entries@;
            assert(after.last().workspace@ == workspace@);
            assert forall|a: int, b: int|
                0 <= a < b < after.len() implies after[a].workspace@ != after[b].workspace@ by {
                if b == after.len() - 1 {
                    assert(after[b].workspace@ == workspace@);
                    assert(old(self).entries_seq()[a].workspace@ != workspace@) by {
                        if old(self).entries_seq()[a].workspace@ == workspace@ {
                            assert(old(self).has_workspace(workspace@));
                        }
                    }
                } else {
                    assert(old(self).entries_seq()[a].workspace@ != old(self).entries_seq()[
                    b].workspace@);
                }
            }
            assert(self.has_workspace(workspace@)) by {
                assert(self.entries_seq()[self.entries_seq().len() - 1].workspace@ == workspace@);
            }
        }
        true
    }

    /// Drop the entry for a workspace, if present. The caller tears the
    /// client down.
    pub fn remove(&mut self, workspace: &str)
        requires
            old(self).wf(),
        ensures
            final(self).wf(),
            !final(self).has_workspace(workspace@),
            old(self).has_workspace(workspace@) ==> removed_one(
                old(self).entries_seq(), final(self).entries_seq(), workspace@),
            !old(self).has_workspace(workspace@) ==> final(self).entries_seq() == old(
                self).entries_seq(),
    {
        let n = self.entries.len();
        let mut i: usize = 0;
        while i < n
            invariant
                *self == *old(self),
                old(self).wf(),
                n == self.entries@.len(),
                i <= n,
                forall|k: int| 0 <= k < i ==> self.entries@[k].workspace@ != workspace@,
            decreases n - i,
        {
            if string_eq_str(&self.entries[i].workspace, workspace) {
                let ghost before = self.entries@;
                self.entries.remove(i);
                proof {
                    assert(old(self).has_workspace(workspace@)) by {
                        assert(old(self).entries_seq()[i as int].workspace@ == workspace@);
                    }
                    assert(removed_one(old(self).entries_seq(), final(self).entries_seq(),
                        workspace@)) by {
                        assert((old(self).entries_seq()[i as int]).workspace@ == workspace@
                            && final(self).entries_seq() == old(self).entries_seq().remove(
                            i as int));
                    }
                    assert forall|a: int, b: int|
                        0 <= a < b < self.entries@.len() implies self.entries@[a].workspace@
                        != self.entries@[b].workspace@ by {
                        let a0: int = if a < i { a } else { a + 1 };
                        let b0: int = if b < i { b } else { b + 1 };
                        assert(self.entries@[a] == before[a0]);
                        assert(self.entries@[b] == before[b0]);
                        assert(before == old(self).entries_seq());
                        assert(old(self).entries_seq()[a0].workspace@ != old(
                            self).entries_seq()[b0].workspace@);
                    }
                    assert(!self.has_workspace(workspace@)) by {
                        if self.has_workspace(workspace@) {
                            let k = choose|k: int|
                                0 <= k < self.entries@.len() && self.entries@[k].workspace@
                                    == workspace@;
                            let k0: int = if k < i { k } else { k + 1 };
                            assert(self.entries@[k] == before[k0]);
                            if k0 < i {
                                assert(before[k0].workspace@ != workspace@);
                            } else if k0 == i {
                            } else {
                                assert(before[i as int].workspace@ == workspace@);
                                assert(old(self).entries_seq()[i as int].workspace@ != old(
                                    self).entries_seq()[k0].workspace@);
                            }
                        }
                    }
                }
                return;
            }
            i = i + 1;
        }
        proof {
            assert(!self.has_workspace(workspace@)) by {
                if self.has_workspace(workspace@) {
                    let k = choose|k: int|
                        0 <= k < self.entries@.len() && self.entries@[k].workspace@ == workspace@;
                    assert(self.entries@[k].workspace@ != workspace@);
                }
            }
        }
    }

    /// Drop every entry whose last access is older than `timeout` before
    /// `now`, and return the tokens of the dropped clients.
    ///
    /// Afterwards every remaining entry is within the idle threshold of
    /// `now`: one sweep leaves no stale entry behind.
    pub fn cleanup_idle(&mut self, now: u64, timeout: u64) -> (dropped: Vec<u64>)
        requires
            old(self).wf(),
        ensures
            final(self).wf(),
            forall|i: int|
                0 <= i < final(self).entries_seq().len() ==> entry_fresh(
                    #[trigger] final(self).entries_seq()[i], now, timeout),
            dropped@.len() + final(self).entries_seq().len() == old(self).entries_seq().len(),
            forall|i: int|
                0 <= i < final(self).entries_seq().len() ==> entry_listed(
                    old(self).entries_seq(), entry_model(#[trigger] final(self).entries_seq()[i])),
            forall|i: int|
                0 <= i < old(self).entries_seq().len() && entry_fresh(
                    #[trigger] old(self).entries_seq()[i], now, timeout) ==> entry_listed(
                    final(self).entries_seq(), entry_model(old(self).entries_seq()[i])),
            forall|i: int|
                0 <= i < old(self).entries_seq().len() && !entry_fresh(
                    #[trigger] old(self).entries_seq()[i], now, timeout) ==> token_listed(
                    dropped@, old(self).entries_seq()[i].client),
            forall|k: int|
                0 <= k < dropped@.len() ==> stale_source(
                    old(self).entries_seq(), #[trigger] dropped@[k], now, timeout),
    {
        let n = self.entries.len();
        let mut kept: Vec<PoolEntry> = Vec::new();
        let mut dropped: Vec<u64> = Vec::new();
        let mut i: usize = 0;
        let ghost mut srcs: Seq<int> = Seq::empty();
        let ghost mut dsrcs: Seq<int> = Seq::empty();
        while i < n
            invariant
                *self == *old(self),
                old(self).wf(),
                n == self.entries@.len(),
                i <= n,
                kept@.len() + dropped@.len() == i,
                srcs.len() == kept@.len(),
                forall|k: int| 0 <= k < srcs.len() ==> 0 <= #[trigger] srcs[k] < i,
                forall|a: int, b: int| 0 <= a < b < srcs.len() ==> srcs[a] < srcs[b],
                forall|k: int|
                    #![auto]
                    0 <= k < kept@.len() ==> entry_model(kept@[k]) == entry_model(
                        self.entries@[srcs[k]]),
                forall|k: int| 0 <= k < kept@.len() ==> entry_fresh(#[trigger] kept@[k], now, timeout),
                dsrcs.len() == dropped@.len(),
                forall|k: int| 0 <= k < dsrcs.len() ==> 0 <= #[trigger] dsrcs[k] < i,
                forall|k: int|
                    0 <= k < dropped@.len() ==> (#[trigger] dropped@[k]) == self.entries@[
                    dsrcs[k]].client && !entry_fresh(self.entries@[dsrcs[k]], now, timeout),
                forall|k: int|
                    0 <= k < i && entry_fresh(#[trigger] self.entries@[k], now, timeout)
                        ==> entry_listed(kept@, entry_model(self.entries@[k])),
                forall|k: int|
                    0 <= k < i && !entry_fresh(#[trigger] self.entries@[k], now, timeout)
                        ==> token_listed(dropped@, self.entries@[k].client),
            decreases n - i,
        {
            let ghost kept_top = kept@;
            let ghost dropped_top = dropped@;
            let ghost dsrcs_top = dsrcs;
            let e = &self.entries[i];
            let idle_too_long = e.last_access <= now && now - e.last_access > timeout;
            if idle_too_long {
                dropped.push(e.client);
                proof {
                    dsrcs = dsrcs.push(i as int);
                    assert(dropped@ == dropped_top.push(self.entries@[i as int].client));
                    assert(!entry_fresh(self.entries@[i as int], now, timeout));
                }
            } else {
                let copy = PoolEntry {
                    workspace: clone_string(&e.workspace),
                    client: e.client,
                    last_access: e.last_access,
                };
                proof {
                    assert(entry_fresh(self.entries@[i as int], now, timeout));
                }
                kept.push(copy);
                proof {
                    srcs = srcs.push(i as int);
                    assert(entry_model(kept@[kept@.len() - 1]) == entry_model(
                        self.entries@[i as int]));
                }
            }
            i = i + 1;
            proof {
                assert forall|k: int|
                    0 <= k < dropped@.len() implies (#[trigger] dropped@[k]) == self.entries@[
                dsrcs[k]].client && !entry_fresh(self.entries@[dsrcs[k]], now, timeout) by {
                    if k < dropped_top.len() {
                        assert(dsrcs[k] == dsrcs_top[k]);
                        assert(dropped@[k] == dropped_top[k]);
                        assert(dropped_top[k] == self.entries@[dsrcs_top[k]].client
                            && !entry_fresh(self.entries@[dsrcs_top[k]], now, timeout));
                    } else {
                        assert(dsrcs[k] == i - 1);
                        assert(dropped@[k] == self.entries@[i - 1].client);
                    }
                }
                assert forall|k: int|
                    0 <= k < i && entry_fresh(#[trigger] self.entries@[k], now, timeout)
                        implies entry_listed(kept@, entry_model(self.entries@[k])) by {
                    if k == i - 1 {
                        assert(entry_listed(kept@, entry_model(self.entries@[k]))) by {
                            assert(entry_model(kept@[kept@.len() - 1]) == entry_model(
                                self.entries@[k]));
                        }
                    } else {
                        assert(entry_listed(kept_top, entry_model(self.entries@[k])));
                        if kept@ != kept_top {
                            lemma_entry_listed_push(kept_top, kept@[kept@.len() - 1],
                                entry_model(self.entries@[k]));
                            assert(kept@ =~= kept_top.push(kept@[kept@.len() - 1]));
                        }
                    }
                }
                assert forall|k: int|
                    0 <= k < i && !entry_fresh(#[trigger] self.entries@[k], now, timeout)
                        implies token_listed(dropped@, self.entries@[k].client) by {
                    if k == i - 1 {
                        assert(token_listed(dropped@, self.entries@[k].client)) by {
                            assert(dropped@[dropped@.len() - 1] == self.entries@[k].client);
                        }
                    } else {
                        assert(token_listed(dropped_top, self.entries@[k].client));
                        if dropped@ != dropped_top {
                            lemma_token_listed_push(dropped_top, dropped@[dropped@.len() - 1],
                                self.entries@[k].client);
                            assert(dropped@ =~= dropped_top.push(dropped@[dropped@.len() - 1]));
                        }
                    }
                }
            }
        }
        proof {
            assert forall|a: int, b: int|
                0 <= a < b < kept@.len() implies kept@[a].workspace@ != kept@[b].workspace@ by {
                assert(0 <= srcs[a] < i);
                assert(0 <= srcs[b] < i);
                assert(srcs[a] < srcs[b]);
                assert(old(self).entries_seq()[srcs[a]].workspace@ != old(
                    self).entries_seq()[srcs[b]].workspace@);
                assert(entry_model(kept@[a]) == entry_model(self.entries@[srcs[a]]));
                assert(entry_model(kept@[b]) == entry_model(self.entries@[srcs[b]]));
            }
            assert forall|k: int|
                0 <= k < kept@.len() implies entry_model(#[trigger] kept@[k]) == entry_model(
                old(self).entries_seq()[srcs[k]]) by {
                assert(entry_model(kept@[k]) == entry_model(self.entries@[srcs[k]]));
            }
        }
        self.entries = kept;
        proof {
            assert forall|i2: int|
                0 <= i2 < self.entries_seq().len() implies entry_listed(
                old(self).entries_seq(), entry_model(#[trigger] self.entries_seq()[i2])) by {
                assert(0 <= srcs[i2] < old(self).entries_seq().len());
                assert(entry_model(self.entries_seq()[i2]) == entry_model(
                    old(self).entries_seq()[srcs[i2]]));
            }
            assert forall|i2: int|
                0 <= i2 < self.entries_seq().len() implies entry_fresh(
                #[trigger] self.entries_seq()[i2], now, timeout) by {
            }
            assert forall|i2: int|
                0 <= i2 < old(self).entries_seq().len() && entry_fresh(
                #[trigger] old(self).entries_seq()[i2], now, timeout) implies entry_listed(
                final(self).entries_seq(), entry_model(old(self).entries_seq()[i2])) by {
                assert(entry_listed(kept@, entry_model(old(self).entries_seq()[i2])));
                assert(self.entries_seq() == kept@);
                assert(entry_listed(final(self).entries_seq(), entry_model(
                    old(self).entries_seq()[i2])));
            }
            assert forall|k: int|
                0 <= k < dropped@.len() implies stale_source(
                old(self).entries_seq(), #[trigger] dropped@[k], now, timeout) by {
                assert(0 <= dsrcs[k] < old(self).entries_seq().len());
                assert(stale_source(old(self).entries_seq(), dropped@[k], now, timeout)) by {
                    assert((old(self).entries_seq()[dsrcs[k]]).client == dropped@[k]
                        && !entry_fresh(old(self).entries_seq()[dsrcs[k]], now, timeout));
                }
            }
        }
        dropped
    }

    /// The workspace roots with a live client, in pool order.
    pub fn active_workspaces(&self) -> (r: Vec<String>)
        ensures
            r@.len() == self.entries_seq().len(),
            forall|i: int|
                0 <= i < r@.len() ==> r@[i]@ == #[trigger] self.entries_seq()[i].workspace@,
    {
        let n = self.entries.len();
        let mut out: Vec<String> = Vec::new();
        let mut i: usize = 0;
        while i < n
            invariant
                n == self.entries@.len(),
                i <= n,
                out@.len() == i,
                forall|k: int| 0 <= k < i ==> out@[k]@ == #[trigger] self.entries@[k].workspace@,
            decreases n - i,
        {
            out.push(clone_string(&self.entries[i].workspace));
            i = i + 1;
        }
        out
    }

    /// How many clients are live.
    pub fn len(&self) -> (r: usize)
        ensures
            r == self.entries_seq().len(),
    {
        self.entries.len()
    }

    /// Whether no client is live.
    pub fn is_empty(&self) -> (r: bool)
        ensures
            r == (self.entries_seq().len() == 0),
    {
        self.entries.len() == 0
    }
}

/// At most one live client per workspace root: two entries that serve the
/// same root are the same entry.
pub proof fn lemma_one_client_per_workspace(p: LspClientPool, i: int, j: int)
    requires
        p.wf(),
        0 <= i < p.entries_seq().len(),
        0 <= j < p.entries_seq().len(),
        p.entries_seq()[i].workspace@ == p.entries_seq()[j].workspace@,
    ensures
        i == j,
{
    if i < j {
        assert(p.entries_seq()[i].workspace@ != p.entries_seq()[j].workspace@);
    }
    if j < i {
        assert(p.entries_seq()[j].workspace@ != p.entries_seq()[i].workspace@);
    }
}

} // verus!
