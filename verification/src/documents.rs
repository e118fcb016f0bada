//! Open-once bookkeeping for the documents of one LSP client.
//!
//! The LSP protocol forbids a second `textDocument/didOpen` for a URI the
//! server already considers open. The client therefore records every URI
//! it has announced; only a first open sends the notification. The record
//! is monotonic: an entry is never removed while the client lives.

use vstd::prelude::*;
use vstd::string::StringExecFns;

verus! {

/// The set of document URIs already announced to one LSP server, in the
/// order their `didOpen` notifications were sent.
pub struct OpenedDocuments {
    /// One entry per notification sent; no URI occurs twice.
    sent: Vec<String>,
}

impl OpenedDocuments {
    /// The `didOpen` notifications sent so far, in order.
    pub closed spec fn sent_log(self) -> Seq<Seq<char>> {
        Seq::new(self.sent@.len(), |i: int| self.sent@[i]@)
    }

    /// Whether a URI is already open.
    pub open spec fn is_open(self, uri: Seq<char>) -> bool {
        self.sent_log().contains(uri)
    }

    /// No URI was announced twice.
    pub open spec fn wf(self) -> bool {
        forall|i: int, j: int|
            0 <= i < j < self.sent_log().len() ==> self.sent_log()[i] != self.sent_log()[j]
    }

    /// A client that has opened nothing.
    pub fn new() -> (r: OpenedDocuments)
        ensures
            r.wf(),
            r.sent_log() == Seq::<Seq<char>>::empty(),
    {
        let r = OpenedDocuments { sent: Vec::new() };
        proof {
            assert(r.sent_log() =~= Seq::<Seq<char>>::empty());
        }
        r
    }

    /// Record an open. Returns whether this is the first open for the URI,
    /// which is exactly when a `didOpen` notification is sent (and logged).
    pub fn open(&mut self, uri: &str) -> (fresh: bool)
        requires
            old(self).wf(),
        ensures
            final(self).wf(),
            fresh == !old(self).is_open(uri@),
            final(self).is_open(uri@),
            fresh ==> final(self).sent_log() == old(self).sent_log().push(uri@),
            !fresh ==> final(self).sent_log() == old(self).sent_log(),
    {
        let n = self.sent.len();
        let mut i: usize = 0;
        while i < n
            invariant
                *self == *old(self),
                old(self).wf(),
                n == self.sent@.len(),
                i <= n,
                forall|k: int| 0 <= k < i ==> self.sent_log()[k] != uri@,
            decreases n - i,
        {
            if crate::strutil::string_eq_str(&self.sent[i], uri) {
                proof {
                    assert(self.sent_log()[i as int] == uri@);
                    assert(old(self).is_open(uri@)) by {
                        assert(old(self).sent_log()[i as int] == uri@);
                    }
                    assert(final(self).wf());
                }
                return false;
            }
            i = i + 1;
        }
        proof {
            assert(!old(self).is_open(uri@)) by {
                if old(self).sent_log().contains(uri@) {
                    let k = choose|k: int|
                        0 <= k < old(self).sent_log().len() && old(self).sent_log()[k] == uri@;
                    assert(old(self).sent_log()[k] != uri@);
                }
            }
        }
        let owned = String::from_str(uri);
        self.sent.push(owned);
        proof {
            assert(self.sent_log() =~= old(self).sent_log().push(uri@));
            assert(self.sent_log().contains(uri@)) by {
                assert(self.sent_log()[self.sent_log().len() - 1] == uri@);
            }
            assert forall|i: int, j: int|
                0 <= i < j < self.sent_log().len() implies self.sent_log()[i] != self.sent_log()[
                j] by {
                if j == self.sent_log().len() - 1 {
                    assert(self.sent_log()[j] == uri@);
                    if self.sent_log()[i] == uri@ {
                        assert(old(self).sent_log().contains(uri@)) by {
                            assert(old(self).sent_log()[i] == uri@);
                        }
                    }
                } else {
                    assert(old(self).sent_log()[i] != old(self).sent_log()[j]);
                }
            }
        }
        true
    }

    /// How many notifications were sent for `uri` so far.
    pub open spec fn sent_count(self, uri: Seq<char>) -> int {
        count_of(self.sent_log(), uri)
    }
}

/// How often `uri` occurs in a log.
pub open spec fn count_of(log: Seq<Seq<char>>, uri: Seq<char>) -> int
    decreases log.len(),
{
    if log.len() == 0 {
        0
    } else {
        count_of(log.drop_last(), uri) + if log.last() == uri {
            1int
        } else {
            0int
        }
    }
}

/// In a log with distinct entries no URI occurs twice: the LSP server
/// sees at most one `didOpen` per URI.
pub proof fn lemma_didopen_at_most_once(log: Seq<Seq<char>>, uri: Seq<char>)
    requires
        forall|i: int, j: int| 0 <= i < j < log.len() ==> log[i] != log[j],
    ensures
        0 <= count_of(log, uri) <= 1,
    decreases log.len(),
{
    if log.len() > 0 {
        let f = log.drop_last();
        lemma_didopen_at_most_once(f, uri);
        if log.last() == uri {
            assert(count_of(f, uri) == 0) by {
                lemma_count_zero_when_absent(f, uri, log);
            }
        }
    }
}

/// If the last entry equals `uri` and all entries are distinct, `uri`
/// does not occur earlier.
proof fn lemma_count_zero_when_absent(f: Seq<Seq<char>>, uri: Seq<char>, log: Seq<Seq<char>>)
    requires
        forall|i: int, j: int| 0 <= i < j < log.len() ==> log[i] != log[j],
        log.len() > 0,
        f == log.drop_last(),
        log.last() == uri,
    ensures
        count_of(f, uri) == 0,
{
    assert forall|i: int| 0 <= i < f.len() implies f[i] != uri by {
        assert(log[i] != log[log.len() - 1]);
    }
    lemma_count_zero(f, uri);
}

/// A URI absent from a log has count zero.
proof fn lemma_count_zero(log: Seq<Seq<char>>, uri: Seq<char>)
    requires
        forall|i: int| 0 <= i < log.len() ==> log[i] != uri,
    ensures
        count_of(log, uri) == 0,
    decreases log.len(),
{
    if log.len() > 0 {
        let f = log.drop_last();
        assert forall|i: int| 0 <= i < f.len() implies f[i] != uri by {
            assert(log[i] != uri);
        }
        lemma_count_zero(f, uri);
    }
}

/// Opening the same document twice returns `true` then `false`, and the
/// server sees exactly one `didOpen` for it: the first call logs one
/// notification, the second logs nothing.
pub proof fn lemma_open_twice(
    log0: Seq<Seq<char>>,
    log1: Seq<Seq<char>>,
    log2: Seq<Seq<char>>,
    uri: Seq<char>,
    fresh1: bool,
    fresh2: bool,
)
    requires
        !log0.contains(uri),
        fresh1 == !log0.contains(uri),
        fresh1 ==> log1 == log0.push(uri),
        !fresh1 ==> log1 == log0,
        fresh2 == !log1.contains(uri),
        fresh2 ==> log2 == log1.push(uri),
        !fresh2 ==> log2 == log1,
        forall|i: int, j: int| 0 <= i < j < log2.len() ==> log2[i] != log2[j],
    ensures
        fresh1 == true,
        fresh2 == false,
        count_of(log2, uri) == 1,
{
    assert(log1.contains(uri)) by {
        assert(log1[log1.len() - 1] == uri);
    }
    assert(log2 == log0.push(uri));
    assert(count_of(log2, uri) == count_of(log0, uri) + 1) by {
        assert(log2.drop_last() =~= log0);
    }
    assert(count_of(log0, uri) == 0) by {
        assert forall|i: int| 0 <= i < log0.len() implies log0[i] != uri by {
            if log0[i] == uri {
                assert(log0.contains(uri));
            }
        }
        lemma_count_zero(log0, uri);
    }
}

} // verus!
