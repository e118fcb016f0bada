//! The cold-start retry policy.
//!
//! Just after a document is opened (or a server started) the LSP server
//! may answer positional queries with `null`, and workspace-symbol
//! queries with an empty list, because analysis is still running. Such
//! answers are retried up to three times, sleeping 100, 200 and then
//! 400 milliseconds, and the first useful answer wins; after the last
//! retry the empty answer is surfaced as it is, not as an error.

use vstd::prelude::*;

verus! {

/// How many calls are made at most: the initial call plus three retries.
pub open spec fn max_attempts() -> int {
    4
}

/// The sleep before retry number `k` (the first retry is `k == 1`).
pub open spec fn retry_delay(k: int) -> int {
    if k == 1 {
        100
    } else if k == 2 {
        200
    } else {
        400
    }
}

/// The index of the first useful answer, if one comes within the
/// attempt budget.
pub open spec fn spec_first_success(ok: Seq<bool>) -> Option<int> {
    if exists|i: int| 0 <= i < max_attempts() && i < ok.len() && ok[i] {
        Some(choose|i: int|
            0 <= i < max_attempts() && i < ok.len() && ok[i] && forall|j: int|
                0 <= j < i ==> !ok[j])
    } else {
        None
    }
}

/// Total sleep before attempt number `a` (1-based) runs.
pub open spec fn spec_delay_before(a: int) -> int {
    if a <= 1 {
        0
    } else if a == 2 {
        100
    } else if a == 3 {
        300
    } else {
        700
    }
}

/// After attempt number `attempts_made` came back, either useful
/// (`success`) or not: sleep the returned delay and call again, or stop.
///
/// Stops exactly on a useful answer or once the budget of four calls is
/// spent; the sleeps are 100, 200, 400 milliseconds in that order.
pub fn retry_step(attempts_made: usize, success: bool) -> (r: Option<u64>)
    requires
        attempts_made >= 1,
    ensures
        success ==> r is None,
        attempts_made >= max_attempts() ==> r is None,
        (!success && attempts_made < max_attempts()) ==> r == Some(
            retry_delay(attempts_made as int) as u64),
{
    if success || attempts_made >= 4 {
        None
    } else if attempts_made == 1 {
        Some(100)
    } else if attempts_made == 2 {
        Some(200)
    } else {
        Some(400)
    }
}

/// Run the whole policy over the answers the server would give to each
/// call: `ok[i]` says whether call number `i + 1` would be useful.
///
/// Returns which call's answer is surfaced (`None`: the budget ran out
/// and the last, useless answer is surfaced) and the total time slept.
pub fn run_retry(ok: &Vec<bool>) -> (r: (Option<usize>, u64))
    requires
        ok@.len() >= max_attempts(),
    ensures
        match r.0 {
            Some(i) => {
                &&& 0 <= i < max_attempts()
                &&& ok@[i as int]
                &&& forall|j: int| 0 <= j < i ==> !ok@[j]
                &&& r.1 == spec_delay_before(i + 1)
            },
            None => {
                &&& forall|j: int| 0 <= j < max_attempts() ==> !ok@[j]
                &&& r.1 == spec_delay_before(max_attempts())
            },
        },
{
    let mut attempt: usize = 1;
    let mut slept: u64 = 0;
    loop
        invariant
            1 <= attempt <= max_attempts(),
            ok@.len() >= max_attempts(),
            forall|j: int| 0 <= j < attempt - 1 ==> !ok@[j],
            slept == spec_delay_before(attempt as int),
        decreases max_attempts() - attempt,
    {
        let success = ok[attempt - 1];
        match retry_step(attempt, success) {
            None => {
                if success {
                    return (Some(attempt - 1), slept);
                } else {
                    proof {
                        assert(attempt == max_attempts());
                    }
                    return (None, slept);
                }
            },
            Some(d) => {
                slept = slept + d;
                attempt = attempt + 1;
            },
        }
    }
}

/// A server that answers `null` (or empty) to every call within the
/// budget makes the handler surface the empty answer, after the full
/// 700 milliseconds of back-off, and never as an error.
pub proof fn lemma_all_null_surfaces_none(ok: Seq<bool>, surfaced: Option<int>, slept: int)
    requires
        ok.len() >= max_attempts(),
        forall|j: int| 0 <= j < ok.len() ==> !ok[j],
        match surfaced {
            Some(i) => 0 <= i < max_attempts() && ok[i],
            None => slept == spec_delay_before(max_attempts()),
        },
    ensures
        surfaced is None,
        slept == 700,
{
}

/// A useful answer on the third call is the one surfaced, and the time
/// slept is 300 milliseconds: within the 100 to 700 millisecond window
/// the back-off schedule spans.
pub proof fn lemma_third_call_wins(ok: Seq<bool>, surfaced: Option<int>, slept: int)
    requires
        ok.len() >= max_attempts(),
        !ok[0],
        !ok[1],
        ok[2],
        match surfaced {
            Some(i) => 0 <= i < max_attempts() && ok[i] && (forall|j: int| 0 <= j < i ==> !ok[j])
                && slept == spec_delay_before(i + 1),
            None => forall|j: int| 0 <= j < max_attempts() ==> !ok[j],
        },
    ensures
        surfaced == Some(2int),
        slept == 300,
        100 <= slept <= 700,
{
    match surfaced {
        Some(i) => {
            if i < 2 {
                assert(ok[i]);
            }
            if i > 2 {
                assert(!ok[2]);
            }
        },
        None => {
            assert(ok[2]);
        },
    }
}

/// An answer that is empty on the first call and useful on a retry is
/// replaced by the retry's answer, and the total back-off never exceeds
/// 700 milliseconds.
pub proof fn lemma_retry_payload_wins(ok: Seq<bool>, surfaced: Option<int>, slept: int)
    requires
        ok.len() >= max_attempts(),
        !ok[0],
        exists|i: int| 1 <= i < max_attempts() && ok[i],
        match surfaced {
            Some(i) => 0 <= i < max_attempts() && ok[i] && (forall|j: int| 0 <= j < i ==> !ok[j])
                && slept == spec_delay_before(i + 1),
            None => forall|j: int| 0 <= j < max_attempts() ==> !ok[j],
        },
    ensures
        surfaced matches Some(i) && 1 <= i < max_attempts() && ok[i],
        0 <= slept <= 700,
{
    match surfaced {
        Some(i) => {
            assert(i >= 1) by {
                assert(!ok[0]);
            }
        },
        None => {
            let w = choose|i: int| 1 <= i < max_attempts() && ok[i];
            assert(!ok[w]);
        },
    }
}

} // verus!
