//! Coordinate translation between the one-based command-line surface and
//! the zero-based LSP world, parsing of `file:line:col` queries, and
//! location de-duplication.

use vstd::prelude::*;
use crate::numbers::{all_digits, digits_val};
use crate::lsp_types::{Location, Range};
use crate::strutil::{chars_to_string, str_to_chars, string_eq_str};

verus! {

broadcast use vstd::utf8::char_is_scalar;

/// One-based to zero-based, saturating: a one-based value of zero, which
/// a user can type, becomes zero rather than wrapping.
pub fn to_zero_based(n: u32) -> (r: u32)
    ensures
        r == if n == 0 { 0u32 } else { (n - 1) as u32 },
{
    if n == 0 {
        0
    } else {
        n - 1
    }
}

/// Zero-based to one-based for display, saturating at the top.
pub fn to_one_based(n: u32) -> (r: u32)
    ensures
        r == if n == 0xffff_ffffu32 { n } else { (n + 1) as u32 },
{
    if n == 0xffff_ffffu32 {
        n
    } else {
        n + 1
    }
}

/// The last position of a colon in `s`, if any.
pub open spec fn spec_rfind_colon(s: Seq<char>) -> Option<int>
    decreases s.len(),
{
    if s.len() == 0 {
        None
    } else if s.last() == ':' {
        Some(s.len() - 1)
    } else {
        spec_rfind_colon(s.drop_last())
    }
}

/// What `spec_rfind_colon` finds: the colon, with none after it.
pub proof fn lemma_rfind_colon(s: Seq<char>)
    ensures
        match spec_rfind_colon(s) {
            Some(i) => 0 <= i < s.len() && s[i] == ':' && forall|k: int|
                i < k < s.len() ==> s[k] != ':',
            None => forall|k: int| 0 <= k < s.len() ==> s[k] != ':',
        },
    decreases s.len(),
{
    if s.len() > 0 && s.last() != ':' {
        lemma_rfind_colon(s.drop_last());
        let f = s.drop_last();
        match spec_rfind_colon(f) {
            Some(i) => {
                assert(f[i] == s[i]);
                assert forall|k: int| i < k < s.len() implies s[k] != ':' by {
                    if k < s.len() - 1 {
                        assert(f[k] == s[k]);
                    }
                }
            },
            None => {
                assert forall|k: int| 0 <= k < s.len() implies s[k] != ':' by {
                    if k < s.len() - 1 {
                        assert(f[k] == s[k]);
                    }
                }
            },
        }
    }
}

/// A nonempty all-digit string's value, if it fits a `u32`.
pub open spec fn spec_parse_u32(s: Seq<char>) -> Option<u32> {
    if s.len() > 0 && all_digits(s) && digits_val(s) <= 0xffff_ffff {
        Some(digits_val(s) as u32)
    } else {
        None
    }
}

/// The `file:line:col` reading of a query string: the text after the
/// last colon is the column, the text between the last two colons the
/// line, and the nonempty rest the file.
pub open spec fn spec_parse_file_position(s: Seq<char>) -> Option<(Seq<char>, u32, u32)> {
    match spec_rfind_colon(s) {
        None => None,
        Some(i) => match spec_parse_u32(s.subrange(i + 1, s.len() as int)) {
            None => None,
            Some(col) => {
                let rest = s.subrange(0, i);
                match spec_rfind_colon(rest) {
                    None => None,
                    Some(j) => match spec_parse_u32(rest.subrange(j + 1, rest.len() as int)) {
                        None => None,
                        Some(line) => {
                            if j > 0 {
                                Some((s.subrange(0, j), line, col))
                            } else {
                                None
                            }
                        },
                    },
                }
            },
        },
    }
}

/// Find the last colon of a character vector.
fn rfind_colon(s: &Vec<char>, upto: usize) -> (r: Option<usize>)
    requires
        upto <= s@.len(),
    ensures
        match r {
            Some(i) => spec_rfind_colon(s@.subrange(0, upto as int)) == Some(i as int),
            None => spec_rfind_colon(s@.subrange(0, upto as int)) is None,
        },
{
    let mut j: usize = upto;
    while j > 0
        invariant
            j <= upto <= s@.len(),
            spec_rfind_colon(s@.subrange(0, upto as int)) == spec_rfind_colon(
                s@.subrange(0, j as int)),
        decreases j,
    {
        if s[j - 1] == ':' {
            proof {
                let p = s@.subrange(0, j as int);
                assert(p.last() == ':');
            }
            return Some(j - 1);
        }
        j = j - 1;
        proof {
            let p = s@.subrange(0, j + 1);
            assert(p.last() != ':');
            assert(p.drop_last() =~= s@.subrange(0, j as int));
        }
    }
    proof {
        assert(s@.subrange(0, 0) =~= Seq::<char>::empty());
    }
    None
}

/// Parse the digits of `s[from..to]` as a `u32`.
fn parse_u32_range(s: &Vec<char>, from: usize, to: usize) -> (r: Option<u32>)
    requires
        from <= to <= s@.len(),
    ensures
        r == spec_parse_u32(s@.subrange(from as int, to as int)),
{
    let ghost digs = s@.subrange(from as int, to as int);
    match crate::numbers::parse_u64_digits(s, from, to) {
        Some(v) => {
            if v <= 0xffff_ffffu64 {
                Some(v as u32)
            } else {
                None
            }
        },
        None => {
            proof {
                if digs.len() > 0 && all_digits(digs) {
                    crate::numbers::lemma_digits_val_bounds(digs);
                }
            }
            None
        },
    }
}

/// Try to read a query as `file:line:col`.
///
/// Returns `None` when the query has no such shape, in which case it is
/// treated as a symbol name.
pub fn parse_file_position(input: &str) -> (r: Option<(String, u32, u32)>)
    ensures
        match r {
            Some((f, l, c)) => spec_parse_file_position(input@) == Some((f@, l, c)),
            None => spec_parse_file_position(input@) is None,
        },
{
    let chars = str_to_chars(input);
    let n = chars.len();
    let i = match rfind_colon(&chars, n) {
        Some(i) => i,
        None => {
            proof {
                assert(chars@.subrange(0, n as int) =~= input@);
            }
            return None;
        },
    };
    proof {
        assert(chars@.subrange(0, n as int) =~= input@);
        lemma_rfind_colon(input@);
    }
    let col = match parse_u32_range(&chars, i + 1, n) {
        Some(c) => c,
        None => { return None; },
    };
    proof {
        assert(input@.subrange(0, i as int) =~= chars@.subrange(0, i as int));
    }
    let j = match rfind_colon(&chars, i) {
        Some(j) => j,
        None => { return None; },
    };
    proof {
        lemma_rfind_colon(input@.subrange(0, i as int));
    }
    let line = match parse_u32_range(&chars, j + 1, i) {
        Some(l) => l,
        None => {
            proof {
                let rest = input@.subrange(0, i as int);
                assert(rest.subrange(j + 1, rest.len() as int) =~= chars@.subrange(j + 1, i as int));
            }
            return None;
        },
    };
    proof {
        let rest = input@.subrange(0, i as int);
        assert(rest.subrange(j + 1, rest.len() as int) =~= chars@.subrange(j + 1, i as int));
    }
    if j == 0 {
        return None;
    }
    let mut file_chars: Vec<char> = Vec::new();
    let mut k: usize = 0;
    while k < j
        invariant
            k <= j <= chars@.len(),
            file_chars@ == chars@.subrange(0, k as int),
        decreases j - k,
    {
        file_chars.push(chars[k]);
        k = k + 1;
        proof {
            assert(file_chars@ =~= chars@.subrange(0, k as int));
        }
    }
    let file = chars_to_string(&file_chars);
    proof {
        assert(file@ =~= input@.subrange(0, j as int));
    }
    Some((file, line, col))
}

/// The key a location is de-duplicated on: its URI and start line.
pub open spec fn location_key(l: Location) -> (Seq<char>, u32) {
    (l.uri@, l.range.start.line)
}

/// The key of a location model.
pub open spec fn model_key(m: (Seq<char>, Range)) -> (Seq<char>, u32) {
    (m.0, m.1.start.line)
}

/// Whether a model list holds the key.
pub open spec fn model_key_in(ms: Seq<(Seq<char>, Range)>, k: (Seq<char>, u32)) -> bool {
    exists|i: int| 0 <= i < ms.len() && model_key(#[trigger] ms[i]) == k
}

/// What de-duplication leaves: the input models in order, each key only
/// at its first occurrence.
pub open spec fn spec_dedup(ms: Seq<(Seq<char>, Range)>) -> Seq<(Seq<char>, Range)>
    decreases ms.len(),
{
    if ms.len() == 0 {
        Seq::empty()
    } else {
        let front = spec_dedup(ms.drop_last());
        if model_key_in(front, model_key(ms.last())) {
            front
        } else {
            front.push(ms.last())
        }
    }
}

/// No key occurs twice in a de-duplicated list.
pub proof fn lemma_dedup_distinct(ms: Seq<(Seq<char>, Range)>)
    ensures
        forall|a: int, b: int|
            0 <= a < b < spec_dedup(ms).len() ==> model_key(#[trigger] spec_dedup(ms)[a])
                != model_key(#[trigger] spec_dedup(ms)[b]),
    decreases ms.len(),
{
    if ms.len() > 0 {
        let front = spec_dedup(ms.drop_last());
        lemma_dedup_distinct(ms.drop_last());
        let whole = spec_dedup(ms);
        if !model_key_in(front, model_key(ms.last())) {
            assert forall|a: int, b: int|
                0 <= a < b < whole.len() implies model_key(#[trigger] whole[a]) != model_key(
                #[trigger] whole[b]) by {
                if b == whole.len() - 1 {
                    assert(whole[a] == front[a]);
                    if model_key(whole[a]) == model_key(ms.last()) {
                        assert(model_key_in(front, model_key(ms.last()))) by {
                            assert(model_key(front[a]) == model_key(ms.last()));
                        }
                    }
                } else {
                    assert(whole[a] == front[a] && whole[b] == front[b]);
                }
            }
        }
    }
}

/// De-duplicate locations by URI and start line: afterwards the list is
/// exactly the original with every later repeat of a key removed —
/// first occurrences survive, in their original order.
pub fn dedup_locations(locations: &mut Vec<Location>)
    ensures
        crate::lsp_types::locations_model(final(locations)@) == spec_dedup(
            crate::lsp_types::locations_model(old(locations)@)),
{
    let n = locations.len();
    let mut out: Vec<Location> = Vec::new();
    let mut i: usize = 0;
    while i < n
        invariant
            *locations == *old(locations),
            n == locations@.len(),
            i <= n,
            crate::lsp_types::locations_model(out@) == spec_dedup(
                crate::lsp_types::locations_model(locations@.subrange(0, i as int))),
        decreases n - i,
    {
        let candidate = &locations[i];
        let mut dup = false;
        let mut k: usize = 0;
        while k < out.len()
            invariant
                *locations == *old(locations),
                i < n == locations@.len(),
                candidate == &locations@[i as int],
                k <= out@.len(),
                dup == exists|m: int|
                    0 <= m < k && location_key(#[trigger] out@[m]) == location_key(
                        locations@[i as int]),
            decreases out@.len() - k,
        {
            if string_eq_str(&out[k].uri, candidate.uri.as_str())
                && out[k].range.start.line == candidate.range.start.line {
                proof {
                    assert(location_key(out@[k as int]) == location_key(locations@[i as int]));
                }
                dup = true;
            }
            k = k + 1;
        }
        let ghost outm = crate::lsp_types::locations_model(out@);
        let ghost prefix = crate::lsp_types::locations_model(locations@.subrange(0, i as int));
        let ghost cand_model = crate::lsp_types::location_model(locations@[i as int]);
        proof {
            assert(dup == model_key_in(outm, model_key(cand_model))) by {
                if dup {
                    let m = choose|m: int|
                        0 <= m < out@.len() && location_key(#[trigger] out@[m]) == location_key(
                            locations@[i as int]);
                    assert(model_key(outm[m]) == model_key(cand_model));
                } else {
                    if model_key_in(outm, model_key(cand_model)) {
                        let m = choose|m: int|
                            0 <= m < outm.len() && model_key(#[trigger] outm[m]) == model_key(
                                cand_model);
                        assert(location_key(out@[m]) == location_key(locations@[i as int]));
                    }
                }
            }
            let q = crate::lsp_types::locations_model(locations@.subrange(0, i + 1));
            assert(q.drop_last() =~= prefix);
            assert(q.last() == cand_model);
        }
        if !dup {
            let copy = candidate.duplicate();
            out.push(copy);
            proof {
                assert(crate::lsp_types::locations_model(out@) =~= outm.push(
                    crate::lsp_types::location_model(out@[out@.len() - 1])));
                assert(crate::lsp_types::location_model(out@[out@.len() - 1]) == cand_model);
                assert(crate::lsp_types::locations_model(out@) =~= spec_dedup(
                    crate::lsp_types::locations_model(locations@.subrange(0, i + 1))));
            }
        } else {
            proof {
                assert(crate::lsp_types::locations_model(out@) =~= spec_dedup(
                    crate::lsp_types::locations_model(locations@.subrange(0, i + 1))));
            }
        }
        i = i + 1;
    }
    proof {
        assert(locations@.subrange(0, n as int) =~= locations@);
    }
    *locations = out;
}

} // verus!
