//! Canonical decimal rendering and parsing of unsigned integers, with the
//! lemmas that make the two inverses of each other. The JSON codec and the
//! `Content-Length` framing are built on these.

use vstd::prelude::*;

verus! {

/// The character for one decimal digit value.
pub open spec fn dec_digit(d: int) -> char {
    ((d + 48) as u8) as char
}

/// The canonical decimal rendering of `n`: no sign, no leading zeros
/// (a single `'0'` for zero).
pub open spec fn dec_str(n: nat) -> Seq<char>
    decreases n,
{
    if n < 10 {
        seq![dec_digit(n as int)]
    } else {
        dec_str(n / 10).push(dec_digit((n % 10) as int))
    }
}

pub open spec fn is_digit(c: char) -> bool {
    48 <= c as int <= 57
}

pub open spec fn digit_val(c: char) -> int {
    c as int - 48
}

pub open spec fn all_digits(s: Seq<char>) -> bool {
    forall|i: int| 0 <= i < s.len() ==> is_digit(#[trigger] s[i])
}

/// The integer value of a digit string, most significant digit first.
pub open spec fn digits_val(s: Seq<char>) -> int
    decreases s.len(),
{
    if s.len() == 0 {
        0
    } else {
        digits_val(s.drop_last()) * 10 + digit_val(s.last())
    }
}

/// A digit string is canonical when it is nonempty and has no leading zero.
pub open spec fn is_canonical_dec(s: Seq<char>) -> bool {
    &&& all_digits(s)
    &&& s.len() >= 1
    &&& (s.len() > 1 ==> s[0] != '0')
}

pub proof fn lemma_dec_str_digits(n: nat)
    ensures
        all_digits(dec_str(n)),
        dec_str(n).len() >= 1,
        digits_val(dec_str(n)) == n,
        is_canonical_dec(dec_str(n)),
        n < 10 ==> dec_str(n).len() == 1,
        n >= 10 ==> dec_str(n).len() > 1,
    decreases n,
{
    if n < 10 {
        assert(dec_str(n) == seq![dec_digit(n as int)]);
        assert(is_digit(dec_digit(n as int)));
        let t = dec_str(n);
        assert(t.len() == 1);
        assert(t.drop_last().len() == 0);
        assert(digits_val(t.drop_last()) == 0);
        assert(t.last() == dec_digit(n as int));
        assert(digits_val(t) == digit_val(dec_digit(n as int)));
    } else {
        lemma_dec_str_digits(n / 10);
        let s = dec_str(n);
        let f = dec_str(n / 10);
        assert(s == f.push(dec_digit((n % 10) as int)));
        assert(s.drop_last() =~= f);
        assert(s.last() == dec_digit((n % 10) as int));
        assert(digits_val(s) == digits_val(f) * 10 + digit_val(dec_digit((n % 10) as int)));
        assert(digit_val(dec_digit((n % 10) as int)) == n % 10);
        assert(digits_val(s) == (n / 10) * 10 + n % 10);
        assert((n / 10) * 10 + n % 10 == n) by (nonlinear_arith);
        assert(forall|i: int|
            0 <= i < s.len() ==> is_digit(#[trigger] s[i])) by {
            assert(forall|i: int| 0 <= i < f.len() ==> is_digit(#[trigger] f[i]));
            assert(s[s.len() - 1] == dec_digit((n % 10) as int));
            assert(forall|i: int| 0 <= i < s.len() - 1 ==> s[i] == f[i]);
        }
        assert(s[0] == f[0]);
        assert(n / 10 >= 1);
        if f.len() == 1 {
            assert(f[0] == dec_digit((n / 10) as int));
            assert(n / 10 < 10);
            assert(digit_val(f[0]) == n / 10 >= 1);
            assert(f[0] != '0') by {
                assert('0' as int == 48);
            }
        }
    }
}

/// A canonical digit string is exactly the rendering of its value.
pub proof fn lemma_canonical_dec_str(s: Seq<char>)
    requires
        is_canonical_dec(s),
    ensures
        digits_val(s) >= 0,
        dec_str(digits_val(s) as nat) == s,
    decreases s.len(),
{
    lemma_digits_val_bounds(s);
    let n = digits_val(s) as nat;
    if s.len() == 1 {
        assert(s.drop_last().len() == 0);
        assert(digits_val(s.drop_last()) == 0);
        assert(s.last() == s[0]);
        assert(n == digit_val(s[0]));
        assert(n < 10);
        assert(dec_str(n) == seq![dec_digit(n as int)]);
        assert(dec_digit(digit_val(s[0])) == s[0]) by {
            assert(48 <= s[0] as int <= 57);
        }
        assert(dec_str(n) =~= s);
    } else {
        let f = s.drop_last();
        assert(f.len() >= 1);
        assert(f[0] == s[0]);
        assert(all_digits(f)) by {
            assert(forall|i: int| 0 <= i < f.len() ==> f[i] == s[i]);
        }
        assert(is_canonical_dec(f));
        lemma_canonical_dec_str(f);
        lemma_digits_val_bounds(f);
        let m = digits_val(f);
        let d = digit_val(s.last());
        assert(digits_val(s) == m * 10 + d);
        assert(0 <= d <= 9);
        assert(m >= 1) by {
            if m == 0 {
                lemma_digits_val_zero(f);
                assert(f[0] == '0') by {
                    assert('0' as int == 48);
                }
                assert(false);
            }
        }
        assert(n >= 10) by {
            assert(m * 10 >= 10) by (nonlinear_arith)
                requires m >= 1;
        }
        assert(n / 10 == m && n % 10 == d) by (nonlinear_arith)
            requires
                n == m * 10 + d,
                0 <= d <= 9,
                m >= 0;
        assert(dec_str(n) == dec_str(m as nat).push(dec_digit(d)));
        assert(dec_digit(d) == s.last()) by {
            assert(48 <= s.last() as int <= 57);
        }
        assert(dec_str(n) =~= s);
    }
}

/// Digit strings have nonnegative value, bounded by their length.
pub proof fn lemma_digits_val_bounds(s: Seq<char>)
    requires
        all_digits(s),
    ensures
        digits_val(s) >= 0,
        s.len() >= 1 ==> digits_val(s) >= digit_val(s[0]) >= 0,
    decreases s.len(),
{
    if s.len() > 0 {
        let f = s.drop_last();
        assert(all_digits(f)) by {
            assert(forall|i: int| 0 <= i < f.len() ==> f[i] == s[i]);
        }
        lemma_digits_val_bounds(f);
        assert(digits_val(s) == digits_val(f) * 10 + digit_val(s.last()));
        assert(digits_val(f) * 10 >= digits_val(f)) by (nonlinear_arith)
            requires digits_val(f) >= 0;
        if s.len() >= 2 {
            assert(f[0] == s[0]);
            assert(digits_val(f) * 10 >= digit_val(f[0])) by (nonlinear_arith)
                requires digits_val(f) >= digit_val(f[0]) >= 0;
        }
    }
}

/// A digit string with value zero is all `'0'` characters.
pub proof fn lemma_digits_val_zero(s: Seq<char>)
    requires
        all_digits(s),
        digits_val(s) == 0,
        s.len() >= 1,
    ensures
        s[0] == dec_digit(0),
    decreases s.len(),
{
    let f = s.drop_last();
    assert(all_digits(f)) by {
        assert(forall|i: int| 0 <= i < f.len() ==> f[i] == s[i]);
    }
    lemma_digits_val_bounds(f);
    assert(digits_val(f) * 10 + digit_val(s.last()) == 0);
    assert(digits_val(f) * 10 >= 0) by (nonlinear_arith)
        requires digits_val(f) >= 0;
    if s.len() == 1 {
        assert(digit_val(s[0]) == 0);
        assert(s[0] as int == 48);
        assert(dec_digit(0) as int == 48) by {
            assert(dec_digit(0) == (48 as u8) as char);
        }
        lemma_digit_char_injective(s[0], dec_digit(0));
    } else {
        assert(digits_val(f) == 0) by (nonlinear_arith)
            requires
                digits_val(f) >= 0,
                0 <= digit_val(s.last()) <= 9,
                digits_val(f) * 10 + digit_val(s.last()) == 0;
        lemma_digits_val_zero(f);
        assert(s[0] == f[0]);
    }
}

/// Characters with equal code points are equal.
pub proof fn lemma_digit_char_injective(a: char, b: char)
    requires
        a as int == b as int,
    ensures
        a == b,
{
}

/// Growing a digit string never shrinks its value: the value of the whole
/// is at least the value of any prefix.
pub proof fn lemma_digits_val_prefix_le(s: Seq<char>, i: int)
    requires
        all_digits(s),
        0 <= i <= s.len(),
    ensures
        digits_val(s.take(i)) <= digits_val(s),
    decreases s.len() - i,
{
    if i == s.len() {
        assert(s.take(i) =~= s);
    } else {
        lemma_digits_val_prefix_le(s, i + 1);
        let p = s.take(i);
        let q = s.take(i + 1);
        assert(q.drop_last() =~= p);
        assert(q.last() == s[i]);
        assert(all_digits(p)) by {
            assert(forall|j: int| 0 <= j < p.len() ==> p[j] == s[j]);
        }
        lemma_digits_val_bounds(p);
        assert(digits_val(q) == digits_val(p) * 10 + digit_val(s[i]));
        assert(digits_val(p) * 10 >= digits_val(p)) by (nonlinear_arith)
            requires digits_val(p) >= 0;
    }
}

/// One digit character, as an executable function.
pub fn digit_char(d: u8) -> (r: char)
    requires
        d < 10,
    ensures
        r == dec_digit(d as int),
{
    (d + 48) as char
}

/// Render `n` in canonical decimal.
pub fn u64_to_chars(n: u64) -> (r: Vec<char>)
    ensures
        r@ == dec_str(n as nat),
    decreases n,
{
    if n < 10 {
        let mut v: Vec<char> = Vec::new();
        v.push(digit_char(n as u8));
        proof {
            assert(v@ =~= seq![dec_digit(n as int)]);
        }
        v
    } else {
        let mut v = u64_to_chars(n / 10);
        v.push(digit_char((n % 10) as u8));
        proof {
            assert(v@ =~= dec_str((n / 10) as nat).push(dec_digit((n % 10) as int)));
        }
        v
    }
}

/// Render `n` as a decimal `String`.
pub fn u64_to_string(n: u64) -> (r: String)
    ensures
        r@ == dec_str(n as nat),
{
    let v = u64_to_chars(n);
    crate::strutil::chars_to_string(&v)
}

/// Whether one character is a decimal digit.
pub fn is_digit_char(c: char) -> (r: bool)
    ensures
        r == is_digit(c),
{
    let v = c as u32;
    48 <= v && v <= 57
}

/// Parse a run of decimal digits as a `u64`.
///
/// Returns `Some` exactly when the slice `s[from..to]` is nonempty, all
/// digits, and its value fits in a `u64`.
pub fn parse_u64_digits(s: &Vec<char>, from: usize, to: usize) -> (r: Option<u64>)
    requires
        from <= to <= s@.len(),
    ensures
        match r {
            Some(v) => {
                &&& all_digits(s@.subrange(from as int, to as int))
                &&& to > from
                &&& v == digits_val(s@.subrange(from as int, to as int))
            },
            None => to == from || !all_digits(s@.subrange(from as int, to as int))
                || digits_val(s@.subrange(from as int, to as int)) > u64::MAX,
        },
{
    if from == to {
        return None;
    }
    let ghost whole = s@.subrange(from as int, to as int);
    let mut acc: u64 = 0;
    let mut i: usize = from;
    while i < to
        invariant
            from <= i <= to <= s@.len(),
            all_digits(s@.subrange(from as int, i as int)),
            acc == digits_val(s@.subrange(from as int, i as int)),
            whole == s@.subrange(from as int, to as int),
        decreases to - i,
    {
        let c = s[i];
        if !is_digit_char(c) {
            proof {
                assert(s@.subrange(from as int, to as int)[i - from] == c);
            }
            return None;
        }
        let d: u64 = (c as u32 - 48) as u64;
        proof {
            let p = s@.subrange(from as int, i as int);
            let q = s@.subrange(from as int, i + 1);
            assert(q.drop_last() =~= p);
            assert(q.last() == c);
            assert(all_digits(q)) by {
                assert(forall|j: int| 0 <= j < p.len() ==> q[j] == p[j]);
            }
            lemma_digits_val_bounds(p);
        }
        if acc > (u64::MAX - d) / 10 {
            proof {
                let q = s@.subrange(from as int, i + 1);
                assert(digits_val(q) == acc * 10 + d);
                assert(acc * 10 + d > u64::MAX) by (nonlinear_arith)
                    requires
                        acc > (u64::MAX - d) / 10,
                        0 <= d <= 9,
                        acc >= 0;
                if all_digits(whole) {
                    lemma_digits_val_prefix_le(whole, i + 1 - from);
                    assert(whole.take(i + 1 - from) =~= q);
                }
            }
            return None;
        }
        acc = acc * 10 + d;
        i = i + 1;
    }
    proof {
        assert(s@.subrange(from as int, i as int) =~= whole);
    }
    Some(acc)
}

/// Parse a whole string of decimal digits as a `u64`.
pub fn parse_u64_str(t: &str) -> (r: Option<u64>)
    ensures
        match r {
            Some(v) => {
                &&& all_digits(t@)
                &&& t@.len() > 0
                &&& v == digits_val(t@)
            },
            None => t@.len() == 0 || !all_digits(t@) || digits_val(t@) > u64::MAX,
        },
{
    let v = crate::strutil::str_to_chars(t);
    let n = v.len();
    let r = parse_u64_digits(&v, 0, n);
    proof {
        assert(v@.subrange(0, n as int) =~= t@);
    }
    r
}

} // verus!
