//! The JSON value model and its canonical character-level codec.
//!
//! Every message between the command-line client and the daemon, and every
//! message to the LSP child process, is a JSON document. The crate carries
//! such documents as `JsonValue` trees and renders them in one canonical
//! form: no whitespace, no leading zeros, a fixed escape set. The parser
//! accepts exactly that canonical form, and its contract says that a
//! successful parse returns the unique value whose rendering is the input.

use vstd::prelude::*;
use crate::numbers::{
    all_digits, dec_digit, dec_str, digit_char, digits_val, is_canonical_dec, is_digit,
    is_digit_char, lemma_canonical_dec_str, lemma_dec_str_digits, parse_u64_digits, u64_to_chars,
};

verus! {

broadcast use vstd::utf8::char_is_scalar;

/// A JSON document: null, booleans, integers, strings, arrays, objects.
///
/// Numbers are integers with an explicit sign; the protocol carries no
/// fractional values. A negative number holds its magnitude, kept in the
/// range of a 64-bit signed integer by `wf_json`.
#[verifier::ext_equal]
pub enum JsonValue {
    Null,
    Bool(bool),
    Int { neg: bool, mag: u64 },
    Str(String),
    Arr(Vec<JsonValue>),
    Obj(Vec<(String, JsonValue)>),
}

/// Canonical well-formedness: a negative number is nonzero and fits in
/// a 64-bit signed integer.
pub open spec fn wf_json(v: JsonValue) -> bool
    decreases v,
{
    match v {
        JsonValue::Null => true,
        JsonValue::Bool(_) => true,
        JsonValue::Int { neg, mag } => neg ==> 1 <= mag && mag <= 0x8000_0000_0000_0000u64,
        JsonValue::Str(_) => true,
        JsonValue::Arr(a) => forall|i: int| 0 <= i < a@.len() ==> wf_json(#[trigger] a@[i]),
        JsonValue::Obj(o) => forall|i: int| 0 <= i < o@.len() ==> wf_json(#[trigger] o@[i].1),
    }
}

/// The character for one hexadecimal digit value, lowercase.
pub open spec fn hex_digit(d: int) -> char {
    if d < 10 {
        dec_digit(d)
    } else {
        ((d + 87) as u8) as char
    }
}

/// The canonical escape of one character inside a JSON string literal.
pub open spec fn esc_char(c: char) -> Seq<char> {
    if c == '"' {
        seq!['\\', '"']
    } else if c == '\\' {
        seq!['\\', '\\']
    } else if c as int == 8 {
        seq!['\\', 'b']
    } else if c as int == 9 {
        seq!['\\', 't']
    } else if c as int == 10 {
        seq!['\\', 'n']
    } else if c as int == 12 {
        seq!['\\', 'f']
    } else if c as int == 13 {
        seq!['\\', 'r']
    } else if (c as int) < 32 {
        seq!['\\', 'u', '0', '0', hex_digit((c as int) / 16), hex_digit((c as int) % 16)]
    } else {
        seq![c]
    }
}

/// The canonical escape of a whole string body.
pub open spec fn esc_str(s: Seq<char>) -> Seq<char>
    decreases s.len(),
{
    if s.len() == 0 {
        Seq::empty()
    } else {
        esc_str(s.drop_last()) + esc_char(s.last())
    }
}

/// A string literal: quote, escaped body, quote.
pub open spec fn ser_string(s: Seq<char>) -> Seq<char> {
    seq!['"'] + esc_str(s) + seq!['"']
}

/// A number: optional minus sign, canonical decimal digits.
pub open spec fn ser_int(neg: bool, mag: u64) -> Seq<char> {
    if neg {
        seq!['-'] + dec_str(mag as nat)
    } else {
        dec_str(mag as nat)
    }
}

/// The canonical rendering of a JSON value.
pub open spec fn ser_json(v: JsonValue) -> Seq<char>
    decreases v,
{
    match v {
        JsonValue::Null => seq!['n', 'u', 'l', 'l'],
        JsonValue::Bool(b) => if b {
            seq!['t', 'r', 'u', 'e']
        } else {
            seq!['f', 'a', 'l', 's', 'e']
        },
        JsonValue::Int { neg, mag } => ser_int(neg, mag),
        JsonValue::Str(s) => ser_string(s@),
        JsonValue::Arr(a) => seq!['['] + ser_elems(a@) + seq![']'],
        JsonValue::Obj(o) => seq!['{'] + ser_members(o@) + seq!['}'],
    }
}

/// Comma-separated renderings of array elements.
pub open spec fn ser_elems(a: Seq<JsonValue>) -> Seq<char>
    decreases a,
{
    if a.len() == 0 {
        Seq::empty()
    } else if a.len() == 1 {
        ser_json(a[0])
    } else {
        ser_elems(a.subrange(0, a.len() - 1)) + seq![','] + ser_json(a[a.len() - 1])
    }
}

/// One `"key":value` object member.
pub open spec fn ser_member(m: (String, JsonValue)) -> Seq<char>
    decreases m,
{
    ser_string(m.0@) + seq![':'] + ser_json(m.1)
}

/// Comma-separated renderings of object members.
pub open spec fn ser_members(o: Seq<(String, JsonValue)>) -> Seq<char>
    decreases o,
{
    if o.len() == 0 {
        Seq::empty()
    } else if o.len() == 1 {
        ser_member(o[0])
    } else {
        ser_members(o.subrange(0, o.len() - 1)) + seq![','] + ser_member(o[o.len() - 1])
    }
}

/// One hexadecimal digit character, as an executable function.
pub fn hex_digit_char(d: u8) -> (r: char)
    requires
        d < 16,
    ensures
        r == hex_digit(d as int),
{
    if d < 10 {
        digit_char(d)
    } else {
        (d + 87) as char
    }
}

/// Append the canonical escape of `c` onto `out`.
pub fn emit_escaped_char(c: char, out: &mut Vec<char>)
    ensures
        final(out)@ == old(out)@ + esc_char(c),
{
    let code = c as u32;
    if c == '"' {
        out.push('\\');
        out.push('"');
    } else if c == '\\' {
        out.push('\\');
        out.push('\\');
    } else if code == 8 {
        out.push('\\');
        out.push('b');
    } else if code == 9 {
        out.push('\\');
        out.push('t');
    } else if code == 10 {
        out.push('\\');
        out.push('n');
    } else if code == 12 {
        out.push('\\');
        out.push('f');
    } else if code == 13 {
        out.push('\\');
        out.push('r');
    } else if code < 32 {
        out.push('\\');
        out.push('u');
        out.push('0');
        out.push('0');
        out.push(hex_digit_char((code / 16) as u8));
        out.push(hex_digit_char((code % 16) as u8));
    } else {
        out.push(c);
    }
    proof {
        assert(out@ =~= old(out)@ + esc_char(c));
    }
}

/// Append the canonical rendering of a string literal onto `out`.
pub fn emit_string_literal(s: &str, out: &mut Vec<char>)
    ensures
        final(out)@ == old(out)@ + ser_string(s@),
{
    let chars = crate::strutil::str_to_chars(s);
    out.push('"');
    let mut i: usize = 0;
    while i < chars.len()
        invariant
            chars@ == s@,
            i <= chars@.len(),
            out@ == old(out)@ + seq!['"'] + esc_str(s@.subrange(0, i as int)),
        decreases chars@.len() - i,
    {
        proof {
            let p = s@.subrange(0, i as int);
            let q = s@.subrange(0, i + 1);
            assert(q.drop_last() =~= p);
            assert(q.last() == s@[i as int]);
        }
        emit_escaped_char(chars[i], out);
        i = i + 1;
    }
    out.push('"');
    proof {
        assert(s@.subrange(0, s@.len() as int) =~= s@);
        assert(out@ =~= old(out)@ + ser_string(s@));
    }
}

/// Append the canonical rendering of a signed integer onto `out`.
pub fn emit_int(neg: bool, mag: u64, out: &mut Vec<char>)
    ensures
        final(out)@ == old(out)@ + ser_int(neg, mag),
{
    if neg {
        out.push('-');
    }
    let digits = u64_to_chars(mag);
    let mut i: usize = 0;
    let ghost base = out@;
    while i < digits.len()
        invariant
            i <= digits@.len(),
            out@ == base + digits@.subrange(0, i as int),
        decreases digits@.len() - i,
    {
        out.push(digits[i]);
        i = i + 1;
        proof {
            assert(base + digits@.subrange(0, i as int) =~= (base + digits@.subrange(
                0, i - 1)).push(digits@[i - 1]));
        }
    }
    proof {
        assert(digits@.subrange(0, digits@.len() as int) =~= digits@);
        assert(out@ =~= old(out)@ + ser_int(neg, mag));
    }
}

/// Append the canonical rendering of `v` onto `out`.
pub fn emit_json(v: &JsonValue, out: &mut Vec<char>)
    ensures
        final(out)@ == old(out)@ + ser_json(*v),
    decreases *v,
{
    match v {
        JsonValue::Null => {
            out.push('n');
            out.push('u');
            out.push('l');
            out.push('l');
            proof {
                assert(out@ =~= old(out)@ + ser_json(*v));
            }
        },
        JsonValue::Bool(b) => {
            if *b {
                out.push('t');
                out.push('r');
                out.push('u');
                out.push('e');
            } else {
                out.push('f');
                out.push('a');
                out.push('l');
                out.push('s');
                out.push('e');
            }
            proof {
                assert(out@ =~= old(out)@ + ser_json(*v));
            }
        },
        JsonValue::Int { neg, mag } => {
            emit_int(*neg, *mag, out);
        },
        JsonValue::Str(s) => {
            emit_string_literal(s.as_str(), out);
        },
        JsonValue::Arr(a) => {
            out.push('[');
            let ghost base = out@;
            let mut i: usize = 0;
            while i < a.len()
                invariant
                    i <= a@.len(),
                    out@ == base + ser_elems(a@.subrange(0, i as int)),
                    forall|k: int| 0 <= k < a@.len() ==> decreases_to!(*v => a@[k]),
                decreases a@.len() - i,
            {
                if i > 0 {
                    out.push(',');
                }
                proof {
                    assert(decreases_to!(*v => a@[i as int]));
                }
                emit_json(&a[i], out);
                i = i + 1;
                proof {
                    let p = a@.subrange(0, i - 1);
                    let q = a@.subrange(0, i as int);
                    assert(q.subrange(0, q.len() - 1) =~= p);
                    assert(q[q.len() - 1] == a@[i - 1]);
                    if i == 1 {
                        assert(ser_elems(q) == ser_json(a@[0]));
                        assert(out@ =~= base + ser_elems(q));
                    } else {
                        assert(ser_elems(q) == ser_elems(p) + seq![','] + ser_json(a@[i - 1]));
                        assert(out@ =~= base + ser_elems(q));
                    }
                }
            }
            out.push(']');
            proof {
                assert(a@.subrange(0, a@.len() as int) =~= a@);
                assert(out@ =~= old(out)@ + ser_json(*v));
            }
        },
        JsonValue::Obj(o) => {
            out.push('{');
            let ghost base = out@;
            let mut i: usize = 0;
            while i < o.len()
                invariant
                    i <= o@.len(),
                    out@ == base + ser_members(o@.subrange(0, i as int)),
                    forall|k: int| 0 <= k < o@.len() ==> decreases_to!(*v => o@[k].1),
                decreases o@.len() - i,
            {
                if i > 0 {
                    out.push(',');
                }
                emit_string_literal(o[i].0.as_str(), out);
                out.push(':');
                proof {
                    assert(decreases_to!(*v => o@[i as int].1));
                }
                emit_json(&o[i].1, out);
                i = i + 1;
                proof {
                    let p = o@.subrange(0, i - 1);
                    let q = o@.subrange(0, i as int);
                    assert(q.subrange(0, q.len() - 1) =~= p);
                    assert(q[q.len() - 1] == o@[i - 1]);
                    if i == 1 {
                        assert(ser_members(q) == ser_member(o@[0]));
                        assert(out@ =~= base + ser_members(q));
                    } else {
                        assert(ser_members(q) == ser_members(p) + seq![','] + ser_member(
                            o@[i - 1]));
                        assert(out@ =~= base + ser_members(q));
                    }
                }
            }
            out.push('}');
            proof {
                assert(o@.subrange(0, o@.len() as int) =~= o@);
                assert(out@ =~= old(out)@ + ser_json(*v));
            }
        },
    }
}

/// Render `v` as its canonical JSON text.
pub fn json_to_string(v: &JsonValue) -> (r: String)
    ensures
        r@ == ser_json(*v),
{
    let mut out: Vec<char> = Vec::new();
    emit_json(v, &mut out);
    crate::strutil::chars_to_string(&out)
}

} // verus!

verus! {



/// The value of one lowercase hexadecimal digit character.
pub fn hex_val_char(c: char) -> (r: Option<u8>)
    ensures
        match r {
            Some(d) => d < 16 && hex_digit(d as int) == c,
            None => forall|d: int| 0 <= d < 16 ==> hex_digit(d) != c,
        },
{
    let v = c as u32;
    if 48 <= v && v <= 57 {
        proof {
            assert(hex_digit((v - 48) as int) == c);
        }
        Some((v - 48) as u8)
    } else if 97 <= v && v <= 102 {
        proof {
            assert(hex_digit((v - 87) as int) == c);
        }
        Some((v - 87) as u8)
    } else {
        proof {
            assert forall|d: int| 0 <= d < 16 implies hex_digit(d) != c by {
                if d < 10 {
                    assert(hex_digit(d) as int == d + 48);
                } else {
                    assert(hex_digit(d) as int == d + 87);
                }
            }
        }
        None
    }
}

/// Parse a string literal starting at the opening quote.
///
/// On success the characters `s[i..j]` are exactly the canonical rendering
/// of the returned string.
pub fn parse_string_at(s: &Vec<char>, i: usize) -> (r: Option<(String, usize)>)
    requires
        i < s@.len(),
        s@[i as int] == '"',
    ensures
        match r {
            Some((st, j)) => {
                &&& i < j <= s@.len()
                &&& s@.subrange(i as int, j as int) == ser_string(st@)
            },
            None => true,
        },
{
    let n = s.len();
    let mut acc: Vec<char> = Vec::new();
    let mut j: usize = i + 1;
    loop
        invariant
            i + 1 <= j <= n,
            n == s@.len(),
            i < n,
            s@[i as int] == '"',
            esc_str(acc@) == s@.subrange(i + 1, j as int),
        decreases n - j,
    {
        if j >= n {
            return None;
        }
        let c = s[j];
        if c == '"' {
            let st = crate::strutil::chars_to_string(&acc);
            proof {
                assert(s@.subrange(i as int, j + 1) =~= seq!['"'] + s@.subrange(i + 1, j as int)
                    + seq!['"']);
                assert(s@.subrange(i as int, j + 1) =~= ser_string(st@));
            }
            return Some((st, j + 1));
        } else if c == '\\' {
            if n - j < 2 {
                return None;
            }
            let e = s[j + 1];
            let decoded: char;
            let consumed: usize;
            if e == '"' {
                decoded = '"';
                consumed = 2;
            } else if e == '\\' {
                decoded = '\\';
                consumed = 2;
            } else if e == 'b' {
                decoded = crate::strutil::char_of_byte(8);
                consumed = 2;
            } else if e == 't' {
                decoded = crate::strutil::char_of_byte(9);
                consumed = 2;
            } else if e == 'n' {
                decoded = crate::strutil::char_of_byte(10);
                consumed = 2;
            } else if e == 'f' {
                decoded = crate::strutil::char_of_byte(12);
                consumed = 2;
            } else if e == 'r' {
                decoded = crate::strutil::char_of_byte(13);
                consumed = 2;
            } else if e == 'u' {
                if n - j < 6 {
                    return None;
                }
                if !(s[j + 2] == '0' && s[j + 3] == '0') {
                    return None;
                }
                let h1 = match hex_val_char(s[j + 4]) {
                    Some(d) => d,
                    None => { return None; },
                };
                let h2 = match hex_val_char(s[j + 5]) {
                    Some(d) => d,
                    None => { return None; },
                };
                let val: u8 = h1 * 16 + h2;
                if val >= 32 || val == 8 || val == 9 || val == 10 || val == 12 || val == 13 {
                    return None;
                }
                decoded = crate::strutil::char_of_byte(val);
                consumed = 6;
                proof {
                    assert(decoded as int == val);
                    assert(decoded != '"' && decoded != '\\');
                    assert(esc_char(decoded) == seq!['\\', 'u', '0', '0', hex_digit(
                        (val as int) / 16), hex_digit((val as int) % 16)]);
                    assert(h1 == val / 16 && h2 == val % 16) by (nonlinear_arith)
                        requires
                            val == h1 * 16 + h2,
                            0 <= h2 < 16,
                            0 <= h1 < 16,
                            val < 32;
                    assert(esc_char(decoded) =~= s@.subrange(j as int, j + 6));
                }
            } else {
                return None;
            }
            proof {
                if consumed == 2 {
                    assert(esc_char(decoded) =~= s@.subrange(j as int, j + 2));
                }
                let p = s@.subrange(i + 1, j as int);
                let q = s@.subrange(i + 1, j + consumed);
                assert(q =~= p + s@.subrange(j as int, j + consumed));
                assert(esc_str(acc@.push(decoded)) == esc_str(acc@) + esc_char(decoded)) by {
                    assert(acc@.push(decoded).drop_last() =~= acc@);
                }
                assert(esc_str(acc@.push(decoded)) =~= q);
            }
            acc.push(decoded);
            j = j + consumed;
        } else {
            let code = crate::strutil::char_code(c);
            if code < 32 {
                return None;
            }
            proof {
                assert(c as int >= 32);
                assert(esc_char(c) =~= seq![c]);
                let p = s@.subrange(i + 1, j as int);
                let q = s@.subrange(i + 1, j + 1);
                assert(q =~= p + seq![c]);
                assert(esc_str(acc@.push(c)) == esc_str(acc@) + esc_char(c)) by {
                    assert(acc@.push(c).drop_last() =~= acc@);
                }
                assert(esc_str(acc@.push(c)) =~= q);
            }
            acc.push(c);
            j = j + 1;
        }
    }
}

/// Parse a number starting at `i` (a minus sign or a digit).
pub fn parse_number_at(s: &Vec<char>, i: usize) -> (r: Option<(JsonValue, usize)>)
    requires
        i < s@.len(),
        s@[i as int] == '-' || is_digit(s@[i as int]),
    ensures
        match r {
            Some((v, j)) => {
                &&& i < j <= s@.len()
                &&& wf_json(v)
                &&& s@.subrange(i as int, j as int) == ser_json(v)
            },
            None => true,
        },
{
    let n = s.len();
    let neg = s[i] == '-';
    let d0: usize = if neg { i + 1 } else { i };
    let mut k: usize = d0;
    while k < n && is_digit_char(s[k])
        invariant
            d0 <= k <= n,
            n == s@.len(),
            all_digits(s@.subrange(d0 as int, k as int)),
        decreases n - k,
    {
        proof {
            let p = s@.subrange(d0 as int, k as int);
            let q = s@.subrange(d0 as int, k + 1);
            assert(forall|x: int| 0 <= x < q.len() - 1 ==> q[x] == p[x]);
            assert(q[q.len() - 1] == s@[k as int]);
        }
        k = k + 1;
    }
    if k == d0 {
        return None;
    }
    if s[d0] == '0' && k > d0 + 1 {
        return None;
    }
    let mag = match parse_u64_digits(s, d0, k) {
        Some(m) => m,
        None => { return None; },
    };
    if neg && (mag == 0 || mag > 0x8000_0000_0000_0000u64) {
        return None;
    }
    let v = JsonValue::Int { neg, mag };
    proof {
        let digs = s@.subrange(d0 as int, k as int);
        assert(is_canonical_dec(digs));
        lemma_canonical_dec_str(digs);
        assert(dec_str(mag as nat) == digs);
        if neg {
            assert(s@.subrange(i as int, k as int) =~= seq!['-'] + digs);
        } else {
            assert(s@.subrange(i as int, k as int) =~= digs);
        }
        assert(s@.subrange(i as int, k as int) == ser_json(v));
    }
    Some((v, k))
}

/// Parse one canonical JSON value starting at `i`.
///
/// On success the characters `s[i..j]` are exactly the canonical rendering
/// of the returned value, which is therefore the only value they can mean.
pub fn parse_value_at(s: &Vec<char>, i: usize) -> (r: Option<(JsonValue, usize)>)
    requires
        i <= s@.len(),
    ensures
        match r {
            Some((v, j)) => {
                &&& i < j <= s@.len()
                &&& wf_json(v)
                &&& s@.subrange(i as int, j as int) == ser_json(v)
            },
            None => true,
        },
    decreases s@.len() - i,
{
    let n = s.len();
    if i >= n {
        return None;
    }
    let c = s[i];
    if c == 'n' {
        if n - i >= 4 && s[i + 1] == 'u' && s[i + 2] == 'l' && s[i + 3] == 'l' {
            proof {
                assert(s@.subrange(i as int, i + 4) =~= ser_json(JsonValue::Null));
            }
            Some((JsonValue::Null, i + 4))
        } else {
            None
        }
    } else if c == 't' {
        if n - i >= 4 && s[i + 1] == 'r' && s[i + 2] == 'u' && s[i + 3] == 'e' {
            proof {
                assert(s@.subrange(i as int, i + 4) =~= ser_json(JsonValue::Bool(true)));
            }
            Some((JsonValue::Bool(true), i + 4))
        } else {
            None
        }
    } else if c == 'f' {
        if n - i >= 5 && s[i + 1] == 'a' && s[i + 2] == 'l' && s[i + 3] == 's' && s[i + 4] == 'e' {
            proof {
                assert(s@.subrange(i as int, i + 5) =~= ser_json(JsonValue::Bool(false)));
            }
            Some((JsonValue::Bool(false), i + 5))
        } else {
            None
        }
    } else if c == '"' {
        match parse_string_at(s, i) {
            Some((st, j)) => {
                proof {
                    assert(s@.subrange(i as int, j as int) == ser_json(JsonValue::Str(st)));
                }
                Some((JsonValue::Str(st), j))
            },
            None => None,
        }
    } else if c == '-' || is_digit_char(c) {
        parse_number_at(s, i)
    } else if c == '[' {
        if n - i >= 2 && s[i + 1] == ']' {
            let v = JsonValue::Arr(Vec::new());
            proof {
                assert(ser_elems(Seq::<JsonValue>::empty()) == Seq::<char>::empty());
                assert(s@.subrange(i as int, i + 2) =~= ser_json(v));
            }
            return Some((v, i + 2));
        }
        let mut elems: Vec<JsonValue> = Vec::new();
        let mut cur: usize = i + 1;
        loop
            invariant
                i + 1 <= cur <= n,
                n == s@.len(),
                i < n,
                s@[i as int] == '[',
                elems@.len() == 0 ==> cur == i + 1,
                elems@.len() >= 1 ==> s@.subrange(i + 1, cur as int) == ser_elems(elems@)
                    + seq![','],
                forall|x: int| 0 <= x < elems@.len() ==> wf_json(#[trigger] elems@[x]),
            decreases n - cur,
        {
            let (v, j) = match parse_value_at(s, cur) {
                Some(p) => p,
                None => { return None; },
            };
            proof {
                let q = s@.subrange(i + 1, j as int);
                if elems@.len() == 0 {
                    assert(q =~= ser_json(v));
                    assert(ser_elems(elems@.push(v)) == ser_json(v));
                } else {
                    assert(q =~= s@.subrange(i + 1, cur as int) + s@.subrange(
                        cur as int, j as int));
                    assert(elems@.push(v).subrange(0, elems@.push(v).len() - 1) =~= elems@);
                    assert(ser_elems(elems@.push(v)) == ser_elems(elems@) + seq![',']
                        + ser_json(v));
                    assert(q =~= ser_elems(elems@.push(v)));
                }
            }
            elems.push(v);
            if j < n && s[j] == ']' {
                let out = JsonValue::Arr(elems);
                proof {
                    assert(s@.subrange(i as int, j + 1) =~= seq!['['] + s@.subrange(
                        i + 1, j as int) + seq![']']);
                    assert(s@.subrange(i as int, j + 1) =~= ser_json(out));
                }
                return Some((out, j + 1));
            } else if j < n && s[j] == ',' {
                proof {
                    assert(s@.subrange(i + 1, j + 1) =~= s@.subrange(i + 1, j as int)
                        + seq![',']);
                }
                cur = j + 1;
            } else {
                return None;
            }
        }
    } else if c == '{' {
        if n - i >= 2 && s[i + 1] == '}' {
            let v = JsonValue::Obj(Vec::new());
            proof {
                assert(ser_members(Seq::<(String, JsonValue)>::empty()) == Seq::<char>::empty());
                assert(s@.subrange(i as int, i + 2) =~= ser_json(v));
            }
            return Some((v, i + 2));
        }
        let mut mems: Vec<(String, JsonValue)> = Vec::new();
        let mut cur: usize = i + 1;
        loop
            invariant
                i + 1 <= cur <= n,
                n == s@.len(),
                i < n,
                s@[i as int] == '{',
                mems@.len() == 0 ==> cur == i + 1,
                mems@.len() >= 1 ==> s@.subrange(i + 1, cur as int) == ser_members(mems@)
                    + seq![','],
                forall|x: int| 0 <= x < mems@.len() ==> wf_json(#[trigger] mems@[x].1),
            decreases n - cur,
        {
            if cur >= n || !(s[cur] == '"') {
                return None;
            }
            let (key, kj) = match parse_string_at(s, cur) {
                Some(p) => p,
                None => { return None; },
            };
            if kj >= n || !(s[kj] == ':') {
                return None;
            }
            let (v, j) = match parse_value_at(s, kj + 1) {
                Some(p) => p,
                None => { return None; },
            };
            proof {
                let m = (key, v);
                assert(ser_member(m) == ser_string(key@) + seq![':'] + ser_json(v));
                assert(s@.subrange(cur as int, j as int) =~= s@.subrange(cur as int, kj as int)
                    + seq![':'] + s@.subrange(kj + 1, j as int));
                assert(s@.subrange(cur as int, j as int) =~= ser_member(m));
                let q = s@.subrange(i + 1, j as int);
                if mems@.len() == 0 {
                    assert(q =~= ser_member(m));
                    assert(ser_members(mems@.push(m)) == ser_member(m));
                } else {
                    assert(q =~= s@.subrange(i + 1, cur as int) + s@.subrange(
                        cur as int, j as int));
                    assert(mems@.push(m).subrange(0, mems@.push(m).len() - 1) =~= mems@);
                    assert(ser_members(mems@.push(m)) == ser_members(mems@) + seq![',']
                        + ser_member(m));
                    assert(q =~= ser_members(mems@.push(m)));
                }
            }
            mems.push((key, v));
            if j < n && s[j] == '}' {
                let out = JsonValue::Obj(mems);
                proof {
                    assert(s@.subrange(i as int, j + 1) =~= seq!['{'] + s@.subrange(
                        i + 1, j as int) + seq!['}']);
                    assert(s@.subrange(i as int, j + 1) =~= ser_json(out));
                }
                return Some((out, j + 1));
            } else if j < n && s[j] == ',' {
                proof {
                    assert(s@.subrange(i + 1, j + 1) =~= s@.subrange(i + 1, j as int)
                        + seq![',']);
                }
                cur = j + 1;
            } else {
                return None;
            }
        }
    } else {
        None
    }
}

/// Parse a whole character vector as one canonical JSON document.
pub fn parse_json_chars(s: &Vec<char>) -> (r: Option<JsonValue>)
    ensures
        match r {
            Some(v) => wf_json(v) && s@ == ser_json(v),
            None => true,
        },
{
    match parse_value_at(s, 0) {
        Some((v, j)) => {
            if j == s.len() {
                proof {
                    assert(s@.subrange(0, s@.len() as int) =~= s@);
                }
                Some(v)
            } else {
                None
            }
        },
        None => None,
    }
}

/// Parse a whole string as one canonical JSON document.
///
/// A successful parse returns the unique value whose canonical rendering
/// is the input text.
pub fn parse_json(t: &str) -> (r: Option<JsonValue>)
    ensures
        match r {
            Some(v) => wf_json(v) && t@ == ser_json(v),
            None => true,
        },
{
    let chars = crate::strutil::str_to_chars(t);
    parse_json_chars(&chars)
}

} // verus!

verus! {

/// Equal concatenations with equally long heads split equally.
proof fn lemma_concat_cancel(a1: Seq<char>, a2: Seq<char>, b1: Seq<char>, b2: Seq<char>)
    requires
        a1 + b1 == a2 + b2,
        a1.len() == a2.len(),
    ensures
        a1 == a2,
        b1 == b2,
{
    assert(a1 =~= a2) by {
        assert(forall|i: int| 0 <= i < a1.len() ==> a1[i] == (a1 + b1)[i]);
        assert(forall|i: int| 0 <= i < a2.len() ==> a2[i] == (a2 + b2)[i]);
    }
    assert((a1 + b1).len() == a1.len() + b1.len());
    assert((a2 + b2).len() == a2.len() + b2.len());
    assert(b1.len() == b2.len());
    assert forall|i: int| 0 <= i < b1.len() implies b1[i] == b2[i] by {
        assert((a1 + b1)[a1.len() + i] == b1[i]);
        assert((a2 + b2)[a2.len() + i] == b2[i]);
    }
    assert(b1 =~= b2);
}

/// The escape of a string decomposes from the left as well.
proof fn lemma_esc_str_left(s: Seq<char>)
    requires
        s.len() > 0,
    ensures
        esc_str(s) == esc_char(s[0]) + esc_str(s.subrange(1, s.len() as int)),
    decreases s.len(),
{
    if s.len() == 1 {
        assert(s.drop_last().len() == 0);
        assert(esc_str(s.drop_last()) == Seq::<char>::empty());
        assert(s.subrange(1, 1) =~= Seq::<char>::empty());
        assert(esc_str(s.subrange(1, 1)) == Seq::<char>::empty());
        assert(esc_str(s) =~= esc_char(s[0]) + esc_str(s.subrange(1, 1)));
    } else {
        let f = s.drop_last();
        lemma_esc_str_left(f);
        let t = s.subrange(1, s.len() as int);
        assert(f[0] == s[0]);
        assert(f.subrange(1, f.len() as int) =~= t.drop_last());
        assert(t.last() == s.last());
        assert(esc_str(s) == esc_str(f) + esc_char(s.last()));
        assert(esc_str(t) == esc_str(t.drop_last()) + esc_char(t.last()));
        assert(esc_str(s) =~= esc_char(s[0]) + esc_str(t));
    }
}

/// What one escape token looks like: an escaped character opens with a
/// backslash, anything else stands for itself and is neither a
/// backslash nor a quote when it came from an escape-free position.
proof fn lemma_esc_char_shape(c: char)
    ensures
        1 <= esc_char(c).len() <= 6,
        esc_char(c).len() == 1 ==> esc_char(c)[0] == c && c != '\\' && (c as int) >= 32,
        esc_char(c).len() != 1 ==> esc_char(c)[0] == '\\',
        esc_char(c).len() == 6 ==> esc_char(c)[1] == 'u',
        esc_char(c).len() == 2 ==> esc_char(c)[1] != 'u',
{
    broadcast use vstd::utf8::char_is_scalar;

    if c == '"' || c == '\\' {
    } else if c as int == 8 || c as int == 9 || c as int == 10 || c as int == 12 || c as int
        == 13 {
        assert(esc_char(c)[1] != 'u') by {
            assert('b' as int == 98 && 't' as int == 116 && 'n' as int == 110 && 'f' as int
                == 102 && 'r' as int == 114 && 'u' as int == 117);
        }
    } else if (c as int) < 32 {
    } else {
    }
}

/// Two escaped characters that open the same token stream are the same
/// character with the same token.
proof fn lemma_esc_char_unique(c1: char, c2: char, r1: Seq<char>, r2: Seq<char>)
    requires
        esc_char(c1) + r1 == esc_char(c2) + r2,
    ensures
        c1 == c2,
        r1 == r2,
{
    broadcast use vstd::utf8::char_is_scalar;

    lemma_esc_char_shape(c1);
    lemma_esc_char_shape(c2);
    let t1 = esc_char(c1);
    let t2 = esc_char(c2);
    let all = t1 + r1;
    assert(forall|i: int| 0 <= i < t1.len() ==> all[i] == t1[i]);
    assert(forall|i: int| 0 <= i < t2.len() ==> all[i] == t2[i]);
    if t1.len() == 1 && t2.len() == 1 {
        assert(c1 == c2);
        lemma_concat_cancel(t1, t2, r1, r2);
    } else if t1.len() == 1 || t2.len() == 1 {
        assert(t1[0] == t2[0]);
        assert(false);
    } else {
        assert(t1[0] == '\\' && t2[0] == '\\');
        if t1.len() == 6 && t2.len() == 6 {
            assert(t1[2] == t2[2] && t1[3] == t2[3] && t1[4] == t2[4] && t1[5] == t2[5]);
            let a1 = c1 as int;
            let a2 = c2 as int;
            assert(hex_digit(a1 / 16) == hex_digit(a2 / 16));
            assert(hex_digit(a1 % 16) == hex_digit(a2 % 16));
            assert(a1 / 16 == a2 / 16 && a1 % 16 == a2 % 16) by {
                lemma_hex_digit_injective(a1 / 16, a2 / 16);
                lemma_hex_digit_injective(a1 % 16, a2 % 16);
            }
            assert(a1 == a2);
            assert(c1 == c2);
            lemma_concat_cancel(t1, t2, r1, r2);
        } else if t1.len() == 2 && t2.len() == 2 {
            assert(t1[1] == t2[1]);
            assert('"' as int == 34 && '\\' as int == 92 && 'b' as int == 98 && 't' as int == 116
                && 'n' as int == 110 && 'f' as int == 102 && 'r' as int == 114);
            assert(c1 == c2);
            lemma_concat_cancel(t1, t2, r1, r2);
        } else {
            assert(t1[1] == t2[1]);
            assert(false);
        }
    }
}

/// Hexadecimal digits name their values: equal digits, equal values.
proof fn lemma_hex_digit_injective(d1: int, d2: int)
    requires
        0 <= d1 < 16,
        0 <= d2 < 16,
        hex_digit(d1) == hex_digit(d2),
    ensures
        d1 == d2,
{
    assert(hex_digit(d1) as int == if d1 < 10 { d1 + 48 } else { d1 + 87 });
    assert(hex_digit(d2) as int == if d2 < 10 { d2 + 48 } else { d2 + 87 });
}

/// Escape streams closed by a quote are unique: the same text after the
/// opening quote means the same string body and the same remainder.
proof fn lemma_esc_str_unique(s1: Seq<char>, s2: Seq<char>, r1: Seq<char>, r2: Seq<char>)
    requires
        esc_str(s1) + seq!['"'] + r1 == esc_str(s2) + seq!['"'] + r2,
    ensures
        s1 == s2,
        r1 == r2,
    decreases s1.len(),
{
    if s1.len() == 0 && s2.len() == 0 {
        assert(esc_str(s1) == Seq::<char>::empty());
        assert(esc_str(s2) == Seq::<char>::empty());
        assert(s1 =~= s2);
        assert(esc_str(s1) + seq!['"'] =~= esc_str(s2) + seq!['"']);
        assert((esc_str(s1) + seq!['"']) + r1 =~= esc_str(s1) + seq!['"'] + r1);
        assert((esc_str(s2) + seq!['"']) + r2 =~= esc_str(s2) + seq!['"'] + r2);
        lemma_concat_cancel(esc_str(s1) + seq!['"'], esc_str(s2) + seq!['"'], r1, r2);
    } else if s1.len() == 0 {
        lemma_esc_char_shape(s2[0]);
        lemma_esc_str_left(s2);
        let all = esc_str(s2) + seq!['"'] + r2;
        assert(all[0] == esc_char(s2[0])[0]);
        assert(all == esc_str(s1) + seq!['"'] + r1);
        assert(all[0] == '"');
        assert(esc_char(s2[0])[0] != '"');
        assert(false);
    } else if s2.len() == 0 {
        lemma_esc_char_shape(s1[0]);
        lemma_esc_str_left(s1);
        let all = esc_str(s1) + seq!['"'] + r1;
        assert(all[0] == esc_char(s1[0])[0]);
        assert(all == esc_str(s2) + seq!['"'] + r2);
        assert(all[0] == '"');
        assert(esc_char(s1[0])[0] != '"');
        assert(false);
    } else {
        lemma_esc_str_left(s1);
        lemma_esc_str_left(s2);
        let t1 = s1.subrange(1, s1.len() as int);
        let t2 = s2.subrange(1, s2.len() as int);
        assert(esc_char(s1[0]) + (esc_str(t1) + seq!['"'] + r1) =~= esc_str(s1) + seq!['"']
            + r1);
        assert(esc_char(s2[0]) + (esc_str(t2) + seq!['"'] + r2) =~= esc_str(s2) + seq!['"']
            + r2);
        lemma_esc_char_unique(s1[0], s2[0], esc_str(t1) + seq!['"'] + r1,
            esc_str(t2) + seq!['"'] + r2);
        lemma_esc_str_unique(t1, t2, r1, r2);
        assert(s1 =~= seq![s1[0]] + t1);
        assert(s2 =~= seq![s2[0]] + t2);
    }
}

} // verus!

verus! {


/// Equality of JSON values up to string contents: the same shape with
/// the same text everywhere.
pub open spec fn json_eq(x: JsonValue, y: JsonValue) -> bool
    decreases x,
{
    match (x, y) {
        (JsonValue::Null, JsonValue::Null) => true,
        (JsonValue::Bool(a), JsonValue::Bool(b)) => a == b,
        (JsonValue::Int { neg: n1, mag: m1 }, JsonValue::Int { neg: n2, mag: m2 }) => n1 == n2
            && m1 == m2,
        (JsonValue::Str(a), JsonValue::Str(b)) => a@ == b@,
        (JsonValue::Arr(a), JsonValue::Arr(b)) => jsons_eq(a@, b@),
        (JsonValue::Obj(a), JsonValue::Obj(b)) => members_eq(a@, b@),
        _ => false,
    }
}

/// Pairwise equality of two value lists.
pub open spec fn jsons_eq(x: Seq<JsonValue>, y: Seq<JsonValue>) -> bool
    decreases x,
{
    if x.len() != y.len() {
        false
    } else if x.len() == 0 {
        true
    } else {
        json_eq(x[0], y[0]) && jsons_eq(x.subrange(1, x.len() as int), y.subrange(
            1, y.len() as int))
    }
}

/// Pairwise equality of two member lists, keys as text.
pub open spec fn members_eq(x: Seq<(String, JsonValue)>, y: Seq<(String, JsonValue)>) -> bool
    decreases x,
{
    if x.len() != y.len() {
        false
    } else if x.len() == 0 {
        true
    } else {
        x[0].0@ == y[0].0@ && json_eq(x[0].1, y[0].1) && members_eq(x.subrange(
            1, x.len() as int), y.subrange(1, y.len() as int))
    }
}

/// A rendering is never empty, and its first character names the
/// variant: values open with `n`, `t`, `f`, a quote, a bracket, a
/// brace, a minus sign or a digit, so no rendering opens with a comma,
/// a colon or a closing delimiter.
proof fn lemma_ser_first_char(v: JsonValue)
    requires
        wf_json(v),
    ensures
        ser_json(v).len() >= 1,
        v is Null ==> ser_json(v)[0] == 'n',
        v is Bool ==> (ser_json(v)[0] == 't' || ser_json(v)[0] == 'f'),
        v is Int ==> (ser_json(v)[0] == '-' || is_digit(ser_json(v)[0])),
        v is Str ==> ser_json(v)[0] == '"',
        v is Arr ==> ser_json(v)[0] == '[',
        v is Obj ==> ser_json(v)[0] == '{',
        ser_json(v)[0] != ']' && ser_json(v)[0] != '}' && ser_json(v)[0] != ',' && ser_json(
            v)[0] != ':',
{
    broadcast use vstd::utf8::char_is_scalar;

    match v {
        JsonValue::Int { neg, mag } => {
            lemma_dec_str_digits(mag as nat);
            if neg {
                assert(ser_json(v)[0] == '-');
            } else {
                assert(ser_json(v)[0] == dec_str(mag as nat)[0]);
                assert(is_digit(dec_str(mag as nat)[0]));
            }
            assert('-' as int == 45 && ']' as int == 93 && '}' as int == 125 && ',' as int == 44
                && ':' as int == 58);
        },
        _ => {
            assert('n' as int == 110 && 't' as int == 116 && 'f' as int == 102 && '"' as int
                == 34 && '[' as int == 91 && '{' as int == 123 && ']' as int == 93
                && '}' as int == 125 && ',' as int == 44 && ':' as int == 58);
        },
    }
}

/// Digit runs are read greedily: two renderings of numbers followed by
/// text that opens with no digit agree on the number and the text.
proof fn lemma_dec_munch(n1: nat, n2: nat, r1: Seq<char>, r2: Seq<char>)
    requires
        dec_str(n1) + r1 == dec_str(n2) + r2,
        r1.len() > 0 ==> !is_digit(r1[0]),
        r2.len() > 0 ==> !is_digit(r2[0]),
    ensures
        n1 == n2,
        r1 == r2,
{
    lemma_dec_str_digits(n1);
    lemma_dec_str_digits(n2);
    let d1 = dec_str(n1);
    let d2 = dec_str(n2);
    let all = d1 + r1;
    assert((d1 + r1).len() == d1.len() + r1.len());
    assert((d2 + r2).len() == d2.len() + r2.len());
    if d1.len() < d2.len() {
        assert(r1.len() > 0);
        assert(r1[0] == all[d1.len() as int]);
        assert(all[d1.len() as int] == d2[d1.len() as int]);
        assert(is_digit(d2[d1.len() as int]));
        assert(false);
    } else if d2.len() < d1.len() {
        assert(r2.len() > 0);
        assert(r2[0] == (d2 + r2)[d2.len() as int]);
        assert((d2 + r2)[d2.len() as int] == d1[d2.len() as int]);
        assert(is_digit(d1[d2.len() as int]));
        assert(false);
    } else {
        lemma_concat_cancel(d1, d2, r1, r2);
        assert(digits_val(d1) == digits_val(d2));
    }
}

/// Renderings parse uniquely: when two rendered values open the same
/// text, and neither remainder could extend a number, the values and
/// the remainders agree. No rendered request or response can be read
/// back as anything but itself.
#[verifier::rlimit(100)]
pub proof fn lemma_ser_unambiguous(x: JsonValue, y: JsonValue, r1: Seq<char>, r2: Seq<char>)
    requires
        wf_json(x),
        wf_json(y),
        ser_json(x) + r1 == ser_json(y) + r2,
        r1.len() > 0 ==> !is_digit(r1[0]),
        r2.len() > 0 ==> !is_digit(r2[0]),
    ensures
        json_eq(x, y),
        r1 == r2,
    decreases x,
{
    broadcast use vstd::utf8::char_is_scalar;

    lemma_ser_first_char(x);
    lemma_ser_first_char(y);
    let all = ser_json(x) + r1;
    assert(ser_json(x)[0] == all[0]);
    assert(ser_json(y)[0] == all[0]);
    match (x, y) {
        (JsonValue::Null, JsonValue::Null) => {
            lemma_concat_cancel(ser_json(x), ser_json(y), r1, r2);
        },
        (JsonValue::Bool(b1), JsonValue::Bool(b2)) => {
            if b1 != b2 {
                assert(all[1] == 'r' && all[1] == 'a');
                assert('r' as int == 114 && 'a' as int == 97);
                assert(false);
            }
            lemma_concat_cancel(ser_json(x), ser_json(y), r1, r2);
        },
        (JsonValue::Int { neg: n1, mag: m1 }, JsonValue::Int { neg: n2, mag: m2 }) => {
            lemma_dec_str_digits(m1 as nat);
            lemma_dec_str_digits(m2 as nat);
            if n1 != n2 {
                assert('-' as int == 45);
                if n1 {
                    assert(all[0] == '-');
                    assert(is_digit(dec_str(m2 as nat)[0]));
                } else {
                    assert(all[0] == '-');
                    assert(is_digit(dec_str(m1 as nat)[0]));
                }
                assert(false);
            }
            if n1 {
                assert(seq!['-'] + dec_str(m1 as nat) + r1 =~= seq!['-'] + (dec_str(m1 as nat)
                    + r1));
                assert(seq!['-'] + dec_str(m2 as nat) + r2 =~= seq!['-'] + (dec_str(m2 as nat)
                    + r2));
                lemma_concat_cancel(seq!['-'], seq!['-'], dec_str(m1 as nat) + r1,
                    dec_str(m2 as nat) + r2);
                lemma_dec_munch(m1 as nat, m2 as nat, r1, r2);
            } else {
                lemma_dec_munch(m1 as nat, m2 as nat, r1, r2);
            }
        },
        (JsonValue::Str(s1), JsonValue::Str(s2)) => {
            assert(seq!['"'] + (esc_str(s1@) + seq!['"'] + r1) =~= ser_string(s1@) + r1);
            assert(seq!['"'] + (esc_str(s2@) + seq!['"'] + r2) =~= ser_string(s2@) + r2);
            lemma_concat_cancel(seq!['"'], seq!['"'], esc_str(s1@) + seq!['"'] + r1,
                esc_str(s2@) + seq!['"'] + r2);
            lemma_esc_str_unique(s1@, s2@, r1, r2);
        },
        (JsonValue::Arr(a1), JsonValue::Arr(a2)) => {
            assert(seq!['['] + (ser_elems(a1@) + seq![']'] + r1) =~= ser_json(x) + r1);
            assert(seq!['['] + (ser_elems(a2@) + seq![']'] + r2) =~= ser_json(y) + r2);
            lemma_concat_cancel(seq!['['], seq!['['], ser_elems(a1@) + seq![']'] + r1,
                ser_elems(a2@) + seq![']'] + r2);
            assert(forall|i: int| 0 <= i < a1@.len() ==> wf_json(#[trigger] a1@[i]));
            assert(forall|i: int| 0 <= i < a2@.len() ==> wf_json(#[trigger] a2@[i]));
            lemma_ser_elems_unique(a1@, a2@, r1, r2, ']');
        },
        (JsonValue::Obj(o1), JsonValue::Obj(o2)) => {
            assert(seq!['{'] + (ser_members(o1@) + seq!['}'] + r1) =~= ser_json(x) + r1);
            assert(seq!['{'] + (ser_members(o2@) + seq!['}'] + r2) =~= ser_json(y) + r2);
            lemma_concat_cancel(seq!['{'], seq!['{'], ser_members(o1@) + seq!['}'] + r1,
                ser_members(o2@) + seq!['}'] + r2);
            assert(forall|i: int| 0 <= i < o1@.len() ==> wf_json(#[trigger] o1@[i].1));
            assert(forall|i: int| 0 <= i < o2@.len() ==> wf_json(#[trigger] o2@[i].1));
            lemma_ser_members_unique(o1@, o2@, r1, r2);
        },
        _ => {
            assert(false);
        },
    }
}

/// Element lists decompose from the left.
proof fn lemma_ser_elems_left(a: Seq<JsonValue>)
    requires
        a.len() > 0,
    ensures
        a.len() == 1 ==> ser_elems(a) == ser_json(a[0]),
        a.len() > 1 ==> ser_elems(a) == ser_json(a[0]) + seq![','] + ser_elems(a.subrange(
            1, a.len() as int)),
    decreases a.len(),
{
    if a.len() > 1 {
        let t = a.subrange(1, a.len() as int);
        lemma_ser_elems_left(t);
        let f = a.subrange(0, a.len() - 1);
        assert(ser_elems(a) == ser_elems(f) + seq![','] + ser_json(a[a.len() - 1]));
        if a.len() == 2 {
            assert(ser_elems(f) == ser_json(a[0]));
            assert(ser_elems(t) == ser_json(a[1]));
            assert(ser_elems(a) =~= ser_json(a[0]) + seq![','] + ser_elems(t));
        } else {
            lemma_ser_elems_left(f);
            let ft = f.subrange(1, f.len() as int);
            assert(ft =~= t.subrange(0, t.len() - 1));
            assert(ser_elems(t) == ser_elems(ft) + seq![','] + ser_json(t[t.len() - 1]));
            assert(t[t.len() - 1] == a[a.len() - 1]);
            assert(ser_elems(a) =~= ser_json(a[0]) + seq![','] + ser_elems(t));
        }
    }
}

/// Rendered element lists closed by a bracket are unique.
#[verifier::rlimit(100)]
proof fn lemma_ser_elems_unique(
    a1: Seq<JsonValue>,
    a2: Seq<JsonValue>,
    r1: Seq<char>,
    r2: Seq<char>,
    close: char,
)
    requires
        forall|i: int| 0 <= i < a1.len() ==> wf_json(#[trigger] a1[i]),
        forall|i: int| 0 <= i < a2.len() ==> wf_json(#[trigger] a2[i]),
        close == ']' || close == '}',
        ser_elems(a1) + seq![close] + r1 == ser_elems(a2) + seq![close] + r2,
    ensures
        jsons_eq(a1, a2),
        r1 == r2,
    decreases a1,
{
    broadcast use vstd::utf8::char_is_scalar;

    if a1.len() == 0 && a2.len() == 0 {
        assert(ser_elems(a1) == Seq::<char>::empty());
        assert(ser_elems(a2) == Seq::<char>::empty());
        assert(seq![close] + r1 =~= ser_elems(a1) + seq![close] + r1);
        assert(seq![close] + r2 =~= ser_elems(a2) + seq![close] + r2);
        lemma_concat_cancel(seq![close], seq![close], r1, r2);
    } else if a1.len() == 0 || a2.len() == 0 {
        let (e, other_r) = if a1.len() == 0 {
            (a2[0], r1)
        } else {
            (a1[0], r2)
        };
        lemma_ser_first_char(e);
        if a1.len() == 0 {
            lemma_ser_elems_left(a2);
            let all = ser_elems(a2) + seq![close] + r2;
            assert(all[0] == ser_json(a2[0])[0]) by {
                if a2.len() == 1 {
                    assert(ser_elems(a2) == ser_json(a2[0]));
                } else {
                    assert(ser_elems(a2) == ser_json(a2[0]) + seq![','] + ser_elems(
                        a2.subrange(1, a2.len() as int)));
                }
                assert(ser_json(a2[0]).len() >= 1);
            }
            assert((ser_elems(a1) + seq![close] + r1)[0] == close);
            assert(ser_json(a2[0])[0] != close);
            assert(false);
        } else {
            lemma_ser_elems_left(a1);
            let all = ser_elems(a1) + seq![close] + r1;
            assert(all[0] == ser_json(a1[0])[0]) by {
                if a1.len() == 1 {
                    assert(ser_elems(a1) == ser_json(a1[0]));
                } else {
                    assert(ser_elems(a1) == ser_json(a1[0]) + seq![','] + ser_elems(
                        a1.subrange(1, a1.len() as int)));
                }
                assert(ser_json(a1[0]).len() >= 1);
            }
            assert((ser_elems(a2) + seq![close] + r2)[0] == close);
            assert(ser_json(a1[0])[0] != close);
            assert(false);
        }
    } else {
        lemma_ser_elems_left(a1);
        lemma_ser_elems_left(a2);
        let t1 = a1.subrange(1, a1.len() as int);
        let t2 = a2.subrange(1, a2.len() as int);
        let rest1: Seq<char> = if a1.len() == 1 {
            seq![close] + r1
        } else {
            seq![','] + (ser_elems(t1) + seq![close] + r1)
        };
        let rest2: Seq<char> = if a2.len() == 1 {
            seq![close] + r2
        } else {
            seq![','] + (ser_elems(t2) + seq![close] + r2)
        };
        assert(ser_json(a1[0]) + rest1 =~= ser_elems(a1) + seq![close] + r1);
        assert(ser_json(a2[0]) + rest2 =~= ser_elems(a2) + seq![close] + r2);
        assert(rest1.len() > 0 && rest2.len() > 0);
        assert(!is_digit(rest1[0]) && !is_digit(rest2[0])) by {
            assert(',' as int == 44 && ']' as int == 93 && '}' as int == 125);
        }
        lemma_ser_unambiguous(a1[0], a2[0], rest1, rest2);
        if a1.len() == 1 && a2.len() == 1 {
            lemma_concat_cancel(seq![close], seq![close], r1, r2);
            assert(jsons_eq(a1, a2)) by {
                assert(t1.len() == 0 && t2.len() == 0);
                assert(jsons_eq(t1, t2));
            }
        } else if a1.len() == 1 || a2.len() == 1 {
            assert(rest1[0] == rest2[0]);
            assert(',' as int == 44 && ']' as int == 93 && '}' as int == 125);
            assert(false);
        } else {
            lemma_concat_cancel(seq![','], seq![','], ser_elems(t1) + seq![close] + r1,
                ser_elems(t2) + seq![close] + r2);
            assert(forall|i: int| 0 <= i < t1.len() ==> wf_json(#[trigger] t1[i])) by {
                assert(forall|i: int| 0 <= i < t1.len() ==> t1[i] == a1[i + 1]);
            }
            assert(forall|i: int| 0 <= i < t2.len() ==> wf_json(#[trigger] t2[i])) by {
                assert(forall|i: int| 0 <= i < t2.len() ==> t2[i] == a2[i + 1]);
            }
            lemma_ser_elems_unique(t1, t2, r1, r2, close);
        }
    }
}

/// Rendered member lists closed by a brace are unique.
#[verifier::rlimit(100)]
proof fn lemma_ser_members_unique(
    o1: Seq<(String, JsonValue)>,
    o2: Seq<(String, JsonValue)>,
    r1: Seq<char>,
    r2: Seq<char>,
)
    requires
        forall|i: int| 0 <= i < o1.len() ==> wf_json(#[trigger] o1[i].1),
        forall|i: int| 0 <= i < o2.len() ==> wf_json(#[trigger] o2[i].1),
        ser_members(o1) + seq!['}'] + r1 == ser_members(o2) + seq!['}'] + r2,
    ensures
        members_eq(o1, o2),
        r1 == r2,
    decreases o1,
{
    broadcast use vstd::utf8::char_is_scalar;

    if o1.len() == 0 && o2.len() == 0 {
        assert(ser_members(o1) == Seq::<char>::empty());
        assert(ser_members(o2) == Seq::<char>::empty());
        assert(seq!['}'] + r1 =~= ser_members(o1) + seq!['}'] + r1);
        assert(seq!['}'] + r2 =~= ser_members(o2) + seq!['}'] + r2);
        lemma_concat_cancel(seq!['}'], seq!['}'], r1, r2);
    } else if o1.len() == 0 || o2.len() == 0 {
        if o1.len() == 0 {
            lemma_ser_members_left(o2);
            assert((ser_members(o2) + seq!['}'] + r2)[0] == '"') by {
                assert(ser_member(o2[0])[0] == '"') by {
                    assert(ser_member(o2[0]) =~= ser_string(o2[0].0@) + seq![':'] + ser_json(
                        o2[0].1));
                }
                assert(ser_member(o2[0]).len() >= 1);
            }
            assert((ser_members(o1) + seq!['}'] + r1)[0] == '}');
            assert('"' as int == 34 && '}' as int == 125);
            assert(false);
        } else {
            lemma_ser_members_left(o1);
            assert((ser_members(o1) + seq!['}'] + r1)[0] == '"') by {
                assert(ser_member(o1[0])[0] == '"') by {
                    assert(ser_member(o1[0]) =~= ser_string(o1[0].0@) + seq![':'] + ser_json(
                        o1[0].1));
                }
                assert(ser_member(o1[0]).len() >= 1);
            }
            assert((ser_members(o2) + seq!['}'] + r2)[0] == '}');
            assert('"' as int == 34 && '}' as int == 125);
            assert(false);
        }
    } else {
        lemma_ser_members_left(o1);
        lemma_ser_members_left(o2);
        let t1 = o1.subrange(1, o1.len() as int);
        let t2 = o2.subrange(1, o2.len() as int);
        let vrest1: Seq<char> = if o1.len() == 1 {
            seq!['}'] + r1
        } else {
            seq![','] + (ser_members(t1) + seq!['}'] + r1)
        };
        let vrest2: Seq<char> = if o2.len() == 1 {
            seq!['}'] + r2
        } else {
            seq![','] + (ser_members(t2) + seq!['}'] + r2)
        };
        // Split the key string, the colon, then the value.
        assert(seq!['"'] + (esc_str(o1[0].0@) + seq!['"'] + (seq![':'] + (ser_json(o1[0].1)
            + vrest1))) =~= ser_members(o1) + seq!['}'] + r1) by {
            assert(ser_member(o1[0]) == ser_string(o1[0].0@) + seq![':'] + ser_json(o1[0].1));
        }
        assert(seq!['"'] + (esc_str(o2[0].0@) + seq!['"'] + (seq![':'] + (ser_json(o2[0].1)
            + vrest2))) =~= ser_members(o2) + seq!['}'] + r2) by {
            assert(ser_member(o2[0]) == ser_string(o2[0].0@) + seq![':'] + ser_json(o2[0].1));
        }
        lemma_concat_cancel(seq!['"'], seq!['"'], esc_str(o1[0].0@) + seq!['"'] + (seq![':']
            + (ser_json(o1[0].1) + vrest1)), esc_str(o2[0].0@) + seq!['"'] + (seq![':'] + (
        ser_json(o2[0].1) + vrest2)));
        lemma_esc_str_unique(o1[0].0@, o2[0].0@, seq![':'] + (ser_json(o1[0].1) + vrest1),
            seq![':'] + (ser_json(o2[0].1) + vrest2));
        lemma_concat_cancel(seq![':'], seq![':'], ser_json(o1[0].1) + vrest1,
            ser_json(o2[0].1) + vrest2);
        assert(vrest1.len() > 0 && vrest2.len() > 0);
        assert(!is_digit(vrest1[0]) && !is_digit(vrest2[0])) by {
            assert(',' as int == 44 && '}' as int == 125);
        }
        lemma_ser_unambiguous(o1[0].1, o2[0].1, vrest1, vrest2);
        if o1.len() == 1 && o2.len() == 1 {
            lemma_concat_cancel(seq!['}'], seq!['}'], r1, r2);
            assert(members_eq(o1, o2)) by {
                assert(t1.len() == 0 && t2.len() == 0);
                assert(members_eq(t1, t2));
            }
        } else if o1.len() == 1 || o2.len() == 1 {
            assert(vrest1[0] == vrest2[0]);
            assert(',' as int == 44 && '}' as int == 125);
            assert(false);
        } else {
            lemma_concat_cancel(seq![','], seq![','], ser_members(t1) + seq!['}'] + r1,
                ser_members(t2) + seq!['}'] + r2);
            assert(forall|i: int| 0 <= i < t1.len() ==> wf_json(#[trigger] t1[i].1)) by {
                assert(forall|i: int| 0 <= i < t1.len() ==> t1[i] == o1[i + 1]);
            }
            assert(forall|i: int| 0 <= i < t2.len() ==> wf_json(#[trigger] t2[i].1)) by {
                assert(forall|i: int| 0 <= i < t2.len() ==> t2[i] == o2[i + 1]);
            }
            lemma_ser_members_unique(t1, t2, r1, r2);
        }
    }
}

/// Member lists decompose from the left.
proof fn lemma_ser_members_left(o: Seq<(String, JsonValue)>)
    requires
        o.len() > 0,
    ensures
        o.len() == 1 ==> ser_members(o) == ser_member(o[0]),
        o.len() > 1 ==> ser_members(o) == ser_member(o[0]) + seq![','] + ser_members(o.subrange(
            1, o.len() as int)),
    decreases o.len(),
{
    if o.len() > 1 {
        let t = o.subrange(1, o.len() as int);
        lemma_ser_members_left(t);
        let f = o.subrange(0, o.len() - 1);
        assert(ser_members(o) == ser_members(f) + seq![','] + ser_member(o[o.len() - 1]));
        if o.len() == 2 {
            assert(ser_members(f) == ser_member(o[0]));
            assert(ser_members(t) == ser_member(o[1]));
            assert(ser_members(o) =~= ser_member(o[0]) + seq![','] + ser_members(t));
        } else {
            lemma_ser_members_left(f);
            let ft = f.subrange(1, f.len() as int);
            assert(ft =~= t.subrange(0, t.len() - 1));
            assert(ser_members(t) == ser_members(ft) + seq![','] + ser_member(t[t.len() - 1]));
            assert(t[t.len() - 1] == o[o.len() - 1]);
            assert(ser_members(o) =~= ser_member(o[0]) + seq![','] + ser_members(t));
        }
    }
}

/// One rendering, one value: a parse that returns a value whose
/// rendering is the whole input can only have returned the value the
/// text was rendered from.
pub proof fn lemma_parse_is_unique(x: JsonValue, y: JsonValue)
    requires
        wf_json(x),
        wf_json(y),
        ser_json(x) == ser_json(y),
    ensures
        json_eq(x, y),
{
    assert(ser_json(x) + Seq::<char>::empty() =~= ser_json(x));
    assert(ser_json(y) + Seq::<char>::empty() =~= ser_json(y));
    lemma_ser_unambiguous(x, y, Seq::empty(), Seq::empty());
}

} // verus!

verus! {

/// Pairwise-equal member lists agree at every index.
pub proof fn lemma_members_eq_index(x: Seq<(String, JsonValue)>, y: Seq<(String, JsonValue)>, i: int)
    requires
        members_eq(x, y),
        0 <= i < x.len(),
    ensures
        x.len() == y.len(),
        x[i].0@ == y[i].0@,
        json_eq(x[i].1, y[i].1),
    decreases i,
{
    if i > 0 {
        let tx = x.subrange(1, x.len() as int);
        let ty = y.subrange(1, y.len() as int);
        lemma_members_eq_index(tx, ty, i - 1);
        assert(tx[i - 1] == x[i]);
        assert(ty[i - 1] == y[i]);
    }
}

} // verus!
