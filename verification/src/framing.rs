//! `Content-Length` framing, the envelope both the LSP child process and
//! the daemon socket speak: a header naming the body's byte length, a
//! blank line, then exactly that many bytes of JSON.

use vstd::prelude::*;
use crate::numbers::{
    dec_str, digits_val, is_canonical_dec, lemma_canonical_dec_str, lemma_dec_str_digits,
    parse_u64_digits, u64_to_string,
};
use crate::strutil::{append_str, str_to_chars};

verus! {

broadcast use vstd::utf8::char_is_scalar;

/// The header that announces a body of `n` bytes.
pub open spec fn content_length_header(n: nat) -> Seq<char> {
    "Content-Length: "@ + dec_str(n) + "\r\n\r\n"@
}

/// The byte length of a body's UTF-8 encoding, as the machine reports it.
pub open spec fn body_byte_len(body: Seq<char>) -> nat {
    (vstd::utf8::encode_utf8(body).len() as usize) as nat
}

/// The whole frame for a body: header, blank line, body.
pub open spec fn frame_text(body: Seq<char>) -> Seq<char> {
    content_length_header(body_byte_len(body)) + body
}

/// Render the frame for one message body.
///
/// The announced length is the byte length of the body's UTF-8 encoding,
/// so the peer that counts bytes reads exactly the body.
pub fn render_frame(body: &str) -> (r: String)
    ensures
        r@ == frame_text(body@),
{
    let n: usize = body.len();
    let digits = u64_to_string(n as u64);
    let mut out = String::new();
    append_str(&mut out, "Content-Length: ");
    append_str(&mut out, digits.as_str());
    append_str(&mut out, "\r\n\r\n");
    append_str(&mut out, body);
    proof {
        assert(out@ =~= frame_text(body@));
    }
    out
}

/// Parse one `Content-Length` header line (without its line terminator).
///
/// Returns `Some(n)` exactly when the line is the canonical header for
/// `n`: the prefix `Content-Length: ` followed by the decimal digits of
/// `n`, no more and no less.
pub fn parse_content_length(line: &str) -> (r: Option<u64>)
    ensures
        match r {
            Some(n) => line@ == "Content-Length: "@ + dec_str(n as nat),
            None => forall|n: u64| line@ != "Content-Length: "@ + dec_str(n as nat),
        },
{
    proof {
        reveal_strlit("Content-Length: ");
    }
    let chars = str_to_chars(line);
    let n = chars.len();
    if n < 17 {
        proof {
            assert forall|m: u64| line@ != "Content-Length: "@ + dec_str(m as nat) by {
                lemma_dec_str_digits(m as nat);
            }
        }
        return None;
    }
    let prefix = str_to_chars("Content-Length: ");
    let mut i: usize = 0;
    while i < 16
        invariant
            i <= 16,
            n == chars@.len(),
            n >= 17,
            chars@ == line@,
            prefix@ == "Content-Length: "@,
            prefix@.len() == 16,
            chars@.subrange(0, i as int) == prefix@.subrange(0, i as int),
        decreases 16 - i,
    {
        if chars[i] != prefix[i] {
            proof {
                assert forall|m: u64| line@ != "Content-Length: "@ + dec_str(m as nat) by {
                    let h = "Content-Length: "@ + dec_str(m as nat);
                    if line@ == h {
                        assert(h[i as int] == "Content-Length: "@[i as int]);
                    }
                }
            }
            return None;
        }
        i = i + 1;
        proof {
            assert(chars@.subrange(0, i as int) =~= prefix@.subrange(0, i as int));
        }
    }
    proof {
        assert(chars@.subrange(0, 16) =~= prefix@);
    }
    let digits_ok = {
        let c = chars[16];
        let code = crate::strutil::char_code(c);
        if chars.len() > 17 {
            !(code == 48)
        } else {
            true
        }
    };
    let value = parse_u64_digits(&chars, 16, n);
    let ghost digs = chars@.subrange(16, n as int);
    match value {
        Some(v) => {
            if !digits_ok {
                proof {
                    assert(digs[0] == line@[16]);
                    assert(digs.len() > 1);
                    assert(digs[0] as int == 48);
                    assert forall|m: u64| line@ != "Content-Length: "@ + dec_str(m as nat) by {
                        let h = "Content-Length: "@ + dec_str(m as nat);
                        lemma_dec_str_digits(m as nat);
                        if line@ == h {
                            assert(digs =~= dec_str(m as nat));
                            assert(dec_str(m as nat)[0] != '0');
                            assert(digs[0] == '0') by {
                                assert('0' as int == 48);
                            }
                        }
                    }
                }
                return None;
            }
            proof {
                assert(is_canonical_dec(digs)) by {
                    if digs.len() > 1 {
                        assert(digs[0] as int != 48);
                        assert('0' as int == 48);
                    }
                }
                lemma_canonical_dec_str(digs);
                assert(dec_str(v as nat) == digs);
                assert(line@ =~= "Content-Length: "@ + dec_str(v as nat));
            }
            Some(v)
        },
        None => {
            proof {
                assert forall|m: u64| line@ != "Content-Length: "@ + dec_str(m as nat) by {
                    let h = "Content-Length: "@ + dec_str(m as nat);
                    lemma_dec_str_digits(m as nat);
                    if line@ == h {
                        assert(digs =~= dec_str(m as nat));
                        assert(digits_val(digs) == m);
                    }
                }
            }
            None
        },
    }
}

} // verus!
