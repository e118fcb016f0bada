//! Identifier search inside one Python source file: split the text into
//! lines and find the whole-word occurrences of a symbol, as zero-based
//! line and column pairs.

use vstd::prelude::*;
use crate::strutil::{chars_to_string, str_to_chars};

verus! {

broadcast use vstd::utf8::char_is_scalar;

/// Relies on `char::is_alphanumeric`: whether a character is in the
/// Unicode categories letter or number. The result depends on the
/// character alone.
pub uninterp spec fn is_alnum(c: char) -> bool;

/// Relies on `char::is_alphanumeric`, whose result depends on the
/// character alone; ASCII letters and digits are alphanumeric and ASCII
/// punctuation is not, as its documentation states.
#[verifier::external_body]
fn alnum_char(c: char) -> (r: bool)
    ensures
        r == is_alnum(c),
        97 <= c as int <= 122 || 65 <= c as int <= 90 || 48 <= c as int <= 57 ==> r,
        c as int == 95 || c as int == 46 || c as int == 40 || c as int == 58 || c as int == 32
            ==> !r,
{
    c.is_alphanumeric()
}

/// Whether a character continues an identifier word.
pub open spec fn spec_word_char(c: char) -> bool {
    is_alnum(c) || c == '_'
}

/// A line without a trailing carriage return.
pub open spec fn strip_cr(l: Seq<char>) -> Seq<char> {
    if l.len() > 0 && l.last() == '\r' {
        l.drop_last()
    } else {
        l
    }
}

/// The position of the first newline in `s`, if any.
pub open spec fn spec_find_nl(s: Seq<char>) -> Option<int>
    decreases s.len(),
{
    if s.len() == 0 {
        None
    } else if s[0] == '\n' {
        Some(0)
    } else {
        match spec_find_nl(s.subrange(1, s.len() as int)) {
            Some(i) => Some(i + 1),
            None => None,
        }
    }
}

/// The lines of a text: split at newlines, dropping a carriage return
/// before each newline; the final fragment is a line only if nonempty.
pub open spec fn spec_lines(s: Seq<char>) -> Seq<Seq<char>>
    decreases s.len(),
{
    if s.len() == 0 {
        Seq::empty()
    } else {
        match spec_find_nl(s) {
            None => seq![s],
            Some(i) => if 0 <= i < s.len() {
                seq![strip_cr(s.subrange(0, i))] + spec_lines(s.subrange(i + 1, s.len() as int))
            } else {
                Seq::empty()
            },
        }
    }
}

/// Whether `sym` occurs at position `pos` of `line` as a whole word:
/// the text matches and neither neighbour is an identifier character.
pub open spec fn spec_word_occurrence(line: Seq<char>, pos: int, sym: Seq<char>) -> bool {
    &&& sym.len() > 0
    &&& 0 <= pos
    &&& pos + sym.len() <= line.len()
    &&& line.subrange(pos, pos + sym.len()) == sym
    &&& (pos == 0 || !spec_word_char(line[pos - 1]))
    &&& (pos + sym.len() == line.len() || !spec_word_char(line[pos + sym.len()]))
}

/// Finds symbol occurrences in one file's text.
pub struct SymbolFinder {
    lines: Vec<String>,
}

impl SymbolFinder {
    /// The lines of the file.
    pub closed spec fn lines_model(self) -> Seq<Seq<char>> {
        Seq::new(self.lines@.len(), |i: int| self.lines@[i]@)
    }

    /// Build a finder over a file's text.
    pub fn new(content: &str) -> (r: SymbolFinder)
        ensures
            r.lines_model() == spec_lines(content@),
    {
        let chars = str_to_chars(content);
        let n = chars.len();
        let mut lines: Vec<String> = Vec::new();
        let mut start: usize = 0;
        let mut i: usize = 0;
        proof {
            assert(chars@.subrange(0, n as int) =~= chars@);
            assert(Seq::new(0, |x: int| lines@[x]@) + spec_lines(chars@) =~= spec_lines(chars@));
        }
        while i < n
            invariant
                start <= i <= n,
                n == chars@.len(),
                forall|k: int| start <= k < i ==> chars@[k] != '\n',
                Seq::new(lines@.len(), |x: int| lines@[x]@) + spec_lines(
                    chars@.subrange(start as int, n as int)) =~= spec_lines(chars@),
            decreases n - i,
        {
            if chars[i] == '\n' {
                let mut end = i;
                if end > start && chars[end - 1] == '\r' {
                    end = end - 1;
                }
                let mut piece: Vec<char> = Vec::new();
                let mut k: usize = start;
                while k < end
                    invariant
                        start <= k <= end <= n,
                        n == chars@.len(),
                        piece@ == chars@.subrange(start as int, k as int),
                    decreases end - k,
                {
                    piece.push(chars[k]);
                    k = k + 1;
                    proof {
                        assert(piece@ =~= chars@.subrange(start as int, k as int));
                    }
                }
                proof {
                    let rest = chars@.subrange(start as int, n as int);
                    lemma_find_nl_at(rest, i - start);
                    assert(rest.subrange(0, (i - start) as int) =~= chars@.subrange(
                        start as int, i as int));
                    assert(strip_cr(chars@.subrange(start as int, i as int)) =~= chars@.subrange(
                        start as int, end as int));
                    assert(rest.subrange((i - start) + 1, rest.len() as int) =~= chars@.subrange(
                        i + 1, n as int));
                    assert(piece@ =~= chars@.subrange(start as int, end as int));
                }
                let line = chars_to_string(&piece);
                lines.push(line);
                i = i + 1;
                start = i;
                proof {
                    assert(Seq::new(lines@.len(), |x: int| lines@[x]@) + spec_lines(
                        chars@.subrange(start as int, n as int)) =~= spec_lines(chars@));
                }
            } else {
                i = i + 1;
            }
        }
        if start < n {
            let mut piece: Vec<char> = Vec::new();
            let mut k: usize = start;
            while k < n
                invariant
                    start <= k <= n,
                    n == chars@.len(),
                    piece@ == chars@.subrange(start as int, k as int),
                decreases n - k,
            {
                piece.push(chars[k]);
                k = k + 1;
                proof {
                    assert(piece@ =~= chars@.subrange(start as int, k as int));
                }
            }
            proof {
                let rest = chars@.subrange(start as int, n as int);
                lemma_find_nl_none(rest);
                assert(piece@ =~= rest);
            }
            let line = chars_to_string(&piece);
            lines.push(line);
        }
        let r = SymbolFinder { lines };
        proof {
            if start < n {
                assert(r.lines_model() =~= spec_lines(chars@));
            } else {
                assert(spec_lines(chars@.subrange(start as int, n as int)) =~= Seq::<
                    Seq<char>>::empty());
                assert(r.lines_model() =~= spec_lines(chars@));
            }
        }
        r
    }

    /// The line with the given zero-based number, if the file has one.
    pub fn get_line(&self, line_number: u32) -> (r: Option<&String>)
        ensures
            match r {
                Some(l) => line_number < self.lines_model().len() && l@ == self.lines_model()[
                    line_number as int],
                None => line_number >= self.lines_model().len(),
            },
    {
        if (line_number as usize) < self.lines.len() {
            Some(&self.lines[line_number as usize])
        } else {
            None
        }
    }

    /// How many lines the file has.
    pub fn line_count(&self) -> (r: usize)
        ensures
            r == self.lines_model().len(),
    {
        self.lines.len()
    }

    /// Whether `sym` stands at `pos` of line `li` as a whole word.
    fn occurrence_at(&self, line: &Vec<char>, pos: usize, sym: &Vec<char>) -> (r: bool)
        requires
            pos < line@.len(),
            sym@.len() > 0,
        ensures
            r == spec_word_occurrence(line@, pos as int, sym@),
    {
        if line.len() - pos < sym.len() {
            proof {
                assert(pos + sym@.len() > line@.len());
            }
            return false;
        }
        let mut k: usize = 0;
        let line_len = line.len();
        while k < sym.len()
            invariant
                k <= sym@.len(),
                pos + sym@.len() <= line@.len(),
                line@.len() == line_len,
                line@.subrange(pos as int, pos + k) == sym@.subrange(0, k as int),
            decreases sym@.len() - k,
        {
            if line[pos + k] != sym[k] {
                proof {
                    assert(line@.subrange(pos as int, pos + sym@.len())[k as int] == line@[pos + k]);
                    assert(sym@[k as int] != line@[pos + k]);
                }
                return false;
            }
            k = k + 1;
            proof {
                assert(line@.subrange(pos as int, pos + k) =~= sym@.subrange(0, k as int));
            }
        }
        proof {
            assert(line@.subrange(pos as int, pos + sym@.len()) =~= sym@);
        }
        if pos > 0 {
            let prev = line[pos - 1];
            if alnum_char(prev) || prev == '_' {
                return false;
            }
        }
        let end = pos + sym.len();
        if end < line.len() {
            let next = line[end];
            if alnum_char(next) || next == '_' {
                return false;
            }
        }
        true
    }

    /// Every whole-word occurrence of `symbol`, as zero-based
    /// `(line, column)` pairs, in line order and column order within a
    /// line. Occurrences beyond the 32-bit coordinate space would not be
    /// addressable over the protocol and are not reported.
    pub fn find_symbol_positions(&self, symbol: &str) -> (r: Vec<(u32, u32)>)
        ensures
            forall|x: int|
                0 <= x < r@.len() ==> spec_word_occurrence(
                    self.lines_model()[#[trigger] r@[x].0 as int], r@[x].1 as int, symbol@)
                    && r@[x].0 < self.lines_model().len(),
            forall|li: int, pos: int|
                0 <= li < self.lines_model().len() && li <= 0xffff_ffff && 0 <= pos
                    <= 0xffff_ffff && #[trigger] spec_word_occurrence(
                    self.lines_model()[li], pos, symbol@) ==> position_reported(
                    r@, li, pos),
            forall|x: int, y: int|
                0 <= x < y < r@.len() ==> (r@[x].0 < r@[y].0 || (r@[x].0 == r@[y].0 && r@[x].1
                    < r@[y].1)),
    {
        let sym = str_to_chars(symbol);
        let mut out: Vec<(u32, u32)> = Vec::new();
        if sym.len() == 0 {
            proof {
                assert(forall|li: int, pos: int|
                    !#[trigger] spec_word_occurrence(self.lines_model()[li], pos, symbol@));
            }
            return out;
        }
        let mut li: usize = 0;
        while li < self.lines.len()
            invariant
                li <= self.lines@.len(),
                sym@ == symbol@,
                sym@.len() > 0,
                forall|x: int|
                    0 <= x < out@.len() ==> spec_word_occurrence(
                        self.lines_model()[#[trigger] out@[x].0 as int], out@[x].1 as int,
                        symbol@) && out@[x].0 < self.lines_model().len() && out@[x].0 < li,
                forall|l2: int, pos: int|
                    0 <= l2 < li && l2 <= 0xffff_ffff && 0 <= pos <= 0xffff_ffff
                        && #[trigger] spec_word_occurrence(self.lines_model()[l2], pos, symbol@)
                        ==> position_reported(out@, l2, pos),
                forall|x: int, y: int|
                    0 <= x < y < out@.len() ==> (out@[x].0 < out@[y].0 || (out@[x].0 == out@[y].0
                        && out@[x].1 < out@[y].1)),
            decreases self.lines@.len() - li,
        {
            if li <= 0xffff_ffffusize {
                let line = str_to_chars(self.lines[li].as_str());
                let scan_end: usize = if line.len() > 0xffff_ffffusize {
                    0xffff_ffffusize + 1
                } else {
                    line.len()
                };
                let mut pos: usize = 0;
                while pos < scan_end
                    invariant
                        li < self.lines@.len(),
                        li <= 0xffff_ffff,
                        line@ == self.lines_model()[li as int],
                        pos <= scan_end <= line@.len(),
                        scan_end <= 0x1_0000_0000,
                        line@.len() > 0xffff_ffff ==> scan_end == 0xffff_ffff + 1,
                        line@.len() <= 0xffff_ffff ==> scan_end == line@.len(),
                        sym@ == symbol@,
                        sym@.len() > 0,
                        forall|x: int|
                            0 <= x < out@.len() ==> spec_word_occurrence(
                                self.lines_model()[#[trigger] out@[x].0 as int], out@[x].1 as int,
                                symbol@) && out@[x].0 < self.lines_model().len() && (out@[x].0 < li
                                || (out@[x].0 == li && out@[x].1 < pos)),
                        forall|l2: int, p2: int|
                            0 <= l2 < li && l2 <= 0xffff_ffff && 0 <= p2 <= 0xffff_ffff
                                && #[trigger] spec_word_occurrence(self.lines_model()[l2], p2,
                                symbol@) ==> position_reported(out@, l2, p2),
                        forall|p2: int|
                            0 <= p2 < pos && #[trigger] spec_word_occurrence(
                                self.lines_model()[li as int], p2, symbol@) ==> position_reported(
                                out@, li as int, p2),
                        forall|x: int, y: int|
                            0 <= x < y < out@.len() ==> (out@[x].0 < out@[y].0 || (out@[x].0
                                == out@[y].0 && out@[x].1 < out@[y].1)),
                    decreases scan_end - pos,
                {
                    if self.occurrence_at(&line, pos, &sym) {
                        let ghost out_before = out@;
                        out.push((li as u32, pos as u32));
                        proof {
                            assert(out@[out@.len() - 1] == (li as u32, pos as u32));
                            assert forall|l2: int, p2: int|
                                0 <= l2 < li && l2 <= 0xffff_ffff && 0 <= p2 <= 0xffff_ffff
                                    && #[trigger] spec_word_occurrence(self.lines_model()[l2], p2,
                                    symbol@) implies position_reported(out@, l2, p2) by {
                                assert(position_reported(out_before, l2, p2));
                                let w = choose|w: int|
                                    0 <= w < out_before.len() && out_before[w].0 == l2
                                        && out_before[w].1 == p2;
                                assert(out@[w] == out_before[w]);
                            }
                            assert forall|p2: int|
                                0 <= p2 < pos + 1 && #[trigger] spec_word_occurrence(
                                    self.lines_model()[li as int], p2, symbol@) implies
                                position_reported(out@, li as int, p2) by {
                                if p2 == pos {
                                    assert(out@[out@.len() - 1].0 == li && out@[out@.len() - 1].1
                                        == p2);
                                } else {
                                    assert(position_reported(out_before, li as int, p2));
                                    let w = choose|w: int|
                                        0 <= w < out_before.len() && out_before[w].0 == li as int
                                            && out_before[w].1 == p2;
                                    assert(out@[w] == out_before[w]);
                                }
                            }
                        }
                    }
                    pos = pos + 1;
                }
                proof {
                    assert forall|p2: int|
                        0 <= p2 <= 0xffff_ffff && #[trigger] spec_word_occurrence(
                            self.lines_model()[li as int], p2, symbol@) implies position_reported(
                        out@, li as int, p2) by {
                        if p2 >= scan_end {
                            assert(line@.len() <= 0xffff_ffff);
                            assert(p2 + symbol@.len() > line@.len());
                        }
                    }
                }
            }
            li = li + 1;
        }
        proof {
            assert forall|l2: int, p2: int|
                0 <= l2 < self.lines_model().len() && l2 <= 0xffff_ffff && 0 <= p2 <= 0xffff_ffff
                    && #[trigger] spec_word_occurrence(self.lines_model()[l2], p2, symbol@)
                implies position_reported(out@, l2, p2) by {
            }
        }
        out
    }
}

/// Whether the pair `(li, pos)` stands in the result.
pub open spec fn position_reported(r: Seq<(u32, u32)>, li: int, pos: int) -> bool {
    exists|w: int| 0 <= w < r.len() && r[w].0 == li && r[w].1 == pos
}

/// A text whose fragment starting anywhere has its first newline where
/// the scan found it.
pub proof fn lemma_find_nl_at(s: Seq<char>, i: int)
    requires
        0 <= i < s.len(),
        s[i] == '\n',
        forall|k: int| 0 <= k < i ==> s[k] != '\n',
    ensures
        spec_find_nl(s) == Some(i),
    decreases i,
{
    if i == 0 {
    } else {
        let t = s.subrange(1, s.len() as int);
        assert(t[i - 1] == '\n');
        assert forall|k: int| 0 <= k < i - 1 implies t[k] != '\n' by {
            assert(t[k] == s[k + 1]);
        }
        lemma_find_nl_at(t, i - 1);
    }
}

/// A fragment without newlines has none to find.
pub proof fn lemma_find_nl_none(s: Seq<char>)
    requires
        forall|k: int| 0 <= k < s.len() ==> s[k] != '\n',
    ensures
        spec_find_nl(s) is None,
    decreases s.len(),
{
    if s.len() > 0 {
        let t = s.subrange(1, s.len() as int);
        assert forall|k: int| 0 <= k < t.len() implies t[k] != '\n' by {
            assert(t[k] == s[k + 1]);
        }
        lemma_find_nl_none(t);
    }
}

} // verus!
