//! The `members` handler's own logic: finding a symbol in the document
//! tree, selecting a class's direct children, and cleaning the hover
//! text of each member into a plain signature.

use vstd::prelude::*;
use crate::lsp_types::{DocumentSymbol, SymbolKind};
use crate::navigation::spec_find_nl;
use crate::params::{MemberInfo, MembersResult};
use crate::strutil::{chars_to_string, clone_string, str_to_chars};

verus! {

broadcast use vstd::utf8::char_is_scalar;

/// Whether `pat` stands at position `i` of `s`.
pub open spec fn starts_with_at(s: Seq<char>, i: int, pat: Seq<char>) -> bool {
    0 <= i && i + pat.len() <= s.len() && s.subrange(i, i + pat.len()) == pat
}

/// The first position where `pat` occurs in `s`, at or after `from`.
pub open spec fn spec_find_sub(s: Seq<char>, pat: Seq<char>, from: int) -> Option<int>
    decreases s.len() - from,
{
    if from < 0 || from + pat.len() > s.len() {
        None
    } else if pat.len() == 0 {
        Some(from)
    } else if starts_with_at(s, from, pat) {
        Some(from)
    } else {
        spec_find_sub(s, pat, from + 1)
    }
}

/// Check whether `pat` stands at `i`.
pub fn check_at(s: &Vec<char>, i: usize, pat: &Vec<char>) -> (r: bool)
    requires
        i <= s@.len(),
    ensures
        r == starts_with_at(s@, i as int, pat@),
{
    let slen = s.len();
    if slen - i < pat.len() {
        return false;
    }
    let mut k: usize = 0;
    while k < pat.len()
        invariant
            k <= pat@.len(),
            slen == s@.len(),
            i + pat@.len() <= s@.len(),
            s@.subrange(i as int, i + k) == pat@.subrange(0, k as int),
        decreases pat@.len() - k,
    {
        if s[i + k] != pat[k] {
            proof {
                assert(s@.subrange(i as int, i + pat@.len())[k as int] == s@[i + k]);
            }
            return false;
        }
        k = k + 1;
        proof {
            assert(s@.subrange(i as int, i + k) =~= pat@.subrange(0, k as int));
        }
    }
    proof {
        assert(s@.subrange(i as int, i + pat@.len()) =~= pat@);
    }
    true
}

/// Find the first occurrence of `pat` in `s`.
pub fn find_sub(s: &Vec<char>, pat: &Vec<char>) -> (r: Option<usize>)
    ensures
        match r {
            Some(i) => spec_find_sub(s@, pat@, 0) == Some(i as int) && i + pat@.len()
                <= s@.len(),
            None => spec_find_sub(s@, pat@, 0) is None,
        },
{
    let mut i: usize = 0;
    if pat.len() > s.len() {
        return None;
    }
    if pat.len() == 0 {
        return Some(0);
    }
    let slen = s.len();
    let bound = slen - pat.len();
    while i <= bound
        invariant
            i <= bound + 1,
            slen == s@.len(),
            bound == s@.len() - pat@.len(),
            1 <= pat@.len() <= s@.len(),
            spec_find_sub(s@, pat@, 0) == spec_find_sub(s@, pat@, i as int),
        decreases bound + 1 - i,
    {
        if check_at(s, i, pat) {
            proof {
                assert(spec_find_sub(s@, pat@, i as int) == Some(i as int));
            }
            return Some(i);
        }
        proof {
            assert(spec_find_sub(s@, pat@, i as int) == spec_find_sub(s@, pat@, i + 1));
        }
        i = i + 1;
    }
    proof {
        assert(spec_find_sub(s@, pat@, i as int) is None);
    }
    None
}

/// The copy of `s[a..b]`.
pub fn sub_vec(s: &Vec<char>, a: usize, b: usize) -> (r: Vec<char>)
    requires
        a <= b <= s@.len(),
    ensures
        r@ == s@.subrange(a as int, b as int),
{
    let mut r: Vec<char> = Vec::new();
    let mut k = a;
    while k < b
        invariant
            a <= k <= b <= s@.len(),
            r@ == s@.subrange(a as int, k as int),
        decreases b - k,
    {
        r.push(s[k]);
        k = k + 1;
        proof {
            assert(r@ =~= s@.subrange(a as int, k as int));
        }
    }
    r
}

/// The text before the docstring: hover text is cut at the first
/// `\n---` separator.
pub open spec fn spec_strip_docstring(s: Seq<char>) -> Seq<char> {
    match spec_find_sub(s, seq!['\n', '-', '-', '-'], 0) {
        Some(i) => s.take(i),
        None => s,
    }
}

/// The body of a fenced code block: when the text starts with three
/// backticks, the first line and a trailing fence line fall away.
pub open spec fn spec_strip_fence(s: Seq<char>) -> Seq<char> {
    if starts_with_at(s, 0, seq!['`', '`', '`']) {
        let body = match spec_find_nl(s) {
            Some(i) => s.subrange(i + 1, s.len() as int),
            None => Seq::empty(),
        };
        let b2 = if body.len() >= 3 && body.subrange(body.len() - 3, body.len() as int) == seq![
            '`', '`', '`'] {
            body.take(body.len() - 3)
        } else {
            body
        };
        if b2.len() > 0 && b2.last() == '\n' {
            b2.drop_last()
        } else {
            b2
        }
    } else {
        s
    }
}

/// The signature without a leading `def `.
pub open spec fn spec_strip_def(s: Seq<char>) -> Seq<char> {
    if starts_with_at(s, 0, seq!['d', 'e', 'f', ' ']) {
        s.subrange(4, s.len() as int)
    } else {
        s
    }
}

/// The signature without a leading parenthesized modifier such as
/// `(property) `, re-stripping a `def ` behind it.
pub open spec fn spec_strip_modifier(s: Seq<char>) -> Seq<char> {
    if s.len() > 0 && s[0] == '(' {
        match spec_find_sub(s, seq![')', ' '], 0) {
            Some(k) => spec_strip_def(s.subrange(k + 2, s.len() as int)),
            None => s,
        }
    } else {
        s
    }
}

/// A hover text reduced to a clean one-line signature: docstring cut,
/// fence removed, `def ` and modifier prefixes dropped.
pub open spec fn spec_clean_signature(s: Seq<char>) -> Seq<char> {
    spec_strip_modifier(spec_strip_def(spec_strip_fence(spec_strip_docstring(s))))
}

/// Clean a member's hover text into its signature.
#[verifier::rlimit(100)]
pub fn clean_signature(raw: &str) -> (r: String)
    ensures
        r@ == spec_clean_signature(raw@),
{
    let chars = str_to_chars(raw);
    // Cut the docstring off.
    let marker = str_to_chars("\n---");
    proof {
        reveal_strlit("\n---");
        assert(marker@ =~= seq!['\n', '-', '-', '-']);
    }
    let s1: Vec<char> = match find_sub(&chars, &marker) {
        Some(i) => sub_vec(&chars, 0, i),
        None => sub_vec(&chars, 0, chars.len()),
    };
    proof {
        assert(chars@.subrange(0, chars@.len() as int) =~= chars@);
        assert(s1@ =~= spec_strip_docstring(raw@));
    }
    // Remove a surrounding code fence.
    let fence = str_to_chars("```");
    proof {
        reveal_strlit("```");
        assert(fence@ =~= seq!['`', '`', '`']);
    }
    let s2: Vec<char> = if check_at(&s1, 0, &fence) {
        let mut nl: usize = 0;
        let mut found = false;
        let mut j: usize = 0;
        while j < s1.len() && !found
            invariant
                j <= s1@.len(),
                !found ==> forall|k: int| 0 <= k < j ==> s1@[k] != '\n',
                found ==> j < s1@.len() && s1@[j as int] == '\n' && nl == j && forall|k: int|
                    0 <= k < j ==> s1@[k] != '\n',
            decreases s1@.len() - j + (if found { 0int } else { 1int }),
        {
            if s1[j] == '\n' {
                nl = j;
                found = true;
            } else {
                j = j + 1;
            }
        }
        let body: Vec<char> = if found {
            proof {
                crate::navigation::lemma_find_nl_at(s1@, nl as int);
            }
            sub_vec(&s1, nl + 1, s1.len())
        } else {
            proof {
                crate::navigation::lemma_find_nl_none(s1@);
            }
            Vec::new()
        };
        let b2: Vec<char> = if body.len() >= 3 && check_at(&body, body.len() - 3, &fence) {
            sub_vec(&body, 0, body.len() - 3)
        } else {
            proof {
                if body@.len() >= 3 {
                    assert(body@.subrange(body@.len() - 3, body@.len() as int) == fence@
                        ==> starts_with_at(body@, body@.len() - 3, fence@));
                }
            }
            sub_vec(&body, 0, body.len())
        };
        proof {
            assert(body@.subrange(0, body@.len() as int) =~= body@);
            assert(body@.take(body@.len() - 3) == body@.subrange(0, body@.len() - 3));
        }
        if b2.len() > 0 && b2[b2.len() - 1] == '\n' {
            let t = sub_vec(&b2, 0, b2.len() - 1);
            proof {
                assert(b2@.drop_last() =~= b2@.subrange(0, b2@.len() - 1));
            }
            t
        } else {
            b2
        }
    } else {
        s1
    };
    proof {
        assert(s2@ =~= spec_strip_fence(spec_strip_docstring(raw@)));
    }
    // Drop a leading `def `.
    let defkw = str_to_chars("def ");
    proof {
        reveal_strlit("def ");
        assert(defkw@ =~= seq!['d', 'e', 'f', ' ']);
    }
    let s3: Vec<char> = if check_at(&s2, 0, &defkw) {
        sub_vec(&s2, 4, s2.len())
    } else {
        sub_vec(&s2, 0, s2.len())
    };
    proof {
        assert(s2@.subrange(0, s2@.len() as int) =~= s2@);
        assert(s3@ =~= spec_strip_def(s2@));
    }
    // Drop a parenthesized modifier, re-stripping `def ` behind it.
    let closer = str_to_chars(") ");
    proof {
        reveal_strlit(") ");
        assert(closer@ =~= seq![')', ' ']);
    }
    let s4: Vec<char> = if s3.len() > 0 && s3[0] == '(' {
        match find_sub(&s3, &closer) {
            Some(k) => {
                let tail = sub_vec(&s3, k + 2, s3.len());
                if check_at(&tail, 0, &defkw) {
                    let t = sub_vec(&tail, 4, tail.len());
                    proof {
                        assert(t@ =~= spec_strip_def(tail@));
                    }
                    t
                } else {
                    proof {
                        assert(tail@ =~= spec_strip_def(tail@));
                    }
                    tail
                }
            },
            None => sub_vec(&s3, 0, s3.len()),
        }
    } else {
        sub_vec(&s3, 0, s3.len())
    };
    proof {
        assert(s3@.subrange(0, s3@.len() as int) =~= s3@);
        assert(s4@ =~= spec_clean_signature(raw@));
    }
    chars_to_string(&s4)
}

/// Whether some node of the forest, at any depth, bears the name.
pub open spec fn tree_has_name(list: Seq<DocumentSymbol>, name: Seq<char>) -> bool
    decreases list,
{
    if list.len() == 0 {
        false
    } else {
        node_has_name(list[0], name) || tree_has_name(list.subrange(1, list.len() as int), name)
    }
}

/// Whether this node or one of its descendants bears the name.
pub open spec fn node_has_name(d: DocumentSymbol, name: Seq<char>) -> bool
    decreases d,
{
    d.name@ == name || (match d.children {
        Some(cs) => tree_has_name(cs@, name),
        None => false,
    })
}

/// A named node at any position makes the forest contain the name.
proof fn lemma_tree_has_intro(list: Seq<DocumentSymbol>, name: Seq<char>, k: int)
    requires
        0 <= k < list.len(),
        node_has_name(list[k], name),
    ensures
        tree_has_name(list, name),
    decreases k,
{
    if k > 0 {
        let t = list.subrange(1, list.len() as int);
        assert(t[k - 1] == list[k]);
        lemma_tree_has_intro(t, name, k - 1);
    }
}

/// A forest whose every root subtree lacks the name does not contain it.
proof fn lemma_tree_has_elim(list: Seq<DocumentSymbol>, name: Seq<char>)
    requires
        forall|k: int| 0 <= k < list.len() ==> !#[trigger] node_has_name(list[k], name),
    ensures
        !tree_has_name(list, name),
    decreases list.len(),
{
    if list.len() > 0 {
        let t = list.subrange(1, list.len() as int);
        assert forall|k: int| 0 <= k < t.len() implies !#[trigger] node_has_name(
            t[k], name) by {
            assert(t[k] == list[k + 1]);
        }
        lemma_tree_has_elim(t, name);
        assert(!node_has_name(list[0], name));
    }
}

/// Depth-first search for a symbol with the given name.
pub fn find_symbol_in_list<'a>(list: &'a Vec<DocumentSymbol>, name: &str) -> (r: Option<
    &'a DocumentSymbol,
>)
    ensures
        match r {
            Some(d) => d.name@ == name@ && tree_has_name(list@, name@),
            None => !tree_has_name(list@, name@),
        },
{
    let mut i: usize = 0;
    while i < list.len()
        invariant
            i <= list@.len(),
            forall|k: int| 0 <= k < i ==> !#[trigger] node_has_name(list@[k], name@),
        decreases list@.len() - i,
    {
        proof {
            assert(decreases_to!(list@ => list@[i as int]));
        }
        match find_symbol_in_node(&list[i], name) {
            Some(d) => {
                proof {
                    lemma_tree_has_intro(list@, name@, i as int);
                }
                return Some(d);
            },
            None => {},
        }
        i = i + 1;
    }
    proof {
        lemma_tree_has_elim(list@, name@);
    }
    None
}

/// Depth-first search below one node.
fn find_symbol_in_node<'a>(d: &'a DocumentSymbol, name: &str) -> (r: Option<&'a DocumentSymbol>)
    ensures
        match r {
            Some(f) => f.name@ == name@ && node_has_name(*d, name@),
            None => !node_has_name(*d, name@),
        },
    decreases *d,
{
    if crate::strutil::string_eq_str(&d.name, name) {
        return Some(d);
    }
    match &d.children {
        Some(cs) => {
            let mut i: usize = 0;
            proof {
                assert forall|k: int| 0 <= k < cs@.len() implies (decreases_to!(
                    *d => cs@[k])) by {
                    assert(decreases_to!(*d => d.children));
                    assert(decreases_to!(d.children => cs@));
                    assert(decreases_to!(cs@ => cs@[k]));
                }
            }
            while i < cs.len()
                invariant
                    i <= cs@.len(),
                    d.name@ != name@,
                    d.children == Some(*cs),
                    forall|k: int| 0 <= k < cs@.len() ==> (decreases_to!(
                        *d => #[trigger] cs@[k])),
                    forall|k: int| 0 <= k < i ==> !#[trigger] node_has_name(cs@[k], name@),
                decreases cs@.len() - i,
            {
                proof {
                    assert(decreases_to!(*d => cs@[i as int]));
                }
                match find_symbol_in_node(&cs[i], name) {
                    Some(f) => {
                        proof {
                            lemma_tree_has_intro(cs@, name@, i as int);
                            assert(node_has_name(*d, name@));
                        }
                        return Some(f);
                    },
                    None => {},
                }
                i = i + 1;
            }
            proof {
                lemma_tree_has_elim(cs@, name@);
                assert(!node_has_name(*d, name@));
            }
            None
        },
        None => None,
    }
}

/// Whether a member name is kept: dunder and private names fall away
/// unless everything was asked for.
pub open spec fn member_kept(name: Seq<char>, include_all: bool) -> bool {
    include_all || name.len() == 0 || name[0] != '_'
}

/// The members selected from a class's direct children, in order, before
/// their signatures are filled in: name, kind, and the position of the
/// identifier (the start of the selection range).
pub open spec fn spec_member_skeletons(cs: Seq<DocumentSymbol>, include_all: bool) -> Seq<
    (Seq<char>, SymbolKind, u32, u32),
>
    decreases cs.len(),
{
    if cs.len() == 0 {
        Seq::empty()
    } else {
        let front = spec_member_skeletons(cs.subrange(0, cs.len() - 1), include_all);
        let d = cs[cs.len() - 1];
        if member_kept(d.name@, include_all) {
            front.push((d.name@, d.kind, d.selection_range.start.line,
                d.selection_range.start.character))
        } else {
            front
        }
    }
}

/// The model of a member list, for comparing against the selection.
pub open spec fn member_infos_model(ms: Seq<MemberInfo>) -> Seq<(Seq<char>, SymbolKind, u32, u32)> {
    Seq::new(ms.len(), |i: int| (ms[i].name@, ms[i].kind, ms[i].line, ms[i].column))
}

/// Select a class's members from its direct children: skip names that
/// start with an underscore unless everything was asked for; each member
/// carries its name, kind and identifier position, with no signature
/// yet (hover fills those in afterwards).
pub fn member_skeletons(cs: &Vec<DocumentSymbol>, include_all: bool) -> (r: Vec<MemberInfo>)
    ensures
        member_infos_model(r@) == spec_member_skeletons(cs@, include_all),
        forall|i: int| 0 <= i < r@.len() ==> (#[trigger] r@[i].signature) is None,
{
    let mut out: Vec<MemberInfo> = Vec::new();
    let mut i: usize = 0;
    while i < cs.len()
        invariant
            i <= cs@.len(),
            member_infos_model(out@) == spec_member_skeletons(cs@.subrange(0, i as int),
                include_all),
            forall|k: int| 0 <= k < out@.len() ==> (#[trigger] out@[k].signature) is None,
        decreases cs@.len() - i,
    {
        let d = &cs[i];
        let name_chars = str_to_chars(d.name.as_str());
        let keep = if include_all {
            true
        } else if name_chars.len() == 0 {
            true
        } else {
            name_chars[0] != '_'
        };
        proof {
            let p = cs@.subrange(0, i as int);
            let q = cs@.subrange(0, i + 1);
            assert(q.subrange(0, q.len() - 1) =~= p);
            assert(q[q.len() - 1] == cs@[i as int]);
        }
        if keep {
            out.push(MemberInfo {
                name: clone_string(&d.name),
                kind: d.kind,
                signature: None,
                line: d.selection_range.start.line,
                column: d.selection_range.start.character,
            });
            proof {
                assert(member_infos_model(out@) =~= spec_member_skeletons(cs@.subrange(
                    0, i + 1), include_all));
            }
        } else {
            proof {
                assert(member_infos_model(out@) =~= spec_member_skeletons(cs@.subrange(
                    0, i + 1), include_all));
            }
        }
        i = i + 1;
    }
    proof {
        assert(cs@.subrange(0, cs@.len() as int) =~= cs@);
    }
    out
}

/// Assemble the `members` result from what the search found.
///
/// A symbol that was not found yields no kind and no members; one that
/// is not a class yields its kind and no members; a class carries the
/// members handed in.
pub fn members_result_from(
    class_name: &str,
    file_uri: &str,
    found: Option<(SymbolKind, u32, u32)>,
    members: Vec<MemberInfo>,
) -> (r: MembersResult)
    ensures
        r.class_name@ == class_name@,
        r.file_uri@ == file_uri@,
        match found {
            None => r.symbol_kind is None && r.members@.len() == 0 && r.class_line == 0
                && r.class_column == 0,
            Some((k, l, c)) => {
                &&& r.symbol_kind == Some(k)
                &&& r.class_line == l
                &&& r.class_column == c
                &&& (k != SymbolKind::Class ==> r.members@.len() == 0)
                &&& (k == SymbolKind::Class ==> r.members@ == members@)
            },
        },
{
    let mut name = String::new();
    crate::strutil::append_str(&mut name, class_name);
    let mut uri = String::new();
    crate::strutil::append_str(&mut uri, file_uri);
    proof {
        assert(name@ =~= class_name@);
        assert(uri@ =~= file_uri@);
    }
    match found {
        None => MembersResult {
            class_name: name,
            file_uri: uri,
            class_line: 0,
            class_column: 0,
            symbol_kind: None,
            members: Vec::new(),
        },
        Some((k, l, c)) => {
            let is_class = match k {
                SymbolKind::Class => true,
                _ => false,
            };
            MembersResult {
                class_name: name,
                file_uri: uri,
                class_line: l,
                class_column: c,
                symbol_kind: Some(k),
                members: if is_class {
                    members
                } else {
                    Vec::new()
                },
            }
        },
    }
}

} // verus!
