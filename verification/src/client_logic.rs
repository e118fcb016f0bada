//! The short-lived client's decisions: where the daemon's socket lives,
//! when to start a daemon and how long to wait for it, how query strings
//! are classified, and how labelled reference results are merged.

use vstd::prelude::*;
use vstd::string::StringExecFns;
use crate::numbers::{dec_str, u64_to_string};
use crate::positions::{parse_file_position, spec_parse_file_position, to_zero_based};
use crate::strutil::{append_str, clone_string, str_eq, string_eq_str};

verus! {

broadcast use vstd::utf8::char_is_scalar;

/// The socket path for one numeric user id.
pub open spec fn spec_socket_path(uid: nat) -> Seq<char> {
    "/tmp/ty-find-"@ + dec_str(uid) + ".sock"@
}

/// Build the socket path for a user id: each user gets an isolated
/// daemon under the shared temp directory.
pub fn socket_path_for_uid(uid: u32) -> (r: String)
    ensures
        r@ == spec_socket_path(uid as nat),
{
    let mut out = String::new();
    append_str(&mut out, "/tmp/ty-find-");
    let digits = u64_to_string(uid as u64);
    append_str(&mut out, digits.as_str());
    append_str(&mut out, ".sock");
    proof {
        assert(out@ =~= spec_socket_path(uid as nat));
    }
    out
}

/// How many connection attempts the start-up budget allows.
pub open spec fn max_startup_retries() -> int {
    20
}

/// The pause before each attempt, in milliseconds.
pub open spec fn startup_retry_delay_ms() -> int {
    100
}

/// Decide the start-up poll: given which connection attempts would
/// succeed, the first success within the budget wins; with none, the
/// start-up times out.
///
/// Twenty polls of one hundred milliseconds bound the wait by the two
/// second start-up budget.
pub fn startup_poll_outcome(connect_ok: &Vec<bool>) -> (r: Option<usize>)
    requires
        connect_ok@.len() >= max_startup_retries(),
    ensures
        match r {
            Some(i) => {
                &&& 0 <= i < max_startup_retries()
                &&& connect_ok@[i as int]
                &&& forall|j: int| 0 <= j < i ==> !connect_ok@[j]
                &&& (i + 1) * startup_retry_delay_ms() <= 2000
            },
            None => forall|j: int| 0 <= j < max_startup_retries() ==> !connect_ok@[j],
        },
{
    let mut i: usize = 0;
    while i < 20
        invariant
            i <= 20,
            connect_ok@.len() >= 20,
            forall|j: int| 0 <= j < i ==> !connect_ok@[j],
        decreases 20 - i,
    {
        if connect_ok[i] {
            return Some(i);
        }
        i = i + 1;
    }
    None
}

/// What a `daemon start` invocation does.
#[derive(Clone, Copy, PartialEq, Eq, Structural, Debug)]
pub enum DaemonStartAction {
    /// Run the server loop in this process.
    RunServer,
    /// Do nothing: a live daemon already answers on the socket.
    AlreadyRunning,
    /// Spawn one child that will run the server in the foreground.
    SpawnChild,
}

/// Decide what `daemon start` does: the foreground variant runs the
/// server itself; otherwise a connectable daemon means nothing to do,
/// and only a missing or dead socket leads to one spawned child.
///
/// The child is started in the foreground, and a foreground start never
/// spawns, so one `daemon start` leaves at most one new process: the
/// invocation and its single child.
pub fn daemon_start_action(foreground: bool, socket_exists: bool, connect_ok: bool) -> (r:
    DaemonStartAction)
    ensures
        foreground ==> r == DaemonStartAction::RunServer,
        (!foreground && socket_exists && connect_ok) ==> r == DaemonStartAction::AlreadyRunning,
        (!foreground && !(socket_exists && connect_ok)) ==> r == DaemonStartAction::SpawnChild,
{
    if foreground {
        DaemonStartAction::RunServer
    } else if socket_exists && connect_ok {
        DaemonStartAction::AlreadyRunning
    } else {
        DaemonStartAction::SpawnChild
    }
}

/// A started child never spawns again: the child always runs the
/// foreground variant, and a foreground start runs the server instead of
/// spawning, whatever the socket looks like. One `daemon start` can
/// therefore create at most one new process under this binary's name.
pub proof fn lemma_foreground_never_spawns(socket_exists: bool, connect_ok: bool)
    ensures
        daemon_start_action_spec(true, socket_exists, connect_ok)
            == DaemonStartAction::RunServer,
        daemon_start_action_spec(true, socket_exists, connect_ok)
            != DaemonStartAction::SpawnChild,
{
}

/// The decision `daemon_start_action` makes, as a function.
pub open spec fn daemon_start_action_spec(
    foreground: bool,
    socket_exists: bool,
    connect_ok: bool,
) -> DaemonStartAction {
    if foreground {
        DaemonStartAction::RunServer
    } else if socket_exists && connect_ok {
        DaemonStartAction::AlreadyRunning
    } else {
        DaemonStartAction::SpawnChild
    }
}

/// A query as the reference and inspect commands classify it.
pub enum ClassifiedQuery {
    /// A `file:line:col` position, already zero-based.
    Position { file: String, line: u32, column: u32 },
    /// A symbol name, to be resolved by search.
    Symbol(String),
}

/// Classify one query string: a `file:line:col` shape becomes a
/// zero-based position, by saturating subtraction from the one-based
/// surface; anything else is a symbol name.
pub fn classify_query(q: &str) -> (r: ClassifiedQuery)
    ensures
        match spec_parse_file_position(q@) {
            Some((f, l, c)) => (r matches ClassifiedQuery::Position { file, line, column }
                && file@ == f && line == (if l == 0 { 0u32 } else { (l - 1) as u32 }) && column
                == (if c == 0 { 0u32 } else { (c - 1) as u32 })),
            None => (r matches ClassifiedQuery::Symbol(s) && s@ == q@),
        },
{
    match parse_file_position(q) {
        Some((file, l, c)) => {
            let line = to_zero_based(l);
            let column = to_zero_based(c);
            ClassifiedQuery::Position { file, line, column }
        },
        None => ClassifiedQuery::Symbol(String::from_str(q)),
    }
}

/// The column where a symbol name stands in a source line, when it
/// occurs: workspace-symbol replies point at the declaration keyword,
/// while hover and references need the cursor on the name itself.
pub fn find_name_column(line: &str, name: &str) -> (r: Option<u32>)
    ensures
        match r {
            Some(c) => {
                &&& crate::members::spec_find_sub(line@, name@, 0) == Some(c as int)
                &&& c <= 0xffff_ffff
            },
            None => crate::members::spec_find_sub(line@, name@, 0) is None || (
            exists|i: int|
                crate::members::spec_find_sub(line@, name@, 0) == Some(i) && i > 0xffff_ffff),
        },
{
    let lc = crate::strutil::str_to_chars(line);
    let nc = crate::strutil::str_to_chars(name);
    match crate::members::find_sub(&lc, &nc) {
        Some(i) => {
            if i <= 0xffff_ffffusize {
                Some(i as u32)
            } else {
                proof {
                    assert(crate::members::spec_find_sub(line@, name@, 0) == Some(i as int)
                        && i > 0xffff_ffff);
                }
                None
            }
        },
        None => None,
    }
}

/// Whether some pair in a list bears the label.
pub open spec fn has_label(es: Seq<(String, Vec<crate::lsp_types::Location>)>, label: Seq<char>)
    -> bool {
    exists|i: int| 0 <= i < es.len() && (#[trigger] es[i].0)@ == label
}

/// Whether a label stands in a list of labels.
pub open spec fn label_listed(ls: Seq<Seq<char>>, label: Seq<char>) -> bool {
    exists|m: int| 0 <= m < ls.len() && #[trigger] ls[m] == label
}

/// The labels of an entry list, in order.
pub open spec fn entry_labels(es: Seq<(String, Vec<crate::lsp_types::Location>)>) -> Seq<
    Seq<char>,
> {
    Seq::new(es.len(), |i: int| es[i].0@)
}

/// The distinct labels in first-seen order.
pub open spec fn spec_label_order(ls: Seq<Seq<char>>) -> Seq<Seq<char>>
    decreases ls.len(),
{
    if ls.len() == 0 {
        Seq::empty()
    } else {
        let front = spec_label_order(ls.drop_last());
        if label_listed(front, ls.last()) {
            front
        } else {
            front.push(ls.last())
        }
    }
}

/// Every list a label had, concatenated in input order.
pub open spec fn spec_gather(
    es: Seq<(String, Vec<crate::lsp_types::Location>)>,
    label: Seq<char>,
) -> Seq<(Seq<char>, crate::lsp_types::Range)>
    decreases es.len(),
{
    if es.len() == 0 {
        Seq::empty()
    } else {
        spec_gather(es.drop_last(), label) + (if es.last().0@ == label {
            crate::lsp_types::locations_model(es.last().1@)
        } else {
            Seq::empty()
        })
    }
}

/// Merge labelled reference lists: the output holds each input label
/// exactly once, in first-seen order, and each label carries the
/// concatenation of every list that label had, in input order.
pub fn merge_labelled(entries: &Vec<(String, Vec<crate::lsp_types::Location>)>) -> (r: Vec<
    (String, Vec<crate::lsp_types::Location>),
>)
    ensures
        entry_labels(r@) == spec_label_order(entry_labels(entries@)),
        forall|k: int|
            0 <= k < r@.len() ==> crate::lsp_types::locations_model((#[trigger] r@[k].1)@)
                == spec_gather(entries@, r@[k].0@),
{
    let ghost all_labels = entry_labels(entries@);
    let mut labels: Vec<String> = Vec::new();
    let mut i: usize = 0;
    while i < entries.len()
        invariant
            i <= entries@.len(),
            all_labels == entry_labels(entries@),
            Seq::new(labels@.len(), |m: int| labels@[m]@) == spec_label_order(
                all_labels.subrange(0, i as int)),
        decreases entries@.len() - i,
    {
        let ghost labels_top = Seq::new(labels@.len(), |m: int| labels@[m]@);
        let lab = &entries[i].0;
        let mut seen = false;
        let mut k: usize = 0;
        while k < labels.len()
            invariant
                k <= labels@.len(),
                labels_top == Seq::new(labels@.len(), |m: int| labels@[m]@),
                seen ==> label_listed(labels_top, lab@),
                !seen ==> forall|m: int| 0 <= m < k ==> (#[trigger] labels@[m])@ != lab@,
                lab@ == entries@[i as int].0@,
                i < entries@.len(),
            decreases labels@.len() - k,
        {
            if string_eq_str(&labels[k], lab.as_str()) {
                proof {
                    assert(labels_top[k as int] == lab@);
                }
                seen = true;
            }
            k = k + 1;
        }
        proof {
            let p = all_labels.subrange(0, i as int);
            let q = all_labels.subrange(0, i + 1);
            assert(q.drop_last() =~= p);
            assert(q.last() == entries@[i as int].0@);
            if !seen {
                assert(!label_listed(labels_top, lab@)) by {
                    if label_listed(labels_top, lab@) {
                        let m = choose|m: int|
                            0 <= m < labels_top.len() && #[trigger] labels_top[m] == lab@;
                        assert((labels@[m])@ != lab@);
                    }
                }
            }
        }
        if !seen {
            labels.push(clone_string(lab));
            proof {
                assert(Seq::new(labels@.len(), |m: int| labels@[m]@) =~= labels_top.push(lab@));
                assert(Seq::new(labels@.len(), |m: int| labels@[m]@) =~= spec_label_order(
                    all_labels.subrange(0, i + 1)));
            }
        } else {
            proof {
                assert(Seq::new(labels@.len(), |m: int| labels@[m]@) =~= spec_label_order(
                    all_labels.subrange(0, i + 1)));
            }
        }
        i = i + 1;
    }
    proof {
        assert(all_labels.subrange(0, all_labels.len() as int) =~= all_labels);
    }
    // Second pass: gather each label's locations in input order.
    let mut out: Vec<(String, Vec<crate::lsp_types::Location>)> = Vec::new();
    let mut k: usize = 0;
    while k < labels.len()
        invariant
            k <= labels@.len(),
            out@.len() == k,
            Seq::new(labels@.len(), |m: int| labels@[m]@) == spec_label_order(
                entry_labels(entries@)),
            forall|a: int| 0 <= a < k ==> (#[trigger] out@[a].0)@ == labels@[a]@,
            forall|a: int|
                0 <= a < k ==> crate::lsp_types::locations_model((#[trigger] out@[a].1)@)
                    == spec_gather(entries@, out@[a].0@),
        decreases labels@.len() - k,
    {
        let lab = clone_string(&labels[k]);
        let mut locs: Vec<crate::lsp_types::Location> = Vec::new();
        let mut j: usize = 0;
        while j < entries.len()
            invariant
                j <= entries@.len(),
                lab@ == labels@[k as int]@,
                k < labels@.len(),
                crate::lsp_types::locations_model(locs@) == spec_gather(
                    entries@.subrange(0, j as int), lab@),
            decreases entries@.len() - j,
        {
            let ghost locs_top = crate::lsp_types::locations_model(locs@);
            proof {
                let p = entries@.subrange(0, j as int);
                let q = entries@.subrange(0, j + 1);
                assert(q.drop_last() =~= p);
                assert(q.last() == entries@[j as int]);
            }
            if string_eq_str(&entries[j].0, lab.as_str()) {
                let mut m: usize = 0;
                let src = &entries[j].1;
                while m < src.len()
                    invariant
                        m <= src@.len(),
                        src@ == entries@[j as int].1@,
                        crate::lsp_types::locations_model(locs@) == locs_top
                            + crate::lsp_types::locations_model(src@.subrange(0, m as int)),
                    decreases src@.len() - m,
                {
                    let ghost pre_locs = locs@;
                    locs.push(src[m].duplicate());
                    m = m + 1;
                    proof {
                        let d = locs@[locs@.len() - 1];
                        assert(locs@ == pre_locs.push(d));
                        crate::lsp_types::lemma_locations_model_push(pre_locs, d);
                        assert(crate::lsp_types::location_model(d)
                            == crate::lsp_types::location_model(src@[m - 1]));
                        let p = src@.subrange(0, m - 1);
                        let q = src@.subrange(0, m as int);
                        assert(q =~= p.push(src@[m - 1]));
                        crate::lsp_types::lemma_locations_model_push(p, src@[m - 1]);
                        assert(crate::lsp_types::locations_model(q)
                            == crate::lsp_types::locations_model(p).push(
                            crate::lsp_types::location_model(src@[m - 1])));
                        assert(crate::lsp_types::locations_model(locs@) =~= locs_top
                            + crate::lsp_types::locations_model(q));
                    }
                }
                proof {
                    assert(src@.subrange(0, src@.len() as int) =~= src@);
                    assert(crate::lsp_types::locations_model(locs@) =~= spec_gather(
                        entries@.subrange(0, j + 1), lab@));
                }
            } else {
                proof {
                    assert(crate::lsp_types::locations_model(locs@) =~= spec_gather(
                        entries@.subrange(0, j + 1), lab@));
                }
            }
            j = j + 1;
        }
        proof {
            assert(entries@.subrange(0, entries@.len() as int) =~= entries@);
        }
        out.push((lab, locs));
        k = k + 1;
    }
    proof {
        assert(entry_labels(out@) =~= Seq::new(labels@.len(), |m: int| labels@[m]@));
    }
    out
}

} // verus!

verus! {

use crate::members::{spec_find_sub, starts_with_at};

/// One command of the interactive prompt.
pub enum InteractiveCommand {
    /// Leave the prompt.
    Quit,
    /// `find <file> <symbol>`: definitions of a symbol in one file.
    Find { file: String, symbol: String },
    /// `<file>:<line>:<col>`: definition at a one-based position.
    Goto { file: String, line: u32, column: u32 },
    /// Anything else: print the usage hint.
    Unknown,
}

/// The `find` form: the word `find`, a file token, a symbol token.
/// Tokens are split at single spaces; empty tokens make the command
/// unknown.
pub open spec fn spec_find_command(rest: Seq<char>) -> Option<(Seq<char>, Seq<char>)> {
    match spec_find_sub(rest, seq![' '], 0) {
        None => None,
        Some(sp) => {
            if sp == 0 {
                None
            } else {
                let file = rest.take(sp);
                let tail = rest.subrange(sp + 1, rest.len() as int);
                let symbol = match spec_find_sub(tail, seq![' '], 0) {
                    None => tail,
                    Some(sp2) => tail.take(sp2),
                };
                if symbol.len() == 0 {
                    None
                } else {
                    Some((file, symbol))
                }
            }
        },
    }
}

/// Read one line of the interactive prompt: `quit`/`q` leaves,
/// `find <file> <symbol>` looks a symbol up, `<file>:<line>:<col>`
/// jumps to a definition, and anything else asks for the usage hint.
pub fn parse_interactive_command(input: &str) -> (r: InteractiveCommand)
    ensures
        (input@ == "quit"@ || input@ == "q"@) ==> r is Quit,
        (input@ != "quit"@ && input@ != "q"@ && starts_with_at(input@, 0, "find "@)) ==> (
        match spec_find_command(input@.subrange(5, input@.len() as int)) {
            Some((f, sym)) => (r matches InteractiveCommand::Find { file, symbol } && file@ == f
                && symbol@ == sym),
            None => r is Unknown,
        }),
        (input@ != "quit"@ && input@ != "q"@ && !starts_with_at(input@, 0, "find "@)) ==> (
        match crate::positions::spec_parse_file_position(input@) {
            Some((f, l, c)) => (r matches InteractiveCommand::Goto { file, line, column }
                && file@ == f && line == l && column == c),
            None => r is Unknown,
        }),
{
    if str_eq(input, "quit") || str_eq(input, "q") {
        return InteractiveCommand::Quit;
    }
    let chars = crate::strutil::str_to_chars(input);
    let prefix = crate::strutil::str_to_chars("find ");
    proof {
        reveal_strlit("find ");
        assert(prefix@ =~= "find "@);
    }
    let n = chars.len();
    if n >= 5 && crate::members::check_at(&chars, 0, &prefix) {
        let rest = crate::members::sub_vec(&chars, 5, n);
        proof {
            assert(rest@ =~= input@.subrange(5, input@.len() as int));
        }
        let space = crate::strutil::str_to_chars(" ");
        proof {
            reveal_strlit(" ");
            assert(space@ =~= seq![' ']);
        }
        match crate::members::find_sub(&rest, &space) {
            None => {
                return InteractiveCommand::Unknown;
            },
            Some(sp) => {
                if sp == 0 {
                    return InteractiveCommand::Unknown;
                }
                let file_chars = crate::members::sub_vec(&rest, 0, sp);
                let m = rest.len();
                let tail = crate::members::sub_vec(&rest, sp + 1, m);
                let symbol_chars = match crate::members::find_sub(&tail, &space) {
                    None => {
                        let k = tail.len();
                        crate::members::sub_vec(&tail, 0, k)
                    },
                    Some(sp2) => crate::members::sub_vec(&tail, 0, sp2),
                };
                if symbol_chars.len() == 0 {
                    return InteractiveCommand::Unknown;
                }
                let file = crate::strutil::chars_to_string(&file_chars);
                let symbol = crate::strutil::chars_to_string(&symbol_chars);
                proof {
                    assert(file@ =~= rest@.take(sp as int));
                    assert(tail@ =~= rest@.subrange(sp + 1, rest@.len() as int));
                    assert(symbol_chars@ =~= (match spec_find_sub(tail@, seq![' '], 0) {
                        None => tail@,
                        Some(sp2) => tail@.take(sp2),
                    }));
                }
                return InteractiveCommand::Find { file, symbol };
            },
        }
    }
    proof {
        if starts_with_at(input@, 0, "find "@) {
            assert(chars@.subrange(0, 5) == "find "@);
            assert(false);
        }
    }
    match crate::positions::parse_file_position(input) {
        Some((file, line, column)) => InteractiveCommand::Goto { file, line, column },
        None => InteractiveCommand::Unknown,
    }
}

} // verus!
