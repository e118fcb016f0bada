//! Rendering results for the command-line surface: human text, JSON,
//! CSV rows, and bare path lists. Lines and columns turn one-based here
//! and nowhere else.

use vstd::prelude::*;
use vstd::string::StringExecFns;
use crate::json::ser_json;
use crate::lsp_types::{
    spec_hover_text, spec_kind_name, DocumentSymbol, Hover, Location, SymbolInformation,
};
use crate::numbers::{dec_str, u64_to_string};
use crate::positions::to_one_based;
use crate::strutil::{append_str, clone_string, str_to_chars};

verus! {

broadcast use vstd::utf8::char_is_scalar;

/// The output format chosen on the command line.
#[derive(Clone, Copy, PartialEq, Eq, Structural, Debug)]
pub enum OutputFormat {
    Human,
    Json,
    Csv,
    Paths,
}

/// A `file://` URI as a plain path: the scheme prefix stripped, anything
/// else unchanged.
pub open spec fn spec_uri_to_path(uri: Seq<char>) -> Seq<char> {
    if uri.len() >= 7 && uri.subrange(0, 7) == "file://"@ {
        uri.subrange(7, uri.len() as int)
    } else {
        uri
    }
}

/// A one-based coordinate as decimal text.
pub open spec fn one_based_str(n: u32) -> Seq<char> {
    dec_str((if n == 0xffff_ffffu32 { n } else { (n + 1) as u32 }) as nat)
}

/// One CSV row for a location: `path,line,column` and a newline,
/// one-based.
pub open spec fn spec_csv_row(l: Location) -> Seq<char> {
    spec_uri_to_path(l.uri@) + seq![','] + one_based_str(l.range.start.line) + seq![',']
        + one_based_str(l.range.start.character) + seq!['\n']
}

/// The CSV rows of a location list.
pub open spec fn spec_csv_rows(ls: Seq<Location>) -> Seq<char>
    decreases ls.len(),
{
    if ls.len() == 0 {
        Seq::empty()
    } else {
        spec_csv_rows(ls.subrange(0, ls.len() - 1)) + spec_csv_row(ls[ls.len() - 1])
    }
}

/// The newline-separated path list of a location list.
pub open spec fn spec_path_lines(ls: Seq<Location>) -> Seq<char>
    decreases ls.len(),
{
    if ls.len() == 0 {
        Seq::empty()
    } else if ls.len() == 1 {
        spec_uri_to_path(ls[0].uri@)
    } else {
        spec_path_lines(ls.subrange(0, ls.len() - 1)) + seq!['\n'] + spec_uri_to_path(
            ls[ls.len() - 1].uri@)
    }
}

/// One human line for a location: `N. path:line:col` and two newlines.
pub open spec fn spec_human_entry(n: nat, l: Location) -> Seq<char> {
    dec_str(n) + ". "@ + spec_uri_to_path(l.uri@) + seq![':'] + one_based_str(
        l.range.start.line) + seq![':'] + one_based_str(l.range.start.character) + "\n\n"@
}

/// The numbered human lines of a location list.
pub open spec fn spec_human_entries(ls: Seq<Location>) -> Seq<char>
    decreases ls.len(),
{
    if ls.len() == 0 {
        Seq::empty()
    } else {
        spec_human_entries(ls.subrange(0, ls.len() - 1)) + spec_human_entry(
            ls.len() as nat, ls[ls.len() - 1])
    }
}

/// Renders results in the chosen format.
pub struct OutputFormatter {
    /// The format every call renders in.
    pub format: OutputFormat,
}

impl OutputFormatter {
    /// A formatter for one format.
    pub fn new(format: OutputFormat) -> (r: OutputFormatter)
        ensures
            r.format == format,
    {
        OutputFormatter { format }
    }

    /// Strip the `file://` scheme off a URI.
    pub fn uri_to_path(&self, uri: &str) -> (r: String)
        ensures
            r@ == spec_uri_to_path(uri@),
    {
        let chars = str_to_chars(uri);
        let scheme = str_to_chars("file://");
        proof {
            reveal_strlit("file://");
        }
        if chars.len() >= 7 {
            let mut is_prefix = true;
            let mut i: usize = 0;
            proof {
                assert(chars@.subrange(0, 0) =~= scheme@.subrange(0, 0));
            }
            while i < 7
                invariant
                    i <= 7,
                    chars@.len() >= 7,
                    scheme@ == "file://"@,
                    scheme@.len() == 7,
                    chars@ == uri@,
                    is_prefix == (chars@.subrange(0, i as int) == scheme@.subrange(0, i as int)),
                decreases 7 - i,
            {
                if chars[i] != scheme[i] {
                    proof {
                        assert(chars@.subrange(0, i + 1)[i as int] != scheme@.subrange(
                            0, i + 1)[i as int]);
                    }
                    is_prefix = false;
                    proof {
                        assert(chars@.subrange(0, i + 1) != scheme@.subrange(0, i + 1));
                    }
                } else {
                    proof {
                        if is_prefix {
                            assert(chars@.subrange(0, i + 1) =~= scheme@.subrange(0, i + 1));
                        } else {
                            let p = chars@.subrange(0, i as int);
                            let q = scheme@.subrange(0, i as int);
                            assert(p != q);
                            if chars@.subrange(0, i + 1) == scheme@.subrange(0, i + 1) {
                                assert(p =~= q) by {
                                    assert(forall|x: int|
                                        0 <= x < i ==> p[x] == chars@.subrange(0, i + 1)[x]
                                            && q[x] == scheme@.subrange(0, i + 1)[x]);
                                }
                            }
                        }
                    }
                }
                i = i + 1;
            }
            if is_prefix {
                proof {
                    assert(chars@.subrange(0, 7) =~= scheme@.subrange(0, 7));
                    assert(scheme@.subrange(0, 7) =~= scheme@);
                }
                let n = chars.len();
                let tail = crate::members::sub_vec(&chars, 7, n);
                proof {
                    assert(tail@ =~= spec_uri_to_path(uri@));
                }
                return crate::strutil::chars_to_string(&tail);
            }
            proof {
                assert(scheme@.subrange(0, 7) =~= scheme@);
                assert(chars@.subrange(0, 7) != scheme@);
            }
        }
        proof {
            if uri@.len() >= 7 && uri@.subrange(0, 7) == "file://"@ {
                assert(false);
            }
        }
        let mut out = String::new();
        append_str(&mut out, uri);
        proof {
            assert(out@ =~= uri@);
        }
        out
    }

    /// The CSV text for a location list: a header row, then one row per
    /// location, one-based.
    pub fn format_csv(&self, locations: &Vec<Location>) -> (r: String)
        ensures
            r@ == "file,line,column\n"@ + spec_csv_rows(locations@),
    {
        let mut out = String::new();
        append_str(&mut out, "file,line,column\n");
        let mut i: usize = 0;
        while i < locations.len()
            invariant
                i <= locations@.len(),
                out@ == "file,line,column\n"@ + spec_csv_rows(locations@.subrange(0, i as int)),
            decreases locations@.len() - i,
        {
            let l = &locations[i];
            let path = self.uri_to_path(l.uri.as_str());
            append_str(&mut out, path.as_str());
            append_str(&mut out, ",");
            let line = u64_to_string(to_one_based(l.range.start.line) as u64);
            append_str(&mut out, line.as_str());
            append_str(&mut out, ",");
            let col = u64_to_string(to_one_based(l.range.start.character) as u64);
            append_str(&mut out, col.as_str());
            append_str(&mut out, "\n");
            i = i + 1;
            proof {
                reveal_strlit(",");
                reveal_strlit("\n");
                let p = locations@.subrange(0, i - 1);
                let q = locations@.subrange(0, i as int);
                assert(q.subrange(0, q.len() - 1) =~= p);
                assert(q[q.len() - 1] == locations@[i - 1]);
                assert(","@ =~= seq![',']);
                assert("\n"@ =~= seq!['\n']);
                assert(out@ =~= "file,line,column\n"@ + spec_csv_rows(q));
            }
        }
        proof {
            assert(locations@.subrange(0, locations@.len() as int) =~= locations@);
        }
        out
    }

    /// The bare path list for a location list, newline separated.
    pub fn format_paths(&self, locations: &Vec<Location>) -> (r: String)
        ensures
            r@ == spec_path_lines(locations@),
    {
        let mut out = String::new();
        let mut i: usize = 0;
        while i < locations.len()
            invariant
                i <= locations@.len(),
                out@ == spec_path_lines(locations@.subrange(0, i as int)),
            decreases locations@.len() - i,
        {
            if i > 0 {
                append_str(&mut out, "\n");
            }
            let path = self.uri_to_path(locations[i].uri.as_str());
            append_str(&mut out, path.as_str());
            i = i + 1;
            proof {
                reveal_strlit("\n");
                assert("\n"@ =~= seq!['\n']);
                let p = locations@.subrange(0, i - 1);
                let q = locations@.subrange(0, i as int);
                assert(q.subrange(0, q.len() - 1) =~= p);
                assert(q[q.len() - 1] == locations@[i - 1]);
                assert(out@ =~= spec_path_lines(q));
            }
        }
        proof {
            assert(locations@.subrange(0, locations@.len() as int) =~= locations@);
        }
        out
    }

    /// The human text for a definition list: a count line and one
    /// numbered `path:line:col` entry per location, or a plain not-found
    /// line for an empty list.
    #[verifier::rlimit(100)]
    pub fn format_human(&self, locations: &Vec<Location>, query_info: &str) -> (r: String)
        ensures
            locations@.len() == 0 ==> r@ == "No definitions found for: "@ + query_info@,
            locations@.len() > 0 ==> r@ == "Found "@ + dec_str(locations@.len() as nat)
                + " definition(s) for: "@ + query_info@ + "\n\n"@ + spec_human_entries(
                locations@),
    {
        let mut out = String::new();
        if locations.len() == 0 {
            append_str(&mut out, "No definitions found for: ");
            append_str(&mut out, query_info);
            proof {
                assert(out@ =~= "No definitions found for: "@ + query_info@);
            }
            return out;
        }
        append_str(&mut out, "Found ");
        let count = u64_to_string(locations.len() as u64);
        append_str(&mut out, count.as_str());
        append_str(&mut out, " definition(s) for: ");
        append_str(&mut out, query_info);
        append_str(&mut out, "\n\n");
        let ghost head = out@;
        let mut i: usize = 0;
        while i < locations.len()
            invariant
                i <= locations@.len(),
                out@ == head + spec_human_entries(locations@.subrange(0, i as int)),
            decreases locations@.len() - i,
        {
            let l = &locations[i];
            let n = u64_to_string((i + 1) as u64);
            append_str(&mut out, n.as_str());
            append_str(&mut out, ". ");
            let path = self.uri_to_path(l.uri.as_str());
            append_str(&mut out, path.as_str());
            append_str(&mut out, ":");
            let line = u64_to_string(to_one_based(l.range.start.line) as u64);
            append_str(&mut out, line.as_str());
            append_str(&mut out, ":");
            let col = u64_to_string(to_one_based(l.range.start.character) as u64);
            append_str(&mut out, col.as_str());
            append_str(&mut out, "\n\n");
            i = i + 1;
            proof {
                reveal_strlit(":");
                assert(":"@ =~= seq![':']);
                let p = locations@.subrange(0, i - 1);
                let q = locations@.subrange(0, i as int);
                assert(q.subrange(0, q.len() - 1) =~= p);
                assert(q[q.len() - 1] == locations@[i - 1]);
                assert(out@ =~= head + spec_human_entries(q));
            }
        }
        proof {
            assert(locations@.subrange(0, locations@.len() as int) =~= locations@);
            assert(out@ =~= "Found "@ + dec_str(locations@.len() as nat) + " definition(s) for: "@
                + query_info@ + "\n\n"@ + spec_human_entries(locations@));
        }
        out
    }

    /// The JSON text for a location list: the canonical rendering of the
    /// location array.
    pub fn format_json(&self, locations: &Vec<Location>) -> (r: String)
        ensures
            exists|v: crate::json::JsonValue|
                r@ == ser_json(v) && #[trigger] crate::params::is_locations_json(v, locations@),
    {
        let v = crate::params::locations_to_json(locations);
        let r = crate::json::json_to_string(&v);
        proof {
            assert(r@ == ser_json(v) && crate::params::is_locations_json(v, locations@));
        }
        r
    }

    /// Render a definition list in this formatter's format.
    pub fn format_definitions(&self, locations: &Vec<Location>, query_info: &str) -> (r: String)
        ensures
            self.format is Csv ==> r@ == "file,line,column\n"@ + spec_csv_rows(locations@),
            self.format is Paths ==> r@ == spec_path_lines(locations@),
            self.format is Human && locations@.len() == 0 ==> r@
                == "No definitions found for: "@ + query_info@,
            self.format is Human && locations@.len() > 0 ==> r@ == "Found "@ + dec_str(
                locations@.len() as nat) + " definition(s) for: "@ + query_info@ + "\n\n"@
                + spec_human_entries(locations@),
            self.format is Json ==> exists|v: crate::json::JsonValue|
                r@ == ser_json(v) && #[trigger] crate::params::is_locations_json(v, locations@),
    {
        match self.format {
            OutputFormat::Human => self.format_human(locations, query_info),
            OutputFormat::Json => self.format_json(locations),
            OutputFormat::Csv => self.format_csv(locations),
            OutputFormat::Paths => self.format_paths(locations),
        }
    }

    /// Render a reference list: the same shapes as definitions, with the
    /// not-found wording adjusted.
    #[verifier::rlimit(100)]
    pub fn format_references(&self, locations: &Vec<Location>, query_info: &str) -> (r: String)
        ensures
            self.format is Csv ==> r@ == "file,line,column\n"@ + spec_csv_rows(locations@),
            self.format is Paths ==> r@ == spec_path_lines(locations@),
            self.format is Human && locations@.len() == 0 ==> r@ == "No references found for: "@
                + query_info@,
            self.format is Human && locations@.len() > 0 ==> r@ == "Found "@ + dec_str(
                locations@.len() as nat) + " reference(s) for: "@ + query_info@ + "\n\n"@
                + spec_human_entries(locations@),
            self.format is Json ==> exists|v: crate::json::JsonValue|
                r@ == ser_json(v) && #[trigger] crate::params::is_locations_json(v, locations@),
    {
        match self.format {
            OutputFormat::Human => {
                let mut out = String::new();
                if locations.len() == 0 {
                    append_str(&mut out, "No references found for: ");
                    append_str(&mut out, query_info);
                    proof {
                        assert(out@ =~= "No references found for: "@ + query_info@);
                    }
                    return out;
                }
                append_str(&mut out, "Found ");
                let count = u64_to_string(locations.len() as u64);
                append_str(&mut out, count.as_str());
                append_str(&mut out, " reference(s) for: ");
                append_str(&mut out, query_info);
                append_str(&mut out, "\n\n");
                let ghost head = out@;
                let mut i: usize = 0;
                while i < locations.len()
                    invariant
                        i <= locations@.len(),
                        out@ == head + spec_human_entries(locations@.subrange(0, i as int)),
                    decreases locations@.len() - i,
                {
                    let l = &locations[i];
                    let n = u64_to_string((i + 1) as u64);
                    append_str(&mut out, n.as_str());
                    append_str(&mut out, ". ");
                    let path = self.uri_to_path(l.uri.as_str());
                    append_str(&mut out, path.as_str());
                    append_str(&mut out, ":");
                    let line = u64_to_string(to_one_based(l.range.start.line) as u64);
                    append_str(&mut out, line.as_str());
                    append_str(&mut out, ":");
                    let col = u64_to_string(to_one_based(l.range.start.character) as u64);
                    append_str(&mut out, col.as_str());
                    append_str(&mut out, "\n\n");
                    i = i + 1;
                    proof {
                        reveal_strlit(":");
                        assert(":"@ =~= seq![':']);
                        let p = locations@.subrange(0, i - 1);
                        let q = locations@.subrange(0, i as int);
                        assert(q.subrange(0, q.len() - 1) =~= p);
                        assert(q[q.len() - 1] == locations@[i - 1]);
                        assert(out@ =~= head + spec_human_entries(q));
                    }
                }
                proof {
                    assert(locations@.subrange(0, locations@.len() as int) =~= locations@);
                    assert(out@ =~= "Found "@ + dec_str(locations@.len() as nat)
                        + " reference(s) for: "@ + query_info@ + "\n\n"@ + spec_human_entries(
                        locations@));
                }
                out
            },
            OutputFormat::Json => self.format_json(locations),
            OutputFormat::Csv => self.format_csv(locations),
            OutputFormat::Paths => self.format_paths(locations),
        }
    }

    /// The plain text of a hover payload, as every format shows it.
    pub fn format_hover(&self, hover: &Hover) -> (r: String)
        ensures
            r@ == spec_hover_text(hover.contents),
    {
        crate::lsp_types::extract_text(&hover.contents)
    }
}

} // verus!

verus! {

/// An indent of two spaces per nesting level.
pub open spec fn spec_indent(depth: nat) -> Seq<char>
    decreases depth,
{
    if depth == 0 {
        Seq::empty()
    } else {
        spec_indent((depth - 1) as nat) + "  "@
    }
}

/// The depth of a child level; nesting deeper than the machine's
/// pointer width saturates.
pub open spec fn next_depth(depth: nat) -> nat {
    if depth + 1 <= usize::MAX {
        (depth + 1) as nat
    } else {
        depth
    }
}

/// One outline line: indent, name, kind in parentheses, one-based
/// position.
pub open spec fn spec_outline_line(depth: nat, d: DocumentSymbol) -> Seq<char> {
    spec_indent(depth) + d.name@ + " ("@ + spec_kind_name(d.kind) + ") - line "@
        + one_based_str(d.range.start.line) + ", col "@ + one_based_str(
        d.range.start.character) + seq!['\n']
}

/// The outline of a symbol forest, depth first.
pub open spec fn spec_outline(list: Seq<DocumentSymbol>, depth: nat) -> Seq<char>
    decreases list, 0nat, 0nat,
{
    if list.len() == 0 {
        Seq::empty()
    } else {
        spec_outline_node(list[0], depth) + spec_outline(list.subrange(1, list.len() as int),
            depth)
    }
}

/// The outline of one node and its children.
pub open spec fn spec_outline_node(d: DocumentSymbol, depth: nat) -> Seq<char>
    decreases d, 1nat, 0nat,
{
    spec_outline_line(depth, d) + (match d.children {
        Some(cs) => spec_outline(cs@, next_depth(depth)),
        None => Seq::empty(),
    })
}

impl OutputFormatter {
    /// Append the outline of a symbol forest, each line indented two
    /// spaces per level, positions one-based.
    #[verifier::rlimit(100)]
    pub fn format_document_symbols_recursive(
        &self,
        symbols: &Vec<DocumentSymbol>,
        indent: usize,
        output: &mut String,
    )
        ensures
            final(output)@ == old(output)@ + spec_outline(symbols@, indent as nat),
        decreases symbols@,
    {
        let mut i: usize = 0;
        proof {
            assert forall|k: int| 0 <= k < symbols@.len() implies (decreases_to!(
                symbols@ => symbols@[k])) by {}
        }
        while i < symbols.len()
            invariant
                i <= symbols@.len(),
                output@ == old(output)@ + spec_outline_prefix(symbols@, i as int, indent as nat),
                forall|k: int| 0 <= k < symbols@.len() ==> (decreases_to!(
                    symbols@ => #[trigger] symbols@[k])),
            decreases symbols@.len() - i,
        {
            let d = &symbols[i];
            self.emit_indent(indent, output);
            append_str(output, d.name.as_str());
            append_str(output, " (");
            append_str(output, d.kind.name());
            append_str(output, ") - line ");
            let line = u64_to_string(to_one_based(d.range.start.line) as u64);
            append_str(output, line.as_str());
            append_str(output, ", col ");
            let col = u64_to_string(to_one_based(d.range.start.character) as u64);
            append_str(output, col.as_str());
            append_str(output, "\n");
            match &d.children {
                Some(cs) => {
                    proof {
                        assert(decreases_to!(symbols@ => symbols@[i as int]));
                        assert(decreases_to!(symbols@[i as int] => cs@));
                    }
                    let deeper: usize = if indent < usize::MAX {
                        indent + 1
                    } else {
                        indent
                    };
                    proof {
                        assert(deeper as nat == next_depth(indent as nat));
                    }
                    self.format_document_symbols_recursive(cs, deeper, output);
                },
                None => {},
            }
            i = i + 1;
            proof {
                reveal_strlit("\n");
                assert("\n"@ =~= seq!['\n']);
                lemma_outline_prefix_step(symbols@, i as int, indent as nat);
                assert(spec_outline_node(symbols@[i - 1], indent as nat) == spec_outline_line(
                    indent as nat, symbols@[i - 1]) + (match symbols@[i - 1].children {
                    Some(cs) => spec_outline(cs@, next_depth(indent as nat)),
                    None => Seq::<char>::empty(),
                }));
                assert(output@ =~= old(output)@ + spec_outline_prefix(symbols@, i as int,
                    indent as nat));
            }
        }
        proof {
            lemma_outline_prefix_whole(symbols@, indent as nat);
        }
    }

    /// Append two spaces per level.
    fn emit_indent(&self, depth: usize, output: &mut String)
        ensures
            final(output)@ == old(output)@ + spec_indent(depth as nat),
    {
        let mut k: usize = 0;
        while k < depth
            invariant
                k <= depth,
                output@ == old(output)@ + spec_indent(k as nat),
            decreases depth - k,
        {
            append_str(output, "  ");
            k = k + 1;
        }
    }

    /// Render the whole outline of a file's symbols.
    pub fn format_document_symbols(&self, symbols: &Vec<DocumentSymbol>) -> (r: String)
        ensures
            r@ == spec_outline(symbols@, 0),
    {
        let mut out = String::new();
        self.format_document_symbols_recursive(symbols, 0, &mut out);
        out
    }

    /// Append the CSV rows of a symbol forest: name, kind, one-based
    /// line and column, children after their parent.
    #[verifier::rlimit(100)]
    pub fn format_document_symbols_csv(&self, symbols: &Vec<DocumentSymbol>, output: &mut String)
        ensures
            final(output)@ == old(output)@ + spec_symbol_csv(symbols@),
        decreases symbols@,
    {
        let mut i: usize = 0;
        proof {
            assert forall|k: int| 0 <= k < symbols@.len() implies (decreases_to!(
                symbols@ => symbols@[k])) by {}
        }
        while i < symbols.len()
            invariant
                i <= symbols@.len(),
                output@ == old(output)@ + spec_symbol_csv_prefix(symbols@, i as int),
                forall|k: int| 0 <= k < symbols@.len() ==> (decreases_to!(
                    symbols@ => #[trigger] symbols@[k])),
            decreases symbols@.len() - i,
        {
            let d = &symbols[i];
            append_str(output, d.name.as_str());
            append_str(output, ",");
            append_str(output, d.kind.name());
            append_str(output, ",");
            let line = u64_to_string(to_one_based(d.range.start.line) as u64);
            append_str(output, line.as_str());
            append_str(output, ",");
            let col = u64_to_string(to_one_based(d.range.start.character) as u64);
            append_str(output, col.as_str());
            append_str(output, "\n");
            match &d.children {
                Some(cs) => {
                    proof {
                        assert(decreases_to!(symbols@ => symbols@[i as int]));
                        assert(decreases_to!(symbols@[i as int] => cs@));
                    }
                    self.format_document_symbols_csv(cs, output);
                },
                None => {},
            }
            i = i + 1;
            proof {
                reveal_strlit(",");
                reveal_strlit("\n");
                assert(","@ =~= seq![',']);
                assert("\n"@ =~= seq!['\n']);
                lemma_symbol_csv_prefix_step(symbols@, i as int);
                assert(spec_symbol_csv_node(symbols@[i - 1]) == spec_symbol_csv_row(
                    symbols@[i - 1]) + (match symbols@[i - 1].children {
                    Some(cs) => spec_symbol_csv(cs@),
                    None => Seq::<char>::empty(),
                }));
                assert(output@ =~= old(output)@ + spec_symbol_csv_prefix(symbols@, i as int));
            }
        }
        proof {
            lemma_symbol_csv_prefix_whole(symbols@);
        }
    }
}

/// The outline of the first `upto` trees of a forest.
pub open spec fn spec_outline_prefix(list: Seq<DocumentSymbol>, upto: int, depth: nat) -> Seq<
    char,
>
    decreases upto,
{
    if upto <= 0 {
        Seq::empty()
    } else {
        spec_outline_prefix(list, upto - 1, depth) + spec_outline_node(list[upto - 1], depth)
    }
}

/// Extending the prefix by one tree appends that tree's outline.
proof fn lemma_outline_prefix_step(list: Seq<DocumentSymbol>, upto: int, depth: nat)
    requires
        0 < upto <= list.len(),
    ensures
        spec_outline_prefix(list, upto, depth) == spec_outline_prefix(list, upto - 1, depth)
            + spec_outline_node(list[upto - 1], depth),
{
}

/// The whole prefix is the whole outline.
proof fn lemma_outline_prefix_whole(list: Seq<DocumentSymbol>, depth: nat)
    ensures
        spec_outline_prefix(list, list.len() as int, depth) == spec_outline(list, depth),
    decreases list.len(),
{
    if list.len() > 0 {
        let t = list.subrange(1, list.len() as int);
        lemma_outline_prefix_whole(t, depth);
        lemma_outline_prefix_shift(list, list.len() as int, depth);
        assert(spec_outline(list, depth) == spec_outline_node(list[0], depth) + spec_outline(
            t, depth));
    }
}

/// A prefix of the forest equals the head's outline plus the prefix of
/// the tail.
proof fn lemma_outline_prefix_shift(list: Seq<DocumentSymbol>, upto: int, depth: nat)
    requires
        1 <= upto <= list.len(),
    ensures
        spec_outline_prefix(list, upto, depth) == spec_outline_node(list[0], depth)
            + spec_outline_prefix(list.subrange(1, list.len() as int), upto - 1, depth),
    decreases upto,
{
    let t = list.subrange(1, list.len() as int);
    if upto == 1 {
        assert(spec_outline_prefix(list, 0, depth) == Seq::<char>::empty());
        assert(spec_outline_prefix(t, 0, depth) == Seq::<char>::empty());
        assert(spec_outline_prefix(list, 1, depth) =~= spec_outline_node(list[0], depth)
            + spec_outline_prefix(t, 0, depth));
    } else {
        lemma_outline_prefix_shift(list, upto - 1, depth);
        assert(t[upto - 2] == list[upto - 1]);
        assert(spec_outline_prefix(list, upto, depth) =~= spec_outline_node(list[0], depth)
            + spec_outline_prefix(t, upto - 1, depth));
    }
}

/// One CSV row of the symbol outline.
pub open spec fn spec_symbol_csv_row(d: DocumentSymbol) -> Seq<char> {
    d.name@ + seq![','] + spec_kind_name(d.kind) + seq![','] + one_based_str(
        d.range.start.line) + seq![','] + one_based_str(d.range.start.character) + seq!['\n']
}

/// The CSV rows of a symbol forest, children after their parent.
pub open spec fn spec_symbol_csv(list: Seq<DocumentSymbol>) -> Seq<char>
    decreases list, 0nat, 0nat,
{
    if list.len() == 0 {
        Seq::empty()
    } else {
        spec_symbol_csv_node(list[0]) + spec_symbol_csv(list.subrange(1, list.len() as int))
    }
}

/// The CSV rows of one node and its children.
pub open spec fn spec_symbol_csv_node(d: DocumentSymbol) -> Seq<char>
    decreases d, 1nat, 0nat,
{
    spec_symbol_csv_row(d) + (match d.children {
        Some(cs) => spec_symbol_csv(cs@),
        None => Seq::empty(),
    })
}

/// The CSV rows of the first `upto` trees.
pub open spec fn spec_symbol_csv_prefix(list: Seq<DocumentSymbol>, upto: int) -> Seq<char>
    decreases upto,
{
    if upto <= 0 {
        Seq::empty()
    } else {
        spec_symbol_csv_prefix(list, upto - 1) + spec_symbol_csv_node(list[upto - 1])
    }
}

/// Extending the prefix appends one tree's rows.
proof fn lemma_symbol_csv_prefix_step(list: Seq<DocumentSymbol>, upto: int)
    requires
        0 < upto <= list.len(),
    ensures
        spec_symbol_csv_prefix(list, upto) == spec_symbol_csv_prefix(list, upto - 1)
            + spec_symbol_csv_node(list[upto - 1]),
{
}

/// The whole prefix is the whole row list.
proof fn lemma_symbol_csv_prefix_whole(list: Seq<DocumentSymbol>)
    ensures
        spec_symbol_csv_prefix(list, list.len() as int) == spec_symbol_csv(list),
    decreases list.len(),
{
    if list.len() > 0 {
        let t = list.subrange(1, list.len() as int);
        lemma_symbol_csv_prefix_whole(t);
        lemma_symbol_csv_prefix_shift(list, list.len() as int);
        assert(spec_symbol_csv(list) == spec_symbol_csv_node(list[0]) + spec_symbol_csv(t));
    }
}

/// A prefix equals the head's rows plus the tail's prefix.
proof fn lemma_symbol_csv_prefix_shift(list: Seq<DocumentSymbol>, upto: int)
    requires
        1 <= upto <= list.len(),
    ensures
        spec_symbol_csv_prefix(list, upto) == spec_symbol_csv_node(list[0])
            + spec_symbol_csv_prefix(list.subrange(1, list.len() as int), upto - 1),
    decreases upto,
{
    let t = list.subrange(1, list.len() as int);
    if upto == 1 {
        assert(spec_symbol_csv_prefix(list, 0) == Seq::<char>::empty());
        assert(spec_symbol_csv_prefix(t, 0) == Seq::<char>::empty());
        assert(spec_symbol_csv_prefix(list, 1) =~= spec_symbol_csv_node(list[0])
            + spec_symbol_csv_prefix(t, 0));
    } else {
        lemma_symbol_csv_prefix_shift(list, upto - 1);
        assert(t[upto - 2] == list[upto - 1]);
        assert(spec_symbol_csv_prefix(list, upto) =~= spec_symbol_csv_node(list[0])
            + spec_symbol_csv_prefix(t, upto - 1));
    }
}

} // verus!

verus! {

/// One human entry for a workspace symbol: number, name, kind, then an
/// indented `path:line:col` line.
pub open spec fn spec_ws_entry(n: nat, s: SymbolInformation) -> Seq<char> {
    dec_str(n) + ". "@ + s.name@ + " ("@ + spec_kind_name(s.kind) + ")\n   "@ + spec_uri_to_path(
        s.location.uri@) + seq![':'] + one_based_str(s.location.range.start.line) + seq![':']
        + one_based_str(s.location.range.start.character) + "\n\n"@
}

/// The numbered human entries of a symbol list.
pub open spec fn spec_ws_entries(ss: Seq<SymbolInformation>) -> Seq<char>
    decreases ss.len(),
{
    if ss.len() == 0 {
        Seq::empty()
    } else {
        spec_ws_entries(ss.subrange(0, ss.len() - 1)) + spec_ws_entry(ss.len() as nat,
            ss[ss.len() - 1])
    }
}

/// One CSV row for a workspace symbol.
pub open spec fn spec_ws_csv_row(s: SymbolInformation) -> Seq<char> {
    s.name@ + seq![','] + spec_kind_name(s.kind) + seq![','] + spec_uri_to_path(s.location.uri@)
        + seq![','] + one_based_str(s.location.range.start.line) + seq![','] + one_based_str(
        s.location.range.start.character) + seq!['\n']
}

/// The CSV rows of a symbol list.
pub open spec fn spec_ws_csv_rows(ss: Seq<SymbolInformation>) -> Seq<char>
    decreases ss.len(),
{
    if ss.len() == 0 {
        Seq::empty()
    } else {
        spec_ws_csv_rows(ss.subrange(0, ss.len() - 1)) + spec_ws_csv_row(ss[ss.len() - 1])
    }
}

/// The newline-separated paths of a symbol list.
pub open spec fn spec_ws_paths(ss: Seq<SymbolInformation>) -> Seq<char>
    decreases ss.len(),
{
    if ss.len() == 0 {
        Seq::empty()
    } else if ss.len() == 1 {
        spec_uri_to_path(ss[0].location.uri@)
    } else {
        spec_ws_paths(ss.subrange(0, ss.len() - 1)) + seq!['\n'] + spec_uri_to_path(
            ss[ss.len() - 1].location.uri@)
    }
}

impl OutputFormatter {
    /// Render a workspace-symbol list: numbered entries for humans, CSV
    /// rows with a header, bare paths, or the canonical JSON array.
    #[verifier::rlimit(100)]
    pub fn format_workspace_symbols(&self, symbols: &Vec<SymbolInformation>) -> (r: String)
        ensures
            self.format is Human ==> r@ == spec_ws_entries(symbols@),
            self.format is Csv ==> r@ == "name,kind,file,line,column\n"@ + spec_ws_csv_rows(
                symbols@),
            self.format is Paths ==> r@ == spec_ws_paths(symbols@),
            self.format is Json ==> exists|v: crate::json::JsonValue|
                r@ == ser_json(v) && #[trigger] crate::params::is_workspace_symbols_result_json(
                    v, crate::params::WorkspaceSymbolsResult { symbols: *symbols }),
    {
        match self.format {
            OutputFormat::Human => {
                let mut out = String::new();
                let mut i: usize = 0;
                while i < symbols.len()
                    invariant
                        i <= symbols@.len(),
                        out@ == spec_ws_entries(symbols@.subrange(0, i as int)),
                    decreases symbols@.len() - i,
                {
                    let s = &symbols[i];
                    let n = u64_to_string((i + 1) as u64);
                    append_str(&mut out, n.as_str());
                    append_str(&mut out, ". ");
                    append_str(&mut out, s.name.as_str());
                    append_str(&mut out, " (");
                    append_str(&mut out, s.kind.name());
                    append_str(&mut out, ")\n   ");
                    let path = self.uri_to_path(s.location.uri.as_str());
                    append_str(&mut out, path.as_str());
                    append_str(&mut out, ":");
                    let line = u64_to_string(to_one_based(s.location.range.start.line) as u64);
                    append_str(&mut out, line.as_str());
                    append_str(&mut out, ":");
                    let col = u64_to_string(
                        to_one_based(s.location.range.start.character) as u64);
                    append_str(&mut out, col.as_str());
                    append_str(&mut out, "\n\n");
                    i = i + 1;
                    proof {
                        reveal_strlit(":");
                        assert(":"@ =~= seq![':']);
                        let p = symbols@.subrange(0, i - 1);
                        let q = symbols@.subrange(0, i as int);
                        assert(q.subrange(0, q.len() - 1) =~= p);
                        assert(q[q.len() - 1] == symbols@[i - 1]);
                        assert(out@ =~= spec_ws_entries(q));
                    }
                }
                proof {
                    assert(symbols@.subrange(0, symbols@.len() as int) =~= symbols@);
                }
                out
            },
            OutputFormat::Json => {
                let res = crate::params::WorkspaceSymbolsResult { symbols: duplicate_symbols(
                    symbols) };
                let ghost gres = res;
                let v = crate::params::workspace_symbols_result_to_json(&res);
                let r = crate::json::json_to_string(&v);
                proof {
                    assert(crate::params::is_workspace_symbols_result_json(
                        v, crate::params::WorkspaceSymbolsResult { symbols: *symbols })) by {
                        assert(gres.symbols@.len() == symbols@.len());
                    }
                }
                r
            },
            OutputFormat::Csv => {
                let mut out = String::new();
                append_str(&mut out, "name,kind,file,line,column\n");
                let mut i: usize = 0;
                while i < symbols.len()
                    invariant
                        i <= symbols@.len(),
                        out@ == "name,kind,file,line,column\n"@ + spec_ws_csv_rows(
                            symbols@.subrange(0, i as int)),
                    decreases symbols@.len() - i,
                {
                    let s = &symbols[i];
                    append_str(&mut out, s.name.as_str());
                    append_str(&mut out, ",");
                    append_str(&mut out, s.kind.name());
                    append_str(&mut out, ",");
                    let path = self.uri_to_path(s.location.uri.as_str());
                    append_str(&mut out, path.as_str());
                    append_str(&mut out, ",");
                    let line = u64_to_string(to_one_based(s.location.range.start.line) as u64);
                    append_str(&mut out, line.as_str());
                    append_str(&mut out, ",");
                    let col = u64_to_string(
                        to_one_based(s.location.range.start.character) as u64);
                    append_str(&mut out, col.as_str());
                    append_str(&mut out, "\n");
                    i = i + 1;
                    proof {
                        reveal_strlit(",");
                        reveal_strlit("\n");
                        assert(","@ =~= seq![',']);
                        assert("\n"@ =~= seq!['\n']);
                        let p = symbols@.subrange(0, i - 1);
                        let q = symbols@.subrange(0, i as int);
                        assert(q.subrange(0, q.len() - 1) =~= p);
                        assert(q[q.len() - 1] == symbols@[i - 1]);
                        assert(out@ =~= "name,kind,file,line,column\n"@ + spec_ws_csv_rows(q));
                    }
                }
                proof {
                    assert(symbols@.subrange(0, symbols@.len() as int) =~= symbols@);
                }
                out
            },
            OutputFormat::Paths => {
                let mut out = String::new();
                let mut i: usize = 0;
                while i < symbols.len()
                    invariant
                        i <= symbols@.len(),
                        out@ == spec_ws_paths(symbols@.subrange(0, i as int)),
                    decreases symbols@.len() - i,
                {
                    if i > 0 {
                        append_str(&mut out, "\n");
                    }
                    let path = self.uri_to_path(symbols[i].location.uri.as_str());
                    append_str(&mut out, path.as_str());
                    i = i + 1;
                    proof {
                        reveal_strlit("\n");
                        assert("\n"@ =~= seq!['\n']);
                        let p = symbols@.subrange(0, i - 1);
                        let q = symbols@.subrange(0, i as int);
                        assert(q.subrange(0, q.len() - 1) =~= p);
                        assert(q[q.len() - 1] == symbols@[i - 1]);
                        assert(out@ =~= spec_ws_paths(q));
                    }
                }
                proof {
                    assert(symbols@.subrange(0, symbols@.len() as int) =~= symbols@);
                }
                out
            },
        }
    }
}

/// Copy a symbol list, model for model.
fn duplicate_symbols(ss: &Vec<SymbolInformation>) -> (r: Vec<SymbolInformation>)
    ensures
        r@.len() == ss@.len(),
        forall|i: int|
            0 <= i < ss@.len() ==> {
                &&& (#[trigger] r@[i]).name@ == ss@[i].name@
                &&& r@[i].kind == ss@[i].kind
                &&& crate::lsp_types::location_model(r@[i].location)
                    == crate::lsp_types::location_model(ss@[i].location)
                &&& match (r@[i].container_name, ss@[i].container_name) {
                    (Some(a), Some(b)) => a@ == b@,
                    (None, None) => true,
                    _ => false,
                }
            },
{
    let mut r: Vec<SymbolInformation> = Vec::new();
    let mut i: usize = 0;
    while i < ss.len()
        invariant
            i <= ss@.len(),
            r@.len() == i,
            forall|k: int|
                0 <= k < i ==> {
                    &&& (#[trigger] r@[k]).name@ == ss@[k].name@
                    &&& r@[k].kind == ss@[k].kind
                    &&& crate::lsp_types::location_model(r@[k].location)
                        == crate::lsp_types::location_model(ss@[k].location)
                    &&& match (r@[k].container_name, ss@[k].container_name) {
                        (Some(a), Some(b)) => a@ == b@,
                        (None, None) => true,
                        _ => false,
                    }
                },
        decreases ss@.len() - i,
    {
        let s = &ss[i];
        let container_name: Option<String> = match &s.container_name {
            Some(c) => Some(clone_string(c)),
            None => None,
        };
        r.push(SymbolInformation {
            name: clone_string(&s.name),
            kind: s.kind,
            container_name,
            location: s.location.duplicate(),
        });
        i = i + 1;
    }
    r
}

} // verus!
