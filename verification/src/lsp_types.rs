//! The LSP data model this tool reads and writes: positions, ranges,
//! locations, symbols, hover payloads, and the JSON-RPC envelope of the
//! LSP wire protocol, with their JSON codecs.
//!
//! Coordinates are zero-based throughout this crate; only the
//! command-line surface is one-based.

use vstd::prelude::*;
use crate::json::JsonValue;
use crate::strutil::{clone_string, string_eq_str};

verus! {

broadcast use vstd::utf8::char_is_scalar;

/// A zero-based line/character position.
#[derive(Clone, Copy, PartialEq, Eq, Structural, Debug)]
pub struct Position {
    pub line: u32,
    pub character: u32,
}

/// A half-open range between two positions.
#[derive(Clone, Copy, PartialEq, Eq, Structural, Debug)]
pub struct Range {
    pub start: Position,
    pub end: Position,
}

/// A place in a file: URI plus range.
pub struct Location {
    pub uri: String,
    pub range: Range,
}

/// What identifies a location: the URI's characters and the range.
pub open spec fn location_model(l: Location) -> (Seq<char>, Range) {
    (l.uri@, l.range)
}

impl Location {
    /// An owned copy of this location.
    pub fn duplicate(&self) -> (r: Location)
        ensures
            location_model(r) == location_model(*self),
    {
        Location { uri: clone_string(&self.uri), range: self.range }
    }
}

/// A document named by its URI.
pub struct TextDocumentIdentifier {
    pub uri: String,
}

/// A document plus a position in it.
pub struct TextDocumentPositionParams {
    pub text_document: TextDocumentIdentifier,
    pub position: Position,
}

/// Parameters of a definition request.
pub struct GotoDefinitionParams {
    pub text_document_position_params: TextDocumentPositionParams,
}

/// An error object of the LSP wire protocol.
pub struct LSPError {
    pub code: i64,
    pub message: String,
}

/// An outgoing LSP request.
pub struct LSPRequest {
    pub jsonrpc: String,
    pub id: u64,
    pub method: String,
    pub params: JsonValue,
}

/// An inbound LSP message: a response when `id` is present, a
/// notification otherwise (notifications are discarded by the reader).
pub struct LSPResponse {
    pub jsonrpc: String,
    pub id: Option<u64>,
    pub result: Option<JsonValue>,
    pub error: Option<LSPError>,
}

/// The kind of a symbol, from the LSP symbol-kind table. Kinds this tool
/// does not treat specially carry their raw code in `Other`.
#[derive(Clone, Copy, PartialEq, Eq, Structural, Debug)]
pub enum SymbolKind {
    File,
    Module,
    Class,
    Method,
    Property,
    Field,
    Constructor,
    Enum,
    Interface,
    Function,
    Variable,
    Constant,
    Struct,
    EnumMember,
    TypeParameter,
    Other(u32),
}

/// The numeric code of a symbol kind on the wire.
pub open spec fn kind_code(k: SymbolKind) -> u32 {
    match k {
        SymbolKind::File => 1,
        SymbolKind::Module => 2,
        SymbolKind::Class => 5,
        SymbolKind::Method => 6,
        SymbolKind::Property => 7,
        SymbolKind::Field => 8,
        SymbolKind::Constructor => 9,
        SymbolKind::Enum => 10,
        SymbolKind::Interface => 11,
        SymbolKind::Function => 12,
        SymbolKind::Variable => 13,
        SymbolKind::Constant => 14,
        SymbolKind::Struct => 23,
        SymbolKind::EnumMember => 22,
        SymbolKind::TypeParameter => 26,
        SymbolKind::Other(c) => c,
    }
}

/// The kind a numeric code names.
pub open spec fn spec_kind_of(c: u32) -> SymbolKind {
    if c == 1 {
        SymbolKind::File
    } else if c == 2 {
        SymbolKind::Module
    } else if c == 5 {
        SymbolKind::Class
    } else if c == 6 {
        SymbolKind::Method
    } else if c == 7 {
        SymbolKind::Property
    } else if c == 8 {
        SymbolKind::Field
    } else if c == 9 {
        SymbolKind::Constructor
    } else if c == 10 {
        SymbolKind::Enum
    } else if c == 11 {
        SymbolKind::Interface
    } else if c == 12 {
        SymbolKind::Function
    } else if c == 13 {
        SymbolKind::Variable
    } else if c == 14 {
        SymbolKind::Constant
    } else if c == 23 {
        SymbolKind::Struct
    } else if c == 22 {
        SymbolKind::EnumMember
    } else if c == 26 {
        SymbolKind::TypeParameter
    } else {
        SymbolKind::Other(c)
    }
}

impl SymbolKind {
    /// The kind for a wire code.
    pub fn from_code(c: u32) -> (r: SymbolKind)
        ensures
            r == spec_kind_of(c),
    {
        if c == 1 {
            SymbolKind::File
        } else if c == 2 {
            SymbolKind::Module
        } else if c == 5 {
            SymbolKind::Class
        } else if c == 6 {
            SymbolKind::Method
        } else if c == 7 {
            SymbolKind::Property
        } else if c == 8 {
            SymbolKind::Field
        } else if c == 9 {
            SymbolKind::Constructor
        } else if c == 10 {
            SymbolKind::Enum
        } else if c == 11 {
            SymbolKind::Interface
        } else if c == 12 {
            SymbolKind::Function
        } else if c == 13 {
            SymbolKind::Variable
        } else if c == 14 {
            SymbolKind::Constant
        } else if c == 23 {
            SymbolKind::Struct
        } else if c == 22 {
            SymbolKind::EnumMember
        } else if c == 26 {
            SymbolKind::TypeParameter
        } else {
            SymbolKind::Other(c)
        }
    }

    /// The wire code of this kind.
    pub fn code(self) -> (r: u32)
        ensures
            r == kind_code(self),
    {
        match self {
            SymbolKind::File => 1,
            SymbolKind::Module => 2,
            SymbolKind::Class => 5,
            SymbolKind::Method => 6,
            SymbolKind::Property => 7,
            SymbolKind::Field => 8,
            SymbolKind::Constructor => 9,
            SymbolKind::Enum => 10,
            SymbolKind::Interface => 11,
            SymbolKind::Function => 12,
            SymbolKind::Variable => 13,
            SymbolKind::Constant => 14,
            SymbolKind::Struct => 23,
            SymbolKind::EnumMember => 22,
            SymbolKind::TypeParameter => 26,
            SymbolKind::Other(c) => c,
        }
    }

    /// A display name for the kind.
    pub fn name(self) -> (r: &'static str)
        ensures
            r@ == spec_kind_name(self),
    {
        match self {
            SymbolKind::File => "File",
            SymbolKind::Module => "Module",
            SymbolKind::Class => "Class",
            SymbolKind::Method => "Method",
            SymbolKind::Property => "Property",
            SymbolKind::Field => "Field",
            SymbolKind::Constructor => "Constructor",
            SymbolKind::Enum => "Enum",
            SymbolKind::Interface => "Interface",
            SymbolKind::Function => "Function",
            SymbolKind::Variable => "Variable",
            SymbolKind::Constant => "Constant",
            SymbolKind::Struct => "Struct",
            SymbolKind::EnumMember => "EnumMember",
            SymbolKind::TypeParameter => "TypeParameter",
            SymbolKind::Other(_) => "Other",
        }
    }
}

/// The display name of each kind.
pub open spec fn spec_kind_name(k: SymbolKind) -> Seq<char> {
    match k {
        SymbolKind::File => "File"@,
        SymbolKind::Module => "Module"@,
        SymbolKind::Class => "Class"@,
        SymbolKind::Method => "Method"@,
        SymbolKind::Property => "Property"@,
        SymbolKind::Field => "Field"@,
        SymbolKind::Constructor => "Constructor"@,
        SymbolKind::Enum => "Enum"@,
        SymbolKind::Interface => "Interface"@,
        SymbolKind::Function => "Function"@,
        SymbolKind::Variable => "Variable"@,
        SymbolKind::Constant => "Constant"@,
        SymbolKind::Struct => "Struct"@,
        SymbolKind::EnumMember => "EnumMember"@,
        SymbolKind::TypeParameter => "TypeParameter"@,
        SymbolKind::Other(_) => "Other"@,
    }
}

/// A code whose kind is not `Other` comes back unchanged: the wire
/// mapping of symbol kinds loses nothing.
pub proof fn lemma_kind_code_roundtrip(k: SymbolKind)
    requires
        k matches SymbolKind::Other(c) ==> spec_kind_of(c) == k,
    ensures
        spec_kind_of(kind_code(k)) == k,
{
}

/// A flat symbol as `workspace/symbol` reports it.
pub struct SymbolInformation {
    pub name: String,
    pub kind: SymbolKind,
    pub container_name: Option<String>,
    pub location: Location,
}

/// A node of the hierarchical `textDocument/documentSymbol` tree.
pub struct DocumentSymbol {
    pub name: String,
    pub kind: SymbolKind,
    pub range: Range,
    pub selection_range: Range,
    pub children: Option<Vec<DocumentSymbol>>,
}

/// One entry of a hover array: plain prose or a language-tagged block.
pub enum MarkedString {
    Plain(String),
    Code { language: String, value: String },
}

/// The payload shapes a hover response can carry.
pub enum HoverContents {
    /// A bare string.
    Scalar(String),
    /// One language-tagged block.
    Marked { language: String, value: String },
    /// An array of strings and tagged blocks.
    Array(Vec<MarkedString>),
    /// A markup object with a kind (`markdown`, `plaintext`) and a body.
    Markup { kind: String, value: String },
}

/// A hover result: contents plus the range they apply to.
pub struct Hover {
    pub contents: HoverContents,
    pub range: Option<Range>,
}

/// The text of one marked string.
pub open spec fn spec_marked_text(m: MarkedString) -> Seq<char> {
    match m {
        MarkedString::Plain(s) => s@,
        MarkedString::Code { language, value } => value@,
    }
}

/// The text a hover payload carries, with array entries joined by
/// newlines: the one helper every formatter and the members handler use.
pub open spec fn spec_hover_text(h: HoverContents) -> Seq<char>
    decreases h,
{
    match h {
        HoverContents::Scalar(s) => s@,
        HoverContents::Marked { language, value } => value@,
        HoverContents::Array(items) => spec_joined_texts(items@),
        HoverContents::Markup { kind, value } => value@,
    }
}

/// Newline-joined texts of an array of marked strings.
pub open spec fn spec_joined_texts(items: Seq<MarkedString>) -> Seq<char>
    decreases items,
{
    if items.len() == 0 {
        Seq::empty()
    } else if items.len() == 1 {
        spec_marked_text(items[0])
    } else {
        spec_joined_texts(items.subrange(0, items.len() - 1)) + seq!['\n'] + spec_marked_text(
            items[items.len() - 1])
    }
}

/// Extract the plain text of a hover payload.
pub fn extract_text(h: &HoverContents) -> (r: String)
    ensures
        r@ == spec_hover_text(*h),
{
    match h {
        HoverContents::Scalar(s) => clone_string(s),
        HoverContents::Marked { language, value } => clone_string(value),
        HoverContents::Array(items) => {
            let mut out = String::new();
            let mut i: usize = 0;
            while i < items.len()
                invariant
                    i <= items@.len(),
                    out@ == spec_joined_texts(items@.subrange(0, i as int)),
                decreases items@.len() - i,
            {
                if i > 0 {
                    crate::strutil::push_char(&mut out, '\n');
                }
                let t = match &items[i] {
                    MarkedString::Plain(s) => clone_string(s),
                    MarkedString::Code { language, value } => clone_string(value),
                };
                crate::strutil::append_str(&mut out, t.as_str());
                i = i + 1;
                proof {
                    let p = items@.subrange(0, i - 1);
                    let q = items@.subrange(0, i as int);
                    assert(q.subrange(0, q.len() - 1) =~= p);
                    assert(q[q.len() - 1] == items@[i - 1]);
                    if i == 1 {
                        assert(out@ =~= spec_joined_texts(q));
                    } else {
                        assert(out@ =~= spec_joined_texts(q));
                    }
                }
            }
            proof {
                assert(items@.subrange(0, items@.len() as int) =~= items@);
            }
            out
        },
        HoverContents::Markup { kind, value } => clone_string(value),
    }
}

} // verus!

verus! {

use crate::json::wf_json;
use vstd::string::StringExecFns;

/// An unsigned 32-bit coordinate, from a JSON number.
pub open spec fn spec_u32_of(v: JsonValue) -> Option<u32> {
    match v {
        JsonValue::Int { neg, mag } => if !neg && mag <= 0xffff_ffffu64 {
            Some(mag as u32)
        } else {
            None
        },
        _ => None,
    }
}

/// The position a JSON value encodes: `{"line":l,"character":c}`.
pub open spec fn spec_position_of(v: JsonValue) -> Option<Position> {
    match v {
        JsonValue::Obj(o) => {
            if o@.len() == 2 && o@[0].0@ == "line"@ && o@[1].0@ == "character"@ {
                match (spec_u32_of(o@[0].1), spec_u32_of(o@[1].1)) {
                    (Some(line), Some(character)) => Some(Position { line, character }),
                    _ => None,
                }
            } else {
                None
            }
        },
        _ => None,
    }
}

/// The range a JSON value encodes: `{"start":p,"end":q}`.
pub open spec fn spec_range_of(v: JsonValue) -> Option<Range> {
    match v {
        JsonValue::Obj(o) => {
            if o@.len() == 2 && o@[0].0@ == "start"@ && o@[1].0@ == "end"@ {
                match (spec_position_of(o@[0].1), spec_position_of(o@[1].1)) {
                    (Some(start), Some(end)) => Some(Range { start, end }),
                    _ => None,
                }
            } else {
                None
            }
        },
        _ => None,
    }
}

/// The location a JSON value encodes: `{"uri":u,"range":r}`.
pub open spec fn spec_location_of(v: JsonValue) -> Option<(Seq<char>, Range)> {
    match v {
        JsonValue::Obj(o) => {
            if o@.len() == 2 && o@[0].0@ == "uri"@ && o@[1].0@ == "range"@ {
                match (o@[0].1, spec_range_of(o@[1].1)) {
                    (JsonValue::Str(u), Some(range)) => Some((u@, range)),
                    _ => None,
                }
            } else {
                None
            }
        },
        _ => None,
    }
}

/// Read a `u32` out of a JSON number.
pub fn u32_from_json(v: &JsonValue) -> (r: Option<u32>)
    ensures
        r == spec_u32_of(*v),
{
    match v {
        JsonValue::Int { neg, mag } => {
            if !*neg && *mag <= 0xffff_ffffu64 {
                Some(*mag as u32)
            } else {
                None
            }
        },
        _ => None,
    }
}

/// Decode a position.
pub fn position_from_json(v: &JsonValue) -> (r: Option<Position>)
    ensures
        r == spec_position_of(*v),
{
    match v {
        JsonValue::Obj(o) => {
            if o.len() != 2 {
                return None;
            }
            if !(string_eq_str(&o[0].0, "line") && string_eq_str(&o[1].0, "character")) {
                return None;
            }
            let line = match u32_from_json(&o[0].1) {
                Some(x) => x,
                None => { return None; },
            };
            let character = match u32_from_json(&o[1].1) {
                Some(x) => x,
                None => { return None; },
            };
            Some(Position { line, character })
        },
        _ => None,
    }
}

/// Encode a position canonically.
pub fn position_to_json(p: Position) -> (r: JsonValue)
    ensures
        spec_position_of(r) == Some(p),
        wf_json(r),
{
    let mut o: Vec<(String, JsonValue)> = Vec::new();
    o.push((String::from_str("line"), JsonValue::Int { neg: false, mag: p.line as u64 }));
    o.push((String::from_str("character"), JsonValue::Int { neg: false, mag: p.character as u64 }));
    let v = JsonValue::Obj(o);
    proof {
        match &v {
            JsonValue::Obj(oo) => {
                assert(wf_json(v)) by {
                    assert(forall|i: int| 0 <= i < oo@.len() ==> wf_json(#[trigger] oo@[i].1));
                }
            },
            _ => {},
        }
    }
    v
}

/// Decode a range.
pub fn range_from_json(v: &JsonValue) -> (r: Option<Range>)
    ensures
        r == spec_range_of(*v),
{
    match v {
        JsonValue::Obj(o) => {
            if o.len() != 2 {
                return None;
            }
            if !(string_eq_str(&o[0].0, "start") && string_eq_str(&o[1].0, "end")) {
                return None;
            }
            let start = match position_from_json(&o[0].1) {
                Some(x) => x,
                None => { return None; },
            };
            let end = match position_from_json(&o[1].1) {
                Some(x) => x,
                None => { return None; },
            };
            Some(Range { start, end })
        },
        _ => None,
    }
}

/// Encode a range canonically.
pub fn range_to_json(rg: Range) -> (r: JsonValue)
    ensures
        spec_range_of(r) == Some(rg),
        wf_json(r),
{
    let mut o: Vec<(String, JsonValue)> = Vec::new();
    o.push((String::from_str("start"), position_to_json(rg.start)));
    o.push((String::from_str("end"), position_to_json(rg.end)));
    let v = JsonValue::Obj(o);
    proof {
        match &v {
            JsonValue::Obj(oo) => {
                assert(wf_json(v)) by {
                    assert(forall|i: int| 0 <= i < oo@.len() ==> wf_json(#[trigger] oo@[i].1));
                }
            },
            _ => {},
        }
    }
    v
}

/// Decode a location.
pub fn location_from_json(v: &JsonValue) -> (r: Option<Location>)
    ensures
        match r {
            Some(l) => spec_location_of(*v) == Some(location_model(l)),
            None => spec_location_of(*v) is None,
        },
{
    match v {
        JsonValue::Obj(o) => {
            if o.len() != 2 {
                return None;
            }
            if !(string_eq_str(&o[0].0, "uri") && string_eq_str(&o[1].0, "range")) {
                return None;
            }
            let uri = match &o[0].1 {
                JsonValue::Str(u) => clone_string(u),
                _ => { return None; },
            };
            let range = match range_from_json(&o[1].1) {
                Some(x) => x,
                None => { return None; },
            };
            Some(Location { uri, range })
        },
        _ => None,
    }
}

/// Encode a location canonically.
pub fn location_to_json(l: &Location) -> (r: JsonValue)
    ensures
        spec_location_of(r) == Some(location_model(*l)),
        wf_json(r),
{
    let mut o: Vec<(String, JsonValue)> = Vec::new();
    o.push((String::from_str("uri"), JsonValue::Str(clone_string(&l.uri))));
    o.push((String::from_str("range"), range_to_json(l.range)));
    let v = JsonValue::Obj(o);
    proof {
        match &v {
            JsonValue::Obj(oo) => {
                assert(wf_json(v)) by {
                    assert(forall|i: int| 0 <= i < oo@.len() ==> wf_json(#[trigger] oo@[i].1));
                }
            },
            _ => {},
        }
    }
    v
}

/// The location list a definition reply encodes. A definition reply may
/// be `null`, one location object, or an array of locations; all three
/// normalize to a list.
pub open spec fn spec_definition_locations(v: JsonValue) -> Option<Seq<(Seq<char>, Range)>> {
    match v {
        JsonValue::Null => Some(Seq::empty()),
        JsonValue::Obj(o) => match spec_location_of(v) {
            Some(l) => Some(seq![l]),
            None => None,
        },
        JsonValue::Arr(a) => spec_locations_of_seq(a@),
        _ => None,
    }
}

/// The locations of an array of location objects, if every element is one.
pub open spec fn spec_locations_of_seq(a: Seq<JsonValue>) -> Option<Seq<(Seq<char>, Range)>>
    decreases a.len(),
{
    if a.len() == 0 {
        Some(Seq::empty())
    } else {
        match (spec_locations_of_seq(a.subrange(0, a.len() - 1)), spec_location_of(
            a[a.len() - 1])) {
            (Some(front), Some(l)) => Some(front.push(l)),
            _ => None,
        }
    }
}

/// The models of a vector of locations.
pub open spec fn locations_model(v: Seq<Location>) -> Seq<(Seq<char>, Range)> {
    Seq::new(v.len(), |i: int| location_model(v[i]))
}

/// Taking models commutes with appending one location.
pub proof fn lemma_locations_model_push(v: Seq<Location>, l: Location)
    ensures
        locations_model(v.push(l)) =~= locations_model(v).push(location_model(l)),
{
}

/// Normalize a definition reply to a list of locations: `null` becomes
/// the empty list, a single object a one-element list, an array itself.
pub fn locations_from_definition_reply(v: &JsonValue) -> (r: Option<Vec<Location>>)
    ensures
        match r {
            Some(ls) => spec_definition_locations(*v) == Some(locations_model(ls@)),
            None => spec_definition_locations(*v) is None,
        },
{
    match v {
        JsonValue::Null => {
            let ls: Vec<Location> = Vec::new();
            proof {
                assert(locations_model(ls@) =~= Seq::<(Seq<char>, Range)>::empty());
            }
            Some(ls)
        },
        JsonValue::Obj(o) => {
            match location_from_json(v) {
                Some(l) => {
                    let mut ls: Vec<Location> = Vec::new();
                    ls.push(l);
                    proof {
                        assert(locations_model(ls@) =~= seq![location_model(ls@[0])]);
                    }
                    Some(ls)
                },
                None => None,
            }
        },
        JsonValue::Arr(a) => {
            let mut ls: Vec<Location> = Vec::new();
            let mut i: usize = 0;
            while i < a.len()
                invariant
                    *v == JsonValue::Arr(*a),
                    i <= a@.len(),
                    spec_locations_of_seq(a@.subrange(0, i as int)) == Some(locations_model(ls@)),
                decreases a@.len() - i,
            {
                let l = match location_from_json(&a[i]) {
                    Some(l) => l,
                    None => {
                        proof {
                            lemma_locations_of_seq_prefix_none(a@, i as int);
                        }
                        return None;
                    },
                };
                ls.push(l);
                i = i + 1;
                proof {
                    let p = a@.subrange(0, i - 1);
                    let q = a@.subrange(0, i as int);
                    assert(q.subrange(0, q.len() - 1) =~= p);
                    assert(q[q.len() - 1] == a@[i - 1]);
                    assert(locations_model(ls@) =~= locations_model(ls@.subrange(
                        0, ls@.len() - 1)).push(location_model(ls@[ls@.len() - 1])));
                    assert(locations_model(ls@.subrange(0, ls@.len() - 1)) =~= locations_model(
                        ls@).subrange(0, ls@.len() - 1));
                }
            }
            proof {
                assert(a@.subrange(0, a@.len() as int) =~= a@);
            }
            Some(ls)
        },
        _ => None,
    }
}

/// If one element of an array fails to parse as a location, the whole
/// array has no location list.
proof fn lemma_locations_of_seq_prefix_none(a: Seq<JsonValue>, i: int)
    requires
        0 <= i < a.len(),
        spec_location_of(a[i]) is None,
    ensures
        spec_locations_of_seq(a.subrange(0, a.len() as int)) is None,
        spec_locations_of_seq(a) is None,
    decreases a.len() - i,
{
    assert(a.subrange(0, a.len() as int) =~= a);
    if i == a.len() - 1 {
        assert(spec_locations_of_seq(a) is None);
    } else {
        let f = a.subrange(0, a.len() - 1);
        assert(f[i] == a[i]);
        lemma_locations_of_seq_prefix_none(f, i);
        assert(spec_locations_of_seq(a) is None);
    }
}

/// The LSP response or server message a JSON value encodes. Only
/// response shapes (an id with a result or an error) yield a value with
/// an id; everything else is not a response and is discarded upstream.
pub open spec fn spec_lsp_error_of(v: JsonValue) -> Option<(int, Seq<char>)> {
    match v {
        JsonValue::Obj(o) => {
            if o@.len() == 2 && o@[0].0@ == "code"@ && o@[1].0@ == "message"@ {
                match (o@[0].1, o@[1].1) {
                    (JsonValue::Int { neg, mag }, JsonValue::Str(m)) => {
                        if (!neg && mag <= 0x7fff_ffff_ffff_ffffu64) || (neg && 1 <= mag
                            <= 0x8000_0000_0000_0000u64) {
                            Some((if neg { -(mag as int) } else { mag as int }, m@))
                        } else {
                            None
                        }
                    },
                    _ => None,
                }
            } else {
                None
            }
        },
        _ => None,
    }
}

/// Decode an LSP error object.
pub fn lsp_error_from_json(v: &JsonValue) -> (r: Option<LSPError>)
    ensures
        match r {
            Some(e) => spec_lsp_error_of(*v) == Some((e.code as int, e.message@)),
            None => spec_lsp_error_of(*v) is None,
        },
{
    match v {
        JsonValue::Obj(o) => {
            if o.len() != 2 {
                return None;
            }
            if !(string_eq_str(&o[0].0, "code") && string_eq_str(&o[1].0, "message")) {
                return None;
            }
            let code = match crate::protocol::i64_of_json(&o[0].1) {
                Some(c) => c,
                None => {
                    proof {
                        match o@[0].1 {
                            JsonValue::Int { neg, mag } => {
                                if !neg && mag <= 0x7fff_ffff_ffff_ffffu64 {
                                    assert(crate::protocol::int_encodes(
                                        o@[0].1, (mag as i64) as int));
                                }
                                if neg && 1 <= mag && mag <= 0x8000_0000_0000_0000u64 {
                                    let x = (-(mag as int)) as i64;
                                    assert(x as int == -(mag as int));
                                    assert(crate::protocol::int_encodes(o@[0].1, x as int));
                                }
                            },
                            _ => {},
                        }
                    }
                    return None;
                },
            };
            let message = match &o[1].1 {
                JsonValue::Str(m) => clone_string(m),
                _ => { return None; },
            };
            Some(LSPError { code, message })
        },
        _ => None,
    }
}

} // verus!

verus! {

use crate::strutil::append_str;

/// Whether `v` is the JSON form of one marked string: a bare string or
/// a `{"language":l,"value":t}` object.
pub open spec fn is_marked_json(v: JsonValue, m: MarkedString) -> bool {
    match (v, m) {
        (JsonValue::Str(s), MarkedString::Plain(t)) => s@ == t@,
        (JsonValue::Obj(o), MarkedString::Code { language, value }) => {
            &&& o@.len() == 2
            &&& o@[0].0@ == "language"@
            &&& (o@[0].1 matches JsonValue::Str(l) && l@ == language@)
            &&& o@[1].0@ == "value"@
            &&& (o@[1].1 matches JsonValue::Str(t) && t@ == value@)
        },
        _ => false,
    }
}

/// Whether `v` is the JSON form of a hover payload: one of the four
/// shapes the LSP allows.
pub open spec fn is_hover_contents_json(v: JsonValue, h: HoverContents) -> bool {
    match h {
        HoverContents::Scalar(s) => (v matches JsonValue::Str(t) && t@ == s@),
        HoverContents::Marked { language, value } => {
            match v {
                JsonValue::Obj(o) => {
                    &&& o@.len() == 2
                    &&& o@[0].0@ == "language"@
                    &&& (o@[0].1 matches JsonValue::Str(l) && l@ == language@)
                    &&& o@[1].0@ == "value"@
                    &&& (o@[1].1 matches JsonValue::Str(t) && t@ == value@)
                },
                _ => false,
            }
        },
        HoverContents::Array(items) => {
            match v {
                JsonValue::Arr(a) => a@.len() == items@.len() && forall|i: int|
                    0 <= i < a@.len() ==> is_marked_json(#[trigger] a@[i], items@[i]),
                _ => false,
            }
        },
        HoverContents::Markup { kind, value } => {
            match v {
                JsonValue::Obj(o) => {
                    &&& o@.len() == 2
                    &&& o@[0].0@ == "kind"@
                    &&& (o@[0].1 matches JsonValue::Str(k) && k@ == kind@)
                    &&& o@[1].0@ == "value"@
                    &&& (o@[1].1 matches JsonValue::Str(t) && t@ == value@)
                },
                _ => false,
            }
        },
    }
}

/// Whether `v` is the JSON form of a hover result: contents plus an
/// optional range (`null` when absent).
pub open spec fn is_hover_json(v: JsonValue, h: Hover) -> bool {
    match v {
        JsonValue::Obj(o) => {
            &&& o@.len() == 2
            &&& o@[0].0@ == "contents"@
            &&& is_hover_contents_json(o@[0].1, h.contents)
            &&& o@[1].0@ == "range"@
            &&& match h.range {
                Some(rg) => spec_range_of(o@[1].1) == Some(rg),
                None => o@[1].1 is Null,
            }
        },
        _ => false,
    }
}

/// Decode one marked string.
pub fn marked_from_json(v: &JsonValue) -> (r: Option<MarkedString>)
    ensures
        match r {
            Some(m) => is_marked_json(*v, m),
            None => forall|m: MarkedString| !is_marked_json(*v, m),
        },
{
    match v {
        JsonValue::Str(s) => Some(MarkedString::Plain(clone_string(s))),
        JsonValue::Obj(o) => {
            if o.len() != 2 {
                return None;
            }
            if !(string_eq_str(&o[0].0, "language") && string_eq_str(&o[1].0, "value")) {
                return None;
            }
            let language = match &o[0].1 {
                JsonValue::Str(l) => clone_string(l),
                _ => { return None; },
            };
            let value = match &o[1].1 {
                JsonValue::Str(t) => clone_string(t),
                _ => { return None; },
            };
            Some(MarkedString::Code { language, value })
        },
        _ => None,
    }
}

/// Encode one marked string.
pub fn marked_to_json(m: &MarkedString) -> (r: JsonValue)
    ensures
        is_marked_json(r, *m),
        crate::json::wf_json(r),
{
    match m {
        MarkedString::Plain(t) => JsonValue::Str(clone_string(t)),
        MarkedString::Code { language, value } => {
            let mut o: Vec<(String, JsonValue)> = Vec::new();
            o.push((String::from_str("language"), JsonValue::Str(clone_string(language))));
            o.push((String::from_str("value"), JsonValue::Str(clone_string(value))));
            let v = JsonValue::Obj(o);
            proof {
                match &v {
                    JsonValue::Obj(oo) => {
                        assert(crate::json::wf_json(v)) by {
                            assert(forall|i: int|
                                0 <= i < oo@.len() ==> crate::json::wf_json(#[trigger] oo@[i].1));
                        }
                    },
                    _ => {},
                }
            }
            v
        },
    }
}

/// Decode a hover payload. A bare string is a scalar; an object with a
/// `language` is a marked block, one with a `kind` is markup; an array
/// holds marked strings.
pub fn hover_contents_from_json(v: &JsonValue) -> (r: Option<HoverContents>)
    ensures
        match r {
            Some(h) => is_hover_contents_json(*v, h),
            None => forall|h: HoverContents| !is_hover_contents_json(*v, h),
        },
{
    match v {
        JsonValue::Str(s) => Some(HoverContents::Scalar(clone_string(s))),
        JsonValue::Obj(o) => {
            if o.len() != 2 {
                return None;
            }
            if string_eq_str(&o[0].0, "language") && string_eq_str(&o[1].0, "value") {
                let language = match &o[0].1 {
                    JsonValue::Str(l) => clone_string(l),
                    _ => { return None; },
                };
                let value = match &o[1].1 {
                    JsonValue::Str(t) => clone_string(t),
                    _ => { return None; },
                };
                Some(HoverContents::Marked { language, value })
            } else if string_eq_str(&o[0].0, "kind") && string_eq_str(&o[1].0, "value") {
                let kind = match &o[0].1 {
                    JsonValue::Str(k) => clone_string(k),
                    _ => { return None; },
                };
                let value = match &o[1].1 {
                    JsonValue::Str(t) => clone_string(t),
                    _ => { return None; },
                };
                Some(HoverContents::Markup { kind, value })
            } else {
                None
            }
        },
        JsonValue::Arr(a) => {
            let mut items: Vec<MarkedString> = Vec::new();
            let mut i: usize = 0;
            while i < a.len()
                invariant
                    v == JsonValue::Arr(*a),
                    i <= a@.len(),
                    items@.len() == i,
                    forall|k: int|
                        0 <= k < i ==> is_marked_json(#[trigger] a@[k], items@[k]),
                decreases a@.len() - i,
            {
                let m = match marked_from_json(&a[i]) {
                    Some(m) => m,
                    None => {
                        proof {
                            assert forall|h: HoverContents| !is_hover_contents_json(
                                *v, h) by {
                                match h {
                                    HoverContents::Array(hs) => {
                                        if is_hover_contents_json(*v, h) {
                                            assert(is_marked_json(a@[i as int], hs@[i as int]));
                                        }
                                    },
                                    _ => {},
                                }
                            }
                        }
                        return None;
                    },
                };
                items.push(m);
                i = i + 1;
            }
            Some(HoverContents::Array(items))
        },
        _ => None,
    }
}

/// Encode a hover payload.
pub fn hover_contents_to_json(h: &HoverContents) -> (r: JsonValue)
    ensures
        is_hover_contents_json(r, *h),
        crate::json::wf_json(r),
{
    match h {
        HoverContents::Scalar(s) => JsonValue::Str(clone_string(s)),
        HoverContents::Marked { language, value } => {
            let mut o: Vec<(String, JsonValue)> = Vec::new();
            o.push((String::from_str("language"), JsonValue::Str(clone_string(language))));
            o.push((String::from_str("value"), JsonValue::Str(clone_string(value))));
            let v = JsonValue::Obj(o);
            proof {
                match &v {
                    JsonValue::Obj(oo) => {
                        assert(crate::json::wf_json(v)) by {
                            assert(forall|i: int|
                                0 <= i < oo@.len() ==> crate::json::wf_json(#[trigger] oo@[i].1));
                        }
                    },
                    _ => {},
                }
            }
            v
        },
        HoverContents::Array(items) => {
            let mut a: Vec<JsonValue> = Vec::new();
            let mut i: usize = 0;
            while i < items.len()
                invariant
                    i <= items@.len(),
                    a@.len() == i,
                    forall|k: int|
                        0 <= k < i ==> is_marked_json(#[trigger] a@[k], items@[k])
                            && crate::json::wf_json(a@[k]),
                decreases items@.len() - i,
            {
                a.push(marked_to_json(&items[i]));
                i = i + 1;
            }
            let v = JsonValue::Arr(a);
            proof {
                match &v {
                    JsonValue::Arr(aa) => {
                        assert(crate::json::wf_json(v)) by {
                            assert(forall|i2: int|
                                0 <= i2 < aa@.len() ==> crate::json::wf_json(#[trigger] aa@[i2]));
                        }
                    },
                    _ => {},
                }
            }
            v
        },
        HoverContents::Markup { kind, value } => {
            let mut o: Vec<(String, JsonValue)> = Vec::new();
            o.push((String::from_str("kind"), JsonValue::Str(clone_string(kind))));
            o.push((String::from_str("value"), JsonValue::Str(clone_string(value))));
            let v = JsonValue::Obj(o);
            proof {
                match &v {
                    JsonValue::Obj(oo) => {
                        assert(crate::json::wf_json(v)) by {
                            assert(forall|i: int|
                                0 <= i < oo@.len() ==> crate::json::wf_json(#[trigger] oo@[i].1));
                        }
                    },
                    _ => {},
                }
            }
            v
        },
    }
}

/// Decode a hover result object.
pub fn hover_from_json(v: &JsonValue) -> (r: Option<Hover>)
    ensures
        match r {
            Some(h) => is_hover_json(*v, h),
            None => forall|h: Hover| !is_hover_json(*v, h),
        },
{
    match v {
        JsonValue::Obj(o) => {
            if o.len() != 2 {
                return None;
            }
            if !(string_eq_str(&o[0].0, "contents") && string_eq_str(&o[1].0, "range")) {
                return None;
            }
            let contents = match hover_contents_from_json(&o[0].1) {
                Some(h) => h,
                None => { return None; },
            };
            let range: Option<Range> = match &o[1].1 {
                JsonValue::Null => None,
                other => match range_from_json(other) {
                    Some(rg) => Some(rg),
                    None => { return None; },
                },
            };
            Some(Hover { contents, range })
        },
        _ => None,
    }
}

/// Encode a hover result object, with `null` for a missing range.
pub fn hover_to_json(h: &Hover) -> (r: JsonValue)
    ensures
        is_hover_json(r, *h),
{
    let mut o: Vec<(String, JsonValue)> = Vec::new();
    o.push((String::from_str("contents"), hover_contents_to_json(&h.contents)));
    match &h.range {
        Some(rg) => {
            o.push((String::from_str("range"), range_to_json(*rg)));
        },
        None => {
            o.push((String::from_str("range"), JsonValue::Null));
        },
    }
    JsonValue::Obj(o)
}

/// Whether `v` is the JSON form of one flat symbol.
pub open spec fn is_symbol_information_json(v: JsonValue, s: SymbolInformation) -> bool {
    match v {
        JsonValue::Obj(o) => {
            &&& o@.len() == 4
            &&& o@[0].0@ == "name"@
            &&& (o@[0].1 matches JsonValue::Str(n) && n@ == s.name@)
            &&& o@[1].0@ == "kind"@
            &&& spec_u32_of(o@[1].1) == Some(kind_code(s.kind))
            &&& o@[2].0@ == "containerName"@
            &&& match s.container_name {
                Some(cn) => (o@[2].1 matches JsonValue::Str(t) && t@ == cn@),
                None => o@[2].1 is Null,
            }
            &&& o@[3].0@ == "location"@
            &&& spec_location_of(o@[3].1) == Some(location_model(s.location))
        },
        _ => false,
    }
}

/// Decode one flat symbol.
pub fn symbol_information_from_json(v: &JsonValue) -> (r: Option<SymbolInformation>)
    ensures
        match r {
            Some(s) => is_symbol_information_json(*v, s),
            None => forall|s: SymbolInformation| !is_symbol_information_json(*v, s),
        },
{
    match v {
        JsonValue::Obj(o) => {
            if o.len() != 4 {
                return None;
            }
            if !(string_eq_str(&o[0].0, "name") && string_eq_str(&o[1].0, "kind")
                && string_eq_str(&o[2].0, "containerName") && string_eq_str(&o[3].0, "location")) {
                return None;
            }
            let name = match &o[0].1 {
                JsonValue::Str(n) => clone_string(n),
                _ => { return None; },
            };
            let kind = match u32_from_json(&o[1].1) {
                Some(c) => SymbolKind::from_code(c),
                None => { return None; },
            };
            let container_name: Option<String> = match &o[2].1 {
                JsonValue::Null => None,
                JsonValue::Str(t) => Some(clone_string(t)),
                _ => { return None; },
            };
            let location = match location_from_json(&o[3].1) {
                Some(l) => l,
                None => { return None; },
            };
            Some(SymbolInformation { name, kind, container_name, location })
        },
        _ => None,
    }
}

/// Encode one flat symbol.
pub fn symbol_information_to_json(s: &SymbolInformation) -> (r: JsonValue)
    ensures
        is_symbol_information_json(r, *s),
{
    let mut o: Vec<(String, JsonValue)> = Vec::new();
    o.push((String::from_str("name"), JsonValue::Str(clone_string(&s.name))));
    o.push((String::from_str("kind"), JsonValue::Int { neg: false, mag: s.kind.code() as u64 }));
    match &s.container_name {
        Some(cn) => {
            o.push((String::from_str("containerName"), JsonValue::Str(clone_string(cn))));
        },
        None => {
            o.push((String::from_str("containerName"), JsonValue::Null));
        },
    }
    o.push((String::from_str("location"), location_to_json(&s.location)));
    JsonValue::Obj(o)
}

/// Whether `v` is the JSON form of a document-symbol node (children as
/// an array, or `null` for a leaf).
pub open spec fn is_document_symbol_json(v: JsonValue, d: DocumentSymbol) -> bool
    decreases d,
{
    match v {
        JsonValue::Obj(o) => {
            &&& o@.len() == 5
            &&& o@[0].0@ == "name"@
            &&& (o@[0].1 matches JsonValue::Str(n) && n@ == d.name@)
            &&& o@[1].0@ == "kind"@
            &&& spec_u32_of(o@[1].1) == Some(kind_code(d.kind))
            &&& o@[2].0@ == "range"@
            &&& spec_range_of(o@[2].1) == Some(d.range)
            &&& o@[3].0@ == "selectionRange"@
            &&& spec_range_of(o@[3].1) == Some(d.selection_range)
            &&& o@[4].0@ == "children"@
            &&& match d.children {
                None => o@[4].1 is Null,
                Some(cs) => match o@[4].1 {
                    JsonValue::Arr(a) => a@.len() == cs@.len() && forall|i: int|
                        0 <= i < a@.len() ==> is_document_symbol_json(
                            #[trigger] a@[i], cs@[i]),
                    _ => false,
                },
            }
        },
        _ => false,
    }
}

/// Decode one document-symbol node and its children.
pub fn document_symbol_from_json(v: &JsonValue) -> (r: Option<DocumentSymbol>)
    ensures
        match r {
            Some(d) => is_document_symbol_json(*v, d),
            None => forall|d: DocumentSymbol| !is_document_symbol_json(*v, d),
        },
    decreases *v,
{
    match v {
        JsonValue::Obj(o) => {
            if o.len() != 5 {
                return None;
            }
            if !(string_eq_str(&o[0].0, "name") && string_eq_str(&o[1].0, "kind")
                && string_eq_str(&o[2].0, "range") && string_eq_str(&o[3].0, "selectionRange")
                && string_eq_str(&o[4].0, "children")) {
                return None;
            }
            let name = match &o[0].1 {
                JsonValue::Str(n) => clone_string(n),
                _ => { return None; },
            };
            let kind = match u32_from_json(&o[1].1) {
                Some(c) => SymbolKind::from_code(c),
                None => { return None; },
            };
            let range = match range_from_json(&o[2].1) {
                Some(rg) => rg,
                None => { return None; },
            };
            let selection_range = match range_from_json(&o[3].1) {
                Some(rg) => rg,
                None => { return None; },
            };
            let children: Option<Vec<DocumentSymbol>> = match &o[4].1 {
                JsonValue::Null => None,
                JsonValue::Arr(a) => {
                    let mut cs: Vec<DocumentSymbol> = Vec::new();
                    let mut i: usize = 0;
                    proof {
                        assert forall|k: int| 0 <= k < a@.len() implies (decreases_to!(
                            *v => a@[k])) by {
                            assert(decreases_to!(*v => o@));
                            assert(decreases_to!(o@ => o@[4]));
                            assert(decreases_to!(o@[4] => o@[4].1));
                            assert(decreases_to!(o@[4].1 => a@));
                            assert(decreases_to!(a@ => a@[k]));
                        }
                    }
                    while i < a.len()
                        invariant
                            i <= a@.len(),
                            cs@.len() == i,
                            *v == JsonValue::Obj(*o),
                            o@[4].1 == JsonValue::Arr(*a),
                            forall|k: int| 0 <= k < a@.len() ==> (decreases_to!(
                                *v => #[trigger] a@[k])),
                            forall|k: int|
                                0 <= k < i ==> is_document_symbol_json(
                                    #[trigger] a@[k], cs@[k]),
                        decreases a@.len() - i,
                    {
                        proof {
                            assert(decreases_to!(*v => a@[i as int]));
                        }
                        let c = match document_symbol_from_json(&a[i]) {
                            Some(c) => c,
                            None => {
                                proof {
                                    assert forall|d: DocumentSymbol| !is_document_symbol_json(
                                        *v, d) by {
                                        match d.children {
                                            Some(ds) => {
                                                if is_document_symbol_json(*v, d) {
                                                    assert(ds@.len() == a@.len());
                                                    assert(is_document_symbol_json(
                                                        a@[i as int], ds@[i as int]));
                                                }
                                            },
                                            None => {},
                                        }
                                    }
                                }
                                return None;
                            },
                        };
                        cs.push(c);
                        i = i + 1;
                    }
                    Some(cs)
                },
                _ => { return None; },
            };
            Some(DocumentSymbol { name, kind, range, selection_range, children })
        },
        _ => None,
    }
}

/// Encode one document-symbol node and its children.
pub fn document_symbol_to_json(d: &DocumentSymbol) -> (r: JsonValue)
    ensures
        is_document_symbol_json(r, *d),
    decreases *d,
{
    let mut o: Vec<(String, JsonValue)> = Vec::new();
    o.push((String::from_str("name"), JsonValue::Str(clone_string(&d.name))));
    o.push((String::from_str("kind"), JsonValue::Int { neg: false, mag: d.kind.code() as u64 }));
    o.push((String::from_str("range"), range_to_json(d.range)));
    o.push((String::from_str("selectionRange"), range_to_json(d.selection_range)));
    match &d.children {
        None => {
            o.push((String::from_str("children"), JsonValue::Null));
        },
        Some(cs) => {
            let mut a: Vec<JsonValue> = Vec::new();
            let mut i: usize = 0;
            proof {
                assert forall|k: int| 0 <= k < cs@.len() implies (decreases_to!(
                    *d => cs@[k])) by {
                    assert(decreases_to!(*d => d.children));
                    assert(decreases_to!(d.children => cs@));
                    assert(decreases_to!(cs@ => cs@[k]));
                }
            }
            while i < cs.len()
                invariant
                    i <= cs@.len(),
                    a@.len() == i,
                    d.children == Some(*cs),
                    forall|k: int| 0 <= k < cs@.len() ==> (decreases_to!(
                        *d => #[trigger] cs@[k])),
                    forall|k: int|
                        0 <= k < i ==> is_document_symbol_json(#[trigger] a@[k], cs@[k]),
                decreases cs@.len() - i,
            {
                proof {
                    assert(decreases_to!(*d => cs@[i as int]));
                }
                let cj = document_symbol_to_json(&cs[i]);
                a.push(cj);
                i = i + 1;
            }
            o.push((String::from_str("children"), JsonValue::Arr(a)));
        },
    }
    JsonValue::Obj(o)
}

} // verus!

verus! {

use crate::params::is_locations_json;

/// Marker for a reply that had a recognizable shape but malformed
/// content: the caller surfaces it as an error rather than a result.
pub struct MalformedReply {}

/// Whether `v` is a JSON array of flat symbols.
pub open spec fn is_symbol_list_json(v: JsonValue, ss: Seq<SymbolInformation>) -> bool {
    match v {
        JsonValue::Arr(a) => a@.len() == ss.len() && forall|i: int|
            0 <= i < a@.len() ==> is_symbol_information_json(#[trigger] a@[i], ss[i]),
        _ => false,
    }
}

/// Whether `v` is a JSON array of document-symbol trees.
pub open spec fn is_document_symbol_list_json(v: JsonValue, ds: Seq<DocumentSymbol>) -> bool {
    match v {
        JsonValue::Arr(a) => a@.len() == ds.len() && forall|i: int|
            0 <= i < a@.len() ==> is_document_symbol_json(#[trigger] a@[i], ds[i]),
        _ => false,
    }
}

/// Decode a symbol array.
pub fn symbol_list_from_json(v: &JsonValue) -> (r: Option<Vec<SymbolInformation>>)
    ensures
        match r {
            Some(ss) => is_symbol_list_json(*v, ss@),
            None => forall|ss: Seq<SymbolInformation>| !is_symbol_list_json(*v, ss),
        },
{
    match v {
        JsonValue::Arr(a) => {
            let mut ss: Vec<SymbolInformation> = Vec::new();
            let mut i: usize = 0;
            while i < a.len()
                invariant
                    *v == JsonValue::Arr(*a),
                    i <= a@.len(),
                    ss@.len() == i,
                    forall|k: int|
                        0 <= k < i ==> is_symbol_information_json(#[trigger] a@[k], ss@[k]),
                decreases a@.len() - i,
            {
                let s = match symbol_information_from_json(&a[i]) {
                    Some(s) => s,
                    None => {
                        proof {
                            assert forall|ss2: Seq<SymbolInformation>| !is_symbol_list_json(
                                *v, ss2) by {
                                if is_symbol_list_json(*v, ss2) {
                                    assert(is_symbol_information_json(a@[i as int], ss2[i as int]));
                                }
                            }
                        }
                        return None;
                    },
                };
                ss.push(s);
                i = i + 1;
            }
            Some(ss)
        },
        _ => None,
    }
}

/// Decode a document-symbol array.
pub fn document_symbol_list_from_json(v: &JsonValue) -> (r: Option<Vec<DocumentSymbol>>)
    ensures
        match r {
            Some(ds) => is_document_symbol_list_json(*v, ds@),
            None => forall|ds: Seq<DocumentSymbol>| !is_document_symbol_list_json(*v, ds),
        },
{
    match v {
        JsonValue::Arr(a) => {
            let mut ds: Vec<DocumentSymbol> = Vec::new();
            let mut i: usize = 0;
            while i < a.len()
                invariant
                    *v == JsonValue::Arr(*a),
                    i <= a@.len(),
                    ds@.len() == i,
                    forall|k: int|
                        0 <= k < i ==> is_document_symbol_json(#[trigger] a@[k], ds@[k]),
                decreases a@.len() - i,
            {
                let d = match document_symbol_from_json(&a[i]) {
                    Some(d) => d,
                    None => {
                        proof {
                            assert forall|ds2: Seq<DocumentSymbol>| !is_document_symbol_list_json(
                                *v, ds2) by {
                                if is_document_symbol_list_json(*v, ds2) {
                                    assert(is_document_symbol_json(a@[i as int], ds2[i as int]));
                                }
                            }
                        }
                        return None;
                    },
                };
                ds.push(d);
                i = i + 1;
            }
            Some(ds)
        },
        _ => None,
    }
}

/// Normalize a hover reply: an absent or `null` result is no hover; a
/// non-null result must have the hover shape, and one that does not is
/// a malformed reply, surfaced as an error.
pub fn hover_from_reply(result: Option<&JsonValue>) -> (r: Result<Option<Hover>, MalformedReply>)
    ensures
        match r {
            Ok(h) => match h {
                None => result is None || (result matches Some(v) && *v is Null),
                Some(hv) => (result matches Some(v) && is_hover_json(*v, hv)),
            },
            Err(_) => (result matches Some(v) && !(*v is Null) && (forall|hv: Hover|
                !is_hover_json(*v, hv))),
        },
{
    match result {
        None => Ok(None),
        Some(v) => match v {
            JsonValue::Null => Ok(None),
            other => match hover_from_json(other) {
                Some(h) => Ok(Some(h)),
                None => Err(MalformedReply {}),
            },
        },
    }
}

/// Normalize a references reply: an array is decoded, and a malformed
/// array is an error; anything else, `null` included, is an empty list.
pub fn references_from_reply(result: Option<&JsonValue>) -> (r: Result<
    Vec<Location>,
    MalformedReply,
>)
    ensures
        match r {
            Ok(ls) => match result {
                Some(v) => (*v is Arr && is_locations_json(*v, ls@)) || (!(*v is Arr) && ls@.len()
                    == 0),
                None => ls@.len() == 0,
            },
            Err(_) => (result matches Some(v) && *v is Arr && (forall|ls: Seq<Location>|
                !is_locations_json(*v, ls))),
        },
{
    match result {
        None => Ok(Vec::new()),
        Some(v) => match v {
            JsonValue::Arr(a) => match crate::params::locations_from_json(v) {
                Some(ls) => Ok(ls),
                None => Err(MalformedReply {}),
            },
            _ => Ok(Vec::new()),
        },
    }
}

/// Normalize a definition reply: `null` means no definitions, one
/// location object a single definition, an array a list; a malformed
/// object or array is an error; any other shape is an empty list.
pub fn definitions_from_reply(result: Option<&JsonValue>) -> (r: Result<
    Vec<Location>,
    MalformedReply,
>)
    ensures
        match r {
            Ok(ls) => match result {
                None => ls@.len() == 0,
                Some(v) => match spec_definition_locations(*v) {
                    Some(ms) => locations_model(ls@) == ms,
                    None => !(*v is Obj) && !(*v is Arr) && !(*v is Null) && ls@.len() == 0,
                },
            },
            Err(_) => (result matches Some(v) && (*v is Obj || *v is Arr)
                && spec_definition_locations(*v) is None),
        },
{
    match result {
        None => Ok(Vec::new()),
        Some(v) => match v {
            JsonValue::Obj(o) => match locations_from_definition_reply(v) {
                Some(ls) => Ok(ls),
                None => Err(MalformedReply {}),
            },
            JsonValue::Arr(a) => match locations_from_definition_reply(v) {
                Some(ls) => Ok(ls),
                None => Err(MalformedReply {}),
            },
            JsonValue::Null => {
                let ls: Vec<Location> = Vec::new();
                proof {
                    assert(locations_model(ls@) =~= Seq::<(Seq<char>, Range)>::empty());
                }
                Ok(ls)
            },
            _ => Ok(Vec::new()),
        },
    }
}

/// Normalize a workspace-symbol reply: an array is decoded, a malformed
/// array is an error, and anything else is an empty list.
pub fn symbols_from_reply(result: Option<&JsonValue>) -> (r: Result<
    Vec<SymbolInformation>,
    MalformedReply,
>)
    ensures
        match r {
            Ok(ss) => match result {
                Some(v) => (*v is Arr && is_symbol_list_json(*v, ss@)) || (!(*v is Arr)
                    && ss@.len() == 0),
                None => ss@.len() == 0,
            },
            Err(_) => (result matches Some(v) && *v is Arr && (forall|ss: Seq<SymbolInformation>|
                !is_symbol_list_json(*v, ss))),
        },
{
    match result {
        None => Ok(Vec::new()),
        Some(v) => match v {
            JsonValue::Arr(a) => match symbol_list_from_json(v) {
                Some(ss) => Ok(ss),
                None => Err(MalformedReply {}),
            },
            _ => Ok(Vec::new()),
        },
    }
}

/// Normalize a document-symbol reply the same way.
pub fn document_symbols_from_reply(result: Option<&JsonValue>) -> (r: Result<
    Vec<DocumentSymbol>,
    MalformedReply,
>)
    ensures
        match r {
            Ok(ds) => match result {
                Some(v) => (*v is Arr && is_document_symbol_list_json(*v, ds@)) || (!(*v is Arr)
                    && ds@.len() == 0),
                None => ds@.len() == 0,
            },
            Err(_) => (result matches Some(v) && *v is Arr && (forall|ds: Seq<DocumentSymbol>|
                !is_document_symbol_list_json(*v, ds))),
        },
{
    match result {
        None => Ok(Vec::new()),
        Some(v) => match v {
            JsonValue::Arr(a) => match document_symbol_list_from_json(v) {
                Some(ds) => Ok(ds),
                None => Err(MalformedReply {}),
            },
            _ => Ok(Vec::new()),
        },
    }
}

} // verus!
