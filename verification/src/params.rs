//! The parameter and result shapes of each daemon method, with their
//! JSON codecs. Options are carried as `null` on the wire, so every
//! shape has a fixed member list.

use vstd::prelude::*;
use vstd::string::StringExecFns;
use crate::json::{wf_json, JsonValue};
use crate::lsp_types::{u32_from_json, spec_u32_of};
use crate::strutil::{clone_string, string_eq_str};

verus! {

broadcast use vstd::utf8::char_is_scalar;


/// Parameters of `hover`: a position in a file of a workspace.
pub struct HoverParams {
    /// Workspace root directory.
    pub workspace: String,
    /// File path.
    pub file: String,
    /// Zero-based line.
    pub line: u32,
    /// Zero-based column.
    pub column: u32,
}

/// Whether `v` is the JSON form of `HoverParams`.
pub open spec fn is_hover_params_json(v: JsonValue, p: HoverParams) -> bool {
    match v {
        JsonValue::Obj(o) => {
            &&& o@.len() == 4
            &&& o@[0].0@ == "workspace"@
            &&& (o@[0].1 matches JsonValue::Str(s) && s@ == p.workspace@)
            &&& o@[1].0@ == "file"@
            &&& (o@[1].1 matches JsonValue::Str(s) && s@ == p.file@)
            &&& o@[2].0@ == "line"@
            &&& spec_u32_of(o@[2].1) == Some(p.line)
            &&& o@[3].0@ == "column"@
            &&& spec_u32_of(o@[3].1) == Some(p.column)
        },
        _ => false,
    }
}

/// Decode `HoverParams`; `None` exactly on values without its shape.
pub fn hover_params_from_json(v: &JsonValue) -> (r: Option<HoverParams>)
    ensures
        match r {
            Some(p) => is_hover_params_json(*v, p),
            None => forall|p: HoverParams| !is_hover_params_json(*v, p),
        },
{
    match v {
        JsonValue::Obj(o) => {
            if o.len() != 4 {
                return None;
            }
            if !(string_eq_str(&o[0].0, "workspace") && string_eq_str(&o[1].0, "file") && string_eq_str(&o[2].0, "line") && string_eq_str(&o[3].0, "column")) {
                return None;
            }
            let workspace = match &o[0].1 {
                JsonValue::Str(s) => clone_string(s),
                _ => { return None; },
            };
            let file = match &o[1].1 {
                JsonValue::Str(s) => clone_string(s),
                _ => { return None; },
            };
            let line = match u32_from_json(&o[2].1) {
                Some(x) => x,
                None => { return None; },
            };
            let column = match u32_from_json(&o[3].1) {
                Some(x) => x,
                None => { return None; },
            };
            Some(HoverParams { workspace, file, line, column })
        },
        _ => None,
    }
}

/// Encode `HoverParams` canonically.
pub fn hover_params_to_json(p: &HoverParams) -> (r: JsonValue)
    ensures
        is_hover_params_json(r, *p),
        wf_json(r),
{
    let mut o: Vec<(String, JsonValue)> = Vec::new();
    o.push((String::from_str("workspace"), JsonValue::Str(clone_string(&p.workspace))));
    o.push((String::from_str("file"), JsonValue::Str(clone_string(&p.file))));
    o.push((String::from_str("line"), JsonValue::Int { neg: false, mag: p.line as u64 }));
    o.push((String::from_str("column"), JsonValue::Int { neg: false, mag: p.column as u64 }));
    let v = JsonValue::Obj(o);
    proof {
        match &v {
            JsonValue::Obj(oo) => {
                assert(wf_json(v)) by {
                    assert(forall|i: int| 0 <= i < oo@.len() ==> wf_json(#[trigger] oo@[i].1));
                }
            },
            _ => {},
        }
    }
    v
}

/// Parameters of `definition`.
pub struct DefinitionParams {
    /// Workspace root directory.
    pub workspace: String,
    /// File path.
    pub file: String,
    /// Zero-based line.
    pub line: u32,
    /// Zero-based column.
    pub column: u32,
}

/// Whether `v` is the JSON form of `DefinitionParams`.
pub open spec fn is_definition_params_json(v: JsonValue, p: DefinitionParams) -> bool {
    match v {
        JsonValue::Obj(o) => {
            &&& o@.len() == 4
            &&& o@[0].0@ == "workspace"@
            &&& (o@[0].1 matches JsonValue::Str(s) && s@ == p.workspace@)
            &&& o@[1].0@ == "file"@
            &&& (o@[1].1 matches JsonValue::Str(s) && s@ == p.file@)
            &&& o@[2].0@ == "line"@
            &&& spec_u32_of(o@[2].1) == Some(p.line)
            &&& o@[3].0@ == "column"@
            &&& spec_u32_of(o@[3].1) == Some(p.column)
        },
        _ => false,
    }
}

/// Decode `DefinitionParams`; `None` exactly on values without its shape.
pub fn definition_params_from_json(v: &JsonValue) -> (r: Option<DefinitionParams>)
    ensures
        match r {
            Some(p) => is_definition_params_json(*v, p),
            None => forall|p: DefinitionParams| !is_definition_params_json(*v, p),
        },
{
    match v {
        JsonValue::Obj(o) => {
            if o.len() != 4 {
                return None;
            }
            if !(string_eq_str(&o[0].0, "workspace") && string_eq_str(&o[1].0, "file") && string_eq_str(&o[2].0, "line") && string_eq_str(&o[3].0, "column")) {
                return None;
            }
            let workspace = match &o[0].1 {
                JsonValue::Str(s) => clone_string(s),
                _ => { return None; },
            };
            let file = match &o[1].1 {
                JsonValue::Str(s) => clone_string(s),
                _ => { return None; },
            };
            let line = match u32_from_json(&o[2].1) {
                Some(x) => x,
                None => { return None; },
            };
            let column = match u32_from_json(&o[3].1) {
                Some(x) => x,
                None => { return None; },
            };
            Some(DefinitionParams { workspace, file, line, column })
        },
        _ => None,
    }
}

/// Encode `DefinitionParams` canonically.
pub fn definition_params_to_json(p: &DefinitionParams) -> (r: JsonValue)
    ensures
        is_definition_params_json(r, *p),
        wf_json(r),
{
    let mut o: Vec<(String, JsonValue)> = Vec::new();
    o.push((String::from_str("workspace"), JsonValue::Str(clone_string(&p.workspace))));
    o.push((String::from_str("file"), JsonValue::Str(clone_string(&p.file))));
    o.push((String::from_str("line"), JsonValue::Int { neg: false, mag: p.line as u64 }));
    o.push((String::from_str("column"), JsonValue::Int { neg: false, mag: p.column as u64 }));
    let v = JsonValue::Obj(o);
    proof {
        match &v {
            JsonValue::Obj(oo) => {
                assert(wf_json(v)) by {
                    assert(forall|i: int| 0 <= i < oo@.len() ==> wf_json(#[trigger] oo@[i].1));
                }
            },
            _ => {},
        }
    }
    v
}

/// Parameters of `workspace_symbols`: a query, an optional cap on the result count, and an optional exact-name filter applied before serialization.
pub struct WorkspaceSymbolsParams {
    /// Workspace root directory.
    pub workspace: String,
    /// Search query, possibly fuzzy.
    pub query: String,
    /// Cap on how many symbols come back.
    pub limit: Option<u64>,
    /// Keep only symbols with exactly this name.
    pub exact_name: Option<String>,
}

/// Whether `v` is the JSON form of `WorkspaceSymbolsParams`.
pub open spec fn is_workspace_symbols_params_json(v: JsonValue, p: WorkspaceSymbolsParams) -> bool {
    match v {
        JsonValue::Obj(o) => {
            &&& o@.len() == 4
            &&& o@[0].0@ == "workspace"@
            &&& (o@[0].1 matches JsonValue::Str(s) && s@ == p.workspace@)
            &&& o@[1].0@ == "query"@
            &&& (o@[1].1 matches JsonValue::Str(s) && s@ == p.query@)
            &&& o@[2].0@ == "limit"@
            &&& match p.limit {
                Some(x) => o@[2].1 == (JsonValue::Int { neg: false, mag: x }),
                None => o@[2].1 is Null,
            }
            &&& o@[3].0@ == "exact_name"@
            &&& match p.exact_name {
                Some(x) => (o@[3].1 matches JsonValue::Str(s) && s@ == x@),
                None => o@[3].1 is Null,
            }
        },
        _ => false,
    }
}

/// Decode `WorkspaceSymbolsParams`; `None` exactly on values without its shape.
pub fn workspace_symbols_params_from_json(v: &JsonValue) -> (r: Option<WorkspaceSymbolsParams>)
    ensures
        match r {
            Some(p) => is_workspace_symbols_params_json(*v, p),
            None => forall|p: WorkspaceSymbolsParams| !is_workspace_symbols_params_json(*v, p),
        },
{
    match v {
        JsonValue::Obj(o) => {
            if o.len() != 4 {
                return None;
            }
            if !(string_eq_str(&o[0].0, "workspace") && string_eq_str(&o[1].0, "query") && string_eq_str(&o[2].0, "limit") && string_eq_str(&o[3].0, "exact_name")) {
                return None;
            }
            let workspace = match &o[0].1 {
                JsonValue::Str(s) => clone_string(s),
                _ => { return None; },
            };
            let query = match &o[1].1 {
                JsonValue::Str(s) => clone_string(s),
                _ => { return None; },
            };
            let limit: Option<u64> = match &o[2].1 {
                JsonValue::Int { neg: false, mag } => Some(*mag),
                JsonValue::Null => None,
                _ => { return None; },
            };
            let exact_name: Option<String> = match &o[3].1 {
                JsonValue::Null => None,
                JsonValue::Str(s) => Some(clone_string(s)),
                _ => { return None; },
            };
            Some(WorkspaceSymbolsParams { workspace, query, limit, exact_name })
        },
        _ => None,
    }
}

/// Encode `WorkspaceSymbolsParams` canonically.
pub fn workspace_symbols_params_to_json(p: &WorkspaceSymbolsParams) -> (r: JsonValue)
    ensures
        is_workspace_symbols_params_json(r, *p),
        wf_json(r),
{
    let mut o: Vec<(String, JsonValue)> = Vec::new();
    o.push((String::from_str("workspace"), JsonValue::Str(clone_string(&p.workspace))));
    o.push((String::from_str("query"), JsonValue::Str(clone_string(&p.query))));
    match &p.limit {
        Some(x) => { o.push((String::from_str("limit"), JsonValue::Int { neg: false, mag: *x })); },
        None => { o.push((String::from_str("limit"), JsonValue::Null)); },
    }
    match &p.exact_name {
        Some(x) => { o.push((String::from_str("exact_name"), JsonValue::Str(clone_string(x)))); },
        None => { o.push((String::from_str("exact_name"), JsonValue::Null)); },
    }
    let v = JsonValue::Obj(o);
    proof {
        match &v {
            JsonValue::Obj(oo) => {
                assert(wf_json(v)) by {
                    assert(forall|i: int| 0 <= i < oo@.len() ==> wf_json(#[trigger] oo@[i].1));
                }
            },
            _ => {},
        }
    }
    v
}

/// Parameters of `document_symbols`.
pub struct DocumentSymbolsParams {
    /// Workspace root directory.
    pub workspace: String,
    /// File path.
    pub file: String,
}

/// Whether `v` is the JSON form of `DocumentSymbolsParams`.
pub open spec fn is_document_symbols_params_json(v: JsonValue, p: DocumentSymbolsParams) -> bool {
    match v {
        JsonValue::Obj(o) => {
            &&& o@.len() == 2
            &&& o@[0].0@ == "workspace"@
            &&& (o@[0].1 matches JsonValue::Str(s) && s@ == p.workspace@)
            &&& o@[1].0@ == "file"@
            &&& (o@[1].1 matches JsonValue::Str(s) && s@ == p.file@)
        },
        _ => false,
    }
}

/// Decode `DocumentSymbolsParams`; `None` exactly on values without its shape.
pub fn document_symbols_params_from_json(v: &JsonValue) -> (r: Option<DocumentSymbolsParams>)
    ensures
        match r {
            Some(p) => is_document_symbols_params_json(*v, p),
            None => forall|p: DocumentSymbolsParams| !is_document_symbols_params_json(*v, p),
        },
{
    match v {
        JsonValue::Obj(o) => {
            if o.len() != 2 {
                return None;
            }
            if !(string_eq_str(&o[0].0, "workspace") && string_eq_str(&o[1].0, "file")) {
                return None;
            }
            let workspace = match &o[0].1 {
                JsonValue::Str(s) => clone_string(s),
                _ => { return None; },
            };
            let file = match &o[1].1 {
                JsonValue::Str(s) => clone_string(s),
                _ => { return None; },
            };
            Some(DocumentSymbolsParams { workspace, file })
        },
        _ => None,
    }
}

/// Encode `DocumentSymbolsParams` canonically.
pub fn document_symbols_params_to_json(p: &DocumentSymbolsParams) -> (r: JsonValue)
    ensures
        is_document_symbols_params_json(r, *p),
        wf_json(r),
{
    let mut o: Vec<(String, JsonValue)> = Vec::new();
    o.push((String::from_str("workspace"), JsonValue::Str(clone_string(&p.workspace))));
    o.push((String::from_str("file"), JsonValue::Str(clone_string(&p.file))));
    let v = JsonValue::Obj(o);
    proof {
        match &v {
            JsonValue::Obj(oo) => {
                assert(wf_json(v)) by {
                    assert(forall|i: int| 0 <= i < oo@.len() ==> wf_json(#[trigger] oo@[i].1));
                }
            },
            _ => {},
        }
    }
    v
}

/// Parameters of `references`.
pub struct ReferencesParams {
    /// Workspace root directory.
    pub workspace: String,
    /// File path.
    pub file: String,
    /// Zero-based line.
    pub line: u32,
    /// Zero-based column.
    pub column: u32,
    /// Whether the declaration itself is listed.
    pub include_declaration: bool,
}

/// Whether `v` is the JSON form of `ReferencesParams`.
pub open spec fn is_references_params_json(v: JsonValue, p: ReferencesParams) -> bool {
    match v {
        JsonValue::Obj(o) => {
            &&& o@.len() == 5
            &&& o@[0].0@ == "workspace"@
            &&& (o@[0].1 matches JsonValue::Str(s) && s@ == p.workspace@)
            &&& o@[1].0@ == "file"@
            &&& (o@[1].1 matches JsonValue::Str(s) && s@ == p.file@)
            &&& o@[2].0@ == "line"@
            &&& spec_u32_of(o@[2].1) == Some(p.line)
            &&& o@[3].0@ == "column"@
            &&& spec_u32_of(o@[3].1) == Some(p.column)
            &&& o@[4].0@ == "include_declaration"@
            &&& o@[4].1 == JsonValue::Bool(p.include_declaration)
        },
        _ => false,
    }
}

/// Decode `ReferencesParams`; `None` exactly on values without its shape.
pub fn references_params_from_json(v: &JsonValue) -> (r: Option<ReferencesParams>)
    ensures
        match r {
            Some(p) => is_references_params_json(*v, p),
            None => forall|p: ReferencesParams| !is_references_params_json(*v, p),
        },
{
    match v {
        JsonValue::Obj(o) => {
            if o.len() != 5 {
                return None;
            }
            if !(string_eq_str(&o[0].0, "workspace") && string_eq_str(&o[1].0, "file") && string_eq_str(&o[2].0, "line") && string_eq_str(&o[3].0, "column") && string_eq_str(&o[4].0, "include_declaration")) {
                return None;
            }
            let workspace = match &o[0].1 {
                JsonValue::Str(s) => clone_string(s),
                _ => { return None; },
            };
            let file = match &o[1].1 {
                JsonValue::Str(s) => clone_string(s),
                _ => { return None; },
            };
            let line = match u32_from_json(&o[2].1) {
                Some(x) => x,
                None => { return None; },
            };
            let column = match u32_from_json(&o[3].1) {
                Some(x) => x,
                None => { return None; },
            };
            let include_declaration = match &o[4].1 {
                JsonValue::Bool(b) => *b,
                _ => { return None; },
            };
            Some(ReferencesParams { workspace, file, line, column, include_declaration })
        },
        _ => None,
    }
}

/// Encode `ReferencesParams` canonically.
pub fn references_params_to_json(p: &ReferencesParams) -> (r: JsonValue)
    ensures
        is_references_params_json(r, *p),
        wf_json(r),
{
    let mut o: Vec<(String, JsonValue)> = Vec::new();
    o.push((String::from_str("workspace"), JsonValue::Str(clone_string(&p.workspace))));
    o.push((String::from_str("file"), JsonValue::Str(clone_string(&p.file))));
    o.push((String::from_str("line"), JsonValue::Int { neg: false, mag: p.line as u64 }));
    o.push((String::from_str("column"), JsonValue::Int { neg: false, mag: p.column as u64 }));
    o.push((String::from_str("include_declaration"), JsonValue::Bool(p.include_declaration)));
    let v = JsonValue::Obj(o);
    proof {
        match &v {
            JsonValue::Obj(oo) => {
                assert(wf_json(v)) by {
                    assert(forall|i: int| 0 <= i < oo@.len() ==> wf_json(#[trigger] oo@[i].1));
                }
            },
            _ => {},
        }
    }
    v
}

/// One labelled query of a `batch_references` request.
pub struct BatchReferencesQuery {
    /// Caller-supplied label echoed with the result.
    pub label: String,
    /// File path.
    pub file: String,
    /// Zero-based line.
    pub line: u32,
    /// Zero-based column.
    pub column: u32,
}

/// Whether `v` is the JSON form of `BatchReferencesQuery`.
pub open spec fn is_batch_references_query_json(v: JsonValue, p: BatchReferencesQuery) -> bool {
    match v {
        JsonValue::Obj(o) => {
            &&& o@.len() == 4
            &&& o@[0].0@ == "label"@
            &&& (o@[0].1 matches JsonValue::Str(s) && s@ == p.label@)
            &&& o@[1].0@ == "file"@
            &&& (o@[1].1 matches JsonValue::Str(s) && s@ == p.file@)
            &&& o@[2].0@ == "line"@
            &&& spec_u32_of(o@[2].1) == Some(p.line)
            &&& o@[3].0@ == "column"@
            &&& spec_u32_of(o@[3].1) == Some(p.column)
        },
        _ => false,
    }
}

/// Decode `BatchReferencesQuery`; `None` exactly on values without its shape.
pub fn batch_references_query_from_json(v: &JsonValue) -> (r: Option<BatchReferencesQuery>)
    ensures
        match r {
            Some(p) => is_batch_references_query_json(*v, p),
            None => forall|p: BatchReferencesQuery| !is_batch_references_query_json(*v, p),
        },
{
    match v {
        JsonValue::Obj(o) => {
            if o.len() != 4 {
                return None;
            }
            if !(string_eq_str(&o[0].0, "label") && string_eq_str(&o[1].0, "file") && string_eq_str(&o[2].0, "line") && string_eq_str(&o[3].0, "column")) {
                return None;
            }
            let label = match &o[0].1 {
                JsonValue::Str(s) => clone_string(s),
                _ => { return None; },
            };
            let file = match &o[1].1 {
                JsonValue::Str(s) => clone_string(s),
                _ => { return None; },
            };
            let line = match u32_from_json(&o[2].1) {
                Some(x) => x,
                None => { return None; },
            };
            let column = match u32_from_json(&o[3].1) {
                Some(x) => x,
                None => { return None; },
            };
            Some(BatchReferencesQuery { label, file, line, column })
        },
        _ => None,
    }
}

/// Encode `BatchReferencesQuery` canonically.
pub fn batch_references_query_to_json(p: &BatchReferencesQuery) -> (r: JsonValue)
    ensures
        is_batch_references_query_json(r, *p),
        wf_json(r),
{
    let mut o: Vec<(String, JsonValue)> = Vec::new();
    o.push((String::from_str("label"), JsonValue::Str(clone_string(&p.label))));
    o.push((String::from_str("file"), JsonValue::Str(clone_string(&p.file))));
    o.push((String::from_str("line"), JsonValue::Int { neg: false, mag: p.line as u64 }));
    o.push((String::from_str("column"), JsonValue::Int { neg: false, mag: p.column as u64 }));
    let v = JsonValue::Obj(o);
    proof {
        match &v {
            JsonValue::Obj(oo) => {
                assert(wf_json(v)) by {
                    assert(forall|i: int| 0 <= i < oo@.len() ==> wf_json(#[trigger] oo@[i].1));
                }
            },
            _ => {},
        }
    }
    v
}

/// Parameters of `inspect`: hover plus optional references in one call.
pub struct InspectParams {
    /// Workspace root directory.
    pub workspace: String,
    /// File path.
    pub file: String,
    /// Zero-based line.
    pub line: u32,
    /// Zero-based column.
    pub column: u32,
    /// Whether to also collect references.
    pub include_references: bool,
}

/// Whether `v` is the JSON form of `InspectParams`.
pub open spec fn is_inspect_params_json(v: JsonValue, p: InspectParams) -> bool {
    match v {
        JsonValue::Obj(o) => {
            &&& o@.len() == 5
            &&& o@[0].0@ == "workspace"@
            &&& (o@[0].1 matches JsonValue::Str(s) && s@ == p.workspace@)
            &&& o@[1].0@ == "file"@
            &&& (o@[1].1 matches JsonValue::Str(s) && s@ == p.file@)
            &&& o@[2].0@ == "line"@
            &&& spec_u32_of(o@[2].1) == Some(p.line)
            &&& o@[3].0@ == "column"@
            &&& spec_u32_of(o@[3].1) == Some(p.column)
            &&& o@[4].0@ == "include_references"@
            &&& o@[4].1 == JsonValue::Bool(p.include_references)
        },
        _ => false,
    }
}

/// Decode `InspectParams`; `None` exactly on values without its shape.
pub fn inspect_params_from_json(v: &JsonValue) -> (r: Option<InspectParams>)
    ensures
        match r {
            Some(p) => is_inspect_params_json(*v, p),
            None => forall|p: InspectParams| !is_inspect_params_json(*v, p),
        },
{
    match v {
        JsonValue::Obj(o) => {
            if o.len() != 5 {
                return None;
            }
            if !(string_eq_str(&o[0].0, "workspace") && string_eq_str(&o[1].0, "file") && string_eq_str(&o[2].0, "line") && string_eq_str(&o[3].0, "column") && string_eq_str(&o[4].0, "include_references")) {
                return None;
            }
            let workspace = match &o[0].1 {
                JsonValue::Str(s) => clone_string(s),
                _ => { return None; },
            };
            let file = match &o[1].1 {
                JsonValue::Str(s) => clone_string(s),
                _ => { return None; },
            };
            let line = match u32_from_json(&o[2].1) {
                Some(x) => x,
                None => { return None; },
            };
            let column = match u32_from_json(&o[3].1) {
                Some(x) => x,
                None => { return None; },
            };
            let include_references = match &o[4].1 {
                JsonValue::Bool(b) => *b,
                _ => { return None; },
            };
            Some(InspectParams { workspace, file, line, column, include_references })
        },
        _ => None,
    }
}

/// Encode `InspectParams` canonically.
pub fn inspect_params_to_json(p: &InspectParams) -> (r: JsonValue)
    ensures
        is_inspect_params_json(r, *p),
        wf_json(r),
{
    let mut o: Vec<(String, JsonValue)> = Vec::new();
    o.push((String::from_str("workspace"), JsonValue::Str(clone_string(&p.workspace))));
    o.push((String::from_str("file"), JsonValue::Str(clone_string(&p.file))));
    o.push((String::from_str("line"), JsonValue::Int { neg: false, mag: p.line as u64 }));
    o.push((String::from_str("column"), JsonValue::Int { neg: false, mag: p.column as u64 }));
    o.push((String::from_str("include_references"), JsonValue::Bool(p.include_references)));
    let v = JsonValue::Obj(o);
    proof {
        match &v {
            JsonValue::Obj(oo) => {
                assert(wf_json(v)) by {
                    assert(forall|i: int| 0 <= i < oo@.len() ==> wf_json(#[trigger] oo@[i].1));
                }
            },
            _ => {},
        }
    }
    v
}

/// Parameters of `members`: a class name to look up in a file.
pub struct MembersParams {
    /// Workspace root directory.
    pub workspace: String,
    /// File path containing the class.
    pub file: String,
    /// The class to inspect.
    pub class_name: String,
    /// Include members whose name starts with an underscore.
    pub include_all: bool,
}

/// Whether `v` is the JSON form of `MembersParams`.
pub open spec fn is_members_params_json(v: JsonValue, p: MembersParams) -> bool {
    match v {
        JsonValue::Obj(o) => {
            &&& o@.len() == 4
            &&& o@[0].0@ == "workspace"@
            &&& (o@[0].1 matches JsonValue::Str(s) && s@ == p.workspace@)
            &&& o@[1].0@ == "file"@
            &&& (o@[1].1 matches JsonValue::Str(s) && s@ == p.file@)
            &&& o@[2].0@ == "class_name"@
            &&& (o@[2].1 matches JsonValue::Str(s) && s@ == p.class_name@)
            &&& o@[3].0@ == "include_all"@
            &&& o@[3].1 == JsonValue::Bool(p.include_all)
        },
        _ => false,
    }
}

/// Decode `MembersParams`; `None` exactly on values without its shape.
pub fn members_params_from_json(v: &JsonValue) -> (r: Option<MembersParams>)
    ensures
        match r {
            Some(p) => is_members_params_json(*v, p),
            None => forall|p: MembersParams| !is_members_params_json(*v, p),
        },
{
    match v {
        JsonValue::Obj(o) => {
            if o.len() != 4 {
                return None;
            }
            if !(string_eq_str(&o[0].0, "workspace") && string_eq_str(&o[1].0, "file") && string_eq_str(&o[2].0, "class_name") && string_eq_str(&o[3].0, "include_all")) {
                return None;
            }
            let workspace = match &o[0].1 {
                JsonValue::Str(s) => clone_string(s),
                _ => { return None; },
            };
            let file = match &o[1].1 {
                JsonValue::Str(s) => clone_string(s),
                _ => { return None; },
            };
            let class_name = match &o[2].1 {
                JsonValue::Str(s) => clone_string(s),
                _ => { return None; },
            };
            let include_all = match &o[3].1 {
                JsonValue::Bool(b) => *b,
                _ => { return None; },
            };
            Some(MembersParams { workspace, file, class_name, include_all })
        },
        _ => None,
    }
}

/// Encode `MembersParams` canonically.
pub fn members_params_to_json(p: &MembersParams) -> (r: JsonValue)
    ensures
        is_members_params_json(r, *p),
        wf_json(r),
{
    let mut o: Vec<(String, JsonValue)> = Vec::new();
    o.push((String::from_str("workspace"), JsonValue::Str(clone_string(&p.workspace))));
    o.push((String::from_str("file"), JsonValue::Str(clone_string(&p.file))));
    o.push((String::from_str("class_name"), JsonValue::Str(clone_string(&p.class_name))));
    o.push((String::from_str("include_all"), JsonValue::Bool(p.include_all)));
    let v = JsonValue::Obj(o);
    proof {
        match &v {
            JsonValue::Obj(oo) => {
                assert(wf_json(v)) by {
                    assert(forall|i: int| 0 <= i < oo@.len() ==> wf_json(#[trigger] oo@[i].1));
                }
            },
            _ => {},
        }
    }
    v
}

/// Parameters of `diagnostics`.
pub struct DiagnosticsParams {
    /// Workspace root directory.
    pub workspace: String,
    /// File path.
    pub file: String,
}

/// Whether `v` is the JSON form of `DiagnosticsParams`.
pub open spec fn is_diagnostics_params_json(v: JsonValue, p: DiagnosticsParams) -> bool {
    match v {
        JsonValue::Obj(o) => {
            &&& o@.len() == 2
            &&& o@[0].0@ == "workspace"@
            &&& (o@[0].1 matches JsonValue::Str(s) && s@ == p.workspace@)
            &&& o@[1].0@ == "file"@
            &&& (o@[1].1 matches JsonValue::Str(s) && s@ == p.file@)
        },
        _ => false,
    }
}

/// Decode `DiagnosticsParams`; `None` exactly on values without its shape.
pub fn diagnostics_params_from_json(v: &JsonValue) -> (r: Option<DiagnosticsParams>)
    ensures
        match r {
            Some(p) => is_diagnostics_params_json(*v, p),
            None => forall|p: DiagnosticsParams| !is_diagnostics_params_json(*v, p),
        },
{
    match v {
        JsonValue::Obj(o) => {
            if o.len() != 2 {
                return None;
            }
            if !(string_eq_str(&o[0].0, "workspace") && string_eq_str(&o[1].0, "file")) {
                return None;
            }
            let workspace = match &o[0].1 {
                JsonValue::Str(s) => clone_string(s),
                _ => { return None; },
            };
            let file = match &o[1].1 {
                JsonValue::Str(s) => clone_string(s),
                _ => { return None; },
            };
            Some(DiagnosticsParams { workspace, file })
        },
        _ => None,
    }
}

/// Encode `DiagnosticsParams` canonically.
pub fn diagnostics_params_to_json(p: &DiagnosticsParams) -> (r: JsonValue)
    ensures
        is_diagnostics_params_json(r, *p),
        wf_json(r),
{
    let mut o: Vec<(String, JsonValue)> = Vec::new();
    o.push((String::from_str("workspace"), JsonValue::Str(clone_string(&p.workspace))));
    o.push((String::from_str("file"), JsonValue::Str(clone_string(&p.file))));
    let v = JsonValue::Obj(o);
    proof {
        match &v {
            JsonValue::Obj(oo) => {
                assert(wf_json(v)) by {
                    assert(forall|i: int| 0 <= i < oo@.len() ==> wf_json(#[trigger] oo@[i].1));
                }
            },
            _ => {},
        }
    }
    v
}

} // verus!

verus! {

use crate::lsp_types::{
    is_document_symbol_json, is_hover_json, is_symbol_information_json, hover_from_json,
    hover_to_json, document_symbol_from_json, document_symbol_to_json, location_from_json,
    location_to_json, location_model, spec_location_of, symbol_information_from_json,
    symbol_information_to_json, DocumentSymbol, Hover, Location, SymbolInformation, SymbolKind,
    kind_code,
};

/// Parameters of `ping`: none.
pub struct PingParams {}

/// Parameters of `shutdown`: none.
pub struct ShutdownParams {}

/// Whether `v` is the empty parameter object.
pub open spec fn is_empty_params_json(v: JsonValue) -> bool {
    v matches JsonValue::Obj(o) && o@.len() == 0
}

/// The empty parameter object.
pub fn empty_params_json() -> (r: JsonValue)
    ensures
        is_empty_params_json(r),
        wf_json(r),
{
    JsonValue::Obj(Vec::new())
}

/// Parameters of `batch_references`: labelled queries answered in order
/// over one client.
pub struct BatchReferencesParams {
    /// Workspace root directory.
    pub workspace: String,
    /// The queries, answered in this order.
    pub queries: Vec<BatchReferencesQuery>,
    /// Whether declarations are listed.
    pub include_declaration: bool,
}

/// Whether `v` is the JSON form of `BatchReferencesParams`.
pub open spec fn is_batch_references_params_json(v: JsonValue, p: BatchReferencesParams) -> bool {
    match v {
        JsonValue::Obj(o) => {
            &&& o@.len() == 3
            &&& o@[0].0@ == "workspace"@
            &&& (o@[0].1 matches JsonValue::Str(s) && s@ == p.workspace@)
            &&& o@[1].0@ == "queries"@
            &&& match o@[1].1 {
                JsonValue::Arr(a) => a@.len() == p.queries@.len() && forall|i: int|
                    0 <= i < a@.len() ==> is_batch_references_query_json(
                        #[trigger] a@[i], p.queries@[i]),
                _ => false,
            }
            &&& o@[2].0@ == "include_declaration"@
            &&& o@[2].1 == JsonValue::Bool(p.include_declaration)
        },
        _ => false,
    }
}

/// Decode `BatchReferencesParams`.
pub fn batch_references_params_from_json(v: &JsonValue) -> (r: Option<BatchReferencesParams>)
    ensures
        match r {
            Some(p) => is_batch_references_params_json(*v, p),
            None => forall|p: BatchReferencesParams| !is_batch_references_params_json(*v, p),
        },
{
    match v {
        JsonValue::Obj(o) => {
            if o.len() != 3 {
                return None;
            }
            if !(string_eq_str(&o[0].0, "workspace") && string_eq_str(&o[1].0, "queries")
                && string_eq_str(&o[2].0, "include_declaration")) {
                return None;
            }
            let workspace = match &o[0].1 {
                JsonValue::Str(s) => clone_string(s),
                _ => { return None; },
            };
            let queries: Vec<BatchReferencesQuery> = match &o[1].1 {
                JsonValue::Arr(a) => {
                    let mut qs: Vec<BatchReferencesQuery> = Vec::new();
                    let mut i: usize = 0;
                    while i < a.len()
                        invariant
                            *v == JsonValue::Obj(*o),
                            o@[1].1 == JsonValue::Arr(*a),
                            i <= a@.len(),
                            qs@.len() == i,
                            forall|k: int|
                                0 <= k < i ==> is_batch_references_query_json(
                                    #[trigger] a@[k], qs@[k]),
                        decreases a@.len() - i,
                    {
                        let q = match batch_references_query_from_json(&a[i]) {
                            Some(q) => q,
                            None => {
                                proof {
                                    assert forall|p: BatchReferencesParams|
                                        !is_batch_references_params_json(*v, p) by {
                                        if is_batch_references_params_json(*v, p) {
                                            assert(p.queries@.len() == a@.len());
                                            assert(is_batch_references_query_json(
                                                a@[i as int], p.queries@[i as int]));
                                        }
                                    }
                                }
                                return None;
                            },
                        };
                        qs.push(q);
                        i = i + 1;
                    }
                    qs
                },
                _ => { return None; },
            };
            let include_declaration = match &o[2].1 {
                JsonValue::Bool(b) => *b,
                _ => { return None; },
            };
            Some(BatchReferencesParams { workspace, queries, include_declaration })
        },
        _ => None,
    }
}

/// Encode `BatchReferencesParams`.
pub fn batch_references_params_to_json(p: &BatchReferencesParams) -> (r: JsonValue)
    ensures
        is_batch_references_params_json(r, *p),
{
    let mut o: Vec<(String, JsonValue)> = Vec::new();
    o.push((String::from_str("workspace"), JsonValue::Str(clone_string(&p.workspace))));
    let mut a: Vec<JsonValue> = Vec::new();
    let mut i: usize = 0;
    while i < p.queries.len()
        invariant
            i <= p.queries@.len(),
            a@.len() == i,
            forall|k: int|
                0 <= k < i ==> is_batch_references_query_json(#[trigger] a@[k], p.queries@[k]),
        decreases p.queries@.len() - i,
    {
        a.push(batch_references_query_to_json(&p.queries[i]));
        i = i + 1;
    }
    o.push((String::from_str("queries"), JsonValue::Arr(a)));
    o.push((String::from_str("include_declaration"), JsonValue::Bool(p.include_declaration)));
    JsonValue::Obj(o)
}

/// Result of `hover`.
pub struct HoverResult {
    /// The hover, when the server had one.
    pub hover: Option<Hover>,
}

/// Whether `v` is the JSON form of `HoverResult`.
pub open spec fn is_hover_result_json(v: JsonValue, p: HoverResult) -> bool {
    match v {
        JsonValue::Obj(o) => {
            &&& o@.len() == 1
            &&& o@[0].0@ == "hover"@
            &&& match p.hover {
                Some(h) => is_hover_json(o@[0].1, h),
                None => o@[0].1 is Null,
            }
        },
        _ => false,
    }
}

/// Encode `HoverResult`.
pub fn hover_result_to_json(p: &HoverResult) -> (r: JsonValue)
    ensures
        is_hover_result_json(r, *p),
{
    let mut o: Vec<(String, JsonValue)> = Vec::new();
    match &p.hover {
        Some(h) => {
            o.push((String::from_str("hover"), hover_to_json(h)));
        },
        None => {
            o.push((String::from_str("hover"), JsonValue::Null));
        },
    }
    JsonValue::Obj(o)
}

/// Decode `HoverResult`.
pub fn hover_result_from_json(v: &JsonValue) -> (r: Option<HoverResult>)
    ensures
        match r {
            Some(p) => is_hover_result_json(*v, p),
            None => forall|p: HoverResult| !is_hover_result_json(*v, p),
        },
{
    match v {
        JsonValue::Obj(o) => {
            if o.len() != 1 || !string_eq_str(&o[0].0, "hover") {
                return None;
            }
            match &o[0].1 {
                JsonValue::Null => Some(HoverResult { hover: None }),
                other => match hover_from_json(other) {
                    Some(h) => Some(HoverResult { hover: Some(h) }),
                    None => None,
                },
            }
        },
        _ => None,
    }
}

/// Result of `definition`: the first location, if any.
pub struct DefinitionResult {
    /// Where the symbol is defined.
    pub location: Option<Location>,
}

/// Whether `v` is the JSON form of `DefinitionResult`.
pub open spec fn is_definition_result_json(v: JsonValue, p: DefinitionResult) -> bool {
    match v {
        JsonValue::Obj(o) => {
            &&& o@.len() == 1
            &&& o@[0].0@ == "location"@
            &&& match p.location {
                Some(l) => spec_location_of(o@[0].1) == Some(location_model(l)),
                None => o@[0].1 is Null,
            }
        },
        _ => false,
    }
}

/// Encode `DefinitionResult`.
pub fn definition_result_to_json(p: &DefinitionResult) -> (r: JsonValue)
    ensures
        is_definition_result_json(r, *p),
{
    let mut o: Vec<(String, JsonValue)> = Vec::new();
    match &p.location {
        Some(l) => {
            o.push((String::from_str("location"), location_to_json(l)));
        },
        None => {
            o.push((String::from_str("location"), JsonValue::Null));
        },
    }
    JsonValue::Obj(o)
}

/// Decode `DefinitionResult`.
pub fn definition_result_from_json(v: &JsonValue) -> (r: Option<DefinitionResult>)
    ensures
        match r {
            Some(p) => is_definition_result_json(*v, p),
            None => forall|p: DefinitionResult| !is_definition_result_json(*v, p),
        },
{
    match v {
        JsonValue::Obj(o) => {
            if o.len() != 1 || !string_eq_str(&o[0].0, "location") {
                return None;
            }
            match &o[0].1 {
                JsonValue::Null => Some(DefinitionResult { location: None }),
                other => match location_from_json(other) {
                    Some(l) => Some(DefinitionResult { location: Some(l) }),
                    None => None,
                },
            }
        },
        _ => None,
    }
}

/// A JSON array of locations.
pub open spec fn is_locations_json(v: JsonValue, ls: Seq<Location>) -> bool {
    match v {
        JsonValue::Arr(a) => a.len() == ls.len() && forall|i: int|
            0 <= i < a.len() ==> spec_location_of(#[trigger] a[i]) == Some(location_model(ls[i])),
        _ => false,
    }
}

/// Encode a list of locations.
pub fn locations_to_json(ls: &Vec<Location>) -> (r: JsonValue)
    ensures
        is_locations_json(r, ls@),
{
    let mut a: Vec<JsonValue> = Vec::new();
    let mut i: usize = 0;
    while i < ls.len()
        invariant
            i <= ls@.len(),
            a@.len() == i,
            forall|k: int|
                0 <= k < i ==> spec_location_of(#[trigger] a@[k]) == Some(
                    location_model(ls@[k])),
        decreases ls@.len() - i,
    {
        a.push(location_to_json(&ls[i]));
        i = i + 1;
    }
    JsonValue::Arr(a)
}

/// Decode a list of locations.
pub fn locations_from_json(v: &JsonValue) -> (r: Option<Vec<Location>>)
    ensures
        match r {
            Some(ls) => is_locations_json(*v, ls@),
            None => forall|ls: Seq<Location>| !is_locations_json(*v, ls),
        },
{
    match v {
        JsonValue::Arr(a) => {
            let mut ls: Vec<Location> = Vec::new();
            let mut i: usize = 0;
            while i < a.len()
                invariant
                    *v == JsonValue::Arr(*a),
                    i <= a@.len(),
                    ls@.len() == i,
                    forall|k: int|
                        0 <= k < i ==> spec_location_of(#[trigger] a@[k]) == Some(
                            location_model(ls@[k])),
                decreases a@.len() - i,
            {
                let l = match location_from_json(&a[i]) {
                    Some(l) => l,
                    None => {
                        proof {
                            assert forall|ls2: Seq<Location>| !is_locations_json(*v, ls2) by {
                                if is_locations_json(*v, ls2) {
                                    assert(spec_location_of(a@[i as int]) == Some(
                                        location_model(ls2[i as int])));
                                }
                            }
                        }
                        return None;
                    },
                };
                ls.push(l);
                i = i + 1;
            }
            Some(ls)
        },
        _ => None,
    }
}

/// Result of `references`.
pub struct ReferencesResult {
    /// Every reference found.
    pub locations: Vec<Location>,
}

/// Whether `v` is the JSON form of `ReferencesResult`.
pub open spec fn is_references_result_json(v: JsonValue, p: ReferencesResult) -> bool {
    match v {
        JsonValue::Obj(o) => {
            &&& o@.len() == 1
            &&& o@[0].0@ == "locations"@
            &&& is_locations_json(o@[0].1, p.locations@)
        },
        _ => false,
    }
}

/// Encode `ReferencesResult`.
pub fn references_result_to_json(p: &ReferencesResult) -> (r: JsonValue)
    ensures
        is_references_result_json(r, *p),
{
    let mut o: Vec<(String, JsonValue)> = Vec::new();
    o.push((String::from_str("locations"), locations_to_json(&p.locations)));
    JsonValue::Obj(o)
}

/// Decode `ReferencesResult`.
pub fn references_result_from_json(v: &JsonValue) -> (r: Option<ReferencesResult>)
    ensures
        match r {
            Some(p) => is_references_result_json(*v, p),
            None => forall|p: ReferencesResult| !is_references_result_json(*v, p),
        },
{
    match v {
        JsonValue::Obj(o) => {
            if o.len() != 1 || !string_eq_str(&o[0].0, "locations") {
                return None;
            }
            match locations_from_json(&o[0].1) {
                Some(ls) => Some(ReferencesResult { locations: ls }),
                None => None,
            }
        },
        _ => None,
    }
}

/// One labelled entry of a `batch_references` result.
pub struct BatchReferencesEntry {
    /// The label of the query this answers.
    pub label: String,
    /// The references found for it.
    pub locations: Vec<Location>,
}

/// Whether `v` is the JSON form of one batch entry.
pub open spec fn is_batch_entry_json(v: JsonValue, p: BatchReferencesEntry) -> bool {
    match v {
        JsonValue::Obj(o) => {
            &&& o@.len() == 2
            &&& o@[0].0@ == "label"@
            &&& (o@[0].1 matches JsonValue::Str(s) && s@ == p.label@)
            &&& o@[1].0@ == "locations"@
            &&& is_locations_json(o@[1].1, p.locations@)
        },
        _ => false,
    }
}

/// Encode one batch entry.
pub fn batch_entry_to_json(p: &BatchReferencesEntry) -> (r: JsonValue)
    ensures
        is_batch_entry_json(r, *p),
{
    let mut o: Vec<(String, JsonValue)> = Vec::new();
    o.push((String::from_str("label"), JsonValue::Str(clone_string(&p.label))));
    o.push((String::from_str("locations"), locations_to_json(&p.locations)));
    JsonValue::Obj(o)
}

/// Decode one batch entry.
pub fn batch_entry_from_json(v: &JsonValue) -> (r: Option<BatchReferencesEntry>)
    ensures
        match r {
            Some(p) => is_batch_entry_json(*v, p),
            None => forall|p: BatchReferencesEntry| !is_batch_entry_json(*v, p),
        },
{
    match v {
        JsonValue::Obj(o) => {
            if o.len() != 2 || !(string_eq_str(&o[0].0, "label") && string_eq_str(
                &o[1].0, "locations")) {
                return None;
            }
            let label = match &o[0].1 {
                JsonValue::Str(s) => clone_string(s),
                _ => { return None; },
            };
            match locations_from_json(&o[1].1) {
                Some(ls) => Some(BatchReferencesEntry { label, locations: ls }),
                None => None,
            }
        },
        _ => None,
    }
}

/// Result of `batch_references`: one entry per query, in query order.
pub struct BatchReferencesResult {
    /// The entries, labels echoing the queries in order.
    pub entries: Vec<BatchReferencesEntry>,
}

/// Whether `v` is the JSON form of `BatchReferencesResult`.
pub open spec fn is_batch_result_json(v: JsonValue, p: BatchReferencesResult) -> bool {
    match v {
        JsonValue::Obj(o) => {
            &&& o@.len() == 1
            &&& o@[0].0@ == "entries"@
            &&& match o@[0].1 {
                JsonValue::Arr(a) => a@.len() == p.entries@.len() && forall|i: int|
                    0 <= i < a@.len() ==> is_batch_entry_json(#[trigger] a@[i], p.entries@[i]),
                _ => false,
            }
        },
        _ => false,
    }
}

/// Encode `BatchReferencesResult`.
pub fn batch_result_to_json(p: &BatchReferencesResult) -> (r: JsonValue)
    ensures
        is_batch_result_json(r, *p),
{
    let mut a: Vec<JsonValue> = Vec::new();
    let mut i: usize = 0;
    while i < p.entries.len()
        invariant
            i <= p.entries@.len(),
            a@.len() == i,
            forall|k: int|
                0 <= k < i ==> is_batch_entry_json(#[trigger] a@[k], p.entries@[k]),
        decreases p.entries@.len() - i,
    {
        a.push(batch_entry_to_json(&p.entries[i]));
        i = i + 1;
    }
    let mut o: Vec<(String, JsonValue)> = Vec::new();
    o.push((String::from_str("entries"), JsonValue::Arr(a)));
    JsonValue::Obj(o)
}

/// Decode `BatchReferencesResult`.
pub fn batch_result_from_json(v: &JsonValue) -> (r: Option<BatchReferencesResult>)
    ensures
        match r {
            Some(p) => is_batch_result_json(*v, p),
            None => forall|p: BatchReferencesResult| !is_batch_result_json(*v, p),
        },
{
    match v {
        JsonValue::Obj(o) => {
            if o.len() != 1 || !string_eq_str(&o[0].0, "entries") {
                return None;
            }
            match &o[0].1 {
                JsonValue::Arr(a) => {
                    let mut es: Vec<BatchReferencesEntry> = Vec::new();
                    let mut i: usize = 0;
                    while i < a.len()
                        invariant
                            *v == JsonValue::Obj(*o),
                            o@[0].1 == JsonValue::Arr(*a),
                            o@[0].0@ == "entries"@,
                            o@.len() == 1,
                            i <= a@.len(),
                            es@.len() == i,
                            forall|k: int|
                                0 <= k < i ==> is_batch_entry_json(#[trigger] a@[k], es@[k]),
                        decreases a@.len() - i,
                    {
                        let e = match batch_entry_from_json(&a[i]) {
                            Some(e) => e,
                            None => {
                                proof {
                                    assert forall|p: BatchReferencesResult| !is_batch_result_json(
                                        *v, p) by {
                                        if is_batch_result_json(*v, p) {
                                            assert(p.entries@.len() == a@.len());
                                            assert(is_batch_entry_json(
                                                a@[i as int], p.entries@[i as int]));
                                        }
                                    }
                                }
                                return None;
                            },
                        };
                        es.push(e);
                        i = i + 1;
                    }
                    Some(BatchReferencesResult { entries: es })
                },
                _ => None,
            }
        },
        _ => None,
    }
}

} // verus!

verus! {

/// Result of `workspace_symbols`.
pub struct WorkspaceSymbolsResult {
    /// The matching symbols, already filtered and capped.
    pub symbols: Vec<SymbolInformation>,
}

/// Whether `v` is the JSON form of `WorkspaceSymbolsResult`.
pub open spec fn is_workspace_symbols_result_json(v: JsonValue, p: WorkspaceSymbolsResult) -> bool {
    match v {
        JsonValue::Obj(o) => {
            &&& o@.len() == 1
            &&& o@[0].0@ == "symbols"@
            &&& match o@[0].1 {
                JsonValue::Arr(a) => a@.len() == p.symbols@.len() && forall|i: int|
                    0 <= i < a@.len() ==> is_symbol_information_json(
                        #[trigger] a@[i], p.symbols@[i]),
                _ => false,
            }
        },
        _ => false,
    }
}

/// Encode `WorkspaceSymbolsResult`.
pub fn workspace_symbols_result_to_json(p: &WorkspaceSymbolsResult) -> (r: JsonValue)
    ensures
        is_workspace_symbols_result_json(r, *p),
{
    let mut a: Vec<JsonValue> = Vec::new();
    let mut i: usize = 0;
    while i < p.symbols.len()
        invariant
            i <= p.symbols@.len(),
            a@.len() == i,
            forall|k: int|
                0 <= k < i ==> is_symbol_information_json(#[trigger] a@[k], p.symbols@[k]),
        decreases p.symbols@.len() - i,
    {
        a.push(symbol_information_to_json(&p.symbols[i]));
        i = i + 1;
    }
    let mut o: Vec<(String, JsonValue)> = Vec::new();
    o.push((String::from_str("symbols"), JsonValue::Arr(a)));
    JsonValue::Obj(o)
}

/// Decode `WorkspaceSymbolsResult`.
pub fn workspace_symbols_result_from_json(v: &JsonValue) -> (r: Option<WorkspaceSymbolsResult>)
    ensures
        match r {
            Some(p) => is_workspace_symbols_result_json(*v, p),
            None => forall|p: WorkspaceSymbolsResult| !is_workspace_symbols_result_json(*v, p),
        },
{
    match v {
        JsonValue::Obj(o) => {
            if o.len() != 1 || !string_eq_str(&o[0].0, "symbols") {
                return None;
            }
            match &o[0].1 {
                JsonValue::Arr(a) => {
                    let mut ss: Vec<SymbolInformation> = Vec::new();
                    let mut i: usize = 0;
                    while i < a.len()
                        invariant
                            *v == JsonValue::Obj(*o),
                            o@[0].1 == JsonValue::Arr(*a),
                            o@[0].0@ == "symbols"@,
                            o@.len() == 1,
                            i <= a@.len(),
                            ss@.len() == i,
                            forall|k: int|
                                0 <= k < i ==> is_symbol_information_json(
                                    #[trigger] a@[k], ss@[k]),
                        decreases a@.len() - i,
                    {
                        let s = match symbol_information_from_json(&a[i]) {
                            Some(s) => s,
                            None => {
                                proof {
                                    assert forall|p: WorkspaceSymbolsResult|
                                        !is_workspace_symbols_result_json(*v, p) by {
                                        if is_workspace_symbols_result_json(*v, p) {
                                            assert(p.symbols@.len() == a@.len());
                                            assert(is_symbol_information_json(
                                                a@[i as int], p.symbols@[i as int]));
                                        }
                                    }
                                }
                                return None;
                            },
                        };
                        ss.push(s);
                        i = i + 1;
                    }
                    Some(WorkspaceSymbolsResult { symbols: ss })
                },
                _ => None,
            }
        },
        _ => None,
    }
}

/// Result of `document_symbols`.
pub struct DocumentSymbolsResult {
    /// The symbol tree of the file.
    pub symbols: Vec<DocumentSymbol>,
}

/// Whether `v` is the JSON form of `DocumentSymbolsResult`.
pub open spec fn is_document_symbols_result_json(v: JsonValue, p: DocumentSymbolsResult) -> bool {
    match v {
        JsonValue::Obj(o) => {
            &&& o@.len() == 1
            &&& o@[0].0@ == "symbols"@
            &&& match o@[0].1 {
                JsonValue::Arr(a) => a@.len() == p.symbols@.len() && forall|i: int|
                    0 <= i < a@.len() ==> is_document_symbol_json(
                        #[trigger] a@[i], p.symbols@[i]),
                _ => false,
            }
        },
        _ => false,
    }
}

/// Encode `DocumentSymbolsResult`.
pub fn document_symbols_result_to_json(p: &DocumentSymbolsResult) -> (r: JsonValue)
    ensures
        is_document_symbols_result_json(r, *p),
{
    let mut a: Vec<JsonValue> = Vec::new();
    let mut i: usize = 0;
    while i < p.symbols.len()
        invariant
            i <= p.symbols@.len(),
            a@.len() == i,
            forall|k: int|
                0 <= k < i ==> is_document_symbol_json(#[trigger] a@[k], p.symbols@[k]),
        decreases p.symbols@.len() - i,
    {
        a.push(document_symbol_to_json(&p.symbols[i]));
        i = i + 1;
    }
    let mut o: Vec<(String, JsonValue)> = Vec::new();
    o.push((String::from_str("symbols"), JsonValue::Arr(a)));
    JsonValue::Obj(o)
}

/// Decode `DocumentSymbolsResult`.
pub fn document_symbols_result_from_json(v: &JsonValue) -> (r: Option<DocumentSymbolsResult>)
    ensures
        match r {
            Some(p) => is_document_symbols_result_json(*v, p),
            None => forall|p: DocumentSymbolsResult| !is_document_symbols_result_json(*v, p),
        },
{
    match v {
        JsonValue::Obj(o) => {
            if o.len() != 1 || !string_eq_str(&o[0].0, "symbols") {
                return None;
            }
            match &o[0].1 {
                JsonValue::Arr(a) => {
                    let mut ss: Vec<DocumentSymbol> = Vec::new();
                    let mut i: usize = 0;
                    while i < a.len()
                        invariant
                            *v == JsonValue::Obj(*o),
                            o@[0].1 == JsonValue::Arr(*a),
                            o@[0].0@ == "symbols"@,
                            o@.len() == 1,
                            i <= a@.len(),
                            ss@.len() == i,
                            forall|k: int|
                                0 <= k < i ==> is_document_symbol_json(#[trigger] a@[k], ss@[k]),
                        decreases a@.len() - i,
                    {
                        let s = match document_symbol_from_json(&a[i]) {
                            Some(s) => s,
                            None => {
                                proof {
                                    assert forall|p: DocumentSymbolsResult|
                                        !is_document_symbols_result_json(*v, p) by {
                                        if is_document_symbols_result_json(*v, p) {
                                            assert(p.symbols@.len() == a@.len());
                                            assert(is_document_symbol_json(
                                                a@[i as int], p.symbols@[i as int]));
                                        }
                                    }
                                }
                                return None;
                            },
                        };
                        ss.push(s);
                        i = i + 1;
                    }
                    Some(DocumentSymbolsResult { symbols: ss })
                },
                _ => None,
            }
        },
        _ => None,
    }
}

/// Result of `inspect`: the hover and the references in one round trip.
pub struct InspectResult {
    /// The hover, when the server had one.
    pub hover: Option<Hover>,
    /// References, empty when not requested.
    pub references: Vec<Location>,
}

/// Whether `v` is the JSON form of `InspectResult`.
pub open spec fn is_inspect_result_json(v: JsonValue, p: InspectResult) -> bool {
    match v {
        JsonValue::Obj(o) => {
            &&& o@.len() == 2
            &&& o@[0].0@ == "hover"@
            &&& match p.hover {
                Some(h) => is_hover_json(o@[0].1, h),
                None => o@[0].1 is Null,
            }
            &&& o@[1].0@ == "references"@
            &&& is_locations_json(o@[1].1, p.references@)
        },
        _ => false,
    }
}

/// Encode `InspectResult`.
pub fn inspect_result_to_json(p: &InspectResult) -> (r: JsonValue)
    ensures
        is_inspect_result_json(r, *p),
{
    let mut o: Vec<(String, JsonValue)> = Vec::new();
    match &p.hover {
        Some(h) => {
            o.push((String::from_str("hover"), hover_to_json(h)));
        },
        None => {
            o.push((String::from_str("hover"), JsonValue::Null));
        },
    }
    o.push((String::from_str("references"), locations_to_json(&p.references)));
    JsonValue::Obj(o)
}

/// Decode `InspectResult`.
pub fn inspect_result_from_json(v: &JsonValue) -> (r: Option<InspectResult>)
    ensures
        match r {
            Some(p) => is_inspect_result_json(*v, p),
            None => forall|p: InspectResult| !is_inspect_result_json(*v, p),
        },
{
    match v {
        JsonValue::Obj(o) => {
            if o.len() != 2 || !(string_eq_str(&o[0].0, "hover") && string_eq_str(
                &o[1].0, "references")) {
                return None;
            }
            let hover: Option<Hover> = match &o[0].1 {
                JsonValue::Null => None,
                other => match hover_from_json(other) {
                    Some(h) => Some(h),
                    None => { return None; },
                },
            };
            match locations_from_json(&o[1].1) {
                Some(ls) => Some(InspectResult { hover, references: ls }),
                None => None,
            }
        },
        _ => None,
    }
}

/// One class member with its hover-derived signature.
pub struct MemberInfo {
    /// Member name.
    pub name: String,
    /// Its symbol kind.
    pub kind: SymbolKind,
    /// Cleaned signature from hover, when one was found.
    pub signature: Option<String>,
    /// Zero-based line of the member's name.
    pub line: u32,
    /// Zero-based column of the member's name.
    pub column: u32,
}

/// Whether `v` is the JSON form of one member.
pub open spec fn is_member_info_json(v: JsonValue, p: MemberInfo) -> bool {
    match v {
        JsonValue::Obj(o) => {
            &&& o@.len() == 5
            &&& o@[0].0@ == "name"@
            &&& (o@[0].1 matches JsonValue::Str(s) && s@ == p.name@)
            &&& o@[1].0@ == "kind"@
            &&& spec_u32_of(o@[1].1) == Some(kind_code(p.kind))
            &&& o@[2].0@ == "signature"@
            &&& match p.signature {
                Some(sig) => (o@[2].1 matches JsonValue::Str(s) && s@ == sig@),
                None => o@[2].1 is Null,
            }
            &&& o@[3].0@ == "line"@
            &&& spec_u32_of(o@[3].1) == Some(p.line)
            &&& o@[4].0@ == "column"@
            &&& spec_u32_of(o@[4].1) == Some(p.column)
        },
        _ => false,
    }
}

/// Encode one member.
pub fn member_info_to_json(p: &MemberInfo) -> (r: JsonValue)
    ensures
        is_member_info_json(r, *p),
{
    let mut o: Vec<(String, JsonValue)> = Vec::new();
    o.push((String::from_str("name"), JsonValue::Str(clone_string(&p.name))));
    o.push((String::from_str("kind"), JsonValue::Int { neg: false, mag: p.kind.code() as u64 }));
    match &p.signature {
        Some(sig) => {
            o.push((String::from_str("signature"), JsonValue::Str(clone_string(sig))));
        },
        None => {
            o.push((String::from_str("signature"), JsonValue::Null));
        },
    }
    o.push((String::from_str("line"), JsonValue::Int { neg: false, mag: p.line as u64 }));
    o.push((String::from_str("column"), JsonValue::Int { neg: false, mag: p.column as u64 }));
    JsonValue::Obj(o)
}

/// Decode one member.
pub fn member_info_from_json(v: &JsonValue) -> (r: Option<MemberInfo>)
    ensures
        match r {
            Some(p) => is_member_info_json(*v, p),
            None => forall|p: MemberInfo| !is_member_info_json(*v, p),
        },
{
    match v {
        JsonValue::Obj(o) => {
            if o.len() != 5 {
                return None;
            }
            if !(string_eq_str(&o[0].0, "name") && string_eq_str(&o[1].0, "kind")
                && string_eq_str(&o[2].0, "signature") && string_eq_str(&o[3].0, "line")
                && string_eq_str(&o[4].0, "column")) {
                return None;
            }
            let name = match &o[0].1 {
                JsonValue::Str(s) => clone_string(s),
                _ => { return None; },
            };
            let kind = match u32_from_json(&o[1].1) {
                Some(c) => SymbolKind::from_code(c),
                None => { return None; },
            };
            proof {
                crate::lsp_types::lemma_kind_code_roundtrip(kind);
            }
            let signature: Option<String> = match &o[2].1 {
                JsonValue::Null => None,
                JsonValue::Str(s) => Some(clone_string(s)),
                _ => { return None; },
            };
            let line = match u32_from_json(&o[3].1) {
                Some(x) => x,
                None => { return None; },
            };
            let column = match u32_from_json(&o[4].1) {
                Some(x) => x,
                None => { return None; },
            };
            Some(MemberInfo { name, kind, signature, line, column })
        },
        _ => None,
    }
}

/// Result of `members`: where the symbol was found, its kind, and its
/// members with signatures.
pub struct MembersResult {
    /// The class name asked about.
    pub class_name: String,
    /// The file URI of the definition.
    pub file_uri: String,
    /// Zero-based line of the definition.
    pub class_line: u32,
    /// Zero-based column of the definition.
    pub class_column: u32,
    /// The kind of the symbol found, absent when it was not found.
    pub symbol_kind: Option<SymbolKind>,
    /// The members; empty unless the symbol is a class.
    pub members: Vec<MemberInfo>,
}

/// Whether `v` is the JSON form of `MembersResult`.
pub open spec fn is_members_result_json(v: JsonValue, p: MembersResult) -> bool {
    match v {
        JsonValue::Obj(o) => {
            &&& o@.len() == 6
            &&& o@[0].0@ == "class_name"@
            &&& (o@[0].1 matches JsonValue::Str(s) && s@ == p.class_name@)
            &&& o@[1].0@ == "file_uri"@
            &&& (o@[1].1 matches JsonValue::Str(s) && s@ == p.file_uri@)
            &&& o@[2].0@ == "class_line"@
            &&& spec_u32_of(o@[2].1) == Some(p.class_line)
            &&& o@[3].0@ == "class_column"@
            &&& spec_u32_of(o@[3].1) == Some(p.class_column)
            &&& o@[4].0@ == "symbol_kind"@
            &&& match p.symbol_kind {
                Some(k) => spec_u32_of(o@[4].1) == Some(kind_code(k)),
                None => o@[4].1 is Null,
            }
            &&& o@[5].0@ == "members"@
            &&& match o@[5].1 {
                JsonValue::Arr(a) => a@.len() == p.members@.len() && forall|i: int|
                    0 <= i < a@.len() ==> is_member_info_json(#[trigger] a@[i], p.members@[i]),
                _ => false,
            }
        },
        _ => false,
    }
}

/// Encode `MembersResult`.
pub fn members_result_to_json(p: &MembersResult) -> (r: JsonValue)
    ensures
        is_members_result_json(r, *p),
{
    let mut o: Vec<(String, JsonValue)> = Vec::new();
    o.push((String::from_str("class_name"), JsonValue::Str(clone_string(&p.class_name))));
    o.push((String::from_str("file_uri"), JsonValue::Str(clone_string(&p.file_uri))));
    o.push((String::from_str("class_line"), JsonValue::Int { neg: false, mag: p.class_line as u64 }));
    o.push((String::from_str("class_column"), JsonValue::Int {
        neg: false,
        mag: p.class_column as u64,
    }));
    match &p.symbol_kind {
        Some(k) => {
            o.push((String::from_str("symbol_kind"), JsonValue::Int {
                neg: false,
                mag: k.code() as u64,
            }));
        },
        None => {
            o.push((String::from_str("symbol_kind"), JsonValue::Null));
        },
    }
    let mut a: Vec<JsonValue> = Vec::new();
    let mut i: usize = 0;
    while i < p.members.len()
        invariant
            i <= p.members@.len(),
            a@.len() == i,
            forall|k: int|
                0 <= k < i ==> is_member_info_json(#[trigger] a@[k], p.members@[k]),
        decreases p.members@.len() - i,
    {
        a.push(member_info_to_json(&p.members[i]));
        i = i + 1;
    }
    o.push((String::from_str("members"), JsonValue::Arr(a)));
    JsonValue::Obj(o)
}

/// Decode `MembersResult`.
pub fn members_result_from_json(v: &JsonValue) -> (r: Option<MembersResult>)
    ensures
        match r {
            Some(p) => is_members_result_json(*v, p),
            None => forall|p: MembersResult| !is_members_result_json(*v, p),
        },
{
    match v {
        JsonValue::Obj(o) => {
            if o.len() != 6 {
                return None;
            }
            if !(string_eq_str(&o[0].0, "class_name") && string_eq_str(&o[1].0, "file_uri")
                && string_eq_str(&o[2].0, "class_line") && string_eq_str(&o[3].0, "class_column")
                && string_eq_str(&o[4].0, "symbol_kind") && string_eq_str(&o[5].0, "members")) {
                return None;
            }
            let class_name = match &o[0].1 {
                JsonValue::Str(s) => clone_string(s),
                _ => { return None; },
            };
            let file_uri = match &o[1].1 {
                JsonValue::Str(s) => clone_string(s),
                _ => { return None; },
            };
            let class_line = match u32_from_json(&o[2].1) {
                Some(x) => x,
                None => { return None; },
            };
            let class_column = match u32_from_json(&o[3].1) {
                Some(x) => x,
                None => { return None; },
            };
            let symbol_kind: Option<SymbolKind> = match &o[4].1 {
                JsonValue::Null => None,
                other => match u32_from_json(other) {
                    Some(c) => {
                        let k = SymbolKind::from_code(c);
                        proof {
                            crate::lsp_types::lemma_kind_code_roundtrip(k);
                        }
                        Some(k)
                    },
                    None => { return None; },
                },
            };
            let members: Vec<MemberInfo> = match &o[5].1 {
                JsonValue::Arr(a) => {
                    let mut ms: Vec<MemberInfo> = Vec::new();
                    let mut i: usize = 0;
                    while i < a.len()
                        invariant
                            *v == JsonValue::Obj(*o),
                            o@[5].1 == JsonValue::Arr(*a),
                            i <= a@.len(),
                            ms@.len() == i,
                            forall|k: int|
                                0 <= k < i ==> is_member_info_json(#[trigger] a@[k], ms@[k]),
                        decreases a@.len() - i,
                    {
                        let m = match member_info_from_json(&a[i]) {
                            Some(m) => m,
                            None => {
                                proof {
                                    assert forall|p: MembersResult| !is_members_result_json(
                                        *v, p) by {
                                        if is_members_result_json(*v, p) {
                                            assert(p.members@.len() == a@.len());
                                            assert(is_member_info_json(
                                                a@[i as int], p.members@[i as int]));
                                        }
                                    }
                                }
                                return None;
                            },
                        };
                        ms.push(m);
                        i = i + 1;
                    }
                    ms
                },
                _ => { return None; },
            };
            Some(MembersResult {
                class_name,
                file_uri,
                class_line,
                class_column,
                symbol_kind,
                members,
            })
        },
        _ => None,
    }
}

/// Severity of a diagnostic, coded 1 to 4 on the wire.
#[derive(Clone, Copy, PartialEq, Eq, Structural, Debug)]
pub enum DiagnosticSeverity {
    Error,
    Warning,
    Information,
    Hint,
}

impl DiagnosticSeverity {
    /// The wire code: 1 error, 2 warning, 3 information, 4 hint.
    pub fn code(self) -> (r: u8)
        ensures
            self is Error ==> r == 1,
            self is Warning ==> r == 2,
            self is Information ==> r == 3,
            self is Hint ==> r == 4,
    {
        match self {
            DiagnosticSeverity::Error => 1,
            DiagnosticSeverity::Warning => 2,
            DiagnosticSeverity::Information => 3,
            DiagnosticSeverity::Hint => 4,
        }
    }

    /// The severity for a wire code.
    pub fn from_code(c: u8) -> (r: Option<DiagnosticSeverity>)
        ensures
            c == 1 ==> r == Some(DiagnosticSeverity::Error),
            c == 2 ==> r == Some(DiagnosticSeverity::Warning),
            c == 3 ==> r == Some(DiagnosticSeverity::Information),
            c == 4 ==> r == Some(DiagnosticSeverity::Hint),
            !(1 <= c <= 4) ==> r is None,
    {
        if c == 1 {
            Some(DiagnosticSeverity::Error)
        } else if c == 2 {
            Some(DiagnosticSeverity::Warning)
        } else if c == 3 {
            Some(DiagnosticSeverity::Information)
        } else if c == 4 {
            Some(DiagnosticSeverity::Hint)
        } else {
            None
        }
    }
}

/// Context attached to a diagnostic.
pub struct DiagnosticRelatedInformation {
    /// Where the related information points.
    pub location: Location,
    /// What it says.
    pub message: String,
}

/// One diagnostic message.
pub struct Diagnostic {
    /// Where it applies.
    pub range: crate::lsp_types::Range,
    /// How severe it is.
    pub severity: DiagnosticSeverity,
    /// An optional code.
    pub code: Option<String>,
    /// The tool that produced it.
    pub source: Option<String>,
    /// The message.
    pub message: String,
    /// Optional related locations.
    pub related_information: Option<Vec<DiagnosticRelatedInformation>>,
}

/// Result of `diagnostics`. The endpoint is planned: until diagnostics
/// are wired to LSP push notifications the list is always empty.
pub struct DiagnosticsResult {
    /// The diagnostics of the file.
    pub diagnostics: Vec<Diagnostic>,
}

/// Whether `v` is the JSON form of an empty diagnostics result.
pub open spec fn is_empty_diagnostics_json(v: JsonValue) -> bool {
    match v {
        JsonValue::Obj(o) => {
            &&& o@.len() == 1
            &&& o@[0].0@ == "diagnostics"@
            &&& (o@[0].1 matches JsonValue::Arr(a) && a@.len() == 0)
        },
        _ => false,
    }
}

/// Result of `ping`.
pub struct PingResult {
    /// Always `running`.
    pub status: String,
    /// Whole seconds since the daemon started.
    pub uptime: u64,
    /// Live entries in the client pool.
    pub active_workspaces: u64,
    /// Cached responses; no cache exists yet, so zero.
    pub cache_size: u64,
}

/// Whether `v` is the JSON form of `PingResult`.
pub open spec fn is_ping_result_json(v: JsonValue, p: PingResult) -> bool {
    match v {
        JsonValue::Obj(o) => {
            &&& o@.len() == 4
            &&& o@[0].0@ == "status"@
            &&& (o@[0].1 matches JsonValue::Str(s) && s@ == p.status@)
            &&& o@[1].0@ == "uptime"@
            &&& o@[1].1 == (JsonValue::Int { neg: false, mag: p.uptime })
            &&& o@[2].0@ == "active_workspaces"@
            &&& o@[2].1 == (JsonValue::Int { neg: false, mag: p.active_workspaces })
            &&& o@[3].0@ == "cache_size"@
            &&& o@[3].1 == (JsonValue::Int { neg: false, mag: p.cache_size })
        },
        _ => false,
    }
}

/// Encode `PingResult`.
pub fn ping_result_to_json(p: &PingResult) -> (r: JsonValue)
    ensures
        is_ping_result_json(r, *p),
        wf_json(r),
{
    let mut o: Vec<(String, JsonValue)> = Vec::new();
    o.push((String::from_str("status"), JsonValue::Str(clone_string(&p.status))));
    o.push((String::from_str("uptime"), JsonValue::Int { neg: false, mag: p.uptime }));
    o.push((String::from_str("active_workspaces"), JsonValue::Int {
        neg: false,
        mag: p.active_workspaces,
    }));
    o.push((String::from_str("cache_size"), JsonValue::Int { neg: false, mag: p.cache_size }));
    let v = JsonValue::Obj(o);
    proof {
        match &v {
            JsonValue::Obj(oo) => {
                assert(wf_json(v)) by {
                    assert(forall|i: int| 0 <= i < oo@.len() ==> wf_json(#[trigger] oo@[i].1));
                }
            },
            _ => {},
        }
    }
    v
}

/// Decode `PingResult`.
pub fn ping_result_from_json(v: &JsonValue) -> (r: Option<PingResult>)
    ensures
        match r {
            Some(p) => is_ping_result_json(*v, p),
            None => forall|p: PingResult| !is_ping_result_json(*v, p),
        },
{
    match v {
        JsonValue::Obj(o) => {
            if o.len() != 4 {
                return None;
            }
            if !(string_eq_str(&o[0].0, "status") && string_eq_str(&o[1].0, "uptime")
                && string_eq_str(&o[2].0, "active_workspaces") && string_eq_str(
                &o[3].0, "cache_size")) {
                return None;
            }
            let status = match &o[0].1 {
                JsonValue::Str(s) => clone_string(s),
                _ => { return None; },
            };
            let uptime = match &o[1].1 {
                JsonValue::Int { neg: false, mag } => *mag,
                _ => { return None; },
            };
            let active_workspaces = match &o[2].1 {
                JsonValue::Int { neg: false, mag } => *mag,
                _ => { return None; },
            };
            let cache_size = match &o[3].1 {
                JsonValue::Int { neg: false, mag } => *mag,
                _ => { return None; },
            };
            Some(PingResult { status, uptime, active_workspaces, cache_size })
        },
        _ => None,
    }
}

/// Result of `shutdown`.
pub struct ShutdownResult {
    /// The confirmation text.
    pub message: String,
}

/// Whether `v` is the JSON form of `ShutdownResult`.
pub open spec fn is_shutdown_result_json(v: JsonValue, p: ShutdownResult) -> bool {
    match v {
        JsonValue::Obj(o) => {
            &&& o@.len() == 1
            &&& o@[0].0@ == "message"@
            &&& (o@[0].1 matches JsonValue::Str(s) && s@ == p.message@)
        },
        _ => false,
    }
}

/// Encode `ShutdownResult`.
pub fn shutdown_result_to_json(p: &ShutdownResult) -> (r: JsonValue)
    ensures
        is_shutdown_result_json(r, *p),
        wf_json(r),
{
    let mut o: Vec<(String, JsonValue)> = Vec::new();
    o.push((String::from_str("message"), JsonValue::Str(clone_string(&p.message))));
    let v = JsonValue::Obj(o);
    proof {
        match &v {
            JsonValue::Obj(oo) => {
                assert(wf_json(v)) by {
                    assert(forall|i: int| 0 <= i < oo@.len() ==> wf_json(#[trigger] oo@[i].1));
                }
            },
            _ => {},
        }
    }
    v
}

/// Decode `ShutdownResult`.
pub fn shutdown_result_from_json(v: &JsonValue) -> (r: Option<ShutdownResult>)
    ensures
        match r {
            Some(p) => is_shutdown_result_json(*v, p),
            None => forall|p: ShutdownResult| !is_shutdown_result_json(*v, p),
        },
{
    match v {
        JsonValue::Obj(o) => {
            if o.len() != 1 || !string_eq_str(&o[0].0, "message") {
                return None;
            }
            match &o[0].1 {
                JsonValue::Str(s) => Some(ShutdownResult { message: clone_string(s) }),
                _ => None,
            }
        },
        _ => None,
    }
}

} // verus!
