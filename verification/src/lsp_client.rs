//! The typed facade over one LSP child process: building the framed
//! requests and notifications the six operations send, and the reader
//! step that routes each inbound frame to the waiter its id names.
//!
//! The process itself, its pipes, and the task that pumps them live with
//! the caller; every byte that crosses them is built or read here.

use vstd::prelude::*;
use vstd::string::StringExecFns;
use crate::framing::{frame_text, render_frame};
use crate::json::{json_to_string, parse_json, ser_json, JsonValue};
use crate::lsp_types::LSPResponse;
use crate::strutil::string_eq_str;
use crate::transport::PendingMap;

verus! {

broadcast use vstd::utf8::char_is_scalar;

/// Whether `v` is the JSON form of an outgoing LSP request.
pub open spec fn is_lsp_request_json(
    v: JsonValue,
    id: u64,
    method: Seq<char>,
    params: JsonValue,
) -> bool {
    match v {
        JsonValue::Obj(o) => {
            &&& o@.len() == 4
            &&& o@[0].0@ == "jsonrpc"@
            &&& (o@[0].1 matches JsonValue::Str(s) && s@ == "2.0"@)
            &&& o@[1].0@ == "id"@
            &&& o@[1].1 == (JsonValue::Int { neg: false, mag: id })
            &&& o@[2].0@ == "method"@
            &&& (o@[2].1 matches JsonValue::Str(m) && m@ == method)
            &&& o@[3].0@ == "params"@
            &&& o@[3].1 == params
        },
        _ => false,
    }
}

/// Whether `v` is the JSON form of an outgoing LSP notification: a
/// request without an id, which expects no reply.
pub open spec fn is_lsp_notification_json(v: JsonValue, method: Seq<char>, params: JsonValue)
    -> bool {
    match v {
        JsonValue::Obj(o) => {
            &&& o@.len() == 3
            &&& o@[0].0@ == "jsonrpc"@
            &&& (o@[0].1 matches JsonValue::Str(s) && s@ == "2.0"@)
            &&& o@[1].0@ == "method"@
            &&& (o@[1].1 matches JsonValue::Str(m) && m@ == method)
            &&& o@[2].0@ == "params"@
            &&& o@[2].1 == params
        },
        _ => false,
    }
}

/// Build the framed text of one LSP request.
pub fn lsp_request_frame(id: u64, method: &str, params: JsonValue) -> (r: String)
    ensures
        exists|v: JsonValue|
            #[trigger] is_lsp_request_json(v, id, method@, params) && r@ == frame_text(
                ser_json(v)),
{
    let mut o: Vec<(String, JsonValue)> = Vec::new();
    o.push((String::from_str("jsonrpc"), JsonValue::Str(String::from_str("2.0"))));
    o.push((String::from_str("id"), JsonValue::Int { neg: false, mag: id }));
    o.push((String::from_str("method"), JsonValue::Str(String::from_str(method))));
    o.push((String::from_str("params"), params));
    let v = JsonValue::Obj(o);
    let body = json_to_string(&v);
    let framed = render_frame(body.as_str());
    proof {
        assert(is_lsp_request_json(v, id, method@, params) && framed@ == frame_text(
            ser_json(v)));
    }
    framed
}

/// Build the framed text of one LSP notification.
pub fn lsp_notification_frame(method: &str, params: JsonValue) -> (r: String)
    ensures
        exists|v: JsonValue|
            #[trigger] is_lsp_notification_json(v, method@, params) && r@ == frame_text(
                ser_json(v)),
{
    let mut o: Vec<(String, JsonValue)> = Vec::new();
    o.push((String::from_str("jsonrpc"), JsonValue::Str(String::from_str("2.0"))));
    o.push((String::from_str("method"), JsonValue::Str(String::from_str(method))));
    o.push((String::from_str("params"), params));
    let v = JsonValue::Obj(o);
    let body = json_to_string(&v);
    let framed = render_frame(body.as_str());
    proof {
        assert(is_lsp_notification_json(v, method@, params) && framed@ == frame_text(
            ser_json(v)));
    }
    framed
}

/// Whether `v` is an LSP response frame for id `id`, carrying `result`
/// or an error.
pub open spec fn is_lsp_response_json(v: JsonValue, resp: LSPResponse) -> bool {
    match v {
        JsonValue::Obj(o) => {
            &&& o@.len() == 3
            &&& o@[0].0@ == "jsonrpc"@
            &&& (o@[0].1 matches JsonValue::Str(s) && s@ == resp.jsonrpc@)
            &&& o@[1].0@ == "id"@
            &&& (resp.id matches Some(id) && o@[1].1 == (JsonValue::Int { neg: false, mag: id }))
            &&& match (resp.result, resp.error) {
                (Some(res), None) => o@[2].0@ == "result"@ && o@[2].1 == res,
                (None, Some(err)) => o@[2].0@ == "error"@ && crate::lsp_types::spec_lsp_error_of(
                    o@[2].1) == Some((err.code as int, err.message@)),
                _ => false,
            }
        },
        _ => false,
    }
}

/// Decode an inbound LSP frame as a response. Frames without the
/// response shape (notifications, server-side requests) yield `None`
/// and are discarded by the reader.
pub fn lsp_response_from_json(v: JsonValue) -> (r: Option<LSPResponse>)
    ensures
        match r {
            Some(resp) => is_lsp_response_json(v, resp) && resp.id is Some,
            None => forall|resp: LSPResponse| !is_lsp_response_json(v, resp),
        },
{
    let o = match v {
        JsonValue::Obj(o) => o,
        _ => { return None; },
    };
    if o.len() != 3 {
        return None;
    }
    let ghost go = o@;
    let mut o = o;
    let (k2, payload) = o.pop().unwrap();
    let (k1, idval) = o.pop().unwrap();
    let (k0, jval) = o.pop().unwrap();
    proof {
        assert(go[0] == (k0, jval));
        assert(go[1] == (k1, idval));
        assert(go[2] == (k2, payload));
    }
    if !(string_eq_str(&k0, "jsonrpc") && string_eq_str(&k1, "id")) {
        return None;
    }
    let jsonrpc = match jval {
        JsonValue::Str(s) => s,
        _ => { return None; },
    };
    let id = match idval {
        JsonValue::Int { neg: false, mag } => mag,
        _ => { return None; },
    };
    if string_eq_str(&k2, "result") {
        Some(LSPResponse { jsonrpc, id: Some(id), result: Some(payload), error: None })
    } else if string_eq_str(&k2, "error") {
        match crate::lsp_types::lsp_error_from_json(&payload) {
            Some(e) => Some(LSPResponse { jsonrpc, id: Some(id), result: None, error: Some(e) }),
            None => None,
        }
    } else {
        None
    }
}

/// One step of the reader task, for one inbound frame body.
///
/// The body is parsed and the value routed with `route_response`, which
/// owes delivery: a parsed response whose id has a waiter is always
/// handed back with its id. A body the canonical parser does not accept
/// is discarded; that parse layer is the one step not covered by the
/// routing obligation, since the parser's contract only pins what a
/// successful parse returns.
pub fn reader_step(pending: &mut PendingMap, body: &str) -> (r: Option<(u64, LSPResponse)>)
    requires
        old(pending).wf(),
    ensures
        final(pending).wf(),
        final(pending).next() == old(pending).next(),
        match r {
            Some((id, resp)) => {
                &&& old(pending).pending().contains(id)
                &&& final(pending).pending() == old(pending).pending().remove(id)
                &&& resp.id == Some(id)
            },
            None => final(pending).pending() == old(pending).pending(),
        },
{
    match parse_json(body) {
        Some(v) => route_response(pending, v),
        None => {
            proof {
                assert(final(pending).pending() =~= old(pending).pending());
            }
            None
        },
    }
}

} // verus!

verus! {

use crate::json::wf_json;
use vstd::string::StrSliceExecFns;

/// Route one parsed inbound value: a response whose id has a waiter is
/// delivered and its slot removed; every other value — notifications,
/// server requests, responses for unknown ids — is discarded untouched.
///
/// Delivery is owed, not optional: when the value is a response whose id
/// is pending, the result names exactly that id; and when the result is
/// `None`, no response the value encodes has a pending id.
pub fn route_response(pending: &mut PendingMap, v: JsonValue) -> (r: Option<(u64, LSPResponse)>)
    requires
        old(pending).wf(),
    ensures
        final(pending).wf(),
        final(pending).next() == old(pending).next(),
        match r {
            Some((id, resp)) => {
                &&& is_lsp_response_json(v, resp)
                &&& resp.id == Some(id)
                &&& old(pending).pending().contains(id)
                &&& final(pending).pending() == old(pending).pending().remove(id)
            },
            None => {
                &&& final(pending).pending() == old(pending).pending()
                &&& forall|resp: LSPResponse|
                    #[trigger] is_lsp_response_json(v, resp) ==> (resp.id matches Some(id)
                        && !old(pending).pending().contains(id))
            },
        },
{
    let resp = match lsp_response_from_json(v) {
        Some(resp) => resp,
        None => {
            proof {
                assert(final(pending).pending() =~= old(pending).pending());
            }
            return None;
        },
    };
    let id = match resp.id {
        Some(id) => id,
        None => {
            proof {
                assert(false);
            }
            return None;
        },
    };
    let delivered = pending.complete(id);
    if delivered {
        Some((id, resp))
    } else {
        proof {
            assert(final(pending).pending() =~= old(pending).pending());
            assert forall|resp2: LSPResponse|
                #[trigger] is_lsp_response_json(v, resp2) implies (resp2.id matches Some(id2)
                && !old(pending).pending().contains(id2)) by {
                match v {
                    JsonValue::Obj(o) => {
                        assert(resp2.id matches Some(i2) && o@[1].1 == (JsonValue::Int {
                            neg: false,
                            mag: i2,
                        }));
                        assert(resp2.id == Some(id));
                    },
                    _ => {},
                }
            }
        }
        None
    }
}

/// Whether `v` is the `textDocument`/`position` parameter object of a
/// positional LSP call.
pub open spec fn is_position_params_json(
    v: JsonValue,
    uri: Seq<char>,
    line: u32,
    character: u32,
) -> bool {
    match v {
        JsonValue::Obj(o) => {
            &&& o@.len() == 2
            &&& o@[0].0@ == "textDocument"@
            &&& (match o@[0].1 {
                JsonValue::Obj(td) => td@.len() == 1 && td@[0].0@ == "uri"@ && (
                td@[0].1 matches JsonValue::Str(u) && u@ == uri),
                _ => false,
            })
            &&& o@[1].0@ == "position"@
            &&& crate::lsp_types::spec_position_of(o@[1].1) == Some(
                crate::lsp_types::Position { line, character })
        },
        _ => false,
    }
}

/// Build the parameters of a positional call: the document and the
/// zero-based position.
pub fn position_params_json(uri: &str, line: u32, character: u32) -> (r: JsonValue)
    ensures
        is_position_params_json(r, uri@, line, character),
        wf_json(r),
{
    let mut td: Vec<(String, JsonValue)> = Vec::new();
    td.push((String::from_str("uri"), JsonValue::Str(String::from_str(uri))));
    let mut o: Vec<(String, JsonValue)> = Vec::new();
    o.push((String::from_str("textDocument"), JsonValue::Obj(td)));
    o.push((String::from_str("position"), crate::lsp_types::position_to_json(
        crate::lsp_types::Position { line, character },
    )));
    let v = JsonValue::Obj(o);
    proof {
        match &v {
            JsonValue::Obj(oo) => {
                assert(wf_json(v)) by {
                    match oo@[0].1 {
                        JsonValue::Obj(tdd) => {
                            assert(forall|i: int|
                                0 <= i < tdd@.len() ==> wf_json(#[trigger] tdd@[i].1));
                        },
                        _ => {},
                    }
                    assert(forall|i: int| 0 <= i < oo@.len() ==> wf_json(#[trigger] oo@[i].1));
                }
            },
            _ => {},
        }
    }
    v
}

/// Whether `v` is the parameter object of a references call: a
/// position plus the `includeDeclaration` flag, forwarded verbatim.
pub open spec fn is_reference_params_json(
    v: JsonValue,
    uri: Seq<char>,
    line: u32,
    character: u32,
    include_declaration: bool,
) -> bool {
    match v {
        JsonValue::Obj(o) => {
            &&& o@.len() == 3
            &&& o@[0].0@ == "textDocument"@
            &&& (match o@[0].1 {
                JsonValue::Obj(td) => td@.len() == 1 && td@[0].0@ == "uri"@ && (
                td@[0].1 matches JsonValue::Str(u) && u@ == uri),
                _ => false,
            })
            &&& o@[1].0@ == "position"@
            &&& crate::lsp_types::spec_position_of(o@[1].1) == Some(
                crate::lsp_types::Position { line, character })
            &&& o@[2].0@ == "context"@
            &&& (match o@[2].1 {
                JsonValue::Obj(cx) => cx@.len() == 1 && cx@[0].0@ == "includeDeclaration"@
                    && cx@[0].1 == JsonValue::Bool(include_declaration),
                _ => false,
            })
        },
        _ => false,
    }
}

/// Build the parameters of a references call.
pub fn reference_params_json(
    uri: &str,
    line: u32,
    character: u32,
    include_declaration: bool,
) -> (r: JsonValue)
    ensures
        is_reference_params_json(r, uri@, line, character, include_declaration),
        wf_json(r),
{
    let mut td: Vec<(String, JsonValue)> = Vec::new();
    td.push((String::from_str("uri"), JsonValue::Str(String::from_str(uri))));
    let mut cx: Vec<(String, JsonValue)> = Vec::new();
    cx.push((String::from_str("includeDeclaration"), JsonValue::Bool(include_declaration)));
    let mut o: Vec<(String, JsonValue)> = Vec::new();
    o.push((String::from_str("textDocument"), JsonValue::Obj(td)));
    o.push((String::from_str("position"), crate::lsp_types::position_to_json(
        crate::lsp_types::Position { line, character },
    )));
    o.push((String::from_str("context"), JsonValue::Obj(cx)));
    let v = JsonValue::Obj(o);
    proof {
        match &v {
            JsonValue::Obj(oo) => {
                assert(wf_json(v)) by {
                    match oo@[0].1 {
                        JsonValue::Obj(tdd) => {
                            assert(forall|i: int|
                                0 <= i < tdd@.len() ==> wf_json(#[trigger] tdd@[i].1));
                        },
                        _ => {},
                    }
                    match oo@[2].1 {
                        JsonValue::Obj(cxx) => {
                            assert(forall|i: int|
                                0 <= i < cxx@.len() ==> wf_json(#[trigger] cxx@[i].1));
                        },
                        _ => {},
                    }
                    assert(forall|i: int| 0 <= i < oo@.len() ==> wf_json(#[trigger] oo@[i].1));
                }
            },
            _ => {},
        }
    }
    v
}

/// Whether `v` is the `didOpen` parameter object for a document's text.
pub open spec fn is_didopen_params_json(v: JsonValue, uri: Seq<char>, text: Seq<char>) -> bool {
    match v {
        JsonValue::Obj(o) => {
            &&& o@.len() == 1
            &&& o@[0].0@ == "textDocument"@
            &&& (match o@[0].1 {
                JsonValue::Obj(td) => {
                    &&& td@.len() == 4
                    &&& td@[0].0@ == "uri"@
                    &&& (td@[0].1 matches JsonValue::Str(u) && u@ == uri)
                    &&& td@[1].0@ == "languageId"@
                    &&& (td@[1].1 matches JsonValue::Str(l) && l@ == "python"@)
                    &&& td@[2].0@ == "version"@
                    &&& td@[2].1 == (JsonValue::Int { neg: false, mag: 1 })
                    &&& td@[3].0@ == "text"@
                    &&& (td@[3].1 matches JsonValue::Str(t) && t@ == text)
                },
                _ => false,
            })
        },
        _ => false,
    }
}

/// Build the `didOpen` parameters: the URI, the `python` language id,
/// version one, and the document's text.
pub fn didopen_params_json(uri: &str, text: String) -> (r: JsonValue)
    ensures
        is_didopen_params_json(r, uri@, text@),
        wf_json(r),
{
    let mut td: Vec<(String, JsonValue)> = Vec::new();
    td.push((String::from_str("uri"), JsonValue::Str(String::from_str(uri))));
    td.push((String::from_str("languageId"), JsonValue::Str(String::from_str("python"))));
    td.push((String::from_str("version"), JsonValue::Int { neg: false, mag: 1 }));
    td.push((String::from_str("text"), JsonValue::Str(text)));
    let mut o: Vec<(String, JsonValue)> = Vec::new();
    o.push((String::from_str("textDocument"), JsonValue::Obj(td)));
    let v = JsonValue::Obj(o);
    proof {
        match &v {
            JsonValue::Obj(oo) => {
                assert(wf_json(v)) by {
                    match oo@[0].1 {
                        JsonValue::Obj(tdd) => {
                            assert(forall|i: int|
                                0 <= i < tdd@.len() ==> wf_json(#[trigger] tdd@[i].1));
                        },
                        _ => {},
                    }
                    assert(forall|i: int| 0 <= i < oo@.len() ==> wf_json(#[trigger] oo@[i].1));
                }
            },
            _ => {},
        }
    }
    v
}

} // verus!
