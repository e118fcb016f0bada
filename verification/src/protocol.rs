//! The JSON-RPC 2.0 schema spoken between the command-line client and the
//! daemon: requests, responses, the error taxonomy, and the closed method
//! set, together with their JSON encodings and the round-trip law.

use vstd::prelude::*;
use crate::json::JsonValue;
use crate::strutil::{str_eq, string_eq_str};

verus! {

broadcast use vstd::utf8::char_is_scalar;

/// The daemon's closed method set.
#[derive(Clone, Copy, PartialEq, Eq, Structural, Debug, Hash)]
pub enum Method {
    Hover,
    Definition,
    WorkspaceSymbols,
    DocumentSymbols,
    References,
    BatchReferences,
    Inspect,
    Members,
    Diagnostics,
    Ping,
    Shutdown,
}

/// The wire name of each method.
pub open spec fn method_name(m: Method) -> Seq<char> {
    match m {
        Method::Hover => "hover"@,
        Method::Definition => "definition"@,
        Method::WorkspaceSymbols => "workspace_symbols"@,
        Method::DocumentSymbols => "document_symbols"@,
        Method::References => "references"@,
        Method::BatchReferences => "batch_references"@,
        Method::Inspect => "inspect"@,
        Method::Members => "members"@,
        Method::Diagnostics => "diagnostics"@,
        Method::Ping => "ping"@,
        Method::Shutdown => "shutdown"@,
    }
}

/// The method named by a wire string, if any.
pub open spec fn spec_method_of(s: Seq<char>) -> Option<Method> {
    if s == "hover"@ {
        Some(Method::Hover)
    } else if s == "definition"@ {
        Some(Method::Definition)
    } else if s == "workspace_symbols"@ {
        Some(Method::WorkspaceSymbols)
    } else if s == "document_symbols"@ {
        Some(Method::DocumentSymbols)
    } else if s == "references"@ {
        Some(Method::References)
    } else if s == "batch_references"@ {
        Some(Method::BatchReferences)
    } else if s == "inspect"@ {
        Some(Method::Inspect)
    } else if s == "members"@ {
        Some(Method::Members)
    } else if s == "diagnostics"@ {
        Some(Method::Diagnostics)
    } else if s == "ping"@ {
        Some(Method::Ping)
    } else if s == "shutdown"@ {
        Some(Method::Shutdown)
    } else {
        None
    }
}

/// Looking a method's own name up yields that method: the two sides of the
/// wire agree on the method set.
pub proof fn lemma_method_name_roundtrip(m: Method)
    ensures
        spec_method_of(method_name(m)) == Some(m),
{
    reveal_strlit("hover");
    reveal_strlit("definition");
    reveal_strlit("workspace_symbols");
    reveal_strlit("document_symbols");
    reveal_strlit("references");
    reveal_strlit("batch_references");
    reveal_strlit("inspect");
    reveal_strlit("members");
    reveal_strlit("diagnostics");
    reveal_strlit("ping");
    reveal_strlit("shutdown");
    assert("hover"@.len() == 5);
    assert("definition"@.len() == 10);
    assert("workspace_symbols"@.len() == 17);
    assert("document_symbols"@.len() == 16);
    assert("references"@.len() == 10);
    assert("batch_references"@.len() == 16);
    assert("inspect"@.len() == 7);
    assert("members"@.len() == 7);
    assert("diagnostics"@.len() == 11);
    assert("ping"@.len() == 4);
    assert("shutdown"@.len() == 8);
    assert("definition"@[0] == 'd' && "references"@[0] == 'r');
    assert("workspace_symbols"@[0] == 'w' && "batch_references"@[0] == 'b');
    assert("document_symbols"@[0] == 'd' && "batch_references"@[0] == 'b');
    assert("inspect"@[0] == 'i' && "members"@[0] == 'm');
    match m {
        Method::Hover => assert(spec_method_of(method_name(m)) == Some(m)),
        Method::Definition => assert(spec_method_of(method_name(m)) == Some(m)),
        Method::WorkspaceSymbols => assert(spec_method_of(method_name(m)) == Some(m)),
        Method::DocumentSymbols => assert(spec_method_of(method_name(m)) == Some(m)),
        Method::References => assert(spec_method_of(method_name(m)) == Some(m)),
        Method::BatchReferences => assert(spec_method_of(method_name(m)) == Some(m)),
        Method::Inspect => assert(spec_method_of(method_name(m)) == Some(m)),
        Method::Members => assert(spec_method_of(method_name(m)) == Some(m)),
        Method::Diagnostics => assert(spec_method_of(method_name(m)) == Some(m)),
        Method::Ping => assert(spec_method_of(method_name(m)) == Some(m)),
        Method::Shutdown => assert(spec_method_of(method_name(m)) == Some(m)),
    }
}

impl Method {
    /// The method name as a string.
    pub fn as_str(self) -> (r: &'static str)
        ensures
            r@ == method_name(self),
    {
        match self {
            Method::Hover => "hover",
            Method::Definition => "definition",
            Method::WorkspaceSymbols => "workspace_symbols",
            Method::DocumentSymbols => "document_symbols",
            Method::References => "references",
            Method::BatchReferences => "batch_references",
            Method::Inspect => "inspect",
            Method::Members => "members",
            Method::Diagnostics => "diagnostics",
            Method::Ping => "ping",
            Method::Shutdown => "shutdown",
        }
    }

    /// The method a wire string names, if any.
    pub fn from_name(s: &str) -> (r: Option<Method>)
        ensures
            r == spec_method_of(s@),
    {
        if str_eq(s, "hover") {
            Some(Method::Hover)
        } else if str_eq(s, "definition") {
            Some(Method::Definition)
        } else if str_eq(s, "workspace_symbols") {
            Some(Method::WorkspaceSymbols)
        } else if str_eq(s, "document_symbols") {
            Some(Method::DocumentSymbols)
        } else if str_eq(s, "references") {
            Some(Method::References)
        } else if str_eq(s, "batch_references") {
            Some(Method::BatchReferences)
        } else if str_eq(s, "inspect") {
            Some(Method::Inspect)
        } else if str_eq(s, "members") {
            Some(Method::Members)
        } else if str_eq(s, "diagnostics") {
            Some(Method::Diagnostics)
        } else if str_eq(s, "ping") {
            Some(Method::Ping)
        } else if str_eq(s, "shutdown") {
            Some(Method::Shutdown)
        } else {
            None
        }
    }
}

/// A JSON-RPC request from the client to the daemon.
pub struct DaemonRequest {
    /// Protocol version marker, always "2.0" on requests this crate builds.
    pub jsonrpc: String,
    /// Unique request identifier.
    pub id: u64,
    /// Method to invoke.
    pub method: Method,
    /// Method-specific parameters.
    pub params: JsonValue,
}

/// A JSON-RPC error object.
pub struct DaemonError {
    /// Error code.
    pub code: i64,
    /// Human-readable message.
    pub message: String,
    /// Optional structured data.
    pub data: Option<JsonValue>,
}

/// A JSON-RPC response from the daemon to the client: the echoed id and
/// exactly one of `result` or `error`.
pub struct DaemonResponse {
    /// Protocol version marker.
    pub jsonrpc: String,
    /// Id of the request this answers.
    pub id: u64,
    /// Successful result, absent on errors.
    pub result: Option<JsonValue>,
    /// Error, absent on success.
    pub error: Option<DaemonError>,
}

/// Source of fresh request ids: strictly increasing, starting at 1.
pub struct RequestIdGen {
    /// The next id to hand out.
    pub next: u64,
}

impl RequestIdGen {
    /// A generator whose first id is 1.
    pub fn new() -> (r: RequestIdGen)
        ensures
            r.next == 1,
    {
        RequestIdGen { next: 1 }
    }

    /// Hand out the next id. Ids are strictly increasing, so no two
    /// requests of one generator share an id.
    pub fn fresh_id(&mut self) -> (r: u64)
        requires
            old(self).next < u64::MAX,
        ensures
            r == old(self).next,
            final(self).next == old(self).next + 1,
    {
        let id = self.next;
        self.next = self.next + 1;
        id
    }
}

impl DaemonRequest {
    /// A request with the given id.
    pub fn with_id(id: u64, method: Method, params: JsonValue) -> (r: DaemonRequest)
        ensures
            r.jsonrpc@ == "2.0"@,
            r.id == id,
            r.method == method,
            r.params == params,
    {
        DaemonRequest { jsonrpc: lit_two_zero(), id, method, params }
    }

    /// A request with a fresh id from the generator.
    pub fn new(gen: &mut RequestIdGen, method: Method, params: JsonValue) -> (r: DaemonRequest)
        requires
            old(gen).next < u64::MAX,
        ensures
            r.jsonrpc@ == "2.0"@,
            r.id == old(gen).next,
            r.method == method,
            r.params == params,
            final(gen).next == old(gen).next + 1,
    {
        let id = gen.fresh_id();
        DaemonRequest::with_id(id, method, params)
    }
}

/// The literal protocol version string.
fn lit_two_zero() -> (r: String)
    ensures
        r@ == "2.0"@,
{
    let mut s = String::new();
    crate::strutil::append_str(&mut s, "2.0");
    proof {
        assert(s@ =~= "2.0"@);
    }
    s
}

impl DaemonResponse {
    /// A successful response.
    pub fn success(id: u64, result: JsonValue) -> (r: DaemonResponse)
        ensures
            r.jsonrpc@ == "2.0"@,
            r.id == id,
            r.result == Some(result),
            r.error is None,
    {
        DaemonResponse { jsonrpc: lit_two_zero(), id, result: Some(result), error: None }
    }

    /// An error response.
    pub fn error(id: u64, error: DaemonError) -> (r: DaemonResponse)
        ensures
            r.jsonrpc@ == "2.0"@,
            r.id == id,
            r.result is None,
            r.error == Some(error),
    {
        DaemonResponse { jsonrpc: lit_two_zero(), id, result: None, error: Some(error) }
    }

    /// Whether this response carries an error.
    pub fn is_error(&self) -> (r: bool)
        ensures
            r == (self.error is Some),
    {
        self.error.is_some()
    }

    /// Whether this response carries a result.
    pub fn is_success(&self) -> (r: bool)
        ensures
            r == (self.result is Some),
    {
        self.result.is_some()
    }
}

impl DaemonError {
    /// An error with a code and message and no data.
    pub fn new(code: i64, message: String) -> (r: DaemonError)
        ensures
            r.code == code,
            r.message == message,
            r.data is None,
    {
        DaemonError { code, message, data: None }
    }

    /// An error with additional structured data.
    pub fn with_data(code: i64, message: String, data: JsonValue) -> (r: DaemonError)
        ensures
            r.code == code,
            r.message == message,
            r.data == Some(data),
    {
        DaemonError { code, message, data: Some(data) }
    }

    /// Parse error (-32700): the request was not valid JSON.
    pub fn parse_error() -> (r: DaemonError)
        ensures
            r.code == -32700,
            r.message@ == "Parse error"@,
            r.data is None,
    {
        let mut m = String::new();
        crate::strutil::append_str(&mut m, "Parse error");
        proof {
            assert(m@ =~= "Parse error"@);
        }
        DaemonError::new(-32700, m)
    }

    /// Invalid request (-32600): valid JSON, invalid request object.
    pub fn invalid_request(msg: String) -> (r: DaemonError)
        ensures
            r.code == -32600,
            r.message == msg,
            r.data is None,
    {
        DaemonError::new(-32600, msg)
    }

    /// Method not found (-32601).
    pub fn method_not_found(method: &str) -> (r: DaemonError)
        ensures
            r.code == -32601,
            r.message@ == "Method not found: "@ + method@,
            r.data is None,
    {
        let mut m = String::new();
        crate::strutil::append_str(&mut m, "Method not found: ");
        crate::strutil::append_str(&mut m, method);
        proof {
            assert(m@ =~= "Method not found: "@ + method@);
        }
        DaemonError::new(-32601, m)
    }

    /// Invalid params (-32602).
    pub fn invalid_params(msg: String) -> (r: DaemonError)
        ensures
            r.code == -32602,
            r.message == msg,
            r.data is None,
    {
        DaemonError::new(-32602, msg)
    }

    /// Internal error (-32603).
    pub fn internal_error(msg: String) -> (r: DaemonError)
        ensures
            r.code == -32603,
            r.message == msg,
            r.data is None,
    {
        DaemonError::new(-32603, msg)
    }

    /// File not found (-32000), with the file under the `file` key.
    pub fn file_not_found(file: &str) -> (r: DaemonError)
        ensures
            r.code == -32000,
            r.message@ == "File not found"@,
            error_data_single_str(r, "file"@, file@),
    {
        let mut m = String::new();
        crate::strutil::append_str(&mut m, "File not found");
        proof {
            assert(m@ =~= "File not found"@);
        }
        DaemonError::with_data(-32000, m, single_str_obj("file", file))
    }

    /// Workspace not found (-32001), with the root under the `workspace` key.
    pub fn workspace_not_found(workspace: &str) -> (r: DaemonError)
        ensures
            r.code == -32001,
            r.message@ == "Workspace not found"@,
            error_data_single_str(r, "workspace"@, workspace@),
    {
        let mut m = String::new();
        crate::strutil::append_str(&mut m, "Workspace not found");
        proof {
            assert(m@ =~= "Workspace not found"@);
        }
        DaemonError::with_data(-32001, m, single_str_obj("workspace", workspace))
    }

    /// LSP failure (-32002), the message prefixed with `LSP error: `.
    pub fn lsp_error(msg: &str) -> (r: DaemonError)
        ensures
            r.code == -32002,
            r.message@ == "LSP error: "@ + msg@,
            r.data is None,
    {
        let mut m = String::new();
        crate::strutil::append_str(&mut m, "LSP error: ");
        crate::strutil::append_str(&mut m, msg);
        proof {
            assert(m@ =~= "LSP error: "@ + msg@);
        }
        DaemonError::new(-32002, m)
    }

    /// Timeout (-32003), with the operation under the `operation` key.
    pub fn timeout(operation: &str) -> (r: DaemonError)
        ensures
            r.code == -32003,
            r.message@ == "Operation timed out"@,
            error_data_single_str(r, "operation"@, operation@),
    {
        let mut m = String::new();
        crate::strutil::append_str(&mut m, "Operation timed out");
        proof {
            assert(m@ =~= "Operation timed out"@);
        }
        DaemonError::with_data(-32003, m, single_str_obj("operation", operation))
    }

    /// Symbol not found (-32004), with the symbol under the `symbol` key.
    pub fn symbol_not_found(symbol: &str) -> (r: DaemonError)
        ensures
            r.code == -32004,
            r.message@ == "Symbol not found"@,
            error_data_single_str(r, "symbol"@, symbol@),
    {
        let mut m = String::new();
        crate::strutil::append_str(&mut m, "Symbol not found");
        proof {
            assert(m@ =~= "Symbol not found"@);
        }
        DaemonError::with_data(-32004, m, single_str_obj("symbol", symbol))
    }
}

/// Whether an error's data is a one-member object mapping `key` to `val`.
pub open spec fn error_data_single_str(e: DaemonError, key: Seq<char>, val: Seq<char>) -> bool {
    match e.data {
        Some(JsonValue::Obj(o)) => {
            &&& o@.len() == 1
            &&& o@[0].0@ == key
            &&& (o@[0].1 matches JsonValue::Str(s) && s@ == val)
        },
        _ => false,
    }
}

/// A one-member JSON object holding one string.
fn single_str_obj(key: &str, val: &str) -> (r: JsonValue)
    ensures
        (r matches JsonValue::Obj(o) && o@.len() == 1 && o@[0].0@ == key@ && (
        o@[0].1 matches JsonValue::Str(s) && s@ == val@)),
{
    let mut k = String::new();
    crate::strutil::append_str(&mut k, key);
    let mut v = String::new();
    crate::strutil::append_str(&mut v, val);
    proof {
        assert(k@ =~= key@);
        assert(v@ =~= val@);
    }
    let mut o: Vec<(String, JsonValue)> = Vec::new();
    o.push((k, JsonValue::Str(v)));
    JsonValue::Obj(o)
}

} // verus!

verus! {

use crate::json::wf_json;
use vstd::string::StringExecFns;

/// Whether a JSON number encodes the signed integer `x`.
pub open spec fn int_encodes(j: JsonValue, x: int) -> bool {
    match j {
        JsonValue::Int { neg, mag } => {
            &&& (neg ==> 1 <= mag && x == -(mag as int))
            &&& (!neg ==> x == mag as int)
        },
        _ => false,
    }
}

/// Encode a signed 64-bit integer as a JSON number.
pub fn json_of_i64(x: i64) -> (r: JsonValue)
    ensures
        int_encodes(r, x as int),
        wf_json(r),
{
    if x >= 0 {
        JsonValue::Int { neg: false, mag: x as u64 }
    } else {
        let wide: i128 = x as i128;
        let mag: u64 = (-wide) as u64;
        proof {
            assert(mag == -(x as int));
        }
        JsonValue::Int { neg: true, mag }
    }
}

/// Decode a JSON number into a signed 64-bit integer, if it fits.
pub fn i64_of_json(j: &JsonValue) -> (r: Option<i64>)
    ensures
        match r {
            Some(x) => int_encodes(*j, x as int),
            None => forall|x: i64| !int_encodes(*j, x as int),
        },
{
    match j {
        JsonValue::Int { neg, mag } => {
            if !*neg {
                if *mag <= 0x7fff_ffff_ffff_ffffu64 {
                    Some(*mag as i64)
                } else {
                    None
                }
            } else {
                if 1 <= *mag && *mag <= 0x8000_0000_0000_0000u64 {
                    let wide: i128 = -(*mag as i128);
                    Some(wide as i64)
                } else {
                    None
                }
            }
        },
        _ => None,
    }
}

/// Whether `v` is the JSON form of the request `r`.
pub open spec fn is_req_json(v: JsonValue, r: DaemonRequest) -> bool {
    match v {
        JsonValue::Obj(o) => {
            &&& o@.len() == 4
            &&& o@[0].0@ == "jsonrpc"@
            &&& (o@[0].1 matches JsonValue::Str(s) && s@ == r.jsonrpc@)
            &&& o@[1].0@ == "id"@
            &&& o@[1].1 == (JsonValue::Int { neg: false, mag: r.id })
            &&& o@[2].0@ == "method"@
            &&& (o@[2].1 matches JsonValue::Str(ms) && spec_method_of(ms@) == Some(r.method))
            &&& o@[3].0@ == "params"@
            &&& o@[3].1 == r.params
        },
        _ => false,
    }
}

/// Encode a request as a JSON object.
pub fn req_to_json(r: DaemonRequest) -> (v: JsonValue)
    ensures
        is_req_json(v, r),
        wf_json(r.params) ==> wf_json(v),
{
    let ghost gr = r;
    let DaemonRequest { jsonrpc, id, method, params } = r;
    let mut o: Vec<(String, JsonValue)> = Vec::new();
    o.push((String::from_str("jsonrpc"), JsonValue::Str(jsonrpc)));
    o.push((String::from_str("id"), JsonValue::Int { neg: false, mag: id }));
    proof {
        lemma_method_name_roundtrip(method);
    }
    o.push((String::from_str("method"), JsonValue::Str(String::from_str(method.as_str()))));
    o.push((String::from_str("params"), params));
    let v = JsonValue::Obj(o);
    proof {
        if wf_json(gr.params) {
            match &v {
                JsonValue::Obj(oo) => {
                    assert forall|i: int| 0 <= i < oo@.len() implies wf_json(#[trigger] oo@[i].1)
                        by {
                        if i == 3 {
                            assert(oo@[3].1 == gr.params);
                        }
                    }
                },
                _ => {},
            }
        }
    }
    v
}

/// Decode a JSON object as a request.
///
/// Returns `Some` exactly when the value has the canonical request shape:
/// the four members `jsonrpc`, `id`, `method`, `params` in order, with a
/// nonnegative id and a known method name.
pub fn req_from_json(v: JsonValue) -> (r: Option<DaemonRequest>)
    ensures
        match r {
            Some(req) => is_req_json(v, req),
            None => forall|req: DaemonRequest| !is_req_json(v, req),
        },
{
    let o = match v {
        JsonValue::Obj(o) => o,
        _ => { return None; },
    };
    if o.len() != 4 {
        return None;
    }
    let ghost go = o@;
    let mut o = o;
    let (k3, params) = o.pop().unwrap();
    let (k2, mval) = o.pop().unwrap();
    let (k1, idval) = o.pop().unwrap();
    let (k0, jval) = o.pop().unwrap();
    proof {
        assert(go[0] == (k0, jval));
        assert(go[1] == (k1, idval));
        assert(go[2] == (k2, mval));
        assert(go[3] == (k3, params));
    }
    if !(string_eq_str(&k0, "jsonrpc") && string_eq_str(&k1, "id") && string_eq_str(&k2, "method")
        && string_eq_str(&k3, "params")) {
        return None;
    }
    let jsonrpc = match jval {
        JsonValue::Str(s) => s,
        _ => { return None; },
    };
    let id = match idval {
        JsonValue::Int { neg: false, mag } => mag,
        _ => { return None; },
    };
    let ms = match mval {
        JsonValue::Str(s) => s,
        _ => { return None; },
    };
    let method = match Method::from_name(ms.as_str()) {
        Some(m) => m,
        None => { return None; },
    };
    Some(DaemonRequest { jsonrpc, id, method, params })
}

/// A request envelope before the method lookup: the method still as its
/// wire string, so that a well-framed request naming an unknown method
/// keeps its id for the method-not-found reply.
pub struct RawDaemonRequest {
    /// Protocol version marker.
    pub jsonrpc: String,
    /// Unique request identifier.
    pub id: u64,
    /// The method name as sent, looked up afterwards.
    pub method: String,
    /// Method-specific parameters.
    pub params: JsonValue,
}

/// Whether `v` is the JSON form of the raw envelope `r`: the request
/// shape with any method string.
pub open spec fn is_raw_req_json(v: JsonValue, r: RawDaemonRequest) -> bool {
    match v {
        JsonValue::Obj(o) => {
            &&& o@.len() == 4
            &&& o@[0].0@ == "jsonrpc"@
            &&& (o@[0].1 matches JsonValue::Str(s) && s@ == r.jsonrpc@)
            &&& o@[1].0@ == "id"@
            &&& o@[1].1 == (JsonValue::Int { neg: false, mag: r.id })
            &&& o@[2].0@ == "method"@
            &&& (o@[2].1 matches JsonValue::Str(ms) && ms@ == r.method@)
            &&& o@[3].0@ == "params"@
            &&& o@[3].1 == r.params
        },
        _ => false,
    }
}

/// Decode a JSON object as a raw request envelope.
///
/// Returns `Some` exactly when the value has the envelope shape — the
/// members `jsonrpc`, `id`, `method`, `params` in order with a
/// nonnegative id — whatever the method string says.
pub fn raw_req_from_json(v: JsonValue) -> (r: Option<RawDaemonRequest>)
    ensures
        match r {
            Some(raw) => is_raw_req_json(v, raw),
            None => forall|raw: RawDaemonRequest| !is_raw_req_json(v, raw),
        },
{
    let o = match v {
        JsonValue::Obj(o) => o,
        _ => { return None; },
    };
    if o.len() != 4 {
        return None;
    }
    let ghost go = o@;
    let mut o = o;
    let (k3, params) = o.pop().unwrap();
    let (k2, mval) = o.pop().unwrap();
    let (k1, idval) = o.pop().unwrap();
    let (k0, jval) = o.pop().unwrap();
    proof {
        assert(go[0] == (k0, jval));
        assert(go[1] == (k1, idval));
        assert(go[2] == (k2, mval));
        assert(go[3] == (k3, params));
    }
    if !(string_eq_str(&k0, "jsonrpc") && string_eq_str(&k1, "id") && string_eq_str(&k2, "method")
        && string_eq_str(&k3, "params")) {
        return None;
    }
    let jsonrpc = match jval {
        JsonValue::Str(s) => s,
        _ => { return None; },
    };
    let id = match idval {
        JsonValue::Int { neg: false, mag } => mag,
        _ => { return None; },
    };
    let method = match mval {
        JsonValue::Str(s) => s,
        _ => { return None; },
    };
    Some(RawDaemonRequest { jsonrpc, id, method, params })
}

/// Looking the method up turns a raw envelope into a request; this is
/// exactly when the wire string names one of the eleven methods.
pub fn req_from_raw(raw: RawDaemonRequest) -> (r: Result<DaemonRequest, RawDaemonRequest>)
    ensures
        match r {
            Ok(req) => {
                &&& spec_method_of(raw.method@) == Some(req.method)
                &&& req.jsonrpc == raw.jsonrpc
                &&& req.id == raw.id
                &&& req.params == raw.params
            },
            Err(back) => back == raw && spec_method_of(raw.method@) is None,
        },
{
    match Method::from_name(raw.method.as_str()) {
        Some(method) => {
            let RawDaemonRequest { jsonrpc, id, method: _, params } = raw;
            Ok(DaemonRequest { jsonrpc, id, method, params })
        },
        None => Err(raw),
    }
}

/// A raw envelope with a known method encodes the request it becomes.
pub proof fn lemma_raw_to_req(v: JsonValue, raw: RawDaemonRequest, req: DaemonRequest)
    requires
        is_raw_req_json(v, raw),
        spec_method_of(raw.method@) == Some(req.method),
        req.jsonrpc == raw.jsonrpc,
        req.id == raw.id,
        req.params == raw.params,
    ensures
        is_req_json(v, req),
{
}

/// Two requests encoded by the same JSON value agree: decoding is
/// unambiguous, so serializing a request and deserializing the result
/// yields an equal value.
pub proof fn lemma_request_round_trip(v: JsonValue, r1: DaemonRequest, r2: DaemonRequest)
    requires
        is_req_json(v, r1),
        is_req_json(v, r2),
    ensures
        r1.jsonrpc@ == r2.jsonrpc@,
        r1.id == r2.id,
        r1.method == r2.method,
        r1.params == r2.params,
{
}

/// Whether `v` is the JSON form of the error object `e`.
pub open spec fn is_err_json(v: JsonValue, e: DaemonError) -> bool {
    match v {
        JsonValue::Obj(o) => {
            &&& o@.len() >= 2
            &&& o@[0].0@ == "code"@
            &&& int_encodes(o@[0].1, e.code as int)
            &&& o@[1].0@ == "message"@
            &&& (o@[1].1 matches JsonValue::Str(s) && s@ == e.message@)
            &&& match e.data {
                None => o@.len() == 2,
                Some(d) => o@.len() == 3 && o@[2].0@ == "data"@ && o@[2].1 == d,
            }
        },
        _ => false,
    }
}

/// Encode an error object.
pub fn err_to_json(e: DaemonError) -> (v: JsonValue)
    ensures
        is_err_json(v, e),
        (e.data matches Some(d) ==> wf_json(d)) ==> wf_json(v),
{
    let ghost ge = e;
    let DaemonError { code, message, data } = e;
    let mut o: Vec<(String, JsonValue)> = Vec::new();
    o.push((String::from_str("code"), json_of_i64(code)));
    o.push((String::from_str("message"), JsonValue::Str(message)));
    match data {
        Some(d) => {
            o.push((String::from_str("data"), d));
        },
        None => {},
    }
    let v = JsonValue::Obj(o);
    proof {
        if (ge.data matches Some(d) ==> wf_json(d)) {
            match &v {
                JsonValue::Obj(oo) => {
                    assert forall|i: int| 0 <= i < oo@.len() implies wf_json(#[trigger] oo@[i].1)
                        by {
                        if i == 2 {
                            assert(oo@[2].1 == ge.data.unwrap());
                        }
                    }
                },
                _ => {},
            }
        }
    }
    v
}

/// Decode an error object.
pub fn err_from_json(v: JsonValue) -> (r: Option<DaemonError>)
    ensures
        match r {
            Some(e) => is_err_json(v, e),
            None => forall|e: DaemonError| !is_err_json(v, e),
        },
{
    let o = match v {
        JsonValue::Obj(o) => o,
        _ => { return None; },
    };
    if !(o.len() == 2 || o.len() == 3) {
        return None;
    }
    let ghost go = o@;
    let mut o = o;
    let data: Option<JsonValue> = if o.len() == 3 {
        let (k2, d) = o.pop().unwrap();
        if !string_eq_str(&k2, "data") {
            return None;
        }
        Some(d)
    } else {
        None
    };
    let (k1, msgval) = o.pop().unwrap();
    let (k0, codeval) = o.pop().unwrap();
    proof {
        assert(go[0] == (k0, codeval));
        assert(go[1] == (k1, msgval));
    }
    if !(string_eq_str(&k0, "code") && string_eq_str(&k1, "message")) {
        return None;
    }
    let code = match i64_of_json(&codeval) {
        Some(c) => c,
        None => { return None; },
    };
    let message = match msgval {
        JsonValue::Str(s) => s,
        _ => { return None; },
    };
    Some(DaemonError { code, message, data })
}

/// Whether `v` is the JSON form of the response `resp`.
pub open spec fn is_resp_json(v: JsonValue, resp: DaemonResponse) -> bool {
    match v {
        JsonValue::Obj(o) => {
            &&& o@.len() == 3
            &&& o@[0].0@ == "jsonrpc"@
            &&& (o@[0].1 matches JsonValue::Str(s) && s@ == resp.jsonrpc@)
            &&& o@[1].0@ == "id"@
            &&& o@[1].1 == (JsonValue::Int { neg: false, mag: resp.id })
            &&& match (resp.result, resp.error) {
                (Some(res), None) => o@[2].0@ == "result"@ && o@[2].1 == res,
                (None, Some(err)) => o@[2].0@ == "error"@ && is_err_json(o@[2].1, err),
                _ => false,
            }
        },
        _ => false,
    }
}

/// Encode a response. The response must carry exactly one of `result`
/// and `error`, which is how every response this crate builds is shaped.
pub fn resp_to_json(resp: DaemonResponse) -> (v: JsonValue)
    requires
        (resp.result is Some) != (resp.error is Some),
    ensures
        is_resp_json(v, resp),
{
    let DaemonResponse { jsonrpc, id, result, error } = resp;
    let mut o: Vec<(String, JsonValue)> = Vec::new();
    o.push((String::from_str("jsonrpc"), JsonValue::Str(jsonrpc)));
    o.push((String::from_str("id"), JsonValue::Int { neg: false, mag: id }));
    match (result, error) {
        (Some(res), None) => {
            o.push((String::from_str("result"), res));
        },
        (None, Some(err)) => {
            o.push((String::from_str("error"), err_to_json(err)));
        },
        _ => {
            proof {
                assert(false);
            }
        },
    }
    JsonValue::Obj(o)
}

/// Decode a response.
pub fn resp_from_json(v: JsonValue) -> (r: Option<DaemonResponse>)
    ensures
        match r {
            Some(resp) => is_resp_json(v, resp) && ((resp.result is Some) != (
            resp.error is Some)),
            None => forall|resp: DaemonResponse| !is_resp_json(v, resp),
        },
{
    let o = match v {
        JsonValue::Obj(o) => o,
        _ => { return None; },
    };
    if o.len() != 3 {
        return None;
    }
    let ghost go = o@;
    let mut o = o;
    let (k2, payload) = o.pop().unwrap();
    let (k1, idval) = o.pop().unwrap();
    let (k0, jval) = o.pop().unwrap();
    proof {
        assert(go[0] == (k0, jval));
        assert(go[1] == (k1, idval));
        assert(go[2] == (k2, payload));
    }
    if !(string_eq_str(&k0, "jsonrpc") && string_eq_str(&k1, "id")) {
        return None;
    }
    let jsonrpc = match jval {
        JsonValue::Str(s) => s,
        _ => { return None; },
    };
    let id = match idval {
        JsonValue::Int { neg: false, mag } => mag,
        _ => { return None; },
    };
    if string_eq_str(&k2, "result") {
        Some(DaemonResponse { jsonrpc, id, result: Some(payload), error: None })
    } else if string_eq_str(&k2, "error") {
        let err = match err_from_json(payload) {
            Some(e) => e,
            None => { return None; },
        };
        Some(DaemonResponse { jsonrpc, id, result: None, error: Some(err) })
    } else {
        None
    }
}

/// Two responses encoded by the same JSON value agree on id, version,
/// which side they carry, the result value, and the error's code,
/// message and data.
pub proof fn lemma_response_round_trip(v: JsonValue, a: DaemonResponse, b: DaemonResponse)
    requires
        is_resp_json(v, a),
        is_resp_json(v, b),
    ensures
        a.jsonrpc@ == b.jsonrpc@,
        a.id == b.id,
        a.result == b.result,
        (a.error is Some) == (b.error is Some),
        a.error matches Some(ea) ==> (b.error matches Some(eb) && ea.code == eb.code
            && ea.message@ == eb.message@ && ea.data == eb.data),
{
    reveal_strlit("result");
    reveal_strlit("error");
    assert("result"@.len() == 6);
    assert("error"@.len() == 5);
}

} // verus!

verus! {

use crate::json::{json_eq, lemma_members_eq_index, lemma_parse_is_unique, ser_json};

/// The wire carries requests faithfully: any two requests whose JSON
/// forms render to the same text agree on version, id, method, and
/// parameters. Together with the parser's contract — a successful parse
/// returns the one value whose rendering is the input — serializing a
/// request and deserializing the bytes yields an equal value.
pub proof fn lemma_request_wire_round_trip(
    v1: JsonValue,
    v2: JsonValue,
    req1: DaemonRequest,
    req2: DaemonRequest,
)
    requires
        wf_json(v1),
        wf_json(v2),
        is_req_json(v1, req1),
        is_req_json(v2, req2),
        ser_json(v1) == ser_json(v2),
    ensures
        req1.jsonrpc@ == req2.jsonrpc@,
        req1.id == req2.id,
        req1.method == req2.method,
        json_eq(req1.params, req2.params),
{
    lemma_parse_is_unique(v1, v2);
    match (v1, v2) {
        (JsonValue::Obj(o1), JsonValue::Obj(o2)) => {
            lemma_members_eq_index(o1@, o2@, 0);
            lemma_members_eq_index(o1@, o2@, 1);
            lemma_members_eq_index(o1@, o2@, 2);
            lemma_members_eq_index(o1@, o2@, 3);
        },
        _ => {},
    }
}

} // verus!

verus! {

/// The wire carries responses faithfully as well: two responses whose
/// JSON forms render to the same text agree on id and version, carry
/// the same side, equal results, and errors with equal code, message
/// and data.
pub proof fn lemma_response_wire_round_trip(
    v1: JsonValue,
    v2: JsonValue,
    resp1: DaemonResponse,
    resp2: DaemonResponse,
)
    requires
        wf_json(v1),
        wf_json(v2),
        is_resp_json(v1, resp1),
        is_resp_json(v2, resp2),
        ser_json(v1) == ser_json(v2),
    ensures
        resp1.jsonrpc@ == resp2.jsonrpc@,
        resp1.id == resp2.id,
        (resp1.result is Some) == (resp2.result is Some),
        resp1.result matches Some(a) ==> (resp2.result matches Some(b) && json_eq(a, b)),
        resp1.error matches Some(e1) ==> (resp2.error matches Some(e2) && e1.code == e2.code
            && e1.message@ == e2.message@),
{
    lemma_parse_is_unique(v1, v2);
    reveal_strlit("result");
    reveal_strlit("error");
    assert("result"@.len() == 6);
    assert("error"@.len() == 5);
    match (v1, v2) {
        (JsonValue::Obj(o1), JsonValue::Obj(o2)) => {
            lemma_members_eq_index(o1@, o2@, 0);
            lemma_members_eq_index(o1@, o2@, 1);
            lemma_members_eq_index(o1@, o2@, 2);
            match (resp1.error, resp2.error) {
                (Some(err1), Some(err2)) => {
                    match (o1@[2].1, o2@[2].1) {
                        (JsonValue::Obj(eo1), JsonValue::Obj(eo2)) => {
                            lemma_members_eq_index(eo1@, eo2@, 0);
                            lemma_members_eq_index(eo1@, eo2@, 1);
                        },
                        _ => {},
                    }
                },
                _ => {},
            }
        },
        _ => {},
    }
}

} // verus!
