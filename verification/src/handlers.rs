//! The daemon's server-side logic: parsing framed request bodies,
//! validating per-method parameters, and the pure part of each handler.
//! The surrounding process performs the socket and LSP calls and hands
//! their results in as plain values.

use vstd::prelude::*;
use vstd::string::StringExecFns;
use crate::json::{parse_json, ser_json, JsonValue};
use crate::protocol::{
    is_raw_req_json, is_req_json, spec_method_of, DaemonError, DaemonRequest, DaemonResponse,
    Method, RawDaemonRequest,
};
use crate::params::{
    batch_references_params_from_json, definition_params_from_json, diagnostics_params_from_json,
    document_symbols_params_from_json, hover_params_from_json, inspect_params_from_json,
    members_params_from_json, references_params_from_json, workspace_symbols_params_from_json,
    is_batch_references_params_json, is_definition_params_json, is_diagnostics_params_json,
    is_document_symbols_params_json, is_hover_params_json, is_inspect_params_json,
    is_members_params_json, is_references_params_json, is_workspace_symbols_params_json,
    BatchReferencesEntry, BatchReferencesParams, BatchReferencesQuery, DefinitionParams,
    DefinitionResult, DiagnosticsParams, DiagnosticsResult, DocumentSymbolsParams, HoverParams,
    InspectParams, MembersParams, PingResult, ReferencesParams, ShutdownResult,
    WorkspaceSymbolsParams,
};
use crate::lsp_types::{location_model, Location, SymbolInformation};
use crate::strutil::{clone_string, string_eq_str};

verus! {

broadcast use vstd::utf8::char_is_scalar;

/// Where a rejected body's error is answered: parse-level failures get
/// the synthetic id zero; a well-framed request with an unknown method
/// is answered on its own id.
pub enum ParsedRequest {
    /// A request naming a known method, ready to dispatch.
    Ready(DaemonRequest),
    /// An error to answer on the given id, after which the connection
    /// goes on serving.
    Reject { id: u64, error: DaemonError },
}

/// Whether some JSON value renders to this body and has the raw
/// request-envelope shape.
pub open spec fn body_is_envelope(body: Seq<char>) -> bool {
    exists|v: JsonValue, raw: RawDaemonRequest|
        body == ser_json(v) && #[trigger] is_raw_req_json(v, raw)
}

/// Whether some JSON value renders to this body but nothing with the
/// request-envelope shape does.
pub open spec fn body_is_other_json(body: Seq<char>) -> bool {
    exists|v: JsonValue|
        body == #[trigger] ser_json(v) && (forall|raw: RawDaemonRequest| !is_raw_req_json(v, raw))
}

/// Whether this body carries a well-framed request whose method string
/// is unknown, with the given id and method name.
pub open spec fn body_is_unknown_method(body: Seq<char>, id: u64, method: Seq<char>) -> bool {
    exists|v: JsonValue, raw: RawDaemonRequest|
        {
            &&& body == ser_json(v)
            &&& #[trigger] is_raw_req_json(v, raw)
            &&& raw.method@ == method
            &&& raw.id == id
            &&& spec_method_of(method) is None
        }
}

/// Parse one framed request body.
///
/// The daemon reads the canonical JSON-RPC rendering its own client
/// writes: no whitespace, members in a fixed order. Valid JSON-RPC in
/// any other formatting is rejected as unparsable, which only another
/// tool's client could ever send over this socket.
///
/// An empty body (a frame with `Content-Length` zero) is an invalid
/// request (-32600) on id zero; text that is not a canonical JSON
/// document is a parse error (-32700) on id zero; a JSON document
/// without the envelope shape is an invalid request (-32600) on id
/// zero; a well-framed envelope naming an unknown method is
/// method-not-found (-32601) on the request's own id. A request whose
/// id is zero is as acceptable as any other.
pub fn parse_request(body: &str) -> (r: ParsedRequest)
    ensures
        body@.len() == 0 ==> (r matches ParsedRequest::Reject { id, error } && id == 0
            && error.code == -32600),
        match r {
            ParsedRequest::Ready(req) => body@.len() > 0 && exists|v: JsonValue|
                body@ == ser_json(v) && #[trigger] is_req_json(v, req),
            ParsedRequest::Reject { id, error } => {
                &&& (error.code == -32700 || error.code == -32600 || error.code == -32601)
                &&& (error.code == -32700 ==> id == 0 && body@.len() > 0)
                &&& (error.code == -32600 && body@.len() > 0 ==> id == 0 && body_is_other_json(
                    body@))
                &&& (error.code == -32601 ==> body_is_unknown_method(body@, id, error.message@.skip(
                    18)) && error.message@.take(18) == "Method not found: "@)
            },
        },
{
    if body.is_empty() {
        let mut m = String::new();
        crate::strutil::append_str(&mut m, "empty request body");
        return ParsedRequest::Reject { id: 0, error: DaemonError::invalid_request(m) };
    }
    let v = match parse_json(body) {
        Some(v) => v,
        None => {
            return ParsedRequest::Reject { id: 0, error: DaemonError::parse_error() };
        },
    };
    let ghost gv = v;
    let raw = match crate::protocol::raw_req_from_json(v) {
        Some(raw) => raw,
        None => {
            proof {
                assert(body_is_other_json(body@)) by {
                    assert(body@ == ser_json(gv) && (forall|raw: RawDaemonRequest|
                        !is_raw_req_json(gv, raw)));
                }
            }
            let mut m = String::new();
            crate::strutil::append_str(&mut m, "not a request object");
            return ParsedRequest::Reject { id: 0, error: DaemonError::invalid_request(m) };
        },
    };
    let ghost graw = raw;
    match crate::protocol::req_from_raw(raw) {
        Ok(req) => {
            proof {
                crate::protocol::lemma_raw_to_req(gv, graw, req);
                assert(body@ == ser_json(gv) && is_req_json(gv, req));
            }
            ParsedRequest::Ready(req)
        },
        Err(raw) => {
            let id = raw.id;
            let error = DaemonError::method_not_found(raw.method.as_str());
            proof {
                reveal_strlit("Method not found: ");
                assert("Method not found: "@.len() == 18);
                assert(error.message@.skip(18) =~= graw.method@);
                assert(error.message@.take(18) =~= "Method not found: "@);
                assert(body_is_unknown_method(body@, id, graw.method@)) by {
                    assert(body@ == ser_json(gv) && is_raw_req_json(gv, graw)
                        && graw.method@ == graw.method@ && graw.id == id && spec_method_of(
                        graw.method@) is None);
                }
            }
            ParsedRequest::Reject { id, error }
        },
    }
}

/// The response for a rejected body: the error on the id the rejection
/// names — zero for parse-level failures, the request's own id for an
/// unknown method.
pub fn response_for_reject(id: u64, error: DaemonError) -> (r: DaemonResponse)
    ensures
        r.id == id,
        r.result is None,
        r.error == Some(error),
{
    DaemonResponse::error(id, error)
}

/// The typed parameters of one request, by method.
pub enum RequestParams {
    Hover(HoverParams),
    Definition(DefinitionParams),
    WorkspaceSymbols(WorkspaceSymbolsParams),
    DocumentSymbols(DocumentSymbolsParams),
    References(ReferencesParams),
    BatchReferences(BatchReferencesParams),
    Inspect(InspectParams),
    Members(MembersParams),
    Diagnostics(DiagnosticsParams),
    Ping,
    Shutdown,
}

/// Whether typed parameters fit a method and its raw parameter value.
pub open spec fn params_match(m: Method, v: JsonValue, p: RequestParams) -> bool {
    match p {
        RequestParams::Hover(x) => m == Method::Hover && is_hover_params_json(v, x),
        RequestParams::Definition(x) => m == Method::Definition && is_definition_params_json(v, x),
        RequestParams::WorkspaceSymbols(x) => m == Method::WorkspaceSymbols
            && is_workspace_symbols_params_json(v, x),
        RequestParams::DocumentSymbols(x) => m == Method::DocumentSymbols
            && is_document_symbols_params_json(v, x),
        RequestParams::References(x) => m == Method::References && is_references_params_json(v, x),
        RequestParams::BatchReferences(x) => m == Method::BatchReferences
            && is_batch_references_params_json(v, x),
        RequestParams::Inspect(x) => m == Method::Inspect && is_inspect_params_json(v, x),
        RequestParams::Members(x) => m == Method::Members && is_members_params_json(v, x),
        RequestParams::Diagnostics(x) => m == Method::Diagnostics && is_diagnostics_params_json(
            v, x),
        RequestParams::Ping => m == Method::Ping,
        RequestParams::Shutdown => m == Method::Shutdown,
    }
}

/// Validate the parameters of a request against its method.
///
/// The error, when one comes, is always `invalid params` (-32602), and
/// it comes exactly when no typed reading fits the method's shape —
/// `ping` and `shutdown` fit whatever the parameters hold, so they are
/// always accepted.
pub fn validate_params(method: Method, params: &JsonValue) -> (r: Result<
    RequestParams,
    DaemonError,
>)
    ensures
        match r {
            Ok(p) => params_match(method, *params, p),
            Err(e) => e.code == -32602 && (forall|p: RequestParams|
                !params_match(method, *params, p)),
        },
{
    let bad = || -> (e: DaemonError)
        ensures
            e.code == -32602,
        {
            let mut m = String::new();
            crate::strutil::append_str(&mut m, "parameters do not fit the method");
            DaemonError::invalid_params(m)
        };
    match method {
        Method::Hover => match hover_params_from_json(params) {
            Some(p) => Ok(RequestParams::Hover(p)),
            None => Err(bad()),
        },
        Method::Definition => match definition_params_from_json(params) {
            Some(p) => Ok(RequestParams::Definition(p)),
            None => Err(bad()),
        },
        Method::WorkspaceSymbols => match workspace_symbols_params_from_json(params) {
            Some(p) => Ok(RequestParams::WorkspaceSymbols(p)),
            None => Err(bad()),
        },
        Method::DocumentSymbols => match document_symbols_params_from_json(params) {
            Some(p) => Ok(RequestParams::DocumentSymbols(p)),
            None => Err(bad()),
        },
        Method::References => match references_params_from_json(params) {
            Some(p) => Ok(RequestParams::References(p)),
            None => Err(bad()),
        },
        Method::BatchReferences => match batch_references_params_from_json(params) {
            Some(p) => Ok(RequestParams::BatchReferences(p)),
            None => Err(bad()),
        },
        Method::Inspect => match inspect_params_from_json(params) {
            Some(p) => Ok(RequestParams::Inspect(p)),
            None => Err(bad()),
        },
        Method::Members => match members_params_from_json(params) {
            Some(p) => Ok(RequestParams::Members(p)),
            None => Err(bad()),
        },
        Method::Diagnostics => match diagnostics_params_from_json(params) {
            Some(p) => Ok(RequestParams::Diagnostics(p)),
            None => Err(bad()),
        },
        Method::Ping => Ok(RequestParams::Ping),
        Method::Shutdown => Ok(RequestParams::Shutdown),
    }
}

/// Whole seconds the daemon has been up, given its start and the time
/// now in milliseconds; a clock that moved backwards reads as zero.
pub fn uptime_seconds(start_ms: u64, now_ms: u64) -> (r: u64)
    ensures
        now_ms >= start_ms ==> r == (now_ms - start_ms) / 1000,
        now_ms < start_ms ==> r == 0,
{
    if now_ms >= start_ms {
        (now_ms - start_ms) / 1000
    } else {
        0
    }
}

/// Uptime never decreases while the clock moves forward: two pings on
/// one daemon, in order, report non-decreasing uptime.
pub proof fn lemma_uptime_monotonic(start_ms: u64, t1: u64, t2: u64)
    requires
        t1 <= t2,
    ensures
        (if t1 >= start_ms { (t1 - start_ms) / 1000 as int } else { 0 }) <= (if t2 >= start_ms {
            (t2 - start_ms) / 1000 as int
        } else {
            0
        }),
{
    if t1 >= start_ms {
        assert((t1 - start_ms) / 1000 <= (t2 - start_ms) / 1000) by (nonlinear_arith)
            requires
                start_ms <= t1 <= t2,
        ;
    } else if t2 >= start_ms {
        assert((t2 - start_ms) / 1000 >= 0) by (nonlinear_arith)
            requires
                start_ms <= t2,
        ;
    }
}

/// The `ping` handler: status `running`, the daemon's uptime in whole
/// seconds, the number of live pool entries, and a zero cache size.
pub fn handle_ping(active_workspaces: u64, uptime: u64) -> (r: PingResult)
    ensures
        r.status@ == "running"@,
        r.uptime == uptime,
        r.active_workspaces == active_workspaces,
        r.cache_size == 0,
{
    let mut status = String::new();
    crate::strutil::append_str(&mut status, "running");
    proof {
        assert(status@ =~= "running"@);
    }
    PingResult { status, uptime, active_workspaces, cache_size: 0 }
}

/// The `shutdown` handler's confirmation. The caller broadcasts the
/// shutdown signal.
pub fn handle_shutdown() -> (r: ShutdownResult)
    ensures
        r.message@ == "Daemon shutting down"@,
{
    let mut message = String::new();
    crate::strutil::append_str(&mut message, "Daemon shutting down");
    proof {
        assert(message@ =~= "Daemon shutting down"@);
    }
    ShutdownResult { message }
}

/// The `diagnostics` handler: the endpoint is not yet wired to LSP push
/// notifications, so the list is empty for every file.
pub fn handle_diagnostics() -> (r: DiagnosticsResult)
    ensures
        r.diagnostics@.len() == 0,
{
    DiagnosticsResult { diagnostics: Vec::new() }
}

/// The `definition` handler's result: the first of the locations the
/// LSP returned, if any.
pub fn definition_result_from(locations: Vec<Location>) -> (r: DefinitionResult)
    ensures
        locations@.len() == 0 ==> r.location is None,
        locations@.len() > 0 ==> (r.location matches Some(l) && location_model(l)
            == location_model(locations@[0])),
{
    let mut locations = locations;
    if locations.len() == 0 {
        DefinitionResult { location: None }
    } else {
        let first = locations[0].duplicate();
        DefinitionResult { location: Some(first) }
    }
}

/// The symbols that survive the exact-name filter, in order.
pub open spec fn spec_filter_symbols(s: Seq<SymbolInformation>, name: Seq<char>) -> Seq<
    SymbolInformation,
>
    decreases s.len(),
{
    if s.len() == 0 {
        Seq::empty()
    } else {
        let front = spec_filter_symbols(s.subrange(0, s.len() - 1), name);
        if s[s.len() - 1].name@ == name {
            front.push(s[s.len() - 1])
        } else {
            front
        }
    }
}

/// Post-process a `workspace_symbols` reply: keep only exact name
/// matches when a filter is set (the query itself went to the server
/// fuzzy), then cap the count. Both happen before serialization, so
/// incidental matches never cross the socket.
pub fn filter_workspace_symbols(
    symbols: Vec<SymbolInformation>,
    exact_name: &Option<String>,
    limit: &Option<u64>,
) -> (r: Vec<SymbolInformation>)
    ensures
        match *exact_name {
            Some(n) => {
                let filtered = spec_filter_symbols(symbols@, n@);
                match *limit {
                    Some(l) => r@ == filtered.take(if l < filtered.len() {
                        l as int
                    } else {
                        filtered.len() as int
                    }),
                    None => r@ == filtered,
                }
            },
            None => match *limit {
                Some(l) => r@ == symbols@.take(if l < symbols@.len() {
                    l as int
                } else {
                    symbols@.len() as int
                }),
                None => r@ == symbols@,
            },
        },
{
    let ghost orig = symbols@;
    let mut kept: Vec<SymbolInformation> = Vec::new();
    let n = symbols.len();
    let mut symbols = symbols;
    match exact_name {
        Some(name) => {
            let mut i: usize = 0;
            let mut src = symbols;
            let mut taken: usize = 0;
            // Walk front to back, moving matching symbols over.
            while i < n
                invariant
                    i <= n,
                    n == orig.len(),
                    src@ == orig.skip(i as int),
                    kept@ == spec_filter_symbols(orig.take(i as int), name@),
                decreases n - i,
            {
                let s = src.remove(0);
                proof {
                    assert(orig.skip(i as int)[0] == orig[i as int]);
                    assert(src@ =~= orig.skip(i + 1));
                }
                let is_match = string_eq_str(&s.name, name.as_str());
                proof {
                    let p = orig.take(i as int);
                    let q = orig.take(i + 1);
                    assert(q.subrange(0, q.len() - 1) =~= p);
                    assert(q[q.len() - 1] == orig[i as int]);
                }
                if is_match {
                    kept.push(s);
                }
                i = i + 1;
            }
            proof {
                assert(orig.take(n as int) =~= orig);
            }
        },
        None => {
            kept = symbols;
            proof {
                assert(kept@ == orig);
            }
        },
    }
    match limit {
        Some(l) => {
            let klen = kept.len();
            let cap: usize = if *l < klen as u64 {
                *l as usize
            } else {
                klen
            };
            let mut out: Vec<SymbolInformation> = Vec::new();
            let mut k: usize = 0;
            let mut rest = kept;
            let ghost kept_seq = rest@;
            while k < cap
                invariant
                    k <= cap <= kept_seq.len(),
                    rest@ == kept_seq.skip(k as int),
                    out@ == kept_seq.take(k as int),
                decreases cap - k,
            {
                let s = rest.remove(0);
                proof {
                    assert(kept_seq.skip(k as int)[0] == kept_seq[k as int]);
                    assert(rest@ =~= kept_seq.skip(k + 1));
                }
                out.push(s);
                k = k + 1;
                proof {
                    assert(out@ =~= kept_seq.take(k as int));
                }
            }
            proof {
                if *l >= kept_seq.len() {
                    assert(kept_seq.take(kept_seq.len() as int) =~= kept_seq);
                }
            }
            out
        },
        None => kept,
    }
}

/// Build the `batch_references` entries: one per query, labels echoed in
/// query order, whatever each query's references were.
pub fn batch_entries(
    queries: &Vec<BatchReferencesQuery>,
    results: Vec<Vec<Location>>,
) -> (r: Vec<BatchReferencesEntry>)
    requires
        queries@.len() == results@.len(),
    ensures
        r@.len() == queries@.len(),
        forall|i: int| 0 <= i < r@.len() ==> (#[trigger] r@[i].label)@ == queries@[i].label@,
        forall|i: int| 0 <= i < r@.len() ==> (#[trigger] r@[i].locations)@ == results@[i]@,
{
    let mut entries: Vec<BatchReferencesEntry> = Vec::new();
    let mut results = results;
    let ghost all = results@;
    let n = queries.len();
    let mut i: usize = 0;
    while i < n
        invariant
            i <= n,
            n == queries@.len(),
            n == all.len(),
            results@ == all.skip(i as int),
            entries@.len() == i,
            forall|k: int|
                0 <= k < i ==> (#[trigger] entries@[k].label)@ == queries@[k].label@,
            forall|k: int| 0 <= k < i ==> (#[trigger] entries@[k].locations)@ == all[k]@,
        decreases n - i,
    {
        let locations = results.remove(0);
        proof {
            assert(all.skip(i as int)[0] == all[i as int]);
            assert(results@ =~= all.skip(i + 1));
        }
        let label = clone_string(&queries[i].label);
        entries.push(BatchReferencesEntry { label, locations });
        i = i + 1;
    }
    entries
}

/// Whether the daemon should stop itself: the pool is empty and the
/// daemon has been idle past the threshold. An always-used daemon never
/// stops this way.
pub fn should_self_stop(pool_len: usize, uptime_ms: u64, idle_threshold_ms: u64) -> (r: bool)
    ensures
        r == (pool_len == 0 && uptime_ms > idle_threshold_ms),
{
    pool_len == 0 && uptime_ms > idle_threshold_ms
}

} // verus!
