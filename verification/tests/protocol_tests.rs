use ty_find::json::{parse_json, json_to_string, JsonValue};
use ty_find::protocol::{
    req_from_json, req_to_json, resp_from_json, resp_to_json, DaemonError, DaemonRequest,
    DaemonResponse, Method, RequestIdGen,
};

fn parse_str(s: &str) -> JsonValue {
    parse_json(s).expect("canonical JSON must parse")
}

#[test]
fn test_daemon_request_serialization() {
    let params = parse_str("{\"workspace\":\"/path/to/workspace\",\"file\":\"/path/to/file.py\",\"line\":10,\"column\":5}");
    let request = DaemonRequest::with_id(1, Method::Hover, params);
    let json = json_to_string(&req_to_json(request));
    assert!(json.contains("\"jsonrpc\":\"2.0\""));
    assert!(json.contains("\"id\":1"));
    assert!(json.contains("\"method\":\"hover\""));
}

#[test]
fn test_daemon_request_creation() {
    let params = parse_str("{\"workspace\":\"/workspace\",\"file\":\"file.py\",\"line\":10,\"column\":5}");
    let mut gen = RequestIdGen::new();
    let request = DaemonRequest::new(&mut gen, Method::Hover, params);
    assert_eq!(request.jsonrpc, "2.0");
    assert_eq!(request.method, Method::Hover);
    assert!(request.id > 0);
}

#[test]
fn test_daemon_response_success() {
    let result = parse_str("{\"status\":\"ok\"}");
    let response = DaemonResponse::success(1, result);
    assert!(response.is_success());
    assert!(!response.is_error());
    assert_eq!(response.id, 1);
    let json = json_to_string(&resp_to_json(response));
    assert!(json.contains("\"result\""));
    assert!(!json.contains("\"error\""));
}

#[test]
fn test_daemon_response_error() {
    let error = DaemonError::file_not_found("/path/to/file.py");
    let response = DaemonResponse::error(1, error);
    assert!(response.is_error());
    assert!(!response.is_success());
    let json = json_to_string(&resp_to_json(response));
    assert!(json.contains("\"error\""));
    assert!(!json.contains("\"result\""));
}

#[test]
fn test_method_serialization() {
    let hover = json_to_string(&JsonValue::Str(Method::Hover.as_str().to_string()));
    assert_eq!(hover, "\"hover\"");
    let def = json_to_string(&JsonValue::Str(Method::Definition.as_str().to_string()));
    assert_eq!(def, "\"definition\"");
    let ws = json_to_string(&JsonValue::Str(Method::WorkspaceSymbols.as_str().to_string()));
    assert_eq!(ws, "\"workspace_symbols\"");
}

#[test]
fn test_members_method_serialization() {
    let m = json_to_string(&JsonValue::Str(Method::Members.as_str().to_string()));
    assert_eq!(m, "\"members\"");
}

#[test]
fn test_error_codes() {
    assert_eq!(DaemonError::parse_error().code, -32700);
    assert_eq!(DaemonError::invalid_request("test".to_string()).code, -32600);
    assert_eq!(DaemonError::method_not_found("test").code, -32601);
    assert_eq!(DaemonError::file_not_found("test").code, -32000);
    assert_eq!(DaemonError::workspace_not_found("test").code, -32001);
}

#[test]
fn test_response_parsing() {
    let text = "{\"jsonrpc\":\"2.0\",\"id\":1,\"result\":{\"hover\":null}}";
    let response = resp_from_json(parse_str(text)).expect("response must decode");
    assert!(response.is_success());
    assert!(!response.is_error());
    assert_eq!(response.id, 1);
}

#[test]
fn test_error_response_parsing() {
    let text = "{\"jsonrpc\":\"2.0\",\"id\":1,\"error\":{\"code\":-32000,\"message\":\"File not found\",\"data\":{\"file\":\"/path/to/file.py\"}}}";
    let response = resp_from_json(parse_str(text)).expect("response must decode");
    assert!(response.is_error());
    assert!(!response.is_success());
    let error = response.error.unwrap();
    assert_eq!(error.code, -32000);
    assert_eq!(error.message, "File not found");
}

#[test]
fn test_request_round_trip() {
    let params = parse_str("{\"workspace\":\"/w\",\"file\":\"a.py\",\"line\":3,\"column\":7}");
    let request = DaemonRequest::with_id(42, Method::References, params);
    let text = json_to_string(&req_to_json(request));
    let back = req_from_json(parse_str(&text)).expect("round trip must decode");
    assert_eq!(back.jsonrpc, "2.0");
    assert_eq!(back.id, 42);
    assert_eq!(back.method, Method::References);
}

#[test]
fn test_request_with_id_zero_round_trips() {
    let request = DaemonRequest::with_id(0, Method::Ping, JsonValue::Obj(Vec::new()));
    let text = json_to_string(&req_to_json(request));
    let back = req_from_json(parse_str(&text)).expect("id zero is accepted");
    assert_eq!(back.id, 0);
    let reply = DaemonResponse::success(back.id, JsonValue::Null);
    assert_eq!(reply.id, 0);
}

#[test]
fn test_method_names_round_trip() {
    let methods = [
        Method::Hover,
        Method::Definition,
        Method::WorkspaceSymbols,
        Method::DocumentSymbols,
        Method::References,
        Method::BatchReferences,
        Method::Inspect,
        Method::Members,
        Method::Diagnostics,
        Method::Ping,
        Method::Shutdown,
    ];
    for m in methods {
        assert_eq!(Method::from_name(m.as_str()), Some(m));
    }
    assert_eq!(Method::from_name("no_such_method"), None);
}
