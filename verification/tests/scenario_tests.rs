use ty_find::handlers::{
    batch_entries, definition_result_from, filter_workspace_symbols, handle_diagnostics,
    handle_ping, handle_shutdown, parse_request, should_self_stop, uptime_seconds,
};
use ty_find::json::{json_to_string, JsonValue};
use ty_find::lsp_client::reader_step;
use ty_find::lsp_types::{
    extract_text, DocumentSymbol, HoverContents, Location, Position, Range, SymbolKind,
};
use ty_find::members::{
    clean_signature, find_symbol_in_list, member_skeletons, members_result_from,
};
use ty_find::output::{OutputFormat, OutputFormatter};
use ty_find::params::{BatchReferencesQuery, MembersResult};
use ty_find::positions::dedup_locations;
use ty_find::retry::{retry_step, run_retry};
use ty_find::transport::PendingMap;
use ty_find::client_logic::{parse_interactive_command, InteractiveCommand};

fn loc(uri: &str, line: u32, character: u32) -> Location {
    let p = Position { line, character };
    Location { uri: uri.to_string(), range: Range { start: p, end: p } }
}

fn symbol(name: &str, kind: SymbolKind, line: u32, col: u32) -> DocumentSymbol {
    let p = Position { line, character: col };
    DocumentSymbol {
        name: name.to_string(),
        kind,
        range: Range { start: p, end: p },
        selection_range: Range { start: p, end: p },
        children: None,
    }
}

#[test]
fn test_ping_roundtrip_fresh_daemon() {
    let r = handle_ping(0, uptime_seconds(0, 400));
    assert_eq!(r.status, "running");
    assert!(r.uptime == 0 || r.uptime == 1);
    assert_eq!(r.active_workspaces, 0);
    assert_eq!(r.cache_size, 0);
}

#[test]
fn test_ping_uptime_monotonic() {
    let first = handle_ping(0, uptime_seconds(1_000, 5_000));
    let second = handle_ping(0, uptime_seconds(1_000, 9_000));
    assert!(second.uptime >= first.uptime);
}

#[test]
fn test_shutdown_message() {
    assert_eq!(handle_shutdown().message, "Daemon shutting down");
}

#[test]
fn test_diagnostics_empty() {
    assert_eq!(handle_diagnostics().diagnostics.len(), 0);
}

#[test]
fn test_idle_self_stop_rule() {
    assert!(should_self_stop(0, 300_001, 300_000));
    assert!(!should_self_stop(1, 300_001, 300_000));
    assert!(!should_self_stop(0, 200_000, 300_000));
}

#[test]
fn test_empty_body_is_invalid_request() {
    // A frame with Content-Length zero carries an empty body.
    match parse_request("") {
        ty_find::handlers::ParsedRequest::Reject { id, error } => {
            assert_eq!(id, 0);
            assert_eq!(error.code, -32600);
        }
        _ => panic!("empty body must be rejected"),
    }
}

#[test]
fn test_garbage_body_is_parse_error() {
    match parse_request("{not json") {
        ty_find::handlers::ParsedRequest::Reject { id, error } => {
            assert_eq!(id, 0);
            assert_eq!(error.code, -32700);
        }
        _ => panic!("garbage must be rejected"),
    }
}

#[test]
fn test_request_with_id_zero_is_accepted() {
    let body = "{\"jsonrpc\":\"2.0\",\"id\":0,\"method\":\"ping\",\"params\":{}}";
    match parse_request(body) {
        ty_find::handlers::ParsedRequest::Ready(req) => assert_eq!(req.id, 0),
        _ => panic!("id zero is a valid id"),
    }
}

#[test]
fn test_unknown_method_answers_on_its_own_id() {
    // A well-framed request naming an unknown method is answered with
    // method-not-found on the request's own id, not on id zero.
    let body = "{\"jsonrpc\":\"2.0\",\"id\":7,\"method\":\"frobnicate\",\"params\":{}}";
    match parse_request(body) {
        ty_find::handlers::ParsedRequest::Reject { id, error } => {
            assert_eq!(id, 7);
            assert_eq!(error.code, -32601);
            assert_eq!(error.message, "Method not found: frobnicate");
            let reply = ty_find::handlers::response_for_reject(id, error);
            assert_eq!(reply.id, 7);
        }
        _ => panic!("an unknown method must be rejected"),
    }
}

#[test]
fn test_definition_of_hello_world() {
    // The LSP answers with one location at line 0 of test_example.py;
    // the one-based surface reports line 1.
    let locations = vec![loc("file:///work/test_example.py", 0, 4)];
    let result = definition_result_from(locations);
    let found = result.location.expect("one definition");
    assert!(found.uri.ends_with("test_example.py"));
    assert_eq!(found.range.start.line, 0);
    assert_eq!(ty_find::positions::to_one_based(found.range.start.line), 1);
}

#[test]
fn test_open_once_across_two_hovers() {
    // Two hover requests on one file: only the first open announces it.
    let mut docs = ty_find::documents::OpenedDocuments::new();
    let first_hover_opened = docs.open("file:///w/a.py");
    let second_hover_opened = docs.open("file:///w/a.py");
    assert!(first_hover_opened);
    assert!(!second_hover_opened);
}

#[test]
fn test_cold_start_retry_schedule() {
    assert_eq!(retry_step(1, true), None);
    assert_eq!(retry_step(1, false), Some(100));
    assert_eq!(retry_step(2, false), Some(200));
    assert_eq!(retry_step(3, false), Some(400));
    assert_eq!(retry_step(4, false), None);
}

#[test]
fn test_cold_start_retry_two_nulls_then_hover() {
    // Null to the first two calls, then an answer: the third call's
    // answer is surfaced after 300 milliseconds of back-off.
    let (surfaced, slept) = run_retry(&vec![false, false, true, true]);
    assert_eq!(surfaced, Some(2));
    assert_eq!(slept, 300);
    assert!((100..=400).contains(&slept));
}

#[test]
fn test_hover_null_three_times_gives_none() {
    let (surfaced, slept) = run_retry(&vec![false, false, false, false]);
    assert_eq!(surfaced, None);
    assert_eq!(slept, 700);
}

#[test]
fn test_workspace_symbols_retry_within_budget() {
    // Empty on the first call, results on the retry: the retry's
    // payload wins, within the 700 millisecond budget.
    let (surfaced, slept) = run_retry(&vec![false, true, true, true]);
    assert_eq!(surfaced, Some(1));
    assert!(slept <= 700);
}

#[test]
fn test_batch_references_ordering() {
    let queries = vec![
        BatchReferencesQuery { label: "A".to_string(), file: "a.py".to_string(), line: 0, column: 0 },
        BatchReferencesQuery { label: "B".to_string(), file: "b.py".to_string(), line: 1, column: 0 },
        BatchReferencesQuery { label: "C".to_string(), file: "c.py".to_string(), line: 2, column: 0 },
    ];
    let results = vec![
        vec![loc("file:///a.py", 0, 0), loc("file:///a2.py", 3, 1)],
        vec![],
        vec![loc("file:///c.py", 9, 9)],
    ];
    let entries = batch_entries(&queries, results);
    let labels: Vec<&str> = entries.iter().map(|e| e.label.as_str()).collect();
    assert_eq!(labels, vec!["A", "B", "C"]);
    assert_eq!(entries[0].locations.len(), 2);
    assert_eq!(entries[1].locations.len(), 0);
    assert_eq!(entries[2].locations.len(), 1);
}

#[test]
fn test_members_of_a_non_class() {
    // Document symbols show create_dog as a function; members of it
    // report the kind and no members.
    let tree = vec![
        symbol("Animal", SymbolKind::Class, 0, 6),
        symbol("create_dog", SymbolKind::Function, 10, 4),
    ];
    let found = find_symbol_in_list(&tree, "create_dog").expect("symbol exists");
    assert_eq!(found.kind, SymbolKind::Function);
    let result = members_result_from(
        "create_dog",
        "file:///w/models.py",
        Some((found.kind, found.selection_range.start.line, found.selection_range.start.character)),
        Vec::new(),
    );
    assert_eq!(result.symbol_kind, Some(SymbolKind::Function));
    assert_eq!(result.members.len(), 0);
    assert_eq!(result.class_line, 10);
    assert_eq!(result.class_column, 4);
}

#[test]
fn test_member_selection_skips_private_names() {
    let children = vec![
        symbol("speak", SymbolKind::Method, 3, 4),
        symbol("__init__", SymbolKind::Constructor, 1, 4),
        symbol("_hidden", SymbolKind::Method, 5, 4),
    ];
    let public_only = member_skeletons(&children, false);
    assert_eq!(public_only.len(), 1);
    assert_eq!(public_only[0].name, "speak");
    let all = member_skeletons(&children, true);
    assert_eq!(all.len(), 3);
}

#[test]
fn test_clean_signature_steps() {
    assert_eq!(clean_signature("def add(self, a, b) -> int\n---\ndocs here"), "add(self, a, b) -> int");
    assert_eq!(clean_signature("```python\ndef speak(self) -> str\n```"), "speak(self) -> str");
    assert_eq!(clean_signature("(property) def name(self) -> str"), "name(self) -> str");
    assert_eq!(clean_signature("(method) value: int"), "value: int");
    assert_eq!(clean_signature("plain: str"), "plain: str");
}

#[test]
fn test_extract_text_shapes() {
    let scalar = HoverContents::Scalar("int".to_string());
    assert_eq!(extract_text(&scalar), "int");
    let markup = HoverContents::Markup { kind: "markdown".to_string(), value: "body".to_string() };
    assert_eq!(extract_text(&markup), "body");
    let marked = HoverContents::Marked { language: "python".to_string(), value: "def f()".to_string() };
    assert_eq!(extract_text(&marked), "def f()");
}

#[test]
fn test_members_result_roundtrip() {
    let result = MembersResult {
        class_name: "Animal".to_string(),
        file_uri: "file:///src/models.py".to_string(),
        class_line: 5,
        class_column: 0,
        symbol_kind: Some(SymbolKind::Class),
        members: vec![
            ty_find::params::MemberInfo {
                name: "speak".to_string(),
                kind: SymbolKind::Method,
                signature: Some("speak(self) -> str".to_string()),
                line: 10,
                column: 4,
            },
            ty_find::params::MemberInfo {
                name: "name".to_string(),
                kind: SymbolKind::Property,
                signature: Some("name: str".to_string()),
                line: 7,
                column: 4,
            },
        ],
    };
    let json = json_to_string(&ty_find::params::members_result_to_json(&result));
    let parsed = ty_find::params::members_result_from_json(
        &ty_find::json::parse_json(&json).unwrap(),
    )
    .unwrap();
    assert_eq!(parsed.class_name, "Animal");
    assert_eq!(parsed.members.len(), 2);
    assert_eq!(parsed.members[0].name, "speak");
    assert!(matches!(parsed.members[0].kind, SymbolKind::Method));
}

#[test]
fn test_members_params_serialization() {
    let params = ty_find::params::MembersParams {
        workspace: "/workspace".to_string(),
        file: "models.py".to_string(),
        class_name: "MyClass".to_string(),
        include_all: false,
    };
    let json = json_to_string(&ty_find::params::members_params_to_json(&params));
    assert!(json.contains("\"class_name\":\"MyClass\""));
    assert!(json.contains("\"include_all\":false"));
}

#[test]
fn test_hover_params() {
    let params = ty_find::params::HoverParams {
        workspace: "/workspace".to_string(),
        file: "file.py".to_string(),
        line: 10,
        column: 5,
    };
    let v = ty_find::params::hover_params_to_json(&params);
    let text = json_to_string(&v);
    assert!(text.contains("\"line\":10"));
    assert!(text.contains("\"column\":5"));
    let back = ty_find::params::hover_params_from_json(&v).unwrap();
    assert_eq!(back.line, 10);
    assert_eq!(back.column, 5);
}

#[test]
fn test_reader_routes_response_to_exactly_one_waiter() {
    let mut pending = PendingMap::new();
    let id = pending.register();
    let body = format!(
        "{{\"jsonrpc\":\"2.0\",\"id\":{},\"result\":null}}",
        id
    );
    let routed = reader_step(&mut pending, &body).expect("first frame is delivered");
    assert_eq!(routed.0, id);
    // The same id again finds no waiter.
    assert!(reader_step(&mut pending, &body).is_none());
    // A notification is discarded.
    assert!(reader_step(&mut pending, "{\"jsonrpc\":\"2.0\",\"method\":\"x\",\"params\":null}").is_none());
}

#[test]
fn test_startup_poll_first_success_wins() {
    let mut oks = vec![false; 20];
    oks[3] = true;
    assert_eq!(ty_find::client_logic::startup_poll_outcome(&oks), Some(3));
    let never = vec![false; 20];
    assert_eq!(ty_find::client_logic::startup_poll_outcome(&never), None);
}

#[test]
fn test_dedup_locations_keeps_first() {
    let mut locations = vec![
        loc("file:///a.py", 1, 0),
        loc("file:///a.py", 1, 9),
        loc("file:///a.py", 2, 0),
        loc("file:///b.py", 1, 0),
    ];
    dedup_locations(&mut locations);
    assert_eq!(locations.len(), 3);
    assert_eq!(locations[0].range.start.character, 0);
}

#[test]
fn test_formatter_outputs() {
    let ls = vec![loc("file:///w/a.py", 0, 4)];
    let csv = OutputFormatter::new(OutputFormat::Csv);
    assert_eq!(csv.format_definitions(&ls, "q"), "file,line,column\n/w/a.py,1,5\n");
    let paths = OutputFormatter::new(OutputFormat::Paths);
    assert_eq!(paths.format_definitions(&ls, "q"), "/w/a.py");
    let human = OutputFormatter::new(OutputFormat::Human);
    assert_eq!(
        human.format_definitions(&ls, "a.py:1:5"),
        "Found 1 definition(s) for: a.py:1:5\n\n1. /w/a.py:1:5\n\n"
    );
    assert_eq!(
        human.format_definitions(&Vec::new(), "missing"),
        "No definitions found for: missing"
    );
}

#[test]
fn test_workspace_symbols_filter_and_limit() {
    let make = |name: &str| ty_find::lsp_types::SymbolInformation {
        name: name.to_string(),
        kind: SymbolKind::Function,
        container_name: None,
        location: loc("file:///w/a.py", 0, 0),
    };
    let symbols = vec![make("run"), make("runner"), make("run"), make("other")];
    let filtered = filter_workspace_symbols(symbols, &Some("run".to_string()), &None);
    assert_eq!(filtered.len(), 2);
    let make2 = |name: &str| ty_find::lsp_types::SymbolInformation {
        name: name.to_string(),
        kind: SymbolKind::Function,
        container_name: None,
        location: loc("file:///w/a.py", 0, 0),
    };
    let symbols2 = vec![make2("a"), make2("b"), make2("c")];
    let capped = filter_workspace_symbols(symbols2, &None, &Some(2));
    assert_eq!(capped.len(), 2);
    assert_eq!(capped[0].name, "a");
}

#[test]
fn test_document_symbol_outline_format() {
    let child = symbol("speak", SymbolKind::Method, 2, 4);
    let mut root = symbol("Animal", SymbolKind::Class, 0, 0);
    root.children = Some(vec![child]);
    let human = OutputFormatter::new(OutputFormat::Human);
    let outline = human.format_document_symbols(&vec![root]);
    assert_eq!(outline, "Animal (Class) - line 1, col 1\n  speak (Method) - line 3, col 5\n");
}

#[test]
fn test_interactive_commands() {
    assert!(matches!(parse_interactive_command("quit"), InteractiveCommand::Quit));
    assert!(matches!(parse_interactive_command("q"), InteractiveCommand::Quit));
    match parse_interactive_command("find main.py run") {
        InteractiveCommand::Find { file, symbol } => {
            assert_eq!(file, "main.py");
            assert_eq!(symbol, "run");
        }
        _ => panic!("expected a find command"),
    }
    match parse_interactive_command("main.py:3:1") {
        InteractiveCommand::Goto { file, line, column } => {
            assert_eq!(file, "main.py");
            assert_eq!(line, 3);
            assert_eq!(column, 1);
        }
        _ => panic!("expected a goto command"),
    }
    assert!(matches!(parse_interactive_command("bogus"), InteractiveCommand::Unknown));
    assert!(matches!(parse_interactive_command("find onlyfile"), InteractiveCommand::Unknown));
}

#[test]
fn test_merge_labelled_unique_labels() {
    let entries = vec![
        ("A".to_string(), vec![loc("file:///a.py", 1, 0)]),
        ("B".to_string(), vec![]),
        ("A".to_string(), vec![loc("file:///a2.py", 2, 0)]),
    ];
    let merged = ty_find::client_logic::merge_labelled(&entries);
    assert_eq!(merged.len(), 2);
    assert_eq!(merged[0].0, "A");
    assert_eq!(merged[0].1.len(), 2);
    assert_eq!(merged[1].0, "B");
    assert_eq!(merged[1].1.len(), 0);
}
