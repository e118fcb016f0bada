use ty_find::client_logic::{
    classify_query, daemon_start_action, find_name_column, socket_path_for_uid, ClassifiedQuery,
    DaemonStartAction,
};
use ty_find::detection::WorkspaceDetector;
use ty_find::documents::OpenedDocuments;
use ty_find::navigation::SymbolFinder;
use ty_find::params::DiagnosticSeverity;
use ty_find::pool::LspClientPool;
use ty_find::positions::{parse_file_position, to_one_based, to_zero_based};
use ty_find::transport::PendingMap;

#[test]
fn test_parse_file_position_valid() {
    assert_eq!(parse_file_position("file.py:10:5"), Some(("file.py".to_string(), 10, 5)));
    assert_eq!(
        parse_file_position("src/foo/bar.py:1:1"),
        Some(("src/foo/bar.py".to_string(), 1, 1))
    );
    assert_eq!(
        parse_file_position("/absolute/path.py:100:20"),
        Some(("/absolute/path.py".to_string(), 100, 20))
    );
}

#[test]
fn test_parse_file_position_symbol_names() {
    assert_eq!(parse_file_position("my_function"), None);
    assert_eq!(parse_file_position("MyClass"), None);
    assert_eq!(parse_file_position("foo_bar_baz"), None);
}

#[test]
fn test_parse_file_position_edge_cases() {
    // Only one colon
    assert_eq!(parse_file_position("file.py:10"), None);
    // Empty file part
    assert_eq!(parse_file_position(":10:5"), None);
    // Non-numeric parts
    assert_eq!(parse_file_position("file.py:abc:5"), None);
    assert_eq!(parse_file_position("file.py:10:abc"), None);
}

#[test]
fn test_diagnostic_severity() {
    assert_eq!(DiagnosticSeverity::Error.code(), 1);
    assert_eq!(DiagnosticSeverity::Warning.code(), 2);
    assert_eq!(DiagnosticSeverity::Information.code(), 3);
    assert_eq!(DiagnosticSeverity::Hint.code(), 4);
}

#[test]
fn test_find_name_column_class() {
    // "class Animal:" -- "Animal" starts at column 6
    assert_eq!(find_name_column("class Animal:", "Animal"), Some(6));
}

#[test]
fn test_find_name_column_function() {
    // "def create_dog(name):" -- "create_dog" starts at column 4
    assert_eq!(find_name_column("def create_dog(name):", "create_dog"), Some(4));
}

#[test]
fn test_find_name_column_not_found() {
    assert_eq!(find_name_column("x = 1", "Animal"), None);
}

#[test]
fn test_symbol_finder() {
    let content = "def test_function():\n    return test_function()\n\nresult = test_function()\n";
    let finder = SymbolFinder::new(content);
    let positions = finder.find_symbol_positions("test_function");
    assert_eq!(positions.len(), 3);
    assert_eq!(positions[0], (0, 4));
    assert_eq!(positions[1], (1, 11));
    assert_eq!(positions[2], (3, 9));
}

#[test]
fn test_symbol_finder_whole_words_only() {
    let finder = SymbolFinder::new("dogs = dog + dog_house\ndog = 1\n");
    let positions = finder.find_symbol_positions("dog");
    assert_eq!(positions, vec![(0, 7), (1, 0)]);
}

#[test]
fn test_get_line() {
    let finder = SymbolFinder::new("first\nsecond\r\nthird");
    assert_eq!(finder.line_count(), 3);
    assert_eq!(finder.get_line(0).unwrap().as_str(), "first");
    assert_eq!(finder.get_line(1).unwrap().as_str(), "second");
    assert_eq!(finder.get_line(2).unwrap().as_str(), "third");
    assert!(finder.get_line(3).is_none());
}

#[test]
fn test_position_translation_saturates() {
    assert_eq!(to_zero_based(0), 0);
    assert_eq!(to_zero_based(1), 0);
    assert_eq!(to_zero_based(10), 9);
    assert_eq!(to_one_based(0), 1);
    assert_eq!(to_one_based(9), 10);
}

#[test]
fn test_classify_query_position_and_symbol() {
    match classify_query("main.py:10:5") {
        ClassifiedQuery::Position { file, line, column } => {
            assert_eq!(file, "main.py");
            assert_eq!(line, 9);
            assert_eq!(column, 4);
        }
        _ => panic!("expected a position"),
    }
    match classify_query("my_symbol") {
        ClassifiedQuery::Symbol(s) => assert_eq!(s, "my_symbol"),
        _ => panic!("expected a symbol"),
    }
}

#[test]
fn test_new_pool_is_empty() {
    let pool = LspClientPool::new();
    assert_eq!(pool.len(), 0);
    assert!(pool.is_empty());
}

#[test]
fn test_active_workspaces_empty() {
    let pool = LspClientPool::new();
    let workspaces = pool.active_workspaces();
    assert!(workspaces.is_empty());
}

#[test]
fn test_remove_nonexistent_workspace() {
    let mut pool = LspClientPool::new();
    pool.remove("/nonexistent");
    assert_eq!(pool.len(), 0);
}

#[test]
fn test_cleanup_idle_empty_pool() {
    let mut pool = LspClientPool::new();
    let dropped = pool.cleanup_idle(60_000, 60_000);
    assert_eq!(dropped.len(), 0);
}

#[test]
fn test_pool_one_client_per_workspace() {
    let mut pool = LspClientPool::new();
    assert!(pool.insert("/w1", 1, 10));
    assert!(!pool.insert("/w1", 2, 20));
    assert_eq!(pool.len(), 1);
    assert_eq!(pool.touch("/w1", 30), Some(1));
    assert_eq!(pool.touch("/w2", 30), None);
}

#[test]
fn test_pool_idle_sweep_keeps_fresh_entries() {
    let mut pool = LspClientPool::new();
    assert!(pool.insert("/old", 1, 0));
    assert!(pool.insert("/fresh", 2, 900_000));
    let dropped = pool.cleanup_idle(1_000_000, 300_000);
    assert_eq!(dropped, vec![1]);
    assert_eq!(pool.len(), 1);
    assert_eq!(pool.touch("/fresh", 1_000_000), Some(2));
}

#[test]
fn test_pending_map_exactly_once() {
    let mut pending = PendingMap::new();
    let a = pending.register();
    let b = pending.register();
    assert!(a < b);
    assert!(pending.complete(a));
    assert!(!pending.complete(a));
    assert!(pending.complete(b));
    assert_eq!(pending.pending_count(), 0);
}

#[test]
fn test_open_document_once() {
    let mut docs = OpenedDocuments::new();
    assert!(docs.open("file:///a.py"));
    assert!(!docs.open("file:///a.py"));
    assert!(docs.open("file:///b.py"));
    assert!(!docs.open("file:///b.py"));
}

#[test]
fn test_workspace_detection_picks_nearest() {
    let flags = vec![false, true, true];
    assert_eq!(WorkspaceDetector::find_workspace_root(&flags), Some(1));
    let none = vec![false, false];
    assert_eq!(WorkspaceDetector::find_workspace_root(&none), None);
    assert!(WorkspaceDetector::has_python_markers(&vec![false, true]));
    assert!(!WorkspaceDetector::has_python_markers(&vec![false, false]));
    let markers = WorkspaceDetector::python_markers();
    assert_eq!(markers[0], "pyproject.toml");
    assert_eq!(markers.len(), 8);
}

#[test]
fn test_socket_path_for_uid() {
    let path = socket_path_for_uid(1000);
    assert_eq!(path, "/tmp/ty-find-1000.sock");
    assert!(path.contains("ty-find"));
    assert!(path.ends_with(".sock"));
}

#[test]
fn test_daemon_start_decisions() {
    assert_eq!(daemon_start_action(true, false, false), DaemonStartAction::RunServer);
    assert_eq!(daemon_start_action(true, true, true), DaemonStartAction::RunServer);
    assert_eq!(daemon_start_action(false, true, true), DaemonStartAction::AlreadyRunning);
    assert_eq!(daemon_start_action(false, true, false), DaemonStartAction::SpawnChild);
    assert_eq!(daemon_start_action(false, false, false), DaemonStartAction::SpawnChild);
}

#[test]
fn test_remove_keeps_other_entries() {
    let mut pool = LspClientPool::new();
    assert!(pool.insert("/w1", 1, 10));
    assert!(pool.insert("/w2", 2, 20));
    pool.remove("/w1");
    assert_eq!(pool.len(), 1);
    assert_eq!(pool.touch("/w2", 30), Some(2));
    assert_eq!(pool.touch("/w1", 30), None);
}
