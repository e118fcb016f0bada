use ty_find::framing::{parse_content_length, render_frame};
use ty_find::lsp_types::{
    document_symbol_from_json, document_symbol_to_json, hover_from_json, location_from_json,
    location_to_json, locations_from_definition_reply, DocumentSymbol, HoverContents, Location,
    Position, Range, SymbolKind,
};
use ty_find::json::{json_to_string, parse_json, JsonValue};

fn obj(pairs: Vec<(&str, JsonValue)>) -> JsonValue {
    JsonValue::Obj(pairs.into_iter().map(|(k, v)| (k.to_string(), v)).collect())
}

#[test]
fn test_json_output() {
    let v = obj(vec![
        ("name", JsonValue::Str("speak".to_string())),
        ("count", JsonValue::Int { neg: false, mag: 2 }),
        ("deep", JsonValue::Arr(vec![JsonValue::Null, JsonValue::Bool(true)])),
    ]);
    let text = json_to_string(&v);
    assert_eq!(text, "{\"name\":\"speak\",\"count\":2,\"deep\":[null,true]}");
}

#[test]
fn test_json_parse_round_trip() {
    let text = "{\"a\":[1,-2,\"x\\ny\"],\"b\":{\"c\":null,\"d\":false}}";
    let v = parse_json(text).expect("canonical JSON parses");
    assert_eq!(json_to_string(&v), text);
}

#[test]
fn test_json_escapes_round_trip() {
    let v = JsonValue::Str("quote \" slash \\ tab \t nl \n bell \u{7}".to_string());
    let text = json_to_string(&v);
    let back = parse_json(&text).expect("escaped string parses");
    match back {
        JsonValue::Str(s) => assert_eq!(s, "quote \" slash \\ tab \t nl \n bell \u{7}"),
        _ => panic!("expected a string"),
    }
}

#[test]
fn test_json_agrees_with_serde() {
    let v = obj(vec![
        ("text", JsonValue::Str("a\"b\\c\nd".to_string())),
        ("neg", JsonValue::Int { neg: true, mag: 32700 }),
        ("list", JsonValue::Arr(vec![JsonValue::Int { neg: false, mag: 0 }])),
    ]);
    let text = json_to_string(&v);
    let parsed: serde_json::Value = serde_json::from_str(&text).expect("serde parses our output");
    assert_eq!(parsed["text"].as_str().unwrap(), "a\"b\\c\nd");
    assert_eq!(parsed["neg"].as_i64().unwrap(), -32700);
    assert_eq!(parsed["list"][0].as_u64().unwrap(), 0);
}

#[test]
fn test_json_rejects_malformed() {
    assert!(parse_json("").is_none());
    assert!(parse_json("{").is_none());
    assert!(parse_json("[1,]").is_none());
    assert!(parse_json("truefalse").is_none());
    assert!(parse_json("01").is_none());
    assert!(parse_json("-0").is_none());
}

#[test]
fn test_render_frame_shape() {
    let framed = render_frame("{\"x\":1}");
    assert_eq!(framed, "Content-Length: 7\r\n\r\n{\"x\":1}");
}

#[test]
fn test_render_frame_counts_bytes_not_chars() {
    let framed = render_frame("\u{e9}");
    assert_eq!(framed, "Content-Length: 2\r\n\r\n\u{e9}");
}

#[test]
fn test_parse_content_length() {
    assert_eq!(parse_content_length("Content-Length: 123"), Some(123));
    assert_eq!(parse_content_length("Content-Length: 0"), Some(0));
    assert_eq!(parse_content_length("Content-Length: 007"), None);
    assert_eq!(parse_content_length("Content-Type: json"), None);
    assert_eq!(parse_content_length("Content-Length:"), None);
    assert_eq!(parse_content_length("Content-Length: 12x"), None);
}

#[test]
fn test_frame_then_parse_header() {
    let framed = render_frame("hello");
    let header_end = framed.find("\r\n").unwrap();
    let n = parse_content_length(&framed[..header_end]).unwrap();
    assert_eq!(n, 5);
    let body = &framed[header_end + 4..];
    assert_eq!(body.len() as u64, n);
    assert_eq!(body, "hello");
}

#[test]
fn test_location_codec_round_trip() {
    let l = Location {
        uri: "file:///w/a.py".to_string(),
        range: Range {
            start: Position { line: 3, character: 7 },
            end: Position { line: 3, character: 12 },
        },
    };
    let text = json_to_string(&location_to_json(&l));
    assert_eq!(
        text,
        "{\"uri\":\"file:///w/a.py\",\"range\":{\"start\":{\"line\":3,\"character\":7},\"end\":{\"line\":3,\"character\":12}}}"
    );
    let back = location_from_json(&parse_json(&text).unwrap()).unwrap();
    assert_eq!(back.uri, "file:///w/a.py");
    assert_eq!(back.range.start.line, 3);
    assert_eq!(back.range.end.character, 12);
}

#[test]
fn test_definition_reply_normalization() {
    // null becomes the empty list.
    let none = locations_from_definition_reply(&JsonValue::Null).unwrap();
    assert!(none.is_empty());
    // A single object becomes a one-element list.
    let single_text = "{\"uri\":\"file:///a.py\",\"range\":{\"start\":{\"line\":0,\"character\":0},\"end\":{\"line\":0,\"character\":1}}}";
    let single = locations_from_definition_reply(&parse_json(single_text).unwrap()).unwrap();
    assert_eq!(single.len(), 1);
    // An array stays as it is.
    let arr_text = format!("[{single_text},{single_text}]");
    let listed = locations_from_definition_reply(&parse_json(&arr_text).unwrap()).unwrap();
    assert_eq!(listed.len(), 2);
}

#[test]
fn test_hover_codec_shapes() {
    let text = "{\"contents\":{\"kind\":\"markdown\",\"value\":\"def f()\"},\"range\":null}";
    let hover = hover_from_json(&parse_json(text).unwrap()).unwrap();
    match hover.contents {
        HoverContents::Markup { kind, value } => {
            assert_eq!(kind, "markdown");
            assert_eq!(value, "def f()");
        }
        _ => panic!("expected markup contents"),
    }
    let scalar = "{\"contents\":\"int\",\"range\":null}";
    let hover2 = hover_from_json(&parse_json(scalar).unwrap()).unwrap();
    assert!(matches!(hover2.contents, HoverContents::Scalar(s) if s == "int"));
}

#[test]
fn test_document_symbol_codec_recursive() {
    let p = Position { line: 1, character: 0 };
    let child = DocumentSymbol {
        name: "speak".to_string(),
        kind: SymbolKind::Method,
        range: Range { start: p, end: p },
        selection_range: Range { start: p, end: p },
        children: None,
    };
    let root = DocumentSymbol {
        name: "Animal".to_string(),
        kind: SymbolKind::Class,
        range: Range { start: p, end: p },
        selection_range: Range { start: p, end: p },
        children: Some(vec![child]),
    };
    let text = json_to_string(&document_symbol_to_json(&root));
    let back = document_symbol_from_json(&parse_json(&text).unwrap()).unwrap();
    assert_eq!(back.name, "Animal");
    assert_eq!(back.kind, SymbolKind::Class);
    let kids = back.children.unwrap();
    assert_eq!(kids.len(), 1);
    assert_eq!(kids[0].name, "speak");
    assert_eq!(kids[0].kind, SymbolKind::Method);
}

#[test]
fn test_lsp_request_frame_shape() {
    let frame = ty_find::lsp_client::lsp_request_frame(7, "textDocument/hover", JsonValue::Null);
    let body = "{\"jsonrpc\":\"2.0\",\"id\":7,\"method\":\"textDocument/hover\",\"params\":null}";
    assert_eq!(frame, format!("Content-Length: {}\r\n\r\n{}", body.len(), body));
}

#[test]
fn test_symbol_kind_codes() {
    assert_eq!(SymbolKind::Class.code(), 5);
    assert_eq!(SymbolKind::Function.code(), 12);
    assert_eq!(SymbolKind::from_code(6), SymbolKind::Method);
    assert_eq!(SymbolKind::from_code(99), SymbolKind::Other(99));
    assert_eq!(SymbolKind::from_code(SymbolKind::Property.code()), SymbolKind::Property);
}
