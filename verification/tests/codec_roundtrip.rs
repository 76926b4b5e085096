//! The JSON codec: exact serialized forms, the parser on friendly and
//! hostile input, and the tool-result round trip.

use bioma_tool::codec::to_text;
use bioma_tool::json::Json;
use bioma_tool::parse::parse_text;
use bioma_tool::schema::{CallToolResult, TextContent};
use bioma_tool::transport::{frame_line, pipe_should_send, PeerEvent, PeerState};

#[test]
fn test_serializer_exact_forms() {
    assert_eq!(to_text(&Json::Null), "null");
    assert_eq!(to_text(&Json::Bool(true)), "true");
    assert_eq!(to_text(&Json::Bool(false)), "false");
    assert_eq!(to_text(&Json::Int(0)), "0");
    assert_eq!(to_text(&Json::Int(-37)), "-37");
    assert_eq!(to_text(&Json::Int(i64::MIN)), "-9223372036854775808");
    assert_eq!(to_text(&Json::Int(i64::MAX)), "9223372036854775807");
    assert_eq!(
        to_text(&Json::Str("a\"b\\c\nd".to_string())),
        r#""a\"b\\c\nd""#
    );
    // control characters without a short form take the hex escape
    assert_eq!(
        to_text(&Json::Str("x\u{01}y\u{08}z\u{1f}".to_string())),
        r#""x\u0001y\u0008z\u001f""#
    );
    assert_eq!(
        to_text(&Json::Arr(vec![Json::Int(1), Json::Int(2), Json::Int(3)])),
        "[1,2,3]"
    );
    assert_eq!(
        to_text(&Json::Obj(vec![
            ("a".to_string(), Json::Int(1)),
            ("b".to_string(), Json::Arr(vec![])),
        ])),
        r#"{"a":1,"b":[]}"#
    );
}

fn round_trip(v: Json) {
    let text = to_text(&v);
    let back = parse_text(&text).expect("round trip parses");
    assert_eq!(to_text(&back), text);
}

#[test]
fn test_parse_of_serialized_documents() {
    round_trip(Json::Null);
    round_trip(Json::Int(-9000));
    round_trip(Json::Str("escapes \" \\ \n \r \t and text".to_string()));
    round_trip(Json::Str("controls \u{0}\u{1}\u{8}\u{b}\u{c}\u{1f} too".to_string()));
    round_trip(Json::Arr(vec![
        Json::Obj(vec![("k".to_string(), Json::Str("v".to_string()))]),
        Json::Arr(vec![Json::Bool(false)]),
        Json::Int(42),
    ]));
    round_trip(Json::Obj(vec![
        ("outer".to_string(), Json::Obj(vec![])),
        ("empty".to_string(), Json::Arr(vec![])),
        ("deep".to_string(), Json::Arr(vec![Json::Obj(vec![(
            "x".to_string(),
            Json::Int(i64::MIN),
        )])])),
    ]));
}

#[test]
fn test_parser_accepts_whitespace_and_escapes() {
    let v = parse_text(" { \"a\" :\t[ 1 ,\n2 ] } ").expect("parses");
    assert_eq!(to_text(&v), r#"{"a":[1,2]}"#);
    let v = parse_text(r#""\u0041\u00e9""#).expect("hex escapes parse");
    assert_eq!(to_text(&v), "\"A\u{e9}\"");
    let v = parse_text(r#""\ud800""#);
    assert!(v.is_none(), "a lone surrogate escape is rejected");
    let v = parse_text(r#""x\/y""#).expect("solidus escape parses");
    assert_eq!(to_text(&v), r#""x/y""#);
    assert_eq!(parse_text("-37").unwrap().as_int(), Some(-37));
    assert_eq!(parse_text("[0]").unwrap().as_int(), None);
}

#[test]
fn test_parser_rejects_malformed_input() {
    for bad in [
        "",
        "   ",
        "{",
        "[1,",
        "nul",
        "truth",
        "1.5",
        "1e3",
        "\"unterminated",
        "{\"a\":1}trailing",
        "--3",
        "9223372036854775808",
    ] {
        assert!(parse_text(bad).is_none(), "{:?} should be rejected", bad);
    }
    assert!(parse_text("-9223372036854775808").is_some());
}

#[test]
fn test_tool_result_round_trip() {
    let item = TextContent {
        annotations: None,
        text: "line one\nline \"two\"".to_string(),
        type_: "text".to_string(),
    };
    let original = CallToolResult {
        meta: Some(vec![("source".to_string(), Json::Str("unit".to_string()))]),
        content: vec![item.to_json()],
        is_error: Some(false),
    };
    let text = to_text(&original.to_json());
    let parsed = parse_text(&text).expect("serialized result parses");

    // identical content, error flag and metadata
    let content = match parsed.get("content") {
        Some(Json::Arr(items)) => items.clone(),
        other => panic!("content missing: {:?}", other),
    };
    assert_eq!(content.len(), original.content.len());
    assert_eq!(to_text(&content[0]), to_text(&original.content[0]));
    let is_error = parsed.get("isError").unwrap().as_bool().unwrap();
    assert_eq!(Some(is_error), original.is_error);
    let meta = parsed.get("_meta").unwrap();
    assert_eq!(to_text(meta), r#"{"source":"unit"}"#);

    // and the whole document re-serializes to the same bytes
    assert_eq!(to_text(&parsed), text);
}

#[test]
fn test_transport_decisions() {
    // the socket transport's writer slot over its lifecycle
    let s = PeerState::Absent;
    assert!(!s.send_decision("hello"));
    let s = s.on_connect();
    assert!(s.send_decision("hello"));
    assert!(!s.send_decision(""));
    let step = s.on_event(PeerEvent::TextFrame("msg".to_string()));
    assert_eq!(step.state, PeerState::Present);
    assert_eq!(step.deliver.as_deref(), Some("msg"));
    assert!(!step.stop_reading);
    let step = step.state.on_event(PeerEvent::CloseFrame);
    assert_eq!(step.state, PeerState::Absent);
    assert!(step.stop_reading);

    // the pipe transport's framing
    assert!(!pipe_should_send(""));
    assert!(pipe_should_send("x"));
    assert_eq!(frame_line("reply".to_string()), "reply\n");
}
