//! End-to-end runs through the dispatcher: real wire text in, real wire
//! text out.

use bioma_tool::json::Json;
use bioma_tool::schema::{
    Implementation, Prompt, PromptArgument, Resource, ServerCapabilities,
    ServerCapabilitiesPrompts, ServerCapabilitiesPromptsResources,
    ServerCapabilitiesPromptsResourcesTools,
};
use bioma_tool::server::{Outcome, ServerState};
use bioma_tool::tools::browse::Browse;
use bioma_tool::tools::echo::Echo;
use bioma_tool::tools::fetch::Fetch;
use bioma_tool::tools::memory::Memory;
use bioma_tool::tools::{ToolEntry, ToolError, ToolKind};

fn server() -> ServerState {
    let example_resource = Resource {
        name: "example.txt".to_string(),
        uri: "file:///example.txt".to_string(),
        description: Some("An example text file".to_string()),
        mime_type: Some("text/plain".to_string()),
        annotations: None,
    };
    let example_prompt = Prompt {
        name: "greet".to_string(),
        description: Some("A friendly greeting prompt".to_string()),
        arguments: Some(vec![PromptArgument {
            name: "name".to_string(),
            description: Some("Name of the person to greet".to_string()),
            required: Some(true),
        }]),
    };
    let capabilities = ServerCapabilities {
        experimental: None,
        logging: None,
        prompts: Some(ServerCapabilitiesPrompts {
            list_changed: Some(false),
        }),
        resources: Some(ServerCapabilitiesPromptsResources {
            list_changed: Some(false),
            subscribe: Some(false),
        }),
        tools: Some(ServerCapabilitiesPromptsResourcesTools {
            list_changed: Some(false),
        }),
    };
    ServerState::new(
        Implementation {
            name: "rust-mcp-server".to_string(),
            version: "0.1.0".to_string(),
        },
        Some("Basic MCP server with tool support".to_string()),
        capabilities,
        vec![example_resource],
        vec![example_prompt],
        vec![
            ToolEntry {
                def: Echo::def(),
                kind: ToolKind::Echo,
            },
            ToolEntry {
                def: Memory::def(),
                kind: ToolKind::Memory,
            },
            ToolEntry {
                def: Fetch::def(),
                kind: ToolKind::External,
            },
        ],
    )
}

fn reply(server: &mut ServerState, text: &str) -> String {
    match server.handle_message(text) {
        Outcome::Reply(s) => s,
        other => panic!("expected a reply, got {:?}", other),
    }
}

#[test]
fn test_echo_call_end_to_end() {
    let mut s = server();
    let out = reply(
        &mut s,
        r#"{"jsonrpc":"2.0","id":1,"method":"tools/call","params":{"name":"echo","arguments":{"message":"hi"}}}"#,
    );
    assert_eq!(
        out,
        r#"{"jsonrpc":"2.0","id":1,"result":{"content":[{"type":"text","text":"hi"}],"isError":false}}"#
    );
}

#[test]
fn test_memory_store_then_retrieve() {
    let mut s = server();
    let out = reply(
        &mut s,
        r#"{"jsonrpc":"2.0","id":1,"method":"tools/call","params":{"name":"memory","arguments":{"action":"store","key":"k","value":{"a":1}}}}"#,
    );
    assert!(out.contains("Successfully stored memory with key: k"));
    let out = reply(
        &mut s,
        r#"{"jsonrpc":"2.0","id":2,"method":"tools/call","params":{"name":"memory","arguments":{"action":"retrieve","key":"k"}}}"#,
    );
    assert_eq!(
        out,
        r#"{"jsonrpc":"2.0","id":2,"result":{"content":[{"type":"text","text":"{\"a\":1}"}],"isError":false}}"#
    );
}

#[test]
fn test_unknown_tool_keeps_id() {
    let mut s = server();
    let out = reply(
        &mut s,
        r#"{"jsonrpc":"2.0","id":7,"method":"tools/call","params":{"name":"nonexistent","arguments":{}}}"#,
    );
    assert_eq!(
        out,
        r#"{"jsonrpc":"2.0","id":7,"error":{"code":-32601,"message":"Method not found"}}"#
    );
}

#[test]
fn test_notifications_are_silent() {
    let mut s = server();
    for text in [
        r#"{"jsonrpc":"2.0","method":"notifications/initialized"}"#,
        r#"{"jsonrpc":"2.0","method":"cancelled","params":{"requestId":3,"reason":"done"}}"#,
        // parameters that would not parse still produce no bytes
        r#"{"jsonrpc":"2.0","method":"cancelled","params":{"bogus":true}}"#,
        r#"{"jsonrpc":"2.0","id":4,"method":"notifications/initialized"}"#,
    ] {
        match s.handle_message(text) {
            Outcome::Silence => {}
            other => panic!("expected silence, got {:?}", other),
        }
    }
}

#[test]
fn test_responses_keep_request_order() {
    let mut s = server();
    let first = reply(
        &mut s,
        r#"{"jsonrpc":"2.0","id":1,"method":"tools/call","params":{"name":"echo","arguments":{"message":"A"}}}"#,
    );
    let second = reply(
        &mut s,
        r#"{"jsonrpc":"2.0","id":2,"method":"tools/call","params":{"name":"echo","arguments":{"message":"B"}}}"#,
    );
    assert!(first.contains(r#""id":1"#) && first.contains(r#""text":"A""#));
    assert!(second.contains(r#""id":2"#) && second.contains(r#""text":"B""#));
}

#[test]
fn test_handle_values_in_order() {
    let mut s = server();
    let envs = vec![
        Json::Obj(vec![
            ("jsonrpc".to_string(), Json::Str("2.0".to_string())),
            ("id".to_string(), Json::Int(1)),
            ("method".to_string(), Json::Str("tools/call".to_string())),
            (
                "params".to_string(),
                Json::Obj(vec![
                    ("name".to_string(), Json::Str("echo".to_string())),
                    (
                        "arguments".to_string(),
                        Json::Obj(vec![("message".to_string(), Json::Str("A".to_string()))]),
                    ),
                ]),
            ),
        ]),
        Json::Obj(vec![
            ("jsonrpc".to_string(), Json::Str("2.0".to_string())),
            ("id".to_string(), Json::Int(2)),
            ("method".to_string(), Json::Str("tools/call".to_string())),
            (
                "params".to_string(),
                Json::Obj(vec![
                    ("name".to_string(), Json::Str("echo".to_string())),
                    (
                        "arguments".to_string(),
                        Json::Obj(vec![("message".to_string(), Json::Str("B".to_string()))]),
                    ),
                ]),
            ),
        ]),
    ];
    let outs = s.handle_values(&envs);
    assert_eq!(outs.len(), 2);
    match (&outs[0], &outs[1]) {
        (Outcome::Reply(a), Outcome::Reply(b)) => {
            assert!(a.contains(r#""id":1"#) && a.contains(r#""text":"A""#));
            assert!(b.contains(r#""id":2"#) && b.contains(r#""text":"B""#));
        }
        other => panic!("expected two replies, got {:?}", other),
    }
}

#[test]
fn test_control_characters_stay_escaped_on_the_wire() {
    let mut s = server();
    let out = reply(
        &mut s,
        r#"{"jsonrpc":"2.0","id":12,"method":"tools/call","params":{"name":"echo","arguments":{"message":"a\u0001b"}}}"#,
    );
    assert_eq!(
        out,
        r#"{"jsonrpc":"2.0","id":12,"result":{"content":[{"type":"text","text":"a\u0001b"}],"isError":false}}"#
    );
}

#[test]
fn test_whitespace_bearing_request_is_answered() {
    let mut s = server();
    let out = reply(
        &mut s,
        " { \"jsonrpc\" : \"2.0\", \"id\": 11, \"method\": \"tools/call\", \"params\": { \"name\": \"echo\", \"arguments\": { \"message\": \"spaced\" } } } ",
    );
    assert_eq!(
        out,
        r#"{"jsonrpc":"2.0","id":11,"result":{"content":[{"type":"text","text":"spaced"}],"isError":false}}"#
    );
}

#[test]
fn test_initialize_echoes_protocol_version() {
    let mut s = server();
    let out = reply(
        &mut s,
        r#"{"jsonrpc":"2.0","id":1,"method":"initialize","params":{"capabilities":{},"clientInfo":{"name":"c","version":"9"},"protocolVersion":"2024-11-05"}}"#,
    );
    assert!(out.contains(r#""protocolVersion":"2024-11-05""#));
    assert!(out.contains(r#""serverInfo":{"name":"rust-mcp-server","version":"0.1.0"}"#));
    assert!(out.contains(r#""instructions":"Basic MCP server with tool support""#));
}

#[test]
fn test_lists_have_no_next_page() {
    let mut s = server();
    let tools = reply(&mut s, r#"{"jsonrpc":"2.0","id":1,"method":"tools/list"}"#);
    assert!(tools.contains(r#""name":"echo""#));
    assert!(tools.contains(r#""name":"memory""#));
    assert!(tools.contains(r#""name":"fetch""#));
    assert!(tools.contains(r#""nextCursor":null"#));
    let resources = reply(&mut s, r#"{"jsonrpc":"2.0","id":2,"method":"resources/list"}"#);
    assert!(resources.contains(r#""uri":"file:///example.txt""#));
    assert!(resources.contains(r#""nextCursor":null"#));
    let prompts = reply(&mut s, r#"{"jsonrpc":"2.0","id":3,"method":"prompts/list"}"#);
    assert!(prompts.contains(r#""name":"greet""#));
    assert!(prompts.contains(r#""nextCursor":null"#));
}

#[test]
fn test_envelope_and_argument_errors() {
    let mut s = server();
    // bad arguments for a registered tool: invalid params, not a panic
    let out = reply(
        &mut s,
        r#"{"jsonrpc":"2.0","id":5,"method":"tools/call","params":{"name":"echo","arguments":{}}}"#,
    );
    assert_eq!(
        out,
        r#"{"jsonrpc":"2.0","id":5,"error":{"code":-32602,"message":"Invalid params"}}"#
    );
    // unknown request method
    let out = reply(&mut s, r#"{"jsonrpc":"2.0","id":6,"method":"no/such"}"#);
    assert!(out.contains(r#""code":-32601"#));
    // not an envelope, but an id is recoverable
    let out = reply(&mut s, r#"{"id":8,"method":"tools/list"}"#);
    assert!(out.contains(r#""code":-32700"#));
    // not JSON at all: dropped
    match s.handle_message("not json at all") {
        Outcome::Silence => {}
        other => panic!("expected silence, got {:?}", other),
    }
}

#[test]
fn test_external_tool_handed_out() {
    let mut s = server();
    let out = s.handle_message(
        r#"{"jsonrpc":"2.0","id":9,"method":"tools/call","params":{"name":"fetch","arguments":{"url":"https://example.com"}}}"#,
    );
    match out {
        Outcome::External {
            id,
            name,
            arguments,
        } => {
            assert!(matches!(id, Json::Int(9)));
            assert_eq!(name, "fetch");
            let args = arguments.expect("arguments");
            let url = args.get("url").unwrap().as_text().unwrap().clone();
            assert_eq!(url, "https://example.com");
        }
        other => panic!("expected an external call, got {:?}", other),
    }
    // and the finished call is serialized with the same id
    let result = Browse::fetch_failed("timed out");
    let text = ServerState::finish_tool_call(&Json::Int(9), Ok(&result));
    assert!(text.contains(r#""id":9"#));
    assert!(text.contains("Failed to fetch URL"));
}

#[test]
fn test_tool_error_codes() {
    let id = Json::Int(3);
    let t = ServerState::finish_tool_call(&id, Err(&ToolError::ArgumentParse("x".to_string())));
    assert_eq!(
        t,
        r#"{"jsonrpc":"2.0","id":3,"error":{"code":-32602,"message":"Invalid params"}}"#
    );
    let t = ServerState::finish_tool_call(&id, Err(&ToolError::Execution("x".to_string())));
    assert_eq!(
        t,
        r#"{"jsonrpc":"2.0","id":3,"error":{"code":-32603,"message":"Internal error"}}"#
    );
    let t = ServerState::finish_tool_call(&id, Err(&ToolError::Custom("x".to_string())));
    assert!(t.contains(r#""code":-32603"#));
    let t = ServerState::finish_tool_call(&id, Err(&ToolError::ResultSerialize("x".to_string())));
    assert!(t.contains(r#""code":-32603"#));
}
