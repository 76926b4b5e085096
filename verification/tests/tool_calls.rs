//! The tools themselves: echo, the memory store, and the fetch and browse
//! computations, run against the real web crates.

use bioma_tool::json::Json;
use bioma_tool::tools::browse::Browse;
use bioma_tool::tools::echo::{Echo, EchoProperties};
use bioma_tool::tools::fetch::{Fetch, FetchProperties};
use bioma_tool::tools::memory::{Memory, MemoryAction, MemoryProperties, MemoryStore};
use bioma_tool::tools::web_browser::WebBrowser;

fn text_of(result: &bioma_tool::schema::CallToolResult) -> String {
    result.content[0]
        .get("text")
        .expect("text item")
        .as_text()
        .expect("text string")
        .clone()
}

#[test]
fn test_echo_tool() {
    let props = EchoProperties {
        message: "hello".to_string(),
    };
    let result = Echo::call(props);
    assert_eq!(text_of(&result), "hello");
    assert_eq!(result.is_error, Some(false));
}

#[test]
fn test_memory_operations() {
    let mut store = MemoryStore::new();

    let store_props = MemoryProperties {
        action: MemoryAction::Store,
        key: Some("test_key".to_string()),
        value: Some(Json::Obj(vec![(
            "test".to_string(),
            Json::Str("value".to_string()),
        )])),
    };
    let result = Memory::call(&mut store, store_props);
    assert!(text_of(&result).contains("Successfully stored"));

    let retrieve_props = MemoryProperties {
        action: MemoryAction::Retrieve,
        key: Some("test_key".to_string()),
        value: None,
    };
    let result = Memory::call(&mut store, retrieve_props);
    assert!(text_of(&result).contains("test"));

    let list_props = MemoryProperties {
        action: MemoryAction::List,
        key: None,
        value: None,
    };
    let result = Memory::call(&mut store, list_props);
    assert!(text_of(&result).contains("test_key"));

    let delete_props = MemoryProperties {
        action: MemoryAction::Delete,
        key: Some("test_key".to_string()),
        value: None,
    };
    let result = Memory::call(&mut store, delete_props);
    assert!(text_of(&result).contains("Successfully deleted"));

    let store_props = MemoryProperties {
        action: MemoryAction::Store,
        key: Some("test_key2".to_string()),
        value: Some(Json::Obj(vec![(
            "test".to_string(),
            Json::Str("value".to_string()),
        )])),
    };
    Memory::call(&mut store, store_props);

    let clear_props = MemoryProperties {
        action: MemoryAction::Clear,
        key: None,
        value: None,
    };
    let result = Memory::call(&mut store, clear_props);
    assert!(text_of(&result).contains("Successfully cleared"));

    let list_props = MemoryProperties {
        action: MemoryAction::List,
        key: None,
        value: None,
    };
    let result = Memory::call(&mut store, list_props);
    assert_eq!(text_of(&result), "[]");
}

#[test]
fn test_fetch_with_robots_txt() {
    let robots = "User-agent: *\nDisallow: /private/";
    let agent = "Bioma/1.0 (+https://github.com/BiomaAI/bioma)";
    assert!(Fetch::robots_verdict(
        false,
        robots,
        agent,
        "https://example.com/test"
    ));
    assert!(!Fetch::robots_verdict(
        false,
        robots,
        agent,
        "https://example.com/private/test"
    ));
    // a client-error status on the robots.txt request means no rules: allowed
    assert!(Fetch::robots_verdict(
        true,
        "",
        agent,
        "https://example.com/private/test"
    ));
    // a body with an over-long line is one the matcher cannot safely
    // read: the fetch is denied, and nothing panics
    let mut hostile = String::from("Disallow: /");
    for _ in 0..5000 {
        hostile.push('\u{00fc}');
    }
    assert!(!Fetch::robots_verdict(
        false,
        &hostile,
        agent,
        "https://example.com/test"
    ));
}

#[test]
fn test_fetch_raw_content() {
    let html = "<html><body><h1>Test Page</h1><p>Content</p></body></html>";
    let props = FetchProperties {
        url: "https://example.com/raw".to_string(),
        max_length: None,
        start_index: None,
        raw: Some(true),
    };
    let out = Fetch::process_content(html, "text/html", &props.url.clone(), &props).unwrap();
    assert!(out.contains("<html><body>"));
}

#[test]
fn test_fetch_with_length_limits() {
    let body = "1234567890";
    let url = "https://example.com/limited".to_string();

    let props = FetchProperties {
        url: url.clone(),
        max_length: Some(5),
        start_index: None,
        raw: Some(true),
    };
    let out = Fetch::process_content(body, "text/plain", &url, &props).unwrap();
    assert_eq!(out, "12345");

    let props = FetchProperties {
        url: url.clone(),
        max_length: None,
        start_index: Some(5),
        raw: Some(true),
    };
    let out = Fetch::process_content(body, "text/plain", &url, &props).unwrap();
    assert_eq!(out, "67890");
}

#[test]
fn test_fetch_error_cases() {
    // an invalid URL never reaches the network
    match Fetch::plan("not-a-url") {
        Ok(_) => panic!("invalid URL accepted"),
        Err(result) => {
            assert_eq!(result.is_error, Some(true));
            assert!(text_of(&result).contains("Invalid URL"));
        }
    }
    // a failed transfer becomes an error-flagged result
    let result = Fetch::fetch_failed("connection refused");
    assert_eq!(result.is_error, Some(true));
    assert!(text_of(&result).contains("Failed to fetch URL"));
}

#[test]
fn test_fetch_plan_robots_location() {
    let (normalized, robots) = Fetch::plan("https://example.com/a/b").unwrap();
    assert_eq!(normalized, "https://example.com/a/b");
    assert_eq!(robots.unwrap(), "https://example.com/robots.txt");
}

#[test]
fn test_fetch_readable_extraction_changes_content() {
    let html = "<html><head><title>T</title></head><body><article><h1>Heading</h1>\
                <p>This is a long enough paragraph of readable content that the \
                extractor has something to keep and score properly.</p></article></body></html>";
    let props = FetchProperties {
        url: "https://example.com/page".to_string(),
        max_length: None,
        start_index: None,
        raw: None,
    };
    match Fetch::process_content(html, "text/html", "https://example.com/page", &props) {
        Ok(out) => assert_ne!(out, html),
        Err(e) => assert_eq!(e, "Failed to extract content"),
    }
}

#[test]
fn test_browse_tool() {
    let html = "<html><body><div><h1>Example Domain</h1>\
                <p>This domain is for use in illustrative examples in documents.</p>\
                </div></body></html>";
    let result = Browse::process(html);
    let content = text_of(&result);
    assert!(content.contains("Example Domain"));
    assert_eq!(result.is_error, Some(false));
    // the page was converted, not echoed
    assert_ne!(content, html);
}

#[test]
fn test_web_browser_tool() {
    let html = "<html><body><div><h1>Example Domain</h1>\
                <p>This domain is for use in illustrative examples in documents.</p>\
                </div></body></html>";
    let result = WebBrowser::process(html);
    let content = text_of(&result);
    assert!(content.contains("Example Domain"));
    assert_eq!(result.is_error, Some(false));
}

#[test]
fn test_argument_parse_failures() {
    // echo: message required and must be a string
    assert!(Echo::parse_properties(None).is_err());
    let no_message = Json::Obj(vec![("other".to_string(), Json::Int(1))]);
    assert!(Echo::parse_properties(Some(&no_message)).is_err());
    let wrong_type = Json::Obj(vec![("message".to_string(), Json::Int(1))]);
    assert!(Echo::parse_properties(Some(&wrong_type)).is_err());

    // memory: action required and must name one of the five actions
    let unknown = Json::Obj(vec![(
        "action".to_string(),
        Json::Str("explode".to_string()),
    )]);
    assert!(Memory::parse_properties(Some(&unknown)).is_err());

    // fetch: lengths must be nonnegative integers
    let bad_len = Json::Obj(vec![
        ("url".to_string(), Json::Str("https://a.example".to_string())),
        ("max_length".to_string(), Json::Int(-4)),
    ]);
    assert!(Fetch::parse_properties(Some(&bad_len)).is_err());
    let ok = Json::Obj(vec![
        ("url".to_string(), Json::Str("https://a.example".to_string())),
        ("max_length".to_string(), Json::Int(12)),
        ("raw".to_string(), Json::Bool(true)),
    ]);
    let props = Fetch::parse_properties(Some(&ok)).unwrap();
    assert_eq!(props.url, "https://a.example");
    assert_eq!(props.max_length, Some(12));
    assert_eq!(props.raw, Some(true));
}
