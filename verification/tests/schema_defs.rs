//! The declared tool definitions: names, descriptions, schemas.

use bioma_tool::json::Json;
use bioma_tool::tools::browse::Browse;
use bioma_tool::tools::echo::Echo;
use bioma_tool::tools::memory::Memory;
use bioma_tool::tools::web_browser::WebBrowser;

fn prop_names(tool: &bioma_tool::schema::Tool) -> Vec<String> {
    tool.input_schema
        .properties
        .as_ref()
        .expect("Should have properties")
        .iter()
        .map(|(k, _)| k.clone())
        .collect()
}

#[test]
fn test_echo_schema() {
    let tool = Echo::def();
    assert_eq!(tool.name, "echo");
    assert_eq!(tool.description.clone().unwrap(), "Echoes back the input message");

    let schema = tool.input_schema.clone();
    assert_eq!(schema.type_, "object");

    let props = prop_names(&tool);
    assert!(props.contains(&"message".to_string()));

    let required = schema.required.unwrap();
    assert!(required.contains(&"message".to_string()));
}

#[test]
fn test_browse_schema() {
    let tool = Browse::def();
    assert_eq!(tool.name, "Browse");
    assert_eq!(
        tool.description.clone().unwrap(),
        "Reads and returns the contents of a webpage"
    );

    let schema = tool.input_schema.clone();
    assert_eq!(schema.type_, "object");

    let props = prop_names(&tool);
    assert!(props.contains(&"url".to_string()));

    let required = schema.required.unwrap();
    assert!(required.contains(&"url".to_string()));
}

#[test]
fn test_web_browser_schema() {
    let tool = WebBrowser::def();
    assert_eq!(tool.name, "web_browser");
    assert_eq!(
        tool.description.clone().unwrap(),
        "Reads and returns the contents of a webpage"
    );

    let schema = tool.input_schema.clone();
    assert_eq!(schema.type_, "object");

    let props = prop_names(&tool);
    assert!(props.contains(&"url".to_string()));

    let required = schema.required.unwrap();
    assert!(required.contains(&"url".to_string()));
}

#[test]
fn test_auto_generated_schema() {
    let tool = Memory::def();
    println!("Tool: {:?}", tool);
}

#[test]
fn test_memory_input_schema() {
    let tool = Memory::def();
    let input_schema = tool.input_schema;

    assert_eq!(input_schema.type_, "object");

    let properties = input_schema.properties.expect("Should have properties");

    let action_prop = &properties
        .iter()
        .find(|(k, _)| k == "action")
        .expect("Should have action property")
        .1;
    let type_field = action_prop.get("type").expect("action has a type");
    assert_eq!(type_field.as_text().map(|s| s.as_str()), Some("string"));

    let enum_values = match action_prop.get("enum") {
        Some(Json::Arr(items)) => items,
        _ => panic!("Should have enum values for action"),
    };
    for want in ["store", "retrieve", "list", "delete", "clear"] {
        assert!(enum_values
            .iter()
            .any(|j| matches!(j, Json::Str(s) if s == want)));
    }

    assert!(
        properties.iter().any(|(k, _)| k == "key"),
        "Should have key property"
    );
    assert!(
        properties.iter().any(|(k, _)| k == "value"),
        "Should have value property"
    );

    let required = input_schema.required.expect("Should have required fields");
    assert!(
        required.contains(&"action".to_string()),
        "Action should be required"
    );
    assert_eq!(required.len(), 1, "Only action should be required");
}

#[test]
fn test_fetch_schema_defaults() {
    let tool = bioma_tool::tools::fetch::Fetch::def();
    assert_eq!(tool.name, "fetch");
    let required = tool.input_schema.required.unwrap();
    assert_eq!(required, vec!["url".to_string()]);
    let props: Vec<String> = tool
        .input_schema
        .properties
        .unwrap()
        .iter()
        .map(|(k, _)| k.clone())
        .collect();
    assert_eq!(
        props,
        vec![
            "url".to_string(),
            "max_length".to_string(),
            "start_index".to_string(),
            "raw".to_string()
        ]
    );
}
