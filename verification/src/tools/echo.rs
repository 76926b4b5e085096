//! The echo tool: returns its one required argument unchanged.

use vstd::prelude::*;

use crate::json::{get_of, Json, JsonVal};
use crate::schema::{spec_text_result_json, CallToolResult, Tool, ToolInputSchema};
use crate::tools::{args_view, ToolError};

verus! {

/// The typed arguments of the echo tool.
#[derive(Clone, Debug)]
pub struct EchoProperties {
    pub message: String,
}

/// The echo tool.
#[derive(Clone, Debug)]
pub struct Echo;

/// The message the echo tool was given, when the arguments fit its shape:
/// an object whose `message` field is a string.
pub open spec fn spec_parse_echo(args: Option<JsonVal>) -> Option<Seq<char>> {
    match args {
        Some(a) => match get_of(a, "message"@) {
            Some(m) => if m is Str {
                Some(m->Str_0)
            } else {
                None
            },
            None => None,
        },
        None => None,
    }
}

impl Echo {
    /// The declared definition: one string property, `message`, required.
    pub fn def() -> (t: Tool)
        ensures
            t.name@ == "echo"@,
            t.description matches Some(d) && d@ == "Echoes back the input message"@,
            t.input_schema.type_@ == "object"@,
            t.input_schema.required matches Some(req) && req@.len() == 1 && req@[0]@ == "message"@,
            t.input_schema.properties matches Some(props) && props@.len() == 1 && props@[0].0@
                == "message"@ && crate::json::view_of(props@[0].1) == JsonVal::Obj(
                seq![
                    ("description"@, JsonVal::Str("The message to echo"@)),
                    ("type"@, JsonVal::Str("string"@)),
                ],
            ),
    {
        let mut frag: Vec<(String, Json)> = Vec::new();
        frag.push(
            (String::from_str("description"), Json::Str(String::from_str("The message to echo"))),
        );
        frag.push((String::from_str("type"), Json::Str(String::from_str("string"))));
        proof {
            crate::json::lemma_obj_view(frag);
            assert(crate::json::fields_view(frag@) =~= seq![
                ("description"@, JsonVal::Str("The message to echo"@)),
                ("type"@, JsonVal::Str("string"@)),
            ]);
        }
        let mut props: Vec<(String, Json)> = Vec::new();
        props.push((String::from_str("message"), Json::Obj(frag)));
        let mut req: Vec<String> = Vec::new();
        req.push(String::from_str("message"));
        Tool {
            name: String::from_str("echo"),
            description: Some(String::from_str("Echoes back the input message")),
            input_schema: ToolInputSchema {
                properties: Some(props),
                required: Some(req),
                type_: String::from_str("object"),
            },
        }
    }

    /// Reads the typed arguments; fails exactly when the required
    /// `message` string is missing or not a string.
    pub fn parse_properties(args: Option<&Json>) -> (r: Result<EchoProperties, ToolError>)
        ensures
            match r {
                Ok(p) => spec_parse_echo(args_view(args)) == Some(p.message@),
                Err(e) => spec_parse_echo(args_view(args)) is None && e is ArgumentParse,
            },
    {
        match args {
            Some(a) => match a.get("message") {
                Some(m) => match m.as_text() {
                    Some(s) => Ok(EchoProperties { message: s.clone() }),
                    None => Err(
                        ToolError::ArgumentParse(String::from_str("message must be a string")),
                    ),
                },
                None => Err(ToolError::ArgumentParse(String::from_str("missing field message"))),
            },
            None => Err(ToolError::ArgumentParse(String::from_str("missing arguments"))),
        }
    }

    /// Runs the tool: a successful text result carrying the message.
    pub fn call(props: EchoProperties) -> (r: CallToolResult)
        ensures
            r.spec_json() == spec_text_result_json(props.message@, false),
            r.is_error == Some(false),
    {
        CallToolResult::text_result(props.message, false)
    }
}

/// A call omitting the required `message` field never reaches the tool:
/// the argument read fails.
pub proof fn lemma_echo_requires_message(args: Option<JsonVal>)
    requires
        match args {
            Some(a) => get_of(a, "message"@) is None,
            None => true,
        },
    ensures
        spec_parse_echo(args) is None,
{
}

} // verus!
