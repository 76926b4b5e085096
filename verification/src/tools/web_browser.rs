//! The web browser tool's computations: argument reading and the rendering of
//! a fetched page as Markdown. The transfer itself happens outside the
//! library.

use vstd::prelude::*;

use crate::json::{get_of, Json, JsonVal};
use crate::schema::{spec_text_result_json, CallToolResult, Tool, ToolInputSchema};
use crate::tools::web::{html_to_markdown, markdown_of};
use crate::tools::{args_view, ToolError};

verus! {

/// The typed arguments of the web browser tool.
#[derive(Clone, Debug)]
pub struct WebBrowserProperties {
    pub url: String,
}

/// The web browser tool.
#[derive(Clone, Debug)]
pub struct WebBrowser;

/// The URL the web browser tool was given, when the arguments fit its shape:
/// an object whose `url` field is a string.
pub open spec fn spec_parse_web_browser(args: Option<JsonVal>) -> Option<Seq<char>> {
    match args {
        Some(a) => match get_of(a, "url"@) {
            Some(u) => if u is Str {
                Some(u->Str_0)
            } else {
                None
            },
            None => None,
        },
        None => None,
    }
}

impl WebBrowser {
    /// The declared definition: one string property, `url`, required.
    pub fn def() -> (t: Tool)
        ensures
            t.name@ == "web_browser"@,
            t.description matches Some(d) && d@ == "Reads and returns the contents of a webpage"@,
            t.input_schema.type_@ == "object"@,
            t.input_schema.required matches Some(req) && req@.len() == 1 && req@[0]@ == "url"@,
            t.input_schema.properties matches Some(props) && props@.len() == 1 && props@[0].0@
                == "url"@ && crate::json::view_of(props@[0].1) == JsonVal::Obj(
                seq![
                    ("description"@, JsonVal::Str("The URL of the webpage to read"@)),
                    ("type"@, JsonVal::Str("string"@)),
                ],
            ),
    {
        let mut frag: Vec<(String, Json)> = Vec::new();
        frag.push(
            (
                String::from_str("description"),
                Json::Str(String::from_str("The URL of the webpage to read")),
            ),
        );
        frag.push((String::from_str("type"), Json::Str(String::from_str("string"))));
        proof {
            crate::json::lemma_obj_view(frag);
            assert(crate::json::fields_view(frag@) =~= seq![
                ("description"@, JsonVal::Str("The URL of the webpage to read"@)),
                ("type"@, JsonVal::Str("string"@)),
            ]);
        }
        let mut props: Vec<(String, Json)> = Vec::new();
        props.push((String::from_str("url"), Json::Obj(frag)));
        let mut req: Vec<String> = Vec::new();
        req.push(String::from_str("url"));
        Tool {
            name: String::from_str("web_browser"),
            description: Some(String::from_str("Reads and returns the contents of a webpage")),
            input_schema: ToolInputSchema {
                properties: Some(props),
                required: Some(req),
                type_: String::from_str("object"),
            },
        }
    }

    /// Reads the typed arguments; fails exactly when the required `url`
    /// string is missing or not a string.
    pub fn parse_properties(args: Option<&Json>) -> (r: Result<WebBrowserProperties, ToolError>)
        ensures
            match r {
                Ok(p) => spec_parse_web_browser(args_view(args)) == Some(p.url@),
                Err(e) => spec_parse_web_browser(args_view(args)) is None && e is ArgumentParse,
            },
    {
        match args {
            Some(a) => match a.get("url") {
                Some(u) => match u.as_text() {
                    Some(s) => Ok(WebBrowserProperties { url: s.clone() }),
                    None => Err(ToolError::ArgumentParse(String::from_str("url must be a string"))),
                },
                None => Err(ToolError::ArgumentParse(String::from_str("missing field url"))),
            },
            None => Err(ToolError::ArgumentParse(String::from_str("missing arguments"))),
        }
    }

    /// Renders a fetched page: its Markdown form, as a success result.
    pub fn process(html: &str) -> (r: CallToolResult)
        ensures
            r.spec_json() == spec_text_result_json(markdown_of(html@), false),
    {
        let md = html_to_markdown(html);
        CallToolResult::text_result(md, false)
    }

    /// The error result for a failed transfer.
    pub fn fetch_failed(err: &str) -> (r: CallToolResult)
        ensures
            r.spec_json() == spec_text_result_json("Failed to fetch URL: "@ + err@, true),
    {
        CallToolResult::text_result(String::from_str("Failed to fetch URL: ").concat(err), true)
    }

    /// The error result for a body that could not be read.
    pub fn read_failed(err: &str) -> (r: CallToolResult)
        ensures
            r.spec_json() == spec_text_result_json(
                "Failed to get response text: "@ + err@,
                true,
            ),
    {
        CallToolResult::text_result(
            String::from_str("Failed to get response text: ").concat(err),
            true,
        )
    }
}

/// A call omitting the required `url` field never reaches the tool: the
/// argument read fails.
pub proof fn lemma_url_required(args: Option<JsonVal>)
    requires
        match args {
            Some(a) => get_of(a, "url"@) is None,
            None => true,
        },
    ensures
        spec_parse_web_browser(args) is None,
{
}

} // verus!
