//! The fetch tool's computations: argument reading, URL validation, the
//! robots.txt verdict, and content processing. The network transfer
//! itself happens outside the library; these functions decide and
//! transform around it.

use vstd::prelude::*;

use crate::is_ws_char;
use crate::json::{get_of, Json, JsonVal};
use crate::schema::{spec_text_result_json, CallToolResult, Tool, ToolInputSchema};
use crate::tools::web::{
    extract_readable, html_to_markdown, markdown_of, normalize_url, readable_of, robots_allowed,
    robots_allows, robots_lines_ok, robots_lines_short, robots_txt_url, robots_url_of,
    url_normal_of,
};
use crate::tools::{args_view, ToolError};
use crate::trusted_str::{chars_to_string, str_to_chars};

verus! {

broadcast use vstd::seq::group_seq_axioms, vstd::std_specs::vec::group_vec_axioms;

/// The typed arguments of the fetch tool.
#[derive(Clone, Debug)]
pub struct FetchProperties {
    pub url: String,
    pub max_length: Option<usize>,
    pub start_index: Option<usize>,
    pub raw: Option<bool>,
}

/// The fetch tool: the agent name it presents; the HTTP client lives with
/// the caller.
#[derive(Clone, Debug)]
pub struct Fetch {
    pub user_agent: String,
}

impl Default for Fetch {
    /// The fetch tool under its usual agent name.
    fn default() -> (t: Fetch)
        ensures
            t.user_agent@ == "Bioma/1.0 (+https://github.com/BiomaAI/bioma)"@,
    {
        Fetch { user_agent: String::from_str("Bioma/1.0 (+https://github.com/BiomaAI/bioma)") }
    }
}

/// The typed arguments the fetch tool was given, when they fit its shape:
/// a required string `url`; optional nonnegative integers `max_length`
/// and `start_index` that fit the machine; an optional boolean `raw`
/// (`null` counts as absent everywhere).
pub open spec fn spec_parse_fetch(args: Option<JsonVal>) -> Option<
    (Seq<char>, Option<int>, Option<int>, Option<bool>),
> {
    match args {
        Some(a) => {
            if !(a is Obj) {
                None
            } else {
                match get_of(a, "url"@) {
                    Some(u) => if u is Str {
                        let ml = spec_opt_len(get_of(a, "max_length"@));
                        let si = spec_opt_len(get_of(a, "start_index"@));
                        let rw = match get_of(a, "raw"@) {
                            Some(v) => if v is Bool {
                                Some(Some(v->Bool_0))
                            } else if v is Null {
                                Some(None)
                            } else {
                                None
                            },
                            None => Some(None),
                        };
                        if ml is Some && si is Some && rw is Some {
                            Some((u->Str_0, ml->Some_0, si->Some_0, rw->Some_0))
                        } else {
                            None
                        }
                    } else {
                        None
                    },
                    None => None,
                }
            }
        },
        None => None,
    }
}

/// An optional length field: absent or `null` is fine, an integer must be
/// nonnegative and fit the machine.
pub open spec fn spec_opt_len(field: Option<JsonVal>) -> Option<Option<int>> {
    match field {
        Some(v) => if v is Int && 0 <= v->Int_0 <= usize::MAX {
            Some(Some(v->Int_0))
        } else if v is Null {
            Some(None)
        } else {
            None
        },
        None => Some(None),
    }
}

/// Reads one optional length field.
fn parse_opt_len(a: &Json, name: &str) -> (r: Result<Option<usize>, ToolError>)
    ensures
        match r {
            Ok(l) => spec_opt_len(get_of(a@, name@)) == Some(
                match l {
                    Some(v) => Some(v as int),
                    None => None,
                },
            ),
            Err(e) => spec_opt_len(get_of(a@, name@)) is None && e is ArgumentParse,
        },
{
    match a.get(name) {
        Some(v) => match v {
            Json::Int(i) => {
                if *i >= 0 && (*i as u64) <= (usize::MAX as u64) {
                    Ok(Some(*i as usize))
                } else {
                    Err(ToolError::ArgumentParse(String::from_str("length out of range")))
                }
            }
            Json::Null => Ok(None),
            _ => Err(ToolError::ArgumentParse(String::from_str("length must be an integer"))),
        },
        None => Ok(None),
    }
}

/// The number of leading whitespace characters.
pub open spec fn ws_prefix_len(s: Seq<char>) -> int
    decreases s.len(),
{
    if s.len() == 0 || !is_ws_char(s[0]) {
        0
    } else {
        1 + ws_prefix_len(s.drop_first())
    }
}

/// A position is the whitespace prefix length exactly when everything
/// before it is whitespace and it sits on a non-whitespace character or
/// the end.
pub proof fn lemma_ws_prefix(s: Seq<char>, j: int)
    requires
        0 <= j <= s.len(),
        forall|k: int| 0 <= k < j ==> is_ws_char(#[trigger] s[k]),
        j == s.len() || !is_ws_char(s[j]),
    ensures
        j == ws_prefix_len(s),
    decreases s.len(),
{
    if s.len() > 0 && is_ws_char(s[0]) {
        assert(j >= 1);
        let t = s.drop_first();
        assert forall|k: int| 0 <= k < j - 1 implies is_ws_char(#[trigger] t[k]) by {
            assert(t[k] == s[k + 1]);
        }
        if j - 1 < t.len() {
            assert(t[j - 1] == s[j]);
        }
        lemma_ws_prefix(t, j - 1);
    }
}

/// Whether the document begins, after whitespace, with an opening html
/// tag. Narrower than a full Unicode trim: only the four JSON whitespace
/// characters are skipped, so a body opening with a rarer space character
/// counts as non-HTML and is passed through raw.
pub open spec fn starts_html(s: Seq<char>) -> bool {
    let t = s.skip(ws_prefix_len(s));
    t.len() >= 5 && t.subrange(0, 5) == "<html"@
}

/// Whether a text contains a pattern.
pub open spec fn contains_sub(s: Seq<char>, pat: Seq<char>) -> bool {
    exists|k: int|
        0 <= k && k + pat.len() <= s.len() && #[trigger] s.subrange(k, k + pat.len()) == pat
}

/// Whether the response is HTML: the body opens with an html tag, or the
/// content type names `text/html`.
pub open spec fn spec_is_html(html: Seq<char>, ct: Seq<char>) -> bool {
    starts_html(html) || contains_sub(ct, "text/html"@)
}

/// What the fetched body renders to: the raw body when raw output is
/// asked for or the response is not HTML; otherwise the readable content
/// converted to Markdown, failing when none can be extracted. The result
/// is then cut to the window the arguments name.
pub open spec fn spec_process(
    html: Seq<char>,
    ct: Seq<char>,
    url: Seq<char>,
    raw: bool,
    start: int,
    maxlen: int,
) -> Result<Seq<char>, Seq<char>> {
    let base: Result<Seq<char>, Seq<char>> = if raw || !spec_is_html(html, ct) {
        Ok(html)
    } else {
        match readable_of(html, url) {
            Some(c) => Ok(markdown_of(c)),
            None => Err("Failed to extract content"@),
        }
    };
    match base {
        Ok(content) => {
            let sliced = if start < content.len() {
                content.skip(start)
            } else {
                Seq::empty()
            };
            if sliced.len() > maxlen {
                Ok(sliced.take(maxlen))
            } else {
                Ok(sliced)
            }
        },
        Err(e) => Err(e),
    }
}

/// Whether the text contains `text/html`.
fn contains_text_html(ct: &Vec<char>) -> (b: bool)
    ensures
        b == contains_sub(ct@, "text/html"@),
{
    proof {
        reveal_strlit("text/html");
    }
    if ct.len() < 9 {
        proof {
            reveal_strlit("text/html");
            assert forall|k: int|
                0 <= k && k + 9 <= ct@.len() implies #[trigger] ct@.subrange(k, k + 9)
                != "text/html"@ by {
                assert(false);
            }
        }
        return false;
    }
    let n = ct.len() - 9;
    let mut k: usize = 0;
    loop
        invariant
            ct@.len() >= 9,
            n == ct@.len() - 9,
            0 <= k <= n + 1,
            forall|w: int| 0 <= w < k ==> #[trigger] ct@.subrange(w, w + 9) != "text/html"@,
        decreases n + 1 - k,
    {
        if k > n {
            proof {
                reveal_strlit("text/html");
                assert forall|w: int|
                    0 <= w && w + 9 <= ct@.len() implies #[trigger] ct@.subrange(w, w + 9)
                    != "text/html"@ by {
                    assert(w < k);
                }
            }
            return false;
        }
        let limit = ct.len();
        proof {
            reveal_strlit("text/html");
        }
        let hit = ct[k] == 't' && ct[k + 1] == 'e' && ct[k + 2] == 'x' && ct[k + 3] == 't' && ct[k
            + 4] == '/' && ct[k + 5] == 'h' && ct[k + 6] == 't' && ct[k + 7] == 'm' && ct[k + 8]
            == 'l';
        if hit {
            proof {
                assert(ct@.subrange(k as int, k as int + 9) =~= "text/html"@);
            }
            return true;
        }
        proof {
            let w = k as int;
            if ct@.subrange(w, w + 9) == "text/html"@ {
                assert(ct@[w] == ct@.subrange(w, w + 9)[0]);
                assert(ct@[w + 1] == ct@.subrange(w, w + 9)[1]);
                assert(ct@[w + 2] == ct@.subrange(w, w + 9)[2]);
                assert(ct@[w + 3] == ct@.subrange(w, w + 9)[3]);
                assert(ct@[w + 4] == ct@.subrange(w, w + 9)[4]);
                assert(ct@[w + 5] == ct@.subrange(w, w + 9)[5]);
                assert(ct@[w + 6] == ct@.subrange(w, w + 9)[6]);
                assert(ct@[w + 7] == ct@.subrange(w, w + 9)[7]);
                assert(ct@[w + 8] == ct@.subrange(w, w + 9)[8]);
                assert(false);
            }
        }
        k = k + 1;
    }
}

/// Whether the body opens, after whitespace, with `<html`.
fn body_starts_html(html: &Vec<char>) -> (b: bool)
    ensures
        b == starts_html(html@),
{
    let mut j: usize = 0;
    loop
        invariant
            0 <= j <= html@.len(),
            forall|k: int| 0 <= k < j ==> is_ws_char(#[trigger] html@[k]),
        ensures
            0 <= j <= html@.len(),
            forall|k: int| 0 <= k < j ==> is_ws_char(#[trigger] html@[k]),
            j == html@.len() || !is_ws_char(html@[j as int]),
        decreases html@.len() - j,
    {
        if j >= html.len() {
            break;
        }
        let c = html[j];
        if !(c == ' ' || c == '\t' || c == '\n' || c == '\r') {
            break;
        }
        j = j + 1;
    }
    proof {
        lemma_ws_prefix(html@, j as int);
    }
    if html.len() - j >= 5 {
        let b = html[j] == '<' && html[j + 1] == 'h' && html[j + 2] == 't' && html[j + 3] == 'm'
            && html[j + 4] == 'l';
        proof {
            reveal_strlit("<html");
            let t = html@.skip(j as int);
            assert(t.len() >= 5);
            assert(t[0] == html@[j as int]);
            assert(t[1] == html@[j as int + 1]);
            assert(t[2] == html@[j as int + 2]);
            assert(t[3] == html@[j as int + 3]);
            assert(t[4] == html@[j as int + 4]);
            if b {
                assert(t.subrange(0, 5) =~= "<html"@);
            } else {
                if t.subrange(0, 5) == "<html"@ {
                    assert(t[0] == t.subrange(0, 5)[0]);
                    assert(t[1] == t.subrange(0, 5)[1]);
                    assert(t[2] == t.subrange(0, 5)[2]);
                    assert(t[3] == t.subrange(0, 5)[3]);
                    assert(t[4] == t.subrange(0, 5)[4]);
                    assert(t[0] == '<' && t[1] == 'h' && t[2] == 't' && t[3] == 'm' && t[4] == 'l');
                    assert(false);
                }
            }
        }
        b
    } else {
        proof {
            reveal_strlit("<html");
            assert(html@.skip(j as int).len() < 5);
        }
        false
    }
}

impl Fetch {
    /// The declared definition: `url` required; `max_length`,
    /// `start_index` and `raw` optional.
    pub fn def() -> (t: Tool)
        ensures
            t.name@ == "fetch"@,
            t.description matches Some(d) && d@
                == "Fetches a URL from the internet and extracts its contents as markdown"@,
            t.input_schema.type_@ == "object"@,
            t.input_schema.required matches Some(req) && req@.len() == 1 && req@[0]@ == "url"@,
            t.input_schema.properties matches Some(props) && props@.len() == 4 && props@[0].0@
                == "url"@ && props@[1].0@ == "max_length"@ && props@[2].0@ == "start_index"@
                && props@[3].0@ == "raw"@ && crate::json::view_of(props@[0].1) == JsonVal::Obj(
                seq![
                    ("description"@, JsonVal::Str("URL to fetch"@)),
                    ("type"@, JsonVal::Str("string"@)),
                ],
            ) && crate::json::view_of(props@[1].1) == JsonVal::Obj(
                seq![
                    ("description"@, JsonVal::Str("Maximum number of characters to return"@)),
                    ("type"@, JsonVal::Str("integer"@)),
                    ("default"@, JsonVal::Int(5000)),
                ],
            ) && crate::json::view_of(props@[2].1) == JsonVal::Obj(
                seq![
                    ("description"@, JsonVal::Str("Start content from this character index"@)),
                    ("type"@, JsonVal::Str("integer"@)),
                    ("default"@, JsonVal::Int(0)),
                ],
            ) && crate::json::view_of(props@[3].1) == JsonVal::Obj(
                seq![
                    ("description"@, JsonVal::Str("Get raw content without markdown conversion"@)),
                    ("type"@, JsonVal::Str("boolean"@)),
                    ("default"@, JsonVal::Bool(false)),
                ],
            ),
    {
        let mut url_frag: Vec<(String, Json)> = Vec::new();
        url_frag.push(
            (String::from_str("description"), Json::Str(String::from_str("URL to fetch"))),
        );
        url_frag.push((String::from_str("type"), Json::Str(String::from_str("string"))));
        let mut ml_frag: Vec<(String, Json)> = Vec::new();
        ml_frag.push(
            (
                String::from_str("description"),
                Json::Str(String::from_str("Maximum number of characters to return")),
            ),
        );
        ml_frag.push((String::from_str("type"), Json::Str(String::from_str("integer"))));
        ml_frag.push((String::from_str("default"), Json::Int(5000)));
        let mut si_frag: Vec<(String, Json)> = Vec::new();
        si_frag.push(
            (
                String::from_str("description"),
                Json::Str(String::from_str("Start content from this character index")),
            ),
        );
        si_frag.push((String::from_str("type"), Json::Str(String::from_str("integer"))));
        si_frag.push((String::from_str("default"), Json::Int(0)));
        let mut raw_frag: Vec<(String, Json)> = Vec::new();
        raw_frag.push(
            (
                String::from_str("description"),
                Json::Str(String::from_str("Get raw content without markdown conversion")),
            ),
        );
        raw_frag.push((String::from_str("type"), Json::Str(String::from_str("boolean"))));
        raw_frag.push((String::from_str("default"), Json::Bool(false)));
        proof {
            crate::json::lemma_obj_view(url_frag);
            assert(crate::json::fields_view(url_frag@) =~= seq![
                ("description"@, JsonVal::Str("URL to fetch"@)),
                ("type"@, JsonVal::Str("string"@)),
            ]);
            crate::json::lemma_obj_view(ml_frag);
            assert(crate::json::fields_view(ml_frag@) =~= seq![
                ("description"@, JsonVal::Str("Maximum number of characters to return"@)),
                ("type"@, JsonVal::Str("integer"@)),
                ("default"@, JsonVal::Int(5000)),
            ]);
            crate::json::lemma_obj_view(si_frag);
            assert(crate::json::fields_view(si_frag@) =~= seq![
                ("description"@, JsonVal::Str("Start content from this character index"@)),
                ("type"@, JsonVal::Str("integer"@)),
                ("default"@, JsonVal::Int(0)),
            ]);
            crate::json::lemma_obj_view(raw_frag);
            assert(crate::json::fields_view(raw_frag@) =~= seq![
                ("description"@, JsonVal::Str("Get raw content without markdown conversion"@)),
                ("type"@, JsonVal::Str("boolean"@)),
                ("default"@, JsonVal::Bool(false)),
            ]);
        }
        let mut props: Vec<(String, Json)> = Vec::new();
        props.push((String::from_str("url"), Json::Obj(url_frag)));
        props.push((String::from_str("max_length"), Json::Obj(ml_frag)));
        props.push((String::from_str("start_index"), Json::Obj(si_frag)));
        props.push((String::from_str("raw"), Json::Obj(raw_frag)));
        let mut req: Vec<String> = Vec::new();
        req.push(String::from_str("url"));
        Tool {
            name: String::from_str("fetch"),
            description: Some(
                String::from_str(
                    "Fetches a URL from the internet and extracts its contents as markdown",
                ),
            ),
            input_schema: ToolInputSchema {
                properties: Some(props),
                required: Some(req),
                type_: String::from_str("object"),
            },
        }
    }

    /// Reads the typed arguments; fails exactly when they do not fit the
    /// declared shape.
    pub fn parse_properties(args: Option<&Json>) -> (r: Result<FetchProperties, ToolError>)
        ensures
            match r {
                Ok(p) => spec_parse_fetch(args_view(args)) == Some(
                    (
                        p.url@,
                        match p.max_length {
                            Some(v) => Some(v as int),
                            None => None,
                        },
                        match p.start_index {
                            Some(v) => Some(v as int),
                            None => None,
                        },
                        p.raw,
                    ),
                ),
                Err(e) => spec_parse_fetch(args_view(args)) is None && e is ArgumentParse,
            },
    {
        let a = match args {
            Some(a) => a,
            None => {
                return Err(ToolError::ArgumentParse(String::from_str("missing arguments")));
            },
        };
        match a {
            Json::Obj(_) => {}
            _ => {
                return Err(
                    ToolError::ArgumentParse(String::from_str("arguments must be an object")),
                );
            },
        }
        let url = match a.get("url") {
            Some(u) => match u.as_text() {
                Some(s) => s.clone(),
                None => {
                    return Err(ToolError::ArgumentParse(String::from_str("url must be a string")));
                },
            },
            None => {
                return Err(ToolError::ArgumentParse(String::from_str("missing field url")));
            },
        };
        let max_length = match parse_opt_len(a, "max_length") {
            Ok(v) => v,
            Err(e) => {
                return Err(e);
            },
        };
        let start_index = match parse_opt_len(a, "start_index") {
            Ok(v) => v,
            Err(e) => {
                return Err(e);
            },
        };
        let raw: Option<bool> = match a.get("raw") {
            Some(v) => match v {
                Json::Bool(b) => Some(*b),
                Json::Null => None,
                _ => {
                    return Err(
                        ToolError::ArgumentParse(String::from_str("raw must be a boolean")),
                    );
                },
            },
            None => None,
        };
        Ok(FetchProperties { url, max_length, start_index, raw })
    }

    /// Validates the target: the normalized URL and its robots.txt
    /// location, or the error result the peer sees for an invalid URL.
    pub fn plan(url: &str) -> (r: Result<(String, Option<String>), CallToolResult>)
        ensures
            match r {
                Ok((u, robots)) => url_normal_of(url@) == Some(u@) && (match robots {
                    Some(ru) => robots_url_of(url@) == Some(ru@),
                    None => robots_url_of(url@) is None,
                }),
                Err(e) => url_normal_of(url@) is None && e.spec_json() == spec_text_result_json(
                    "Invalid URL: "@ + url@,
                    true,
                ),
            },
    {
        match normalize_url(url) {
            Some(u) => {
                let robots = robots_txt_url(url);
                Ok((u, robots))
            }
            None => Err(
                CallToolResult::text_result(
                    String::from_str("Invalid URL: ").concat(url),
                    true,
                ),
            ),
        }
    }

    /// Whether the fetch may go ahead: yes when the robots.txt response
    /// was a client error (no rules to obey), and otherwise exactly when
    /// the body is one the matcher can read and it permits the agent to
    /// fetch the URL. A body the matcher cannot safely read denies the
    /// fetch, as an unreadable robots.txt did in this tool all along.
    pub fn robots_verdict(
        status_client_error: bool,
        robots_body: &str,
        user_agent: &str,
        url: &str,
    ) -> (allowed: bool)
        ensures
            allowed == (status_client_error || (robots_lines_short(robots_body@)
                && robots_allows(robots_body@, user_agent@, url@))),
    {
        if status_client_error {
            true
        } else if !robots_lines_ok(robots_body) {
            false
        } else {
            robots_allowed(robots_body, user_agent, url)
        }
    }

    /// Renders the fetched body as the arguments ask.
    pub fn process_content(
        html: &str,
        content_type: &str,
        url: &str,
        props: &FetchProperties,
    ) -> (r: Result<String, String>)
        ensures
            ({
                let raw = props.raw == Some(true);
                let start = match props.start_index {
                    Some(v) => v as int,
                    None => 0,
                };
                let maxlen = match props.max_length {
                    Some(v) => v as int,
                    None => 5000,
                };
                match r {
                    Ok(s) => spec_process(html@, content_type@, url@, raw, start, maxlen) == Ok::<
                        Seq<char>,
                        Seq<char>,
                    >(s@),
                    Err(e) => spec_process(html@, content_type@, url@, raw, start, maxlen) == Err::<
                        Seq<char>,
                        Seq<char>,
                    >(e@),
                }
            }),
    {
        let raw = match props.raw {
            Some(b) => b,
            None => false,
        };
        let html_chars = str_to_chars(html);
        let ct_chars = str_to_chars(content_type);
        let is_html = body_starts_html(&html_chars) || contains_text_html(&ct_chars);
        let content: Vec<char>;
        if raw || !is_html {
            content = html_chars;
        } else {
            match extract_readable(html, url) {
                Some(readable) => {
                    let md = html_to_markdown(readable.as_str());
                    content = str_to_chars(md.as_str());
                }
                None => {
                    return Err(String::from_str("Failed to extract content"));
                },
            }
        }
        let start = match props.start_index {
            Some(v) => v,
            None => 0,
        };
        let maxlen = match props.max_length {
            Some(v) => v,
            None => 5000,
        };
        let mut out: Vec<char> = Vec::new();
        if start < content.len() {
            let mut i = start;
            proof {
                assert(out@ =~= content@.subrange(start as int, start as int));
            }
            let end = if content.len() - start > maxlen {
                start + maxlen
            } else {
                content.len()
            };
            while i < end
                invariant
                    start <= i <= end <= content@.len(),
                    out@ == content@.subrange(start as int, i as int),
                decreases end - i,
            {
                out.push(content[i]);
                i = i + 1;
                proof {
                    assert(out@ =~= content@.subrange(start as int, i as int));
                }
            }
            proof {
                let sliced = content@.skip(start as int);
                if sliced.len() > maxlen as int {
                    assert(out@ =~= sliced.take(maxlen as int));
                } else {
                    assert(out@ =~= sliced);
                }
            }
        } else {
            proof {
                assert(out@ =~= Seq::<char>::empty());
            }
        }
        Ok(chars_to_string(&out))
    }

    /// The error result for a failed transfer.
    pub fn fetch_failed(err: &str) -> (r: CallToolResult)
        ensures
            r.spec_json() == spec_text_result_json("Failed to fetch URL: "@ + err@, true),
    {
        CallToolResult::text_result(String::from_str("Failed to fetch URL: ").concat(err), true)
    }

    /// The error result when robots.txt denies the fetch.
    pub fn robots_denied() -> (r: CallToolResult)
        ensures
            r.spec_json() == spec_text_result_json(
                "Access denied by robots.txt"@,
                true,
            ),
    {
        CallToolResult::text_result(String::from_str("Access denied by robots.txt"), true)
    }

    /// The error result for a body that could not be processed.
    pub fn process_failed(err: &str) -> (r: CallToolResult)
        ensures
            r.spec_json() == spec_text_result_json("Failed to process content: "@ + err@, true),
    {
        CallToolResult::text_result(
            String::from_str("Failed to process content: ").concat(err),
            true,
        )
    }

    /// The success result carrying the processed content.
    pub fn success(content: String) -> (r: CallToolResult)
        ensures
            r.spec_json() == spec_text_result_json(content@, false),
    {
        CallToolResult::text_result(content, false)
    }
}

/// A call omitting the required `url` field never reaches the tool: the
/// argument read fails.
pub proof fn lemma_fetch_requires_url(args: Option<JsonVal>)
    requires
        match args {
            Some(a) => get_of(a, "url"@) is None,
            None => true,
        },
    ensures
        spec_parse_fetch(args) is None,
{
}

} // verus!
