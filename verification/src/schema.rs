//! The protocol's data types, and the JSON form of those that the server
//! sends. Maps are association lists in field order; the JSON form of each
//! sent type is pinned by a `spec` function.

use vstd::prelude::*;

use crate::json::{fields_view, items_view, lemma_arr_view, lemma_obj_view, view_of, Json, JsonVal};

verus! {

broadcast use vstd::seq::group_seq_axioms, vstd::std_specs::vec::group_vec_axioms;

// ---------------------------------------------------------------------
// Plain protocol records.
// ---------------------------------------------------------------------
#[derive(Clone, Debug, PartialEq)]
pub struct BlobResourceContents {
    pub blob: String,
    pub mime_type: Option<String>,
    pub uri: String,
}

#[derive(Clone, Debug, PartialEq)]
pub struct ClientCapabilitiesRoots {
    pub list_changed: Option<bool>,
}

#[derive(Clone, Debug, PartialEq)]
pub struct CompleteRequestParamsArgument {
    pub name: String,
    pub value: String,
}

#[derive(Clone, Debug, PartialEq)]
pub struct CompleteResultCompletion {
    pub has_more: Option<bool>,
    pub total: Option<i64>,
    pub values: Vec<String>,
}

#[derive(Clone, Debug, PartialEq)]
pub struct GetPromptRequestParams {
    pub arguments: Option<Vec<(String, String)>>,
    pub name: String,
}

#[derive(Clone, Debug, PartialEq)]
pub struct GetPromptRequest {
    pub method: String,
    pub params: GetPromptRequestParams,
}

#[derive(Clone, Debug, PartialEq)]
pub struct Implementation {
    pub name: String,
    pub version: String,
}

#[derive(Clone, Debug, PartialEq)]
pub struct ListPromptsRequestParams {
    pub cursor: Option<String>,
}

#[derive(Clone, Debug, PartialEq)]
pub struct ListPromptsRequest {
    pub method: String,
    pub params: Option<ListPromptsRequestParams>,
}

#[derive(Clone, Debug, PartialEq)]
pub struct ListResourceTemplatesRequestParams {
    pub cursor: Option<String>,
}

#[derive(Clone, Debug, PartialEq)]
pub struct ListResourceTemplatesRequest {
    pub method: String,
    pub params: Option<ListResourceTemplatesRequestParams>,
}

#[derive(Clone, Debug, PartialEq)]
pub struct ListResourcesRequestParams {
    pub cursor: Option<String>,
}

#[derive(Clone, Debug, PartialEq)]
pub struct ListResourcesRequest {
    pub method: String,
    pub params: Option<ListResourcesRequestParams>,
}

#[derive(Clone, Debug, PartialEq)]
pub struct ListToolsRequestParams {
    pub cursor: Option<String>,
}

#[derive(Clone, Debug, PartialEq)]
pub struct ListToolsRequest {
    pub method: String,
    pub params: Option<ListToolsRequestParams>,
}

#[derive(Clone, Debug, PartialEq, Eq, Structural)]
pub enum LoggingLevel {
    Alert,
    Critical,
    Debug,
    Emergency,
    Error,
    Info,
    Notice,
    Warning,
}

#[derive(Clone, Debug, PartialEq)]
pub struct ModelHint {
    pub name: Option<String>,
}

#[derive(Clone, Debug, PartialEq)]
pub struct PaginatedRequestParams {
    pub cursor: Option<String>,
}

#[derive(Clone, Debug, PartialEq)]
pub struct PaginatedRequest {
    pub method: String,
    pub params: Option<PaginatedRequestParams>,
}

#[derive(Clone, Debug, PartialEq)]
pub struct PromptArgument {
    pub description: Option<String>,
    pub name: String,
    pub required: Option<bool>,
}

#[derive(Clone, Debug, PartialEq)]
pub struct Prompt {
    pub arguments: Option<Vec<PromptArgument>>,
    pub description: Option<String>,
    pub name: String,
}

#[derive(Clone, Debug, PartialEq)]
pub struct PromptReference {
    pub name: String,
    pub type_: String,
}

#[derive(Clone, Debug, PartialEq)]
pub struct ReadResourceRequestParams {
    pub uri: String,
}

#[derive(Clone, Debug, PartialEq)]
pub struct ReadResourceRequest {
    pub method: String,
    pub params: ReadResourceRequestParams,
}

#[derive(Clone, Debug, PartialEq)]
pub struct ResourceContents {
    pub mime_type: Option<String>,
    pub uri: String,
}

#[derive(Clone, Debug, PartialEq)]
pub struct ResourceReference {
    pub type_: String,
    pub uri: String,
}

#[derive(Clone, Debug, PartialEq)]
pub struct ResourceUpdatedNotificationParams {
    pub uri: String,
}

#[derive(Clone, Debug, PartialEq)]
pub struct ResourceUpdatedNotification {
    pub method: String,
    pub params: ResourceUpdatedNotificationParams,
}

#[derive(Clone, Debug, PartialEq, Eq, Structural)]
pub enum Role {
    Assistant,
    User,
}

#[derive(Clone, Debug, PartialEq)]
pub struct Root {
    pub name: Option<String>,
    pub uri: String,
}

#[derive(Clone, Debug, PartialEq)]
pub struct SetLevelRequestParams {
    pub level: LoggingLevel,
}

#[derive(Clone, Debug, PartialEq)]
pub struct SetLevelRequest {
    pub method: String,
    pub params: SetLevelRequestParams,
}

#[derive(Clone, Debug, PartialEq)]
pub struct SubscribeRequestParams {
    pub uri: String,
}

#[derive(Clone, Debug, PartialEq)]
pub struct SubscribeRequest {
    pub method: String,
    pub params: SubscribeRequestParams,
}

#[derive(Clone, Debug, PartialEq)]
pub struct TextResourceContents {
    pub mime_type: Option<String>,
    pub text: String,
    pub uri: String,
}

#[derive(Clone, Debug, PartialEq)]
pub struct UnsubscribeRequestParams {
    pub uri: String,
}

#[derive(Clone, Debug, PartialEq)]
pub struct UnsubscribeRequest {
    pub method: String,
    pub params: UnsubscribeRequestParams,
}

// ---------------------------------------------------------------------
// Records the server sends, each with its pinned JSON form.
// ---------------------------------------------------------------------
/// A text content item; annotations are carried as raw JSON.
#[derive(Clone, Debug)]
pub struct TextContent {
    pub annotations: Option<Json>,
    pub text: String,
    pub type_: String,
}

impl TextContent {
    /// The JSON form: `type` first, then `text`, then any annotations.
    pub open spec fn spec_json(self) -> JsonVal {
        JsonVal::Obj(
            if self.annotations is Some {
                seq![
                    ("type"@, JsonVal::Str(self.type_@)),
                    ("text"@, JsonVal::Str(self.text@)),
                    ("annotations"@, view_of(self.annotations->Some_0)),
                ]
            } else {
                seq![("type"@, JsonVal::Str(self.type_@)), ("text"@, JsonVal::Str(self.text@))]
            },
        )
    }

    pub fn to_json(&self) -> (r: Json)
        ensures
            r@ == self.spec_json(),
    {
        let mut fields: Vec<(String, Json)> = Vec::new();
        fields.push((String::from_str("type"), Json::Str(self.type_.clone())));
        fields.push((String::from_str("text"), Json::Str(self.text.clone())));
        match &self.annotations {
            Some(a) => {
                fields.push((String::from_str("annotations"), a.clone_json()));
            }
            None => {}
        }
        proof {
            lemma_obj_view(fields);
            assert(fields_view(fields@) =~= self.spec_json()->Obj_0);
        }
        Json::Obj(fields)
    }
}

/// The outcome of one tool invocation.
#[derive(Clone, Debug)]
pub struct CallToolResult {
    pub meta: Option<Vec<(String, Json)>>,
    pub content: Vec<Json>,
    pub is_error: Option<bool>,
}

impl CallToolResult {
    /// The JSON form: `content`, then `isError` when set, then `_meta`
    /// when set.
    pub open spec fn spec_json(self) -> JsonVal {
        JsonVal::Obj(
            {
                let base = seq![
                    ("content"@, JsonVal::Arr(Seq::new(self.content@.len(), |q: int| view_of(self.content@[q])))),
                ];
                let with_err = if self.is_error is Some {
                    base.push(("isError"@, JsonVal::Bool(self.is_error->Some_0)))
                } else {
                    base
                };
                if self.meta is Some {
                    with_err.push(("_meta"@, JsonVal::Obj(fields_view(self.meta->Some_0@))))
                } else {
                    with_err
                }
            },
        )
    }

    pub fn to_json(&self) -> (r: Json)
        ensures
            r@ == self.spec_json(),
    {
        let mut items: Vec<Json> = Vec::new();
        let n = self.content.len();
        for q in 0..n
            invariant
                n == self.content@.len(),
                items@.len() == q,
                forall|w: int| 0 <= w < q ==> view_of(#[trigger] items@[w]) == view_of(self.content@[w]),
        {
            items.push(self.content[q].clone_json());
        }
        let mut fields: Vec<(String, Json)> = Vec::new();
        proof {
            lemma_arr_view(items);
            assert(items_view(items@) =~= Seq::new(
                self.content@.len(),
                |q: int| view_of(self.content@[q]),
            ));
        }
        fields.push((String::from_str("content"), Json::Arr(items)));
        match &self.is_error {
            Some(b) => {
                fields.push((String::from_str("isError"), Json::Bool(*b)));
            }
            None => {}
        }
        match &self.meta {
            Some(m) => {
                let mut mf: Vec<(String, Json)> = Vec::new();
                let mn = m.len();
                for q in 0..mn
                    invariant
                        mn == m@.len(),
                        mf@.len() == q,
                        forall|w: int|
                            0 <= w < q ==> (#[trigger] mf@[w]).0@ == m@[w].0@ && view_of(mf@[w].1)
                                == view_of(m@[w].1),
                {
                    mf.push((m[q].0.clone(), m[q].1.clone_json()));
                }
                proof {
                    lemma_obj_view(mf);
                    assert(fields_view(mf@) =~= fields_view(m@));
                }
                fields.push((String::from_str("_meta"), Json::Obj(mf)));
            }
            None => {}
        }
        proof {
            lemma_obj_view(fields);
            assert(fields_view(fields@) =~= self.spec_json()->Obj_0);
        }
        Json::Obj(fields)
    }
}

/// The JSON form of a tool result holding one text item.
pub open spec fn spec_text_result_json(text: Seq<char>, is_err: bool) -> JsonVal {
    JsonVal::Obj(
        seq![
            (
                "content"@,
                JsonVal::Arr(
                    seq![
                        JsonVal::Obj(
                            seq![("type"@, JsonVal::Str("text"@)), ("text"@, JsonVal::Str(text))],
                        ),
                    ],
                ),
            ),
            ("isError"@, JsonVal::Bool(is_err)),
        ],
    )
}

impl CallToolResult {
    /// A result holding one text item and the given error flag.
    pub fn text_result(message: String, is_err: bool) -> (r: CallToolResult)
        ensures
            r.spec_json() == spec_text_result_json(message@, is_err),
            r.is_error == Some(is_err),
            r.meta is None,
            r.content@.len() == 1,
    {
        let ghost msg = message@;
        let tc = TextContent { annotations: None, text: message, type_: String::from_str("text") };
        let tj = tc.to_json();
        let mut content: Vec<Json> = Vec::new();
        content.push(tj);
        let r = CallToolResult { meta: None, content, is_error: Some(is_err) };
        proof {
            let sj = r.spec_json()->Obj_0;
            let want = spec_text_result_json(msg, is_err)->Obj_0;
            assert(view_of(r.content@[0]) == JsonVal::Obj(
                seq![("type"@, JsonVal::Str("text"@)), ("text"@, JsonVal::Str(msg))],
            ));
            assert(sj[0].1->Arr_0 =~= want[0].1->Arr_0);
            assert(sj[0].1 == want[0].1);
            assert(sj =~= want);
        }
        r
    }
}

/// What reading a tool result back out of its JSON form yields: the
/// content items, the error flag (absent when the key is absent), and the
/// metadata fields (absent when the key is absent).
pub open spec fn spec_result_of_json(v: JsonVal) -> Option<
    (Seq<JsonVal>, Option<bool>, Option<Seq<(Seq<char>, JsonVal)>>),
> {
    if !(v is Obj) {
        None
    } else {
        match crate::json::get_of(v, "content"@) {
            Some(c) => if c is Arr {
                let ie = match crate::json::get_of(v, "isError"@) {
                    Some(b) => if b is Bool {
                        Some(Some(b->Bool_0))
                    } else {
                        None
                    },
                    None => Some(None),
                };
                let mt = match crate::json::get_of(v, "_meta"@) {
                    Some(m) => if m is Obj {
                        Some(Some(m->Obj_0))
                    } else {
                        None
                    },
                    None => Some(None),
                };
                if ie is Some && mt is Some {
                    Some((c->Arr_0, ie->Some_0, mt->Some_0))
                } else {
                    None
                }
            } else {
                None
            },
            None => None,
        }
    }
}

/// Round trip: reading a serialized tool result back yields exactly its
/// content, its error flag and its metadata.
pub proof fn lemma_result_round_trip(r: CallToolResult)
    ensures
        spec_result_of_json(r.spec_json()) == Some(
            (
                Seq::new(r.content@.len(), |q: int| view_of(r.content@[q])),
                r.is_error,
                match r.meta {
                    Some(m) => Some(fields_view(m@)),
                    None => None,
                },
            ),
        ),
{
    reveal_strlit("content");
    reveal_strlit("isError");
    reveal_strlit("_meta");
    assert("content"@.len() == 7 && "isError"@.len() == 7 && "_meta"@.len() == 5);
    assert("content"@[0] == 'c' && "isError"@[0] == 'i' && "_meta"@[0] == '_');
    assert("content"@ != "isError"@);
    assert("content"@ != "_meta"@);
    assert("isError"@ != "_meta"@);
    assert(crate::json::lookup_field(Seq::<(Seq<char>, JsonVal)>::empty(), "isError"@) is None);
    assert(crate::json::lookup_field(Seq::<(Seq<char>, JsonVal)>::empty(), "_meta"@) is None);
    let fields = r.spec_json()->Obj_0;
    let cpair = ("content"@, JsonVal::Arr(
        Seq::new(r.content@.len(), |q: int| view_of(r.content@[q])),
    ));
    match (r.is_error, r.meta) {
        (Some(b), Some(m)) => {
            let epair = ("isError"@, JsonVal::Bool(b));
            let mpair = ("_meta"@, JsonVal::Obj(fields_view(m@)));
            assert(fields =~= seq![cpair, epair, mpair]);
            assert(fields.drop_first() =~= seq![epair, mpair]);
            assert(seq![epair, mpair].drop_first() =~= seq![mpair]);
            assert(crate::json::lookup_field(fields, "content"@) == Some(cpair.1));
            assert(crate::json::lookup_field(seq![epair, mpair], "isError"@) == Some(epair.1));
            assert(crate::json::lookup_field(fields, "isError"@) == Some(epair.1));
            assert(crate::json::lookup_field(seq![mpair], "_meta"@) == Some(mpair.1));
            assert(crate::json::lookup_field(seq![epair, mpair], "_meta"@) == Some(mpair.1));
            assert(crate::json::lookup_field(fields, "_meta"@) == Some(mpair.1));
        },
        (Some(b), None) => {
            let epair = ("isError"@, JsonVal::Bool(b));
            assert(fields =~= seq![cpair, epair]);
            assert(fields.drop_first() =~= seq![epair]);
            assert(seq![epair].drop_first() =~= Seq::<(Seq<char>, JsonVal)>::empty());
            assert(crate::json::lookup_field(fields, "content"@) == Some(cpair.1));
            assert(crate::json::lookup_field(seq![epair], "isError"@) == Some(epair.1));
            assert(crate::json::lookup_field(fields, "isError"@) == Some(epair.1));
            assert(crate::json::lookup_field(seq![epair], "_meta"@) is None);
            assert(crate::json::lookup_field(fields, "_meta"@) is None);
        },
        (None, Some(m)) => {
            let mpair = ("_meta"@, JsonVal::Obj(fields_view(m@)));
            assert(fields =~= seq![cpair, mpair]);
            assert(fields.drop_first() =~= seq![mpair]);
            assert(seq![mpair].drop_first() =~= Seq::<(Seq<char>, JsonVal)>::empty());
            assert(crate::json::lookup_field(fields, "content"@) == Some(cpair.1));
            assert(crate::json::lookup_field(seq![mpair], "isError"@) is None);
            assert(crate::json::lookup_field(fields, "isError"@) is None);
            assert(crate::json::lookup_field(seq![mpair], "_meta"@) == Some(mpair.1));
            assert(crate::json::lookup_field(fields, "_meta"@) == Some(mpair.1));
        },
        (None, None) => {
            assert(fields =~= seq![cpair]);
            assert(fields.drop_first() =~= Seq::<(Seq<char>, JsonVal)>::empty());
            assert(crate::json::lookup_field(fields, "content"@) == Some(cpair.1));
            assert(crate::json::lookup_field(fields, "isError"@) is None);
            assert(crate::json::lookup_field(fields, "_meta"@) is None);
        },
    }
}

/// The argument schema of a tool: a type tag, a property map, and the
/// required property names.
#[derive(Clone, Debug)]
pub struct ToolInputSchema {
    pub properties: Option<Vec<(String, Json)>>,
    pub required: Option<Vec<String>>,
    pub type_: String,
}

/// The model of a list of strings.
pub open spec fn strings_view(v: Seq<String>) -> Seq<JsonVal> {
    Seq::new(v.len(), |q: int| JsonVal::Str(v[q]@))
}

impl ToolInputSchema {
    /// The JSON form: `type`, then `properties` when set, then `required`
    /// when set.
    pub open spec fn spec_json(self) -> JsonVal {
        JsonVal::Obj(
            {
                let base = seq![("type"@, JsonVal::Str(self.type_@))];
                let with_props = if self.properties is Some {
                    base.push(("properties"@, JsonVal::Obj(fields_view(self.properties->Some_0@))))
                } else {
                    base
                };
                if self.required is Some {
                    with_props.push(("required"@, JsonVal::Arr(strings_view(self.required->Some_0@))))
                } else {
                    with_props
                }
            },
        )
    }

    pub fn to_json(&self) -> (r: Json)
        ensures
            r@ == self.spec_json(),
    {
        let mut fields: Vec<(String, Json)> = Vec::new();
        fields.push((String::from_str("type"), Json::Str(self.type_.clone())));
        match &self.properties {
            Some(props) => {
                let mut pf: Vec<(String, Json)> = Vec::new();
                let pn = props.len();
                for q in 0..pn
                    invariant
                        pn == props@.len(),
                        pf@.len() == q,
                        forall|w: int|
                            0 <= w < q ==> (#[trigger] pf@[w]).0@ == props@[w].0@ && view_of(
                                pf@[w].1,
                            ) == view_of(props@[w].1),
                {
                    pf.push((props[q].0.clone(), props[q].1.clone_json()));
                }
                proof {
                    lemma_obj_view(pf);
                    assert(fields_view(pf@) =~= fields_view(props@));
                }
                fields.push((String::from_str("properties"), Json::Obj(pf)));
            }
            None => {}
        }
        match &self.required {
            Some(req) => {
                let mut rf: Vec<Json> = Vec::new();
                let rn = req.len();
                for q in 0..rn
                    invariant
                        rn == req@.len(),
                        rf@.len() == q,
                        forall|w: int|
                            0 <= w < q ==> view_of(#[trigger] rf@[w]) == JsonVal::Str(req@[w]@),
                {
                    rf.push(Json::Str(req[q].clone()));
                }
                proof {
                    lemma_arr_view(rf);
                    assert(items_view(rf@) =~= strings_view(req@));
                }
                fields.push((String::from_str("required"), Json::Arr(rf)));
            }
            None => {}
        }
        proof {
            lemma_obj_view(fields);
            assert(fields_view(fields@) =~= self.spec_json()->Obj_0);
        }
        Json::Obj(fields)
    }
}

/// Definition for a tool the peer can call.
#[derive(Clone, Debug)]
pub struct Tool {
    pub description: Option<String>,
    pub input_schema: ToolInputSchema,
    pub name: String,
}

impl Tool {
    /// The JSON form: `name`, then `description` when set, then
    /// `inputSchema`.
    pub open spec fn spec_json(self) -> JsonVal {
        JsonVal::Obj(
            {
                let base = seq![("name"@, JsonVal::Str(self.name@))];
                let with_desc = if self.description is Some {
                    base.push(("description"@, JsonVal::Str(self.description->Some_0@)))
                } else {
                    base
                };
                with_desc.push(("inputSchema"@, self.input_schema.spec_json()))
            },
        )
    }

    pub fn to_json(&self) -> (r: Json)
        ensures
            r@ == self.spec_json(),
    {
        let mut fields: Vec<(String, Json)> = Vec::new();
        fields.push((String::from_str("name"), Json::Str(self.name.clone())));
        match &self.description {
            Some(d) => {
                fields.push((String::from_str("description"), Json::Str(d.clone())));
            }
            None => {}
        }
        fields.push((String::from_str("inputSchema"), self.input_schema.to_json()));
        proof {
            lemma_obj_view(fields);
            assert(fields_view(fields@) =~= self.spec_json()->Obj_0);
        }
        Json::Obj(fields)
    }
}

/// A resource the server lists; annotations are carried as raw JSON.
#[derive(Clone, Debug)]
pub struct Resource {
    pub annotations: Option<Json>,
    pub description: Option<String>,
    pub mime_type: Option<String>,
    pub name: String,
    pub uri: String,
}

impl Resource {
    /// The JSON form: `name`, `uri`, then the optional fields.
    pub open spec fn spec_json(self) -> JsonVal {
        JsonVal::Obj(
            {
                let base = seq![("name"@, JsonVal::Str(self.name@)), ("uri"@, JsonVal::Str(self.uri@))];
                let a = if self.description is Some {
                    base.push(("description"@, JsonVal::Str(self.description->Some_0@)))
                } else {
                    base
                };
                let b = if self.mime_type is Some {
                    a.push(("mimeType"@, JsonVal::Str(self.mime_type->Some_0@)))
                } else {
                    a
                };
                if self.annotations is Some {
                    b.push(("annotations"@, view_of(self.annotations->Some_0)))
                } else {
                    b
                }
            },
        )
    }

    pub fn to_json(&self) -> (r: Json)
        ensures
            r@ == self.spec_json(),
    {
        let mut fields: Vec<(String, Json)> = Vec::new();
        fields.push((String::from_str("name"), Json::Str(self.name.clone())));
        fields.push((String::from_str("uri"), Json::Str(self.uri.clone())));
        match &self.description {
            Some(d) => {
                fields.push((String::from_str("description"), Json::Str(d.clone())));
            }
            None => {}
        }
        match &self.mime_type {
            Some(m) => {
                fields.push((String::from_str("mimeType"), Json::Str(m.clone())));
            }
            None => {}
        }
        match &self.annotations {
            Some(a) => {
                fields.push((String::from_str("annotations"), a.clone_json()));
            }
            None => {}
        }
        proof {
            lemma_obj_view(fields);
            assert(fields_view(fields@) =~= self.spec_json()->Obj_0);
        }
        Json::Obj(fields)
    }
}

impl PromptArgument {
    /// The JSON form: `name`, then the optional fields.
    pub open spec fn spec_json(self) -> JsonVal {
        JsonVal::Obj(
            {
                let base = seq![("name"@, JsonVal::Str(self.name@))];
                let a = if self.description is Some {
                    base.push(("description"@, JsonVal::Str(self.description->Some_0@)))
                } else {
                    base
                };
                if self.required is Some {
                    a.push(("required"@, JsonVal::Bool(self.required->Some_0)))
                } else {
                    a
                }
            },
        )
    }

    pub fn to_json(&self) -> (r: Json)
        ensures
            r@ == self.spec_json(),
    {
        let mut fields: Vec<(String, Json)> = Vec::new();
        fields.push((String::from_str("name"), Json::Str(self.name.clone())));
        match &self.description {
            Some(d) => {
                fields.push((String::from_str("description"), Json::Str(d.clone())));
            }
            None => {}
        }
        match &self.required {
            Some(b) => {
                fields.push((String::from_str("required"), Json::Bool(*b)));
            }
            None => {}
        }
        proof {
            lemma_obj_view(fields);
            assert(fields_view(fields@) =~= self.spec_json()->Obj_0);
        }
        Json::Obj(fields)
    }
}

impl Prompt {
    /// The JSON form: `name`, then the optional fields.
    pub open spec fn spec_json(self) -> JsonVal {
        JsonVal::Obj(
            {
                let base = seq![("name"@, JsonVal::Str(self.name@))];
                let a = if self.description is Some {
                    base.push(("description"@, JsonVal::Str(self.description->Some_0@)))
                } else {
                    base
                };
                if self.arguments is Some {
                    a.push(
                        (
                            "arguments"@,
                            JsonVal::Arr(
                                Seq::new(
                                    self.arguments->Some_0@.len(),
                                    |q: int| self.arguments->Some_0@[q].spec_json(),
                                ),
                            ),
                        ),
                    )
                } else {
                    a
                }
            },
        )
    }

    pub fn to_json(&self) -> (r: Json)
        ensures
            r@ == self.spec_json(),
    {
        let mut fields: Vec<(String, Json)> = Vec::new();
        fields.push((String::from_str("name"), Json::Str(self.name.clone())));
        match &self.description {
            Some(d) => {
                fields.push((String::from_str("description"), Json::Str(d.clone())));
            }
            None => {}
        }
        match &self.arguments {
            Some(args) => {
                let mut af: Vec<Json> = Vec::new();
                let an = args.len();
                for q in 0..an
                    invariant
                        an == args@.len(),
                        af@.len() == q,
                        forall|w: int|
                            0 <= w < q ==> view_of(#[trigger] af@[w]) == args@[w].spec_json(),
                {
                    af.push(args[q].to_json());
                }
                proof {
                    lemma_arr_view(af);
                    assert(items_view(af@) =~= Seq::new(args@.len(), |q: int| args@[q].spec_json()));
                }
                fields.push((String::from_str("arguments"), Json::Arr(af)));
            }
            None => {}
        }
        proof {
            lemma_obj_view(fields);
            assert(fields_view(fields@) =~= self.spec_json()->Obj_0);
        }
        Json::Obj(fields)
    }
}

#[derive(Clone, Debug, PartialEq)]
pub struct ServerCapabilitiesPrompts {
    pub list_changed: Option<bool>,
}

#[derive(Clone, Debug, PartialEq)]
pub struct ServerCapabilitiesPromptsResources {
    pub list_changed: Option<bool>,
    pub subscribe: Option<bool>,
}

#[derive(Clone, Debug, PartialEq)]
pub struct ServerCapabilitiesPromptsResourcesTools {
    pub list_changed: Option<bool>,
}

/// What optional protocol areas the server supports.
#[derive(Clone, Debug)]
pub struct ServerCapabilities {
    pub experimental: Option<Vec<(String, Json)>>,
    pub logging: Option<Vec<(String, Json)>>,
    pub prompts: Option<ServerCapabilitiesPrompts>,
    pub resources: Option<ServerCapabilitiesPromptsResources>,
    pub tools: Option<ServerCapabilitiesPromptsResourcesTools>,
}

/// The JSON form of an optional `listChanged` flag object.
pub open spec fn spec_list_changed(list_changed: Option<bool>) -> JsonVal {
    JsonVal::Obj(
        if list_changed is Some {
            seq![("listChanged"@, JsonVal::Bool(list_changed->Some_0))]
        } else {
            Seq::empty()
        },
    )
}

impl ServerCapabilities {
    /// The JSON form: each supported area in a fixed order.
    pub open spec fn spec_json(self) -> JsonVal {
        JsonVal::Obj(
            {
                let base = Seq::<(Seq<char>, JsonVal)>::empty();
                let a = if self.experimental is Some {
                    base.push(("experimental"@, JsonVal::Obj(fields_view(self.experimental->Some_0@))))
                } else {
                    base
                };
                let b = if self.logging is Some {
                    a.push(("logging"@, JsonVal::Obj(fields_view(self.logging->Some_0@))))
                } else {
                    a
                };
                let c = if self.prompts is Some {
                    b.push(("prompts"@, spec_list_changed(self.prompts->Some_0.list_changed)))
                } else {
                    b
                };
                let d = if self.resources is Some {
                    c.push(
                        (
                            "resources"@,
                            JsonVal::Obj(
                                {
                                    let r0 = Seq::<(Seq<char>, JsonVal)>::empty();
                                    let r1 = if self.resources->Some_0.list_changed is Some {
                                        r0.push(("listChanged"@, JsonVal::Bool(self.resources->Some_0.list_changed->Some_0)))
                                    } else {
                                        r0
                                    };
                                    if self.resources->Some_0.subscribe is Some {
                                        r1.push(("subscribe"@, JsonVal::Bool(self.resources->Some_0.subscribe->Some_0)))
                                    } else {
                                        r1
                                    }
                                },
                            ),
                        ),
                    )
                } else {
                    c
                };
                if self.tools is Some {
                    d.push(("tools"@, spec_list_changed(self.tools->Some_0.list_changed)))
                } else {
                    d
                }
            },
        )
    }

    pub fn to_json(&self) -> (r: Json)
        ensures
            r@ == self.spec_json(),
    {
        let mut fields: Vec<(String, Json)> = Vec::new();
        match &self.experimental {
            Some(m) => {
                let mut mf: Vec<(String, Json)> = Vec::new();
                let mn = m.len();
                for q in 0..mn
                    invariant
                        mn == m@.len(),
                        mf@.len() == q,
                        forall|w: int|
                            0 <= w < q ==> (#[trigger] mf@[w]).0@ == m@[w].0@ && view_of(mf@[w].1)
                                == view_of(m@[w].1),
                {
                    mf.push((m[q].0.clone(), m[q].1.clone_json()));
                }
                proof {
                    lemma_obj_view(mf);
                    assert(fields_view(mf@) =~= fields_view(m@));
                }
                fields.push((String::from_str("experimental"), Json::Obj(mf)));
            }
            None => {}
        }
        match &self.logging {
            Some(m) => {
                let mut mf: Vec<(String, Json)> = Vec::new();
                let mn = m.len();
                for q in 0..mn
                    invariant
                        mn == m@.len(),
                        mf@.len() == q,
                        forall|w: int|
                            0 <= w < q ==> (#[trigger] mf@[w]).0@ == m@[w].0@ && view_of(mf@[w].1)
                                == view_of(m@[w].1),
                {
                    mf.push((m[q].0.clone(), m[q].1.clone_json()));
                }
                proof {
                    lemma_obj_view(mf);
                    assert(fields_view(mf@) =~= fields_view(m@));
                }
                fields.push((String::from_str("logging"), Json::Obj(mf)));
            }
            None => {}
        }
        match &self.prompts {
            Some(p) => {
                let mut pf: Vec<(String, Json)> = Vec::new();
                match &p.list_changed {
                    Some(b) => {
                        pf.push((String::from_str("listChanged"), Json::Bool(*b)));
                    }
                    None => {}
                }
                proof {
                    lemma_obj_view(pf);
                    assert(fields_view(pf@) =~= spec_list_changed(p.list_changed)->Obj_0);
                }
                fields.push((String::from_str("prompts"), Json::Obj(pf)));
            }
            None => {}
        }
        match &self.resources {
            Some(rc) => {
                let mut rf: Vec<(String, Json)> = Vec::new();
                match &rc.list_changed {
                    Some(b) => {
                        rf.push((String::from_str("listChanged"), Json::Bool(*b)));
                    }
                    None => {}
                }
                match &rc.subscribe {
                    Some(b) => {
                        rf.push((String::from_str("subscribe"), Json::Bool(*b)));
                    }
                    None => {}
                }
                proof {
                    lemma_obj_view(rf);
                    assert(fields_view(rf@) =~= (
                    {
                        let r0 = Seq::<(Seq<char>, JsonVal)>::empty();
                        let r1 = if rc.list_changed is Some {
                            r0.push(("listChanged"@, JsonVal::Bool(rc.list_changed->Some_0)))
                        } else {
                            r0
                        };
                        if rc.subscribe is Some {
                            r1.push(("subscribe"@, JsonVal::Bool(rc.subscribe->Some_0)))
                        } else {
                            r1
                        }
                    }));
                }
                fields.push((String::from_str("resources"), Json::Obj(rf)));
            }
            None => {}
        }
        match &self.tools {
            Some(t) => {
                let mut tf: Vec<(String, Json)> = Vec::new();
                match &t.list_changed {
                    Some(b) => {
                        tf.push((String::from_str("listChanged"), Json::Bool(*b)));
                    }
                    None => {}
                }
                proof {
                    lemma_obj_view(tf);
                    assert(fields_view(tf@) =~= spec_list_changed(t.list_changed)->Obj_0);
                }
                fields.push((String::from_str("tools"), Json::Obj(tf)));
            }
            None => {}
        }
        proof {
            lemma_obj_view(fields);
            assert(fields_view(fields@) =~= self.spec_json()->Obj_0);
        }
        Json::Obj(fields)
    }
}

/// The server's answer to `initialize`.
#[derive(Clone, Debug)]
pub struct InitializeResult {
    pub meta: Option<Vec<(String, Json)>>,
    pub capabilities: ServerCapabilities,
    pub instructions: Option<String>,
    pub protocol_version: String,
    pub server_info: Implementation,
}

impl InitializeResult {
    /// The JSON form: `capabilities`, `protocolVersion`, `serverInfo`,
    /// then `instructions` and `_meta` when set.
    pub open spec fn spec_json(self) -> JsonVal {
        JsonVal::Obj(
            {
                let base = seq![
                    ("capabilities"@, self.capabilities.spec_json()),
                    ("protocolVersion"@, JsonVal::Str(self.protocol_version@)),
                    (
                        "serverInfo"@,
                        JsonVal::Obj(
                            seq![
                                ("name"@, JsonVal::Str(self.server_info.name@)),
                                ("version"@, JsonVal::Str(self.server_info.version@)),
                            ],
                        ),
                    ),
                ];
                let a = if self.instructions is Some {
                    base.push(("instructions"@, JsonVal::Str(self.instructions->Some_0@)))
                } else {
                    base
                };
                if self.meta is Some {
                    a.push(("_meta"@, JsonVal::Obj(fields_view(self.meta->Some_0@))))
                } else {
                    a
                }
            },
        )
    }

    pub fn to_json(&self) -> (r: Json)
        ensures
            r@ == self.spec_json(),
    {
        let mut fields: Vec<(String, Json)> = Vec::new();
        fields.push((String::from_str("capabilities"), self.capabilities.to_json()));
        fields.push(
            (String::from_str("protocolVersion"), Json::Str(self.protocol_version.clone())),
        );
        let mut si: Vec<(String, Json)> = Vec::new();
        si.push((String::from_str("name"), Json::Str(self.server_info.name.clone())));
        si.push((String::from_str("version"), Json::Str(self.server_info.version.clone())));
        proof {
            lemma_obj_view(si);
            assert(fields_view(si@) =~= seq![
                ("name"@, JsonVal::Str(self.server_info.name@)),
                ("version"@, JsonVal::Str(self.server_info.version@)),
            ]);
        }
        fields.push((String::from_str("serverInfo"), Json::Obj(si)));
        match &self.instructions {
            Some(ins) => {
                fields.push((String::from_str("instructions"), Json::Str(ins.clone())));
            }
            None => {}
        }
        match &self.meta {
            Some(m) => {
                let mut mf: Vec<(String, Json)> = Vec::new();
                let mn = m.len();
                for q in 0..mn
                    invariant
                        mn == m@.len(),
                        mf@.len() == q,
                        forall|w: int|
                            0 <= w < q ==> (#[trigger] mf@[w]).0@ == m@[w].0@ && view_of(mf@[w].1)
                                == view_of(m@[w].1),
                {
                    mf.push((m[q].0.clone(), m[q].1.clone_json()));
                }
                proof {
                    lemma_obj_view(mf);
                    assert(fields_view(mf@) =~= fields_view(m@));
                }
                fields.push((String::from_str("_meta"), Json::Obj(mf)));
            }
            None => {}
        }
        proof {
            lemma_obj_view(fields);
            assert(fields_view(fields@) =~= self.spec_json()->Obj_0);
        }
        Json::Obj(fields)
    }
}

} // verus!
