//! The server core: the envelope dispatcher. One JSON-RPC message goes in;
//! out comes silence (for notifications and undeliverable input), the
//! serialized response, or a request to run an external tool whose outcome
//! is then serialized by `finish_tool_call`.
//!
//! The whole behaviour is pinned by `spec_dispatch` and `spec_mem_after`:
//! what is answered, and how the memory store changes.

use vstd::prelude::*;

use crate::codec::{ser_val, to_text};
use crate::json::{get_of, view_of, Json, JsonVal};
use crate::parse::parse_text;
use crate::schema::{
    spec_text_result_json, CallToolResult, Implementation, Prompt, Resource, ServerCapabilities,
};
use crate::tools::echo::{spec_parse_echo, Echo};
use crate::tools::memory::{
    mem_index_of, mem_insert, mem_remove, spec_parse_memory, Memory, MemoryAction, MemoryStore,
};
use crate::tools::{ToolEntry, ToolError, ToolKind};
use crate::trusted_str::{str_eq, str_to_chars};

verus! {

broadcast use vstd::seq::group_seq_axioms, vstd::std_specs::vec::group_vec_axioms, vstd::string::group_string_axioms;

/// Whether `p` is a prefix of `s`.
pub open spec fn starts_with(s: Seq<char>, p: Seq<char>) -> bool {
    s.len() >= p.len() && s.subrange(0, p.len() as int) == p
}

/// Whether `p` is a prefix of `s`.
fn str_starts_with(s: &str, p: &str) -> (b: bool)
    ensures
        b == starts_with(s@, p@),
{
    let sv = str_to_chars(s);
    let pv = str_to_chars(p);
    if sv.len() < pv.len() {
        return false;
    }
    let n = pv.len();
    for i in 0..n
        invariant
            n == pv@.len(),
            sv@.len() >= pv@.len(),
            sv@ == s@,
            pv@ == p@,
            forall|w: int| 0 <= w < i ==> s@[w] == p@[w],
    {
        if sv[i] != pv[i] {
            proof {
                if starts_with(s@, p@) {
                    assert(s@.subrange(0, p@.len() as int)[i as int] == p@[i as int]);
                    assert(s@[i as int] == p@[i as int]);
                }
            }
            return false;
        }
    }
    proof {
        assert(s@.subrange(0, p@.len() as int) =~= p@);
    }
    true
}

/// The method named by an envelope, when there is one.
pub open spec fn method_of(env: JsonVal) -> Option<Seq<char>> {
    match get_of(env, "method"@) {
        Some(m) => if m is Str {
            Some(m->Str_0)
        } else {
            None
        },
        None => None,
    }
}

/// The correlation id of an envelope, when there is one.
pub open spec fn id_of(env: JsonVal) -> Option<JsonVal> {
    get_of(env, "id"@)
}

/// A well-formed envelope: an object that says `"jsonrpc":"2.0"` and names
/// a method.
pub open spec fn valid_env(env: JsonVal) -> bool {
    env is Obj && get_of(env, "jsonrpc"@) == Some(JsonVal::Str("2.0"@)) && method_of(env) is Some
}

/// A message that never gets a response: it carries no id, or its method
/// is under the notification prefix or is the cancellation.
pub open spec fn spec_is_notification(env: JsonVal) -> bool {
    id_of(env) is None || starts_with(method_of(env)->Some_0, "notifications/"@) || method_of(env)
        ->Some_0 == "cancelled"@
}

/// A success envelope.
pub open spec fn spec_ok_env(id: JsonVal, result: JsonVal) -> JsonVal {
    JsonVal::Obj(
        seq![("jsonrpc"@, JsonVal::Str("2.0"@)), ("id"@, id), ("result"@, result)],
    )
}

/// An error envelope.
pub open spec fn spec_err_env(id: JsonVal, code: int, message: Seq<char>) -> JsonVal {
    JsonVal::Obj(
        seq![
            ("jsonrpc"@, JsonVal::Str("2.0"@)),
            ("id"@, id),
            (
                "error"@,
                JsonVal::Obj(
                    seq![("code"@, JsonVal::Int(code)), ("message"@, JsonVal::Str(message))],
                ),
            ),
        ],
    )
}

/// What `initialize` accepts: an object carrying a string
/// `protocolVersion`, a `clientInfo` object with string `name` and
/// `version`, and a `capabilities` object. The protocol version is what
/// the response echoes.
pub open spec fn spec_parse_init(params: Option<JsonVal>) -> Option<Seq<char>> {
    match params {
        Some(p) => {
            if p is Obj && (match get_of(p, "protocolVersion"@) {
                Some(pv) => pv is Str,
                None => false,
            }) && (match get_of(p, "clientInfo"@) {
                Some(ci) => ci is Obj && (match get_of(ci, "name"@) {
                    Some(n) => n is Str,
                    None => false,
                }) && (match get_of(ci, "version"@) {
                    Some(v) => v is Str,
                    None => false,
                }),
                None => false,
            }) && (match get_of(p, "capabilities"@) {
                Some(c) => c is Obj,
                None => false,
            }) {
                Some(get_of(p, "protocolVersion"@)->Some_0->Str_0)
            } else {
                None
            }
        },
        None => None,
    }
}

/// What `tools/call` accepts: an object with a string `name` and, when
/// present and not `null`, an object `arguments`.
pub open spec fn spec_parse_call(params: Option<JsonVal>) -> Option<
    (Seq<char>, Option<JsonVal>),
> {
    match params {
        Some(p) => {
            if p is Obj && (match get_of(p, "name"@) {
                Some(n) => n is Str,
                None => false,
            }) {
                let name = get_of(p, "name"@)->Some_0->Str_0;
                match get_of(p, "arguments"@) {
                    Some(a) => if a is Obj {
                        Some((name, Some(a)))
                    } else if a is Null {
                        Some((name, None))
                    } else {
                        None
                    },
                    None => Some((name, None)),
                }
            } else {
                None
            }
        },
        None => None,
    }
}

/// The first registry position of a tool name, or the registry's length.
pub open spec fn tool_index(tools: Seq<ToolEntry>, name: Seq<char>) -> int
    decreases tools.len(),
{
    if tools.len() == 0 {
        0
    } else if tools[0].def.name@ == name {
        0
    } else {
        1 + tool_index(tools.drop_first(), name)
    }
}

/// What `tool_index` finds: the first match, or the length.
pub proof fn lemma_tool_index(tools: Seq<ToolEntry>, name: Seq<char>)
    ensures
        0 <= tool_index(tools, name) <= tools.len(),
        tool_index(tools, name) < tools.len() ==> tools[tool_index(tools, name)].def.name@ == name,
        forall|i: int|
            0 <= i < tool_index(tools, name) ==> (#[trigger] tools[i]).def.name@ != name,
    decreases tools.len(),
{
    if tools.len() > 0 && tools[0].def.name@ != name {
        lemma_tool_index(tools.drop_first(), name);
        let r = tool_index(tools, name);
        assert forall|i: int| 0 <= i < r implies (#[trigger] tools[i]).def.name@ != name by {
            if i > 0 {
                assert(tools.drop_first()[i - 1] == tools[i]);
            }
        }
        if r < tools.len() {
            assert(tools.drop_first()[r - 1] == tools[r]);
        }
    }
}

/// The result of `tools/list`: every declared definition, no next page.
pub open spec fn spec_tools_result(tools: Seq<ToolEntry>) -> JsonVal {
    JsonVal::Obj(
        seq![
            ("tools"@, JsonVal::Arr(Seq::new(tools.len(), |i: int| tools[i].def.spec_json()))),
            ("nextCursor"@, JsonVal::Null),
        ],
    )
}

/// The result of `resources/list`: every resource, no next page.
pub open spec fn spec_resources_result(resources: Seq<Resource>) -> JsonVal {
    JsonVal::Obj(
        seq![
            (
                "resources"@,
                JsonVal::Arr(Seq::new(resources.len(), |i: int| resources[i].spec_json())),
            ),
            ("nextCursor"@, JsonVal::Null),
        ],
    )
}

/// The result of `prompts/list`: every prompt, no next page.
pub open spec fn spec_prompts_result(prompts: Seq<Prompt>) -> JsonVal {
    JsonVal::Obj(
        seq![
            ("prompts"@, JsonVal::Arr(Seq::new(prompts.len(), |i: int| prompts[i].spec_json()))),
            ("nextCursor"@, JsonVal::Null),
        ],
    )
}

/// The result of `initialize`: the server's capabilities, the echoed
/// protocol version, the server's own name and version, and any
/// instructions.
pub open spec fn spec_init_result(st: ServerState, pv: Seq<char>) -> JsonVal {
    JsonVal::Obj(
        {
            let base = seq![
                ("capabilities"@, st.capabilities.spec_json()),
                ("protocolVersion"@, JsonVal::Str(pv)),
                (
                    "serverInfo"@,
                    JsonVal::Obj(
                        seq![
                            ("name"@, JsonVal::Str(st.info.name@)),
                            ("version"@, JsonVal::Str(st.info.version@)),
                        ],
                    ),
                ),
            ];
            if st.instructions is Some {
                base.push(("instructions"@, JsonVal::Str(st.instructions->Some_0@)))
            } else {
                base
            }
        },
    )
}

/// The text result of one memory action against the given contents.
pub open spec fn spec_memory_response(
    mem: Seq<(Seq<char>, JsonVal)>,
    action: MemoryAction,
    key: Option<Seq<char>>,
    value: Option<JsonVal>,
) -> JsonVal {
    match action {
        MemoryAction::Store => match (key, value) {
            (Some(k), Some(_)) => spec_text_result_json(
                "Successfully stored memory with key: "@ + k,
                false,
            ),
            (None, _) => spec_text_result_json("Key is required for store action"@, true),
            (Some(_), None) => spec_text_result_json("Value is required for store action"@, true),
        },
        MemoryAction::Retrieve => match key {
            Some(k) => {
                let i = mem_index_of(mem, k);
                if i < mem.len() {
                    spec_text_result_json(ser_val(mem[i].1), false)
                } else {
                    spec_text_result_json("No memory found for key: "@ + k, false)
                }
            },
            None => spec_text_result_json("Key is required for retrieve action"@, true),
        },
        MemoryAction::List => spec_text_result_json(
            ser_val(JsonVal::Arr(Seq::new(mem.len(), |i: int| JsonVal::Str(mem[i].0)))),
            false,
        ),
        MemoryAction::Delete => match key {
            Some(k) => spec_text_result_json(
                if mem_index_of(mem, k) < mem.len() {
                    "Successfully deleted memory with key: "@ + k
                } else {
                    "No memory found to delete for key: "@ + k
                },
                false,
            ),
            None => spec_text_result_json("Key is required for delete action"@, true),
        },
        MemoryAction::Clear => spec_text_result_json("Successfully cleared all memories"@, false),
    }
}

/// The memory contents after one action.
pub open spec fn spec_memory_after(
    mem: Seq<(Seq<char>, JsonVal)>,
    action: MemoryAction,
    key: Option<Seq<char>>,
    value: Option<JsonVal>,
) -> Seq<(Seq<char>, JsonVal)> {
    match action {
        MemoryAction::Store => match (key, value) {
            (Some(k), Some(v)) => mem_insert(mem, k, v),
            _ => mem,
        },
        MemoryAction::Delete => match key {
            Some(k) => mem_remove(mem, k),
            None => mem,
        },
        MemoryAction::Clear => Seq::empty(),
        _ => mem,
    }
}

/// What the dispatcher decides, in the model.
pub enum SpecOutcome {
    /// No bytes go out.
    Silent,
    /// This document goes out.
    Respond(JsonVal),
    /// The named tool must be run outside; its outcome answers this id.
    ExternalCall(JsonVal, Seq<char>, Option<JsonVal>),
}

/// The dispatcher's decision for one message, read against the given
/// memory contents.
pub open spec fn spec_dispatch(st: ServerState, mem: Seq<(Seq<char>, JsonVal)>, env: JsonVal) -> SpecOutcome {
    if !valid_env(env) {
        if env is Obj && id_of(env) is Some {
            SpecOutcome::Respond(spec_err_env(id_of(env)->Some_0, -32700, "Parse error"@))
        } else {
            SpecOutcome::Silent
        }
    } else if spec_is_notification(env) {
        SpecOutcome::Silent
    } else {
        let m = method_of(env)->Some_0;
        let id = id_of(env)->Some_0;
        let params = get_of(env, "params"@);
        if m == "initialize"@ {
            match spec_parse_init(params) {
                Some(pv) => SpecOutcome::Respond(spec_ok_env(id, spec_init_result(st, pv))),
                None => SpecOutcome::Respond(spec_err_env(id, -32602, "Invalid params"@)),
            }
        } else if m == "resources/list"@ {
            SpecOutcome::Respond(spec_ok_env(id, spec_resources_result(st.resources@)))
        } else if m == "prompts/list"@ {
            SpecOutcome::Respond(spec_ok_env(id, spec_prompts_result(st.prompts@)))
        } else if m == "tools/list"@ {
            SpecOutcome::Respond(spec_ok_env(id, spec_tools_result(st.tools@)))
        } else if m == "tools/call"@ {
            match spec_parse_call(params) {
                None => SpecOutcome::Respond(spec_err_env(id, -32602, "Invalid params"@)),
                Some((name, args)) => {
                    let ti = tool_index(st.tools@, name);
                    if ti == st.tools@.len() {
                        SpecOutcome::Respond(spec_err_env(id, -32601, "Method not found"@))
                    } else {
                        match st.tools@[ti].kind {
                            ToolKind::Echo => match spec_parse_echo(args) {
                                Some(msg) => SpecOutcome::Respond(
                                    spec_ok_env(id, spec_text_result_json(msg, false)),
                                ),
                                None => SpecOutcome::Respond(
                                    spec_err_env(id, -32602, "Invalid params"@),
                                ),
                            },
                            ToolKind::Memory => match spec_parse_memory(args) {
                                Some((action, key, value)) => SpecOutcome::Respond(
                                    spec_ok_env(id, spec_memory_response(mem, action, key, value)),
                                ),
                                None => SpecOutcome::Respond(
                                    spec_err_env(id, -32602, "Invalid params"@),
                                ),
                            },
                            ToolKind::External => SpecOutcome::ExternalCall(id, name, args),
                        }
                    }
                },
            }
        } else {
            SpecOutcome::Respond(spec_err_env(id, -32601, "Method not found"@))
        }
    }
}

/// The memory contents after one message: only a delivered memory-tool
/// call changes them.
pub open spec fn spec_mem_after(st: ServerState, mem: Seq<(Seq<char>, JsonVal)>, env: JsonVal) -> Seq<
    (Seq<char>, JsonVal),
> {
    if valid_env(env) && !spec_is_notification(env) && method_of(env)->Some_0 == "tools/call"@ {
        match spec_parse_call(get_of(env, "params"@)) {
            Some((name, args)) => {
                let ti = tool_index(st.tools@, name);
                if ti < st.tools@.len() && st.tools@[ti].kind is Memory {
                    match spec_parse_memory(args) {
                        Some((action, key, value)) => spec_memory_after(mem, action, key, value),
                        None => mem,
                    }
                } else {
                    mem
                }
            },
            None => mem,
        }
    } else {
        mem
    }
}

/// What one message leads to at run time.
#[derive(Debug)]
pub enum Outcome {
    /// No bytes go out.
    Silence,
    /// This text goes out.
    Reply(String),
    /// The named tool must be run outside; its outcome, handed to
    /// `finish_tool_call` with this id, makes the response.
    External { id: Json, name: String, arguments: Option<Json> },
}

/// Whether a run-time outcome is the model's decision.
pub open spec fn outcome_matches(out: Outcome, s: SpecOutcome) -> bool {
    match (out, s) {
        (Outcome::Silence, SpecOutcome::Silent) => true,
        (Outcome::Reply(text), SpecOutcome::Respond(v)) => text@ == ser_val(v),
        (
            Outcome::External { id, name, arguments },
            SpecOutcome::ExternalCall(sid, sname, sargs),
        ) => view_of(id) == sid && name@ == sname && (match arguments {
            Some(a) => sargs == Some(view_of(a)),
            None => sargs is None,
        }),
        _ => false,
    }
}

/// The server: its identity, advertised capabilities, static catalogues,
/// tool registry, and the memory store.
pub struct ServerState {
    pub info: Implementation,
    pub instructions: Option<String>,
    pub capabilities: ServerCapabilities,
    pub resources: Vec<Resource>,
    pub prompts: Vec<Prompt>,
    pub tools: Vec<ToolEntry>,
    pub memory: MemoryStore,
}

impl ServerState {
    /// A server over the given catalogues, with an empty memory store.
    pub fn new(
        info: Implementation,
        instructions: Option<String>,
        capabilities: ServerCapabilities,
        resources: Vec<Resource>,
        prompts: Vec<Prompt>,
        tools: Vec<ToolEntry>,
    ) -> (s: ServerState)
        ensures
            s.info == info,
            s.instructions == instructions,
            s.capabilities == capabilities,
            s.resources == resources,
            s.prompts == prompts,
            s.tools == tools,
            s.memory@ == Seq::<(Seq<char>, JsonVal)>::empty(),
            s.memory.wf(),
    {
        ServerState {
            info,
            instructions,
            capabilities,
            resources,
            prompts,
            tools,
            memory: MemoryStore::new(),
        }
    }
}

/// The serialized success envelope for this id and result.
fn ok_reply(id: &Json, result: Json) -> (r: String)
    ensures
        r@ == ser_val(spec_ok_env(view_of(*id), view_of(result))),
{
    let ghost rv = view_of(result);
    let mut fields: Vec<(String, Json)> = Vec::new();
    fields.push((String::from_str("jsonrpc"), Json::Str(String::from_str("2.0"))));
    fields.push((String::from_str("id"), id.clone_json()));
    fields.push((String::from_str("result"), result));
    proof {
        crate::json::lemma_obj_view(fields);
        assert(crate::json::fields_view(fields@) =~= spec_ok_env(view_of(*id), rv)->Obj_0);
    }
    let env = Json::Obj(fields);
    to_text(&env)
}

/// The serialized error envelope for this id, code and message.
fn err_reply(id: &Json, code: i64, message: &str) -> (r: String)
    ensures
        r@ == ser_val(spec_err_env(view_of(*id), code as int, message@)),
{
    let mut err: Vec<(String, Json)> = Vec::new();
    err.push((String::from_str("code"), Json::Int(code)));
    err.push((String::from_str("message"), Json::Str(String::from_str(message))));
    proof {
        crate::json::lemma_obj_view(err);
        assert(crate::json::fields_view(err@) =~= spec_err_env(
            view_of(*id),
            code as int,
            message@,
        )->Obj_0[2].1->Obj_0);
    }
    let mut fields: Vec<(String, Json)> = Vec::new();
    fields.push((String::from_str("jsonrpc"), Json::Str(String::from_str("2.0"))));
    fields.push((String::from_str("id"), id.clone_json()));
    fields.push((String::from_str("error"), Json::Obj(err)));
    proof {
        crate::json::lemma_obj_view(fields);
        assert(crate::json::fields_view(fields@) =~= spec_err_env(
            view_of(*id),
            code as int,
            message@,
        )->Obj_0);
    }
    let env = Json::Obj(fields);
    to_text(&env)
}

impl ServerState {
    /// Handles one parsed message: the dispatcher's decision, serialized.
    pub fn handle_value(&mut self, env: &Json) -> (out: Outcome)
        requires
            old(self).memory.wf(),
        ensures
            final(self).memory.wf(),
            final(self).info == old(self).info,
            final(self).instructions == old(self).instructions,
            final(self).capabilities == old(self).capabilities,
            final(self).resources == old(self).resources,
            final(self).prompts == old(self).prompts,
            final(self).tools == old(self).tools,
            outcome_matches(out, spec_dispatch(*old(self), old(self).memory@, env@)),
            final(self).memory@ == spec_mem_after(*old(self), old(self).memory@, env@),
    {
        let is_obj = match env {
            Json::Obj(_) => true,
            _ => false,
        };
        let jsonrpc_ok = match env.get("jsonrpc") {
            Some(v) => match v.as_text() {
                Some(s) => str_eq(s.as_str(), "2.0"),
                None => false,
            },
            None => false,
        };
        let method: Option<String> = match env.get("method") {
            Some(v) => match v.as_text() {
                Some(s) => Some(s.clone()),
                None => None,
            },
            None => None,
        };
        let id: Option<Json> = match env.get("id") {
            Some(v) => Some(v.clone_json()),
            None => None,
        };
        if !is_obj || !jsonrpc_ok || method.is_none() {
            proof {
                assert(!valid_env(env@));
            }
            match (is_obj, id) {
                (true, Some(id)) => {
                    return Outcome::Reply(err_reply(&id, -32700, "Parse error"));
                },
                _ => {
                    return Outcome::Silence;
                },
            }
        }
        let method = match method {
            Some(m) => m,
            None => {
                return Outcome::Silence;
            },
        };
        proof {
            assert(valid_env(env@));
            assert(method_of(env@) == Some(method@));
        }
        let id = match id {
            None => {
                proof {
                    assert(spec_is_notification(env@));
                }
                return Outcome::Silence;
            },
            Some(id) => id,
        };
        if str_starts_with(method.as_str(), "notifications/") || str_eq(
            method.as_str(),
            "cancelled",
        ) {
            proof {
                assert(spec_is_notification(env@));
            }
            return Outcome::Silence;
        }
        proof {
            assert(!spec_is_notification(env@));
            assert(id_of(env@) == Some(view_of(id)));
            reveal_strlit("initialize");
            reveal_strlit("resources/list");
            reveal_strlit("prompts/list");
            reveal_strlit("tools/list");
            reveal_strlit("tools/call");
        }
        if str_eq(method.as_str(), "initialize") {
            proof {
                reveal_strlit("initialize");
                reveal_strlit("tools/call");
                assert("initialize"@.len() == 10);
                assert("initialize"@[0] == 'i');
                assert("tools/call"@[0] == 't');
                assert(method@ != "tools/call"@);
            }
            match self.parse_init_params(env) {
                Some(pv) => {
                    let result = self.init_result_json(pv);
                    return Outcome::Reply(ok_reply(&id, result));
                },
                None => {
                    return Outcome::Reply(err_reply(&id, -32602, "Invalid params"));
                },
            }
        } else if str_eq(method.as_str(), "resources/list") {
            let mut items: Vec<Json> = Vec::new();
            let n = self.resources.len();
            for i in 0..n
                invariant
                    n == self.resources@.len(),
                    items@.len() == i,
                    forall|w: int|
                        0 <= w < i ==> view_of(#[trigger] items@[w]) == self.resources@[w].spec_json(),
            {
                items.push(self.resources[i].to_json());
            }
            let result = list_result_json("resources", items);
            proof {
                assert(view_of(result)->Obj_0[0].1->Arr_0 =~= spec_resources_result(
                    self.resources@,
                )->Obj_0[0].1->Arr_0);
                assert(view_of(result)->Obj_0 =~= spec_resources_result(self.resources@)->Obj_0);
            }
            return Outcome::Reply(ok_reply(&id, result));
        } else if str_eq(method.as_str(), "prompts/list") {
            let mut items: Vec<Json> = Vec::new();
            let n = self.prompts.len();
            for i in 0..n
                invariant
                    n == self.prompts@.len(),
                    items@.len() == i,
                    forall|w: int|
                        0 <= w < i ==> view_of(#[trigger] items@[w]) == self.prompts@[w].spec_json(),
            {
                items.push(self.prompts[i].to_json());
            }
            let result = list_result_json("prompts", items);
            proof {
                assert(view_of(result)->Obj_0[0].1->Arr_0 =~= spec_prompts_result(
                    self.prompts@,
                )->Obj_0[0].1->Arr_0);
                assert(view_of(result)->Obj_0 =~= spec_prompts_result(self.prompts@)->Obj_0);
            }
            return Outcome::Reply(ok_reply(&id, result));
        } else if str_eq(method.as_str(), "tools/list") {
            proof {
                reveal_strlit("tools/list");
                reveal_strlit("tools/call");
                assert("tools/list"@.len() == 10);
                assert("tools/list"@[6] == 'l');
                assert("tools/call"@[6] == 'c');
                assert(method@ != "tools/call"@);
            }
            let mut items: Vec<Json> = Vec::new();
            let n = self.tools.len();
            for i in 0..n
                invariant
                    n == self.tools@.len(),
                    items@.len() == i,
                    forall|w: int|
                        0 <= w < i ==> view_of(#[trigger] items@[w]) == self.tools@[w].def.spec_json(),
            {
                items.push(self.tools[i].def.to_json());
            }
            let result = list_result_json("tools", items);
            proof {
                assert(view_of(result)->Obj_0[0].1->Arr_0 =~= spec_tools_result(
                    self.tools@,
                )->Obj_0[0].1->Arr_0);
                assert(view_of(result)->Obj_0 =~= spec_tools_result(self.tools@)->Obj_0);
            }
            return Outcome::Reply(ok_reply(&id, result));
        } else if str_eq(method.as_str(), "tools/call") {
            let parsed = self.parse_call_params(env);
            let (name, args) = match parsed {
                Some(p) => p,
                None => {
                    return Outcome::Reply(err_reply(&id, -32602, "Invalid params"));
                },
            };
            let n = self.tools.len();
            let ti = self.find_tool(name.as_str());
            if ti == n {
                return Outcome::Reply(err_reply(&id, -32601, "Method not found"));
            }
            let kind = self.tools[ti].kind;
            match kind {
                ToolKind::Echo => match Echo::parse_properties(args.as_ref()) {
                    Ok(props) => {
                        let result = Echo::call(props);
                        let rj = result.to_json();
                        return Outcome::Reply(ok_reply(&id, rj));
                    },
                    Err(_) => {
                        return Outcome::Reply(err_reply(&id, -32602, "Invalid params"));
                    },
                },
                ToolKind::Memory => match Memory::parse_properties(args.as_ref()) {
                    Ok(props) => {
                        let result = Memory::call(&mut self.memory, props);
                        let rj = result.to_json();
                        return Outcome::Reply(ok_reply(&id, rj));
                    },
                    Err(_) => {
                        return Outcome::Reply(err_reply(&id, -32602, "Invalid params"));
                    },
                },
                ToolKind::External => {
                    return Outcome::External { id, name, arguments: args };
                },
            }
        } else {
            return Outcome::Reply(err_reply(&id, -32601, "Method not found"));
        }
    }

    /// The first registry position of the tool name, or the registry's
    /// length.
    fn find_tool(&self, name: &str) -> (ti: usize)
        ensures
            ti as int == tool_index(self.tools@, name@),
            ti <= self.tools@.len(),
    {
        proof {
            lemma_tool_index(self.tools@, name@);
        }
        let n = self.tools.len();
        for i in 0..n
            invariant
                n == self.tools@.len(),
                forall|w: int| 0 <= w < i ==> (#[trigger] self.tools@[w]).def.name@ != name@,
                tool_index(self.tools@, name@) >= i,
        {
            if str_eq(self.tools[i].def.name.as_str(), name) {
                proof {
                    lemma_tool_index(self.tools@, name@);
                    if tool_index(self.tools@, name@) > i as int {
                        assert((self.tools@[i as int]).def.name@ != name@);
                    }
                }
                return i;
            }
            proof {
                lemma_tool_index(self.tools@, name@);
                if tool_index(self.tools@, name@) == i as int {
                    assert(self.tools@[i as int].def.name@ == name@);
                }
            }
        }
        proof {
            lemma_tool_index(self.tools@, name@);
            if tool_index(self.tools@, name@) < n as int {
                assert(self.tools@[tool_index(self.tools@, name@)].def.name@ == name@);
            }
        }
        n
    }

    /// Reads the `initialize` parameters out of the envelope.
    fn parse_init_params(&self, env: &Json) -> (r: Option<String>)
        ensures
            match r {
                Some(pv) => spec_parse_init(get_of(env@, "params"@)) == Some(pv@),
                None => spec_parse_init(get_of(env@, "params"@)) is None,
            },
    {
        let p = match env.get("params") {
            Some(p) => p,
            None => {
                return None;
            },
        };
        match p {
            Json::Obj(_) => {}
            _ => {
                return None;
            },
        }
        let pv = match p.get("protocolVersion") {
            Some(v) => match v.as_text() {
                Some(s) => s.clone(),
                None => {
                    return None;
                },
            },
            None => {
                return None;
            },
        };
        let ci = match p.get("clientInfo") {
            Some(c) => c,
            None => {
                return None;
            },
        };
        match ci {
            Json::Obj(_) => {}
            _ => {
                return None;
            },
        }
        match ci.get("name") {
            Some(v) => match v.as_text() {
                Some(_) => {}
                None => {
                    return None;
                },
            },
            None => {
                return None;
            },
        }
        match ci.get("version") {
            Some(v) => match v.as_text() {
                Some(_) => {}
                None => {
                    return None;
                },
            },
            None => {
                return None;
            },
        }
        match p.get("capabilities") {
            Some(c) => match c {
                Json::Obj(_) => {}
                _ => {
                    return None;
                },
            },
            None => {
                return None;
            },
        }
        Some(pv)
    }

    /// Builds the `initialize` result document.
    fn init_result_json(&self, pv: String) -> (r: Json)
        ensures
            view_of(r) == spec_init_result(*self, pv@),
    {
        let ghost pvv = pv@;
        let caps = self.capabilities.to_json();
        let mut si: Vec<(String, Json)> = Vec::new();
        si.push((String::from_str("name"), Json::Str(self.info.name.clone())));
        si.push((String::from_str("version"), Json::Str(self.info.version.clone())));
        proof {
            crate::json::lemma_obj_view(si);
            assert(crate::json::fields_view(si@) =~= seq![
                ("name"@, JsonVal::Str(self.info.name@)),
                ("version"@, JsonVal::Str(self.info.version@)),
            ]);
        }
        let mut fields: Vec<(String, Json)> = Vec::new();
        fields.push((String::from_str("capabilities"), caps));
        fields.push((String::from_str("protocolVersion"), Json::Str(pv)));
        fields.push((String::from_str("serverInfo"), Json::Obj(si)));
        match &self.instructions {
            Some(ins) => {
                fields.push((String::from_str("instructions"), Json::Str(ins.clone())));
            }
            None => {}
        }
        proof {
            crate::json::lemma_obj_view(fields);
            assert(crate::json::fields_view(fields@) =~= spec_init_result(*self, pvv)->Obj_0);
        }
        let r = Json::Obj(fields);
        r
    }

    /// Reads the `tools/call` parameters out of the envelope.
    fn parse_call_params(&self, env: &Json) -> (r: Option<(String, Option<Json>)>)
        ensures
            match r {
                Some((name, args)) => spec_parse_call(get_of(env@, "params"@)) == Some(
                    (
                        name@,
                        match args {
                            Some(a) => Some(view_of(a)),
                            None => None,
                        },
                    ),
                ),
                None => spec_parse_call(get_of(env@, "params"@)) is None,
            },
    {
        let p = match env.get("params") {
            Some(p) => p,
            None => {
                return None;
            },
        };
        match p {
            Json::Obj(_) => {}
            _ => {
                return None;
            },
        }
        let name = match p.get("name") {
            Some(v) => match v.as_text() {
                Some(s) => s.clone(),
                None => {
                    return None;
                },
            },
            None => {
                return None;
            },
        };
        let args: Option<Json> = match p.get("arguments") {
            Some(a) => match a {
                Json::Obj(_) => Some(a.clone_json()),
                Json::Null => None,
                _ => {
                    return None;
                },
            },
            None => None,
        };
        Some((name, args))
    }

    /// Handles one line of text: parses it and dispatches. Text that is
    /// the exact form of a document is answered exactly as the model
    /// says. Text that does not parse is dropped with no response and no
    /// change of state; the contract forces that only for silence-or-
    /// dispatcher-shaped outcomes, since the parser's contract pins
    /// serialized forms alone.
    pub fn handle_message(&mut self, text: &str) -> (out: Outcome)
        requires
            old(self).memory.wf(),
        ensures
            final(self).memory.wf(),
            final(self).info == old(self).info,
            final(self).instructions == old(self).instructions,
            final(self).capabilities == old(self).capabilities,
            final(self).resources == old(self).resources,
            final(self).prompts == old(self).prompts,
            final(self).tools == old(self).tools,
            forall|env: JsonVal|
                crate::json::wf_val(env) && text@ == ser_val(env) ==> outcome_matches(
                    out,
                    spec_dispatch(*old(self), old(self).memory@, env),
                ) && final(self).memory@ == spec_mem_after(*old(self), old(self).memory@, env),
            (out is Silence && *final(self) == *old(self)) || (exists|env: JsonVal|
                crate::json::wf_val(env) && outcome_matches(
                    out,
                    spec_dispatch(*old(self), old(self).memory@, env),
                ) && final(self).memory@ == spec_mem_after(*old(self), old(self).memory@, env)),
    {
        match parse_text(text) {
            Some(doc) => {
                let out = self.handle_value(&doc);
                proof {
                    crate::json::lemma_view_wf(doc);
                }
                out
            },
            None => Outcome::Silence,
        }
    }

    /// Serializes the response for an externally run tool call: a success
    /// envelope around the tool's result, an invalid-params error for
    /// arguments that did not fit, and a plain internal error for anything
    /// else, so that no detail leaks over the wire.
    pub fn finish_tool_call(id: &Json, result: Result<&CallToolResult, &ToolError>) -> (r: String)
        ensures
            match result {
                Ok(res) => r@ == ser_val(spec_ok_env(view_of(*id), res.spec_json())),
                Err(e) => r@ == ser_val(
                    if e is ArgumentParse {
                        spec_err_env(view_of(*id), -32602, "Invalid params"@)
                    } else {
                        spec_err_env(view_of(*id), -32603, "Internal error"@)
                    },
                ),
            },
    {
        match result {
            Ok(res) => {
                let rj = res.to_json();
                ok_reply(id, rj)
            },
            Err(e) => match e {
                ToolError::ArgumentParse(_) => err_reply(id, -32602, "Invalid params"),
                _ => err_reply(id, -32603, "Internal error"),
            },
        }
    }
}

/// A one-page list result: the named collection and no next cursor.
fn list_result_json(label: &str, items: Vec<Json>) -> (r: Json)
    ensures
        view_of(r) is Obj,
        view_of(r)->Obj_0.len() == 2,
        view_of(r)->Obj_0[0].0 == label@,
        view_of(r)->Obj_0[0].1 == JsonVal::Arr(crate::json::items_view(items@)),
        view_of(r)->Obj_0[1] == ("nextCursor"@, JsonVal::Null),
{
    proof {
        crate::json::lemma_arr_view(items);
    }
    let mut fields: Vec<(String, Json)> = Vec::new();
    fields.push((String::from_str(label), Json::Arr(items)));
    fields.push((String::from_str("nextCursor"), Json::Null));
    let r = Json::Obj(fields);
    proof {
        assert(view_of(r)->Obj_0.len() == 2);
        assert(view_of(r)->Obj_0[0] == (fields@[0].0@, view_of(fields@[0].1)));
        assert(view_of(r)->Obj_0[1] == (fields@[1].0@, view_of(fields@[1].1)));
    }
    r
}


/// The decisions for a run of messages, each read against the memory the
/// previous ones left.
pub open spec fn spec_outcomes(
    st: ServerState,
    mem: Seq<(Seq<char>, JsonVal)>,
    envs: Seq<JsonVal>,
) -> Seq<SpecOutcome>
    decreases envs.len(),
{
    if envs.len() == 0 {
        Seq::empty()
    } else {
        seq![spec_dispatch(st, mem, envs[0])] + spec_outcomes(
            st,
            spec_mem_after(st, mem, envs[0]),
            envs.drop_first(),
        )
    }
}

/// The memory contents after a run of messages.
pub open spec fn spec_mem_fold(
    st: ServerState,
    mem: Seq<(Seq<char>, JsonVal)>,
    envs: Seq<JsonVal>,
) -> Seq<(Seq<char>, JsonVal)>
    decreases envs.len(),
{
    if envs.len() == 0 {
        mem
    } else {
        spec_mem_fold(st, spec_mem_after(st, mem, envs[0]), envs.drop_first())
    }
}

/// The dispatcher reads nothing but the given memory and the fixed
/// catalogues: two states that agree on those decide alike.
pub proof fn lemma_dispatch_congruent(
    st1: ServerState,
    st2: ServerState,
    mem: Seq<(Seq<char>, JsonVal)>,
    env: JsonVal,
)
    requires
        st1.info == st2.info,
        st1.instructions == st2.instructions,
        st1.capabilities == st2.capabilities,
        st1.resources == st2.resources,
        st1.prompts == st2.prompts,
        st1.tools == st2.tools,
    ensures
        spec_dispatch(st1, mem, env) == spec_dispatch(st2, mem, env),
        spec_mem_after(st1, mem, env) == spec_mem_after(st2, mem, env),
{
}

/// Decision `i` of a run reads the memory the first `i` messages left.
pub proof fn lemma_spec_outcomes_index(
    st: ServerState,
    mem: Seq<(Seq<char>, JsonVal)>,
    envs: Seq<JsonVal>,
    i: int,
)
    requires
        0 <= i < envs.len(),
    ensures
        spec_outcomes(st, mem, envs).len() == envs.len(),
        spec_outcomes(st, mem, envs)[i] == spec_dispatch(
            st,
            spec_mem_fold(st, mem, envs.take(i)),
            envs[i],
        ),
        spec_mem_fold(st, mem, envs.take(i + 1)) == spec_mem_after(
            st,
            spec_mem_fold(st, mem, envs.take(i)),
            envs[i],
        ),
    decreases i,
{
    lemma_spec_outcomes_len(st, mem, envs);
    if i == 0 {
        assert(envs.take(0) =~= Seq::<JsonVal>::empty());
        assert(envs.take(1).drop_first() =~= Seq::<JsonVal>::empty());
        assert(envs.take(1).len() == 1);
        assert(envs.take(1)[0] == envs[0]);
        assert(spec_mem_fold(st, mem, envs.take(0)) == mem);
        assert(spec_mem_fold(st, mem, envs.take(1)) == spec_mem_fold(
            st,
            spec_mem_after(st, mem, envs[0]),
            envs.take(1).drop_first(),
        ));
        assert(spec_mem_fold(
            st,
            spec_mem_after(st, mem, envs[0]),
            Seq::<JsonVal>::empty(),
        ) == spec_mem_after(st, mem, envs[0]));
    } else {
        let mem1 = spec_mem_after(st, mem, envs[0]);
        lemma_spec_outcomes_index(st, mem1, envs.drop_first(), i - 1);
        assert(envs.drop_first()[i - 1] == envs[i]);
        assert(envs.drop_first().take(i - 1) =~= envs.take(i).drop_first());
        assert(envs.drop_first().take(i) =~= envs.take(i + 1).drop_first());
        assert(envs.take(i)[0] == envs[0]);
        assert(envs.take(i + 1)[0] == envs[0]);
        assert(spec_mem_fold(st, mem, envs.take(i)) == spec_mem_fold(
            st,
            mem1,
            envs.drop_first().take(i - 1),
        ));
        assert(spec_mem_fold(st, mem, envs.take(i + 1)) == spec_mem_fold(
            st,
            mem1,
            envs.drop_first().take(i),
        ));
    }
}

/// A run has one decision per message.
pub proof fn lemma_spec_outcomes_len(
    st: ServerState,
    mem: Seq<(Seq<char>, JsonVal)>,
    envs: Seq<JsonVal>,
)
    ensures
        spec_outcomes(st, mem, envs).len() == envs.len(),
    decreases envs.len(),
{
    if envs.len() > 0 {
        lemma_spec_outcomes_len(st, spec_mem_after(st, mem, envs[0]), envs.drop_first());
    }
}

/// A well-formed envelope that is a notification is never answered and
/// never changes the store, whether or not its parameters would parse.
pub proof fn lemma_notification_silent(
    st: ServerState,
    mem: Seq<(Seq<char>, JsonVal)>,
    env: JsonVal,
)
    requires
        valid_env(env),
        spec_is_notification(env),
    ensures
        spec_dispatch(st, mem, env) == SpecOutcome::Silent,
        spec_mem_after(st, mem, env) == mem,
{
}

/// A `tools/call` naming no registered tool is answered with the
/// method-not-found error carrying the request's id, never silence.
pub proof fn lemma_unknown_tool(
    st: ServerState,
    mem: Seq<(Seq<char>, JsonVal)>,
    env: JsonVal,
    name: Seq<char>,
    args: Option<JsonVal>,
)
    requires
        valid_env(env),
        !spec_is_notification(env),
        method_of(env) == Some("tools/call"@),
        spec_parse_call(get_of(env, "params"@)) == Some((name, args)),
        forall|i: int| 0 <= i < st.tools@.len() ==> (#[trigger] st.tools@[i]).def.name@ != name,
    ensures
        spec_dispatch(st, mem, env) == SpecOutcome::Respond(
            spec_err_env(id_of(env)->Some_0, -32601, "Method not found"@),
        ),
        spec_mem_after(st, mem, env) == mem,
{
    reveal_strlit("initialize");
    reveal_strlit("resources/list");
    reveal_strlit("prompts/list");
    reveal_strlit("tools/list");
    reveal_strlit("tools/call");
    assert("initialize"@[0] == 'i' && "tools/call"@[0] == 't');
    assert("tools/list"@[6] == 'l' && "tools/call"@[6] == 'c');
    assert("tools/call"@ != "initialize"@);
    assert("tools/call"@ != "tools/list"@);
    lemma_tool_index(st.tools@, name);
    if tool_index(st.tools@, name) < st.tools@.len() {
        assert(st.tools@[tool_index(st.tools@, name)].def.name@ == name);
    }
}

/// A `tools/call` naming a dispatcher-run tool whose arguments do not fit
/// that tool's shape is answered with the invalid-params error carrying
/// the request's id — never silence, never an error-flagged result. (An
/// externally run tool's arguments are read by its runner, and
/// `finish_tool_call` gives its argument errors the same envelope.)
pub proof fn lemma_invalid_arguments(
    st: ServerState,
    mem: Seq<(Seq<char>, JsonVal)>,
    env: JsonVal,
    name: Seq<char>,
    args: Option<JsonVal>,
)
    requires
        valid_env(env),
        !spec_is_notification(env),
        method_of(env) == Some("tools/call"@),
        spec_parse_call(get_of(env, "params"@)) == Some((name, args)),
        tool_index(st.tools@, name) < st.tools@.len(),
        ({
            let entry = st.tools@[tool_index(st.tools@, name)];
            (entry.kind is Echo && crate::tools::echo::spec_parse_echo(args) is None) || (
            entry.kind is Memory && spec_parse_memory(args) is None)
        }),
    ensures
        spec_dispatch(st, mem, env) == SpecOutcome::Respond(
            spec_err_env(id_of(env)->Some_0, -32602, "Invalid params"@),
        ),
        spec_mem_after(st, mem, env) == mem,
{
    reveal_strlit("initialize");
    reveal_strlit("resources/list");
    reveal_strlit("prompts/list");
    reveal_strlit("tools/list");
    reveal_strlit("tools/call");
    assert("initialize"@[0] == 'i' && "tools/call"@[0] == 't');
    assert("tools/list"@[6] == 'l' && "tools/call"@[6] == 'c');
    assert("tools/call"@ != "initialize"@);
    assert("tools/call"@ != "tools/list"@);
    lemma_tool_index(st.tools@, name);
}

impl ServerState {
    /// Handles parsed messages one at a time, in their order: answer `i`
    /// belongs to message `i`, read against the memory the first `i`
    /// messages left.
    pub fn handle_values(&mut self, envs: &Vec<Json>) -> (outs: Vec<Outcome>)
        requires
            old(self).memory.wf(),
        ensures
            final(self).memory.wf(),
            final(self).info == old(self).info,
            final(self).instructions == old(self).instructions,
            final(self).capabilities == old(self).capabilities,
            final(self).resources == old(self).resources,
            final(self).prompts == old(self).prompts,
            final(self).tools == old(self).tools,
            outs@.len() == envs@.len(),
            forall|i: int|
                0 <= i < envs@.len() ==> outcome_matches(
                    #[trigger] outs@[i],
                    spec_outcomes(
                        *old(self),
                        old(self).memory@,
                        crate::json::items_view(envs@),
                    )[i],
                ),
            final(self).memory@ == spec_mem_fold(
                *old(self),
                old(self).memory@,
                crate::json::items_view(envs@),
            ),
    {
        let ghost st0 = *old(self);
        let ghost mem0 = old(self).memory@;
        let ghost views = crate::json::items_view(envs@);
        let mut outs: Vec<Outcome> = Vec::new();
        let n = envs.len();
        proof {
            assert(views.take(0) =~= Seq::<JsonVal>::empty());
        }
        for i in 0..n
            invariant
                n == envs@.len(),
                views == crate::json::items_view(envs@),
                views.len() == n,
                self.memory.wf(),
                self.info == st0.info,
                self.instructions == st0.instructions,
                self.capabilities == st0.capabilities,
                self.resources == st0.resources,
                self.prompts == st0.prompts,
                self.tools == st0.tools,
                outs@.len() == i,
                self.memory@ == spec_mem_fold(st0, mem0, views.take(i as int)),
                forall|w: int|
                    0 <= w < i ==> outcome_matches(
                        #[trigger] outs@[w],
                        spec_outcomes(st0, mem0, views)[w],
                    ),
        {
            let ghost before = *self;
            let out = self.handle_value(&envs[i]);
            proof {
                assert(views[i as int] == view_of(envs@[i as int]));
                lemma_spec_outcomes_index(st0, mem0, views, i as int);
                lemma_dispatch_congruent(before, st0, before.memory@, views[i as int]);
            }
            outs.push(out);
            proof {
                assert(views.take(i as int + 1) =~= views.take(i as int).push(views[i as int]));
            }
        }
        proof {
            assert(views.take(n as int) =~= views);
        }
        outs
    }
}

} // verus!
