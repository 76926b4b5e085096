//! The memory tool: a key/value store of JSON documents owned by the
//! server instance, and the tool that drives it.

use vstd::prelude::*;

use crate::json::{fields_view, get_of, view_of, Json, JsonVal};
use crate::schema::{spec_text_result_json, CallToolResult, Tool, ToolInputSchema};
use crate::tools::{args_view, ToolError};

verus! {

broadcast use vstd::seq::group_seq_axioms, vstd::std_specs::vec::group_vec_axioms;

/// The first position of a key in a field list, or its length.
pub open spec fn mem_index_of(m: Seq<(Seq<char>, JsonVal)>, k: Seq<char>) -> int
    decreases m.len(),
{
    if m.len() == 0 {
        0
    } else if m[0].0 == k {
        0
    } else {
        1 + mem_index_of(m.drop_first(), k)
    }
}

/// The field list after a store: the first entry with the key is replaced,
/// or the pair appended when the key is new.
pub open spec fn mem_insert(m: Seq<(Seq<char>, JsonVal)>, k: Seq<char>, v: JsonVal) -> Seq<
    (Seq<char>, JsonVal),
> {
    if mem_index_of(m, k) < m.len() {
        m.update(mem_index_of(m, k), (k, v))
    } else {
        m.push((k, v))
    }
}

/// The field list after a delete: the first entry with the key is gone.
pub open spec fn mem_remove(m: Seq<(Seq<char>, JsonVal)>, k: Seq<char>) -> Seq<
    (Seq<char>, JsonVal),
> {
    if mem_index_of(m, k) < m.len() {
        m.remove(mem_index_of(m, k))
    } else {
        m
    }
}

/// What `mem_index_of` finds: the first match, or the length.
pub proof fn lemma_mem_index_of(m: Seq<(Seq<char>, JsonVal)>, k: Seq<char>)
    ensures
        0 <= mem_index_of(m, k) <= m.len(),
        mem_index_of(m, k) < m.len() ==> m[mem_index_of(m, k)].0 == k,
        forall|i: int| 0 <= i < mem_index_of(m, k) ==> (#[trigger] m[i]).0 != k,
    decreases m.len(),
{
    if m.len() > 0 && m[0].0 != k {
        lemma_mem_index_of(m.drop_first(), k);
        let r = mem_index_of(m, k);
        assert forall|i: int| 0 <= i < r implies (#[trigger] m[i]).0 != k by {
            if i > 0 {
                assert(m.drop_first()[i - 1] == m[i]);
            }
        }
        if r < m.len() {
            assert(m.drop_first()[r - 1] == m[r]);
        }
    }
}

/// A JSON store: string keys to documents, insertion order kept, each key
/// held once.
#[derive(Clone, Debug)]
pub struct MemoryStore {
    pub entries: Vec<(String, Json)>,
}

impl View for MemoryStore {
    type V = Seq<(Seq<char>, JsonVal)>;

    open spec fn view(&self) -> Seq<(Seq<char>, JsonVal)> {
        fields_view(self.entries@)
    }
}

impl MemoryStore {
    /// Each key occurs at most once.
    pub open spec fn wf(self) -> bool {
        forall|i: int, j: int|
            0 <= i < j < self@.len() ==> (#[trigger] self@[i]).0 != (#[trigger] self@[j]).0
    }

    /// An empty store.
    pub fn new() -> (s: MemoryStore)
        ensures
            s@ == Seq::<(Seq<char>, JsonVal)>::empty(),
            s.wf(),
    {
        let s = MemoryStore { entries: Vec::new() };
        proof {
            assert(s@ =~= Seq::<(Seq<char>, JsonVal)>::empty());
        }
        s
    }

    /// The first position of the key, or the number of entries.
    fn index_of(&self, key: &str) -> (r: usize)
        ensures
            r as int == mem_index_of(self@, key@),
            r <= self.entries@.len(),
    {
        proof {
            lemma_mem_index_of(self@, key@);
        }
        let n = self.entries.len();
        for i in 0..n
            invariant
                n == self.entries@.len(),
                self@.len() == n,
                forall|w: int| 0 <= w < i ==> (#[trigger] self@[w]).0 != key@,
                mem_index_of(self@, key@) >= i,
        {
            if crate::trusted_str::str_eq(self.entries[i].0.as_str(), key) {
                proof {
                    lemma_mem_index_of(self@, key@);
                    assert(self@[i as int].0 == key@);
                    if mem_index_of(self@, key@) > i as int {
                        assert((self@[i as int]).0 != key@);
                    }
                }
                return i;
            }
            proof {
                lemma_mem_index_of(self@, key@);
                if mem_index_of(self@, key@) == i as int {
                    assert(self@[i as int].0 == key@);
                }
            }
        }
        proof {
            lemma_mem_index_of(self@, key@);
            if mem_index_of(self@, key@) < n as int {
                assert(self@[mem_index_of(self@, key@)].0 == key@);
            }
        }
        n
    }

    /// Stores a document under a key, replacing any earlier one.
    pub fn store(&mut self, key: String, value: Json)
        requires
            old(self).wf(),
        ensures
            final(self)@ == mem_insert(old(self)@, key@, value@),
            final(self).wf(),
    {
        let ghost m = self@;
        let ghost kv = key@;
        proof {
            lemma_mem_index_of(m, kv);
        }
        let i = self.index_of(key.as_str());
        if i < self.entries.len() {
            self.entries.set(i, (key, value));
            proof {
                assert(self@ =~= m.update(i as int, (kv, value@)));
                assert forall|a: int, b: int|
                    0 <= a < b < self@.len() implies (#[trigger] self@[a]).0 != (
                    #[trigger] self@[b]).0 by {
                    assert(m[a].0 != m[b].0);
                }
            }
        } else {
            self.entries.push((key, value));
            proof {
                assert(self@ =~= m.push((kv, value@)));
                assert forall|a: int, b: int|
                    0 <= a < b < self@.len() implies (#[trigger] self@[a]).0 != (
                    #[trigger] self@[b]).0 by {
                    if b < m.len() {
                        assert(m[a].0 != m[b].0);
                    } else {
                        assert(self@[b].0 == kv);
                        assert(self@[a] == m[a]);
                    }
                }
            }
        }
    }

    /// The document stored under the key, if any.
    pub fn retrieve(&self, key: &str) -> (r: Option<&Json>)
        ensures
            match r {
                Some(v) => ({
                    let i = mem_index_of(self@, key@);
                    i < self@.len() && view_of(*v) == self@[i].1
                }),
                None => mem_index_of(self@, key@) == self@.len(),
            },
    {
        proof {
            lemma_mem_index_of(self@, key@);
        }
        let i = self.index_of(key);
        if i < self.entries.len() {
            Some(&self.entries[i].1)
        } else {
            None
        }
    }

    /// Removes the document stored under the key; reports whether one was
    /// there.
    pub fn delete(&mut self, key: &str) -> (found: bool)
        requires
            old(self).wf(),
        ensures
            final(self)@ == mem_remove(old(self)@, key@),
            final(self).wf(),
            found == (mem_index_of(old(self)@, key@) < old(self)@.len()),
    {
        let ghost m = self@;
        let ghost kv = key@;
        proof {
            lemma_mem_index_of(m, kv);
        }
        let i = self.index_of(key);
        if i < self.entries.len() {
            self.entries.remove(i);
            proof {
                assert(self@ =~= m.remove(i as int));
                assert forall|a: int, b: int|
                    0 <= a < b < self@.len() implies (#[trigger] self@[a]).0 != (
                    #[trigger] self@[b]).0 by {
                    let a0 = if a < i as int {
                        a
                    } else {
                        a + 1
                    };
                    let b0 = if b < i as int {
                        b
                    } else {
                        b + 1
                    };
                    assert(self@[a] == m[a0]);
                    assert(self@[b] == m[b0]);
                    assert(m[a0].0 != m[b0].0);
                }
            }
            true
        } else {
            false
        }
    }

    /// The stored keys, in insertion order.
    pub fn keys(&self) -> (r: Vec<String>)
        ensures
            r@.len() == self@.len(),
            forall|i: int| 0 <= i < r@.len() ==> (#[trigger] r@[i])@ == self@[i].0,
    {
        let mut out: Vec<String> = Vec::new();
        let n = self.entries.len();
        for i in 0..n
            invariant
                n == self.entries@.len(),
                self@.len() == n,
                out@.len() == i,
                forall|w: int| 0 <= w < i ==> (#[trigger] out@[w])@ == self@[w].0,
        {
            out.push(self.entries[i].0.clone());
        }
        out
    }

    /// Removes everything.
    pub fn clear(&mut self)
        ensures
            final(self)@ == Seq::<(Seq<char>, JsonVal)>::empty(),
            final(self).wf(),
    {
        self.entries = Vec::new();
        proof {
            assert(self@ =~= Seq::<(Seq<char>, JsonVal)>::empty());
        }
    }
}

/// The actions the memory tool performs.
#[derive(Clone, Debug, PartialEq, Eq, Structural)]
pub enum MemoryAction {
    Store,
    Retrieve,
    List,
    Delete,
    Clear,
}

/// The typed arguments of the memory tool.
#[derive(Clone, Debug)]
pub struct MemoryProperties {
    pub action: MemoryAction,
    pub key: Option<String>,
    pub value: Option<Json>,
}

/// The memory tool.
#[derive(Clone, Debug)]
pub struct Memory;

/// The action named by a string, if it is one of the five.
pub open spec fn spec_action_of(s: Seq<char>) -> Option<MemoryAction> {
    if s == "store"@ {
        Some(MemoryAction::Store)
    } else if s == "retrieve"@ {
        Some(MemoryAction::Retrieve)
    } else if s == "list"@ {
        Some(MemoryAction::List)
    } else if s == "delete"@ {
        Some(MemoryAction::Delete)
    } else if s == "clear"@ {
        Some(MemoryAction::Clear)
    } else {
        None
    }
}

/// The typed arguments the memory tool was given, when they fit its
/// shape: a required `action` naming one of the five actions, an optional
/// string `key` (`null` counts as absent), and an optional `value`
/// (`null` counts as absent).
pub open spec fn spec_parse_memory(args: Option<JsonVal>) -> Option<
    (MemoryAction, Option<Seq<char>>, Option<JsonVal>),
> {
    match args {
        Some(a) => {
            if !(a is Obj) {
                None
            } else {
                match get_of(a, "action"@) {
                    Some(act) => if act is Str && spec_action_of(act->Str_0) is Some {
                        let action = spec_action_of(act->Str_0)->Some_0;
                        let key = match get_of(a, "key"@) {
                            Some(k) => if k is Str {
                                Some(Some(k->Str_0))
                            } else if k is Null {
                                Some(None)
                            } else {
                                None
                            },
                            None => Some(None),
                        };
                        let value = match get_of(a, "value"@) {
                            Some(v) => if v is Null {
                                Some(None)
                            } else {
                                Some(Some(v))
                            },
                            None => Some(None),
                        };
                        if key is Some && value is Some {
                            Some((action, key->Some_0, value->Some_0))
                        } else {
                            None
                        }
                    } else {
                        None
                    },
                    None => None,
                }
            }
        },
        None => None,
    }
}

impl Memory {
    /// The declared definition: `action` required, `key` and `value`
    /// optional.
    pub fn def() -> (t: Tool)
        ensures
            t.name@ == "memory"@,
            t.description matches Some(d) && d@
                == "Store and retrieve JSON memories using string keys"@,
            t.input_schema.type_@ == "object"@,
            t.input_schema.required matches Some(req) && req@.len() == 1 && req@[0]@ == "action"@,
            t.input_schema.properties matches Some(props) && props@.len() == 3 && props@[0].0@
                == "action"@ && props@[1].0@ == "key"@ && props@[2].0@ == "value"@
                && crate::json::view_of(props@[0].1) == JsonVal::Obj(
                seq![
                    (
                        "description"@,
                        JsonVal::Str(
                            "The action to perform: 'store' to save a value, 'retrieve' to get a value, 'list' to see all keys, 'delete' to remove a key, or 'clear' to remove all keys"@,
                        ),
                    ),
                    ("type"@, JsonVal::Str("string"@)),
                    (
                        "enum"@,
                        JsonVal::Arr(
                            seq![
                                JsonVal::Str("store"@),
                                JsonVal::Str("retrieve"@),
                                JsonVal::Str("list"@),
                                JsonVal::Str("delete"@),
                                JsonVal::Str("clear"@),
                            ],
                        ),
                    ),
                ],
            ) && crate::json::view_of(props@[1].1) == JsonVal::Obj(
                seq![
                    (
                        "description"@,
                        JsonVal::Str(
                            "The key to store/retrieve/delete the memory under (not required for list/clear)"@,
                        ),
                    ),
                    ("type"@, JsonVal::Str("string"@)),
                ],
            ) && crate::json::view_of(props@[2].1) == JsonVal::Obj(
                seq![
                    (
                        "description"@,
                        JsonVal::Str("The JSON value to store (only required for store action)"@),
                    ),
                    (
                        "type"@,
                        JsonVal::Arr(seq![JsonVal::Str("object"@), JsonVal::Str("null"@)]),
                    ),
                ],
            ),
    {
        let mut actions: Vec<Json> = Vec::new();
        actions.push(Json::Str(String::from_str("store")));
        actions.push(Json::Str(String::from_str("retrieve")));
        actions.push(Json::Str(String::from_str("list")));
        actions.push(Json::Str(String::from_str("delete")));
        actions.push(Json::Str(String::from_str("clear")));
        proof {
            crate::json::lemma_arr_view(actions);
            assert(crate::json::items_view(actions@) =~= seq![
                JsonVal::Str("store"@),
                JsonVal::Str("retrieve"@),
                JsonVal::Str("list"@),
                JsonVal::Str("delete"@),
                JsonVal::Str("clear"@),
            ]);
        }
        let mut action_frag: Vec<(String, Json)> = Vec::new();
        action_frag.push(
            (
                String::from_str("description"),
                Json::Str(
                    String::from_str(
                        "The action to perform: 'store' to save a value, 'retrieve' to get a value, 'list' to see all keys, 'delete' to remove a key, or 'clear' to remove all keys",
                    ),
                ),
            ),
        );
        action_frag.push((String::from_str("type"), Json::Str(String::from_str("string"))));
        action_frag.push((String::from_str("enum"), Json::Arr(actions)));
        let mut key_frag: Vec<(String, Json)> = Vec::new();
        key_frag.push(
            (
                String::from_str("description"),
                Json::Str(
                    String::from_str(
                        "The key to store/retrieve/delete the memory under (not required for list/clear)",
                    ),
                ),
            ),
        );
        key_frag.push((String::from_str("type"), Json::Str(String::from_str("string"))));
        let mut value_types: Vec<Json> = Vec::new();
        value_types.push(Json::Str(String::from_str("object")));
        value_types.push(Json::Str(String::from_str("null")));
        proof {
            crate::json::lemma_arr_view(value_types);
            assert(crate::json::items_view(value_types@) =~= seq![
                JsonVal::Str("object"@),
                JsonVal::Str("null"@),
            ]);
        }
        let mut value_frag: Vec<(String, Json)> = Vec::new();
        value_frag.push(
            (
                String::from_str("description"),
                Json::Str(String::from_str("The JSON value to store (only required for store action)")),
            ),
        );
        value_frag.push((String::from_str("type"), Json::Arr(value_types)));
        proof {
            crate::json::lemma_obj_view(action_frag);
            assert(crate::json::fields_view(action_frag@) =~= seq![
                (
                    "description"@,
                    JsonVal::Str(
                        "The action to perform: 'store' to save a value, 'retrieve' to get a value, 'list' to see all keys, 'delete' to remove a key, or 'clear' to remove all keys"@,
                    ),
                ),
                ("type"@, JsonVal::Str("string"@)),
                ("enum"@, crate::json::view_of(action_frag@[2].1)),
            ]);
            assert(crate::json::view_of(action_frag@[2].1)->Arr_0 =~= seq![
                JsonVal::Str("store"@),
                JsonVal::Str("retrieve"@),
                JsonVal::Str("list"@),
                JsonVal::Str("delete"@),
                JsonVal::Str("clear"@),
            ]);
            crate::json::lemma_obj_view(key_frag);
            assert(crate::json::fields_view(key_frag@) =~= seq![
                (
                    "description"@,
                    JsonVal::Str(
                        "The key to store/retrieve/delete the memory under (not required for list/clear)"@,
                    ),
                ),
                ("type"@, JsonVal::Str("string"@)),
            ]);
            crate::json::lemma_obj_view(value_frag);
            assert(crate::json::fields_view(value_frag@) =~= seq![
                (
                    "description"@,
                    JsonVal::Str("The JSON value to store (only required for store action)"@),
                ),
                ("type"@, crate::json::view_of(value_frag@[1].1)),
            ]);
            assert(crate::json::view_of(value_frag@[1].1)->Arr_0 =~= seq![
                JsonVal::Str("object"@),
                JsonVal::Str("null"@),
            ]);
        }
        let mut props: Vec<(String, Json)> = Vec::new();
        props.push((String::from_str("action"), Json::Obj(action_frag)));
        props.push((String::from_str("key"), Json::Obj(key_frag)));
        props.push((String::from_str("value"), Json::Obj(value_frag)));
        let mut req: Vec<String> = Vec::new();
        req.push(String::from_str("action"));
        Tool {
            name: String::from_str("memory"),
            description: Some(
                String::from_str("Store and retrieve JSON memories using string keys"),
            ),
            input_schema: ToolInputSchema {
                properties: Some(props),
                required: Some(req),
                type_: String::from_str("object"),
            },
        }
    }

    /// Reads the typed arguments; fails exactly when they do not fit the
    /// declared shape.
    pub fn parse_properties(args: Option<&Json>) -> (r: Result<MemoryProperties, ToolError>)
        ensures
            match r {
                Ok(p) => spec_parse_memory(args_view(args)) == Some(
                    (
                        p.action,
                        match p.key {
                            Some(k) => Some(k@),
                            None => None,
                        },
                        match p.value {
                            Some(v) => Some(v@),
                            None => None,
                        },
                    ),
                ),
                Err(e) => spec_parse_memory(args_view(args)) is None && e is ArgumentParse,
            },
    {
        let a = match args {
            Some(a) => a,
            None => {
                return Err(ToolError::ArgumentParse(String::from_str("missing arguments")));
            },
        };
        match a {
            Json::Obj(_) => {}
            _ => {
                return Err(ToolError::ArgumentParse(String::from_str("arguments must be an object")));
            },
        }
        let action = match a.get("action") {
            Some(act) => match act.as_text() {
                Some(s) => {
                    if crate::trusted_str::str_eq(s.as_str(), "store") {
                        MemoryAction::Store
                    } else if crate::trusted_str::str_eq(s.as_str(), "retrieve") {
                        MemoryAction::Retrieve
                    } else if crate::trusted_str::str_eq(s.as_str(), "list") {
                        MemoryAction::List
                    } else if crate::trusted_str::str_eq(s.as_str(), "delete") {
                        MemoryAction::Delete
                    } else if crate::trusted_str::str_eq(s.as_str(), "clear") {
                        MemoryAction::Clear
                    } else {
                        return Err(ToolError::ArgumentParse(String::from_str("unknown action")));
                    }
                },
                None => {
                    return Err(ToolError::ArgumentParse(String::from_str("action must be a string")));
                },
            },
            None => {
                return Err(ToolError::ArgumentParse(String::from_str("missing field action")));
            },
        };
        let key: Option<String> = match a.get("key") {
            Some(k) => match k {
                Json::Str(s) => Some(s.clone()),
                Json::Null => None,
                _ => {
                    return Err(ToolError::ArgumentParse(String::from_str("key must be a string")));
                },
            },
            None => None,
        };
        let value: Option<Json> = match a.get("value") {
            Some(v) => match v {
                Json::Null => None,
                _ => Some(v.clone_json()),
            },
            None => None,
        };
        Ok(MemoryProperties { action, key, value })
    }

    /// Runs one action against the store. Missing keys or values yield an
    /// error-flagged result and leave the store unchanged; every other
    /// outcome is a success-flagged text result.
    pub fn call(store: &mut MemoryStore, props: MemoryProperties) -> (r: CallToolResult)
        requires
            old(store).wf(),
        ensures
            final(store).wf(),
            match props.action {
                MemoryAction::Store => match (props.key, props.value) {
                    (Some(k), Some(v)) => final(store)@ == mem_insert(old(store)@, k@, v@)
                        && r.spec_json() == spec_text_result_json(
                        "Successfully stored memory with key: "@ + k@,
                        false,
                    ),
                    (None, _) => final(store)@ == old(store)@ && r.spec_json()
                        == spec_text_result_json("Key is required for store action"@, true),
                    (Some(_), None) => final(store)@ == old(store)@ && r.spec_json()
                        == spec_text_result_json("Value is required for store action"@, true),
                },
                MemoryAction::Retrieve => final(store)@ == old(store)@ && match props.key {
                    Some(k) => {
                        let i = mem_index_of(old(store)@, k@);
                        if i < old(store)@.len() {
                            r.spec_json() == spec_text_result_json(
                                crate::codec::ser_val(old(store)@[i].1),
                                false,
                            )
                        } else {
                            r.spec_json() == spec_text_result_json(
                                "No memory found for key: "@ + k@,
                                false,
                            )
                        }
                    },
                    None => r.spec_json() == spec_text_result_json(
                        "Key is required for retrieve action"@,
                        true,
                    ),
                },
                MemoryAction::List => final(store)@ == old(store)@ && r.spec_json()
                    == spec_text_result_json(
                    crate::codec::ser_val(
                        JsonVal::Arr(
                            Seq::new(old(store)@.len(), |i: int| JsonVal::Str(old(store)@[i].0)),
                        ),
                    ),
                    false,
                ),
                MemoryAction::Delete => match props.key {
                    Some(k) => final(store)@ == mem_remove(old(store)@, k@) && r.spec_json()
                        == spec_text_result_json(
                        if mem_index_of(old(store)@, k@) < old(store)@.len() {
                            "Successfully deleted memory with key: "@ + k@
                        } else {
                            "No memory found to delete for key: "@ + k@
                        },
                        false,
                    ),
                    None => final(store)@ == old(store)@ && r.spec_json()
                        == spec_text_result_json("Key is required for delete action"@, true),
                },
                MemoryAction::Clear => final(store)@ == Seq::<(Seq<char>, JsonVal)>::empty()
                    && r.spec_json() == spec_text_result_json(
                    "Successfully cleared all memories"@,
                    false,
                ),
            },
    {
        match props.action {
            MemoryAction::Store => {
                let k = match props.key {
                    Some(k) => k,
                    None => {
                        return CallToolResult::text_result(
                            String::from_str("Key is required for store action"),
                            true,
                        );
                    },
                };
                let v = match props.value {
                    Some(v) => v,
                    None => {
                        return CallToolResult::text_result(
                            String::from_str("Value is required for store action"),
                            true,
                        );
                    },
                };
                let msg = String::from_str("Successfully stored memory with key: ").concat(
                    k.as_str(),
                );
                store.store(k, v);
                CallToolResult::text_result(msg, false)
            }
            MemoryAction::Retrieve => {
                let k = match props.key {
                    Some(k) => k,
                    None => {
                        return CallToolResult::text_result(
                            String::from_str("Key is required for retrieve action"),
                            true,
                        );
                    },
                };
                match store.retrieve(k.as_str()) {
                    Some(v) => {
                        let txt = crate::codec::to_text(v);
                        CallToolResult::text_result(txt, false)
                    }
                    None => CallToolResult::text_result(
                        String::from_str("No memory found for key: ").concat(k.as_str()),
                        false,
                    ),
                }
            }
            MemoryAction::List => {
                let keys = store.keys();
                let mut items: Vec<Json> = Vec::new();
                let n = keys.len();
                for i in 0..n
                    invariant
                        n == keys@.len(),
                        items@.len() == i,
                        forall|w: int| 0 <= w < keys@.len() ==> (#[trigger] keys@[w])@ == store@[w].0,
                        keys@.len() == store@.len(),
                        forall|w: int|
                            0 <= w < i ==> view_of(#[trigger] items@[w]) == JsonVal::Str(
                                store@[w].0,
                            ),
                {
                    items.push(Json::Str(keys[i].clone()));
                }
                let arr = Json::Arr(items);
                proof {
                    assert(arr@->Arr_0 =~= Seq::new(
                        store@.len(),
                        |i: int| JsonVal::Str(store@[i].0),
                    ));
                }
                let txt = crate::codec::to_text(&arr);
                CallToolResult::text_result(txt, false)
            }
            MemoryAction::Delete => {
                let k = match props.key {
                    Some(k) => k,
                    None => {
                        return CallToolResult::text_result(
                            String::from_str("Key is required for delete action"),
                            true,
                        );
                    },
                };
                let found = store.delete(k.as_str());
                if found {
                    CallToolResult::text_result(
                        String::from_str("Successfully deleted memory with key: ").concat(
                            k.as_str(),
                        ),
                        false,
                    )
                } else {
                    CallToolResult::text_result(
                        String::from_str("No memory found to delete for key: ").concat(k.as_str()),
                        false,
                    )
                }
            }
            MemoryAction::Clear => {
                store.clear();
                CallToolResult::text_result(
                    String::from_str("Successfully cleared all memories"),
                    false,
                )
            }
        }
    }
}

/// A store followed by a retrieve of the same key finds exactly the
/// stored document, whatever was in the store before.
pub proof fn lemma_store_then_retrieve(m: Seq<(Seq<char>, JsonVal)>, k: Seq<char>, v: JsonVal)
    ensures
        ({
            let m2 = mem_insert(m, k, v);
            mem_index_of(m2, k) < m2.len() && m2[mem_index_of(m2, k)] == (k, v)
        }),
{
    lemma_mem_index_of(m, k);
    let i = mem_index_of(m, k);
    if i < m.len() {
        let m2 = m.update(i, (k, v));
        lemma_mem_index_of(m2, k);
        let j = mem_index_of(m2, k);
        assert(m2[i].0 == k);
        if j < i {
            assert(m2[j] == m[j]);
            assert(m[j].0 != k);
            assert(false);
        }
        if j > i {
            assert(m2[i].0 != k);
            assert(false);
        }
    } else {
        let m2 = m.push((k, v));
        lemma_mem_index_of(m2, k);
        let j = mem_index_of(m2, k);
        assert(m2[m.len() as int].0 == k);
        if j < m.len() {
            assert(m2[j] == m[j]);
            assert(m[j].0 != k);
            assert(false);
        }
        if j == m2.len() {
            assert(m2[m.len() as int].0 != k);
            assert(false);
        }
    }
}

/// A call omitting the required `action` field never reaches the tool:
/// the argument read fails.
pub proof fn lemma_memory_requires_action(args: Option<JsonVal>)
    requires
        match args {
            Some(a) => get_of(a, "action"@) is None,
            None => true,
        },
    ensures
        spec_parse_memory(args) is None,
{
}

} // verus!
