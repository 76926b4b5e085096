//! The JSON document model: a mathematical value (`JsonVal`) and the
//! executable document (`Json`) whose view it is.

use vstd::prelude::*;

verus! {

broadcast use vstd::seq::group_seq_axioms, vstd::std_specs::vec::group_vec_axioms;

/// The mathematical model of a JSON document. Integers are unbounded,
/// strings are character sequences, and objects keep their field order;
/// duplicate field names are allowed and the first occurrence wins.
pub enum JsonVal {
    Null,
    Bool(bool),
    Int(int),
    Str(Seq<char>),
    Arr(Seq<JsonVal>),
    Obj(Seq<(Seq<char>, JsonVal)>),
}

/// A JSON document as the library holds it at run time. Numbers are
/// 64-bit integers: the protocol uses ids, codes and counts only.
#[derive(Debug)]
pub enum Json {
    Null,
    Bool(bool),
    Int(i64),
    Str(String),
    Arr(Vec<Json>),
    Obj(Vec<(String, Json)>),
}

/// The model of an executable document.
pub open spec fn view_of(j: Json) -> JsonVal
    decreases j,
{
    match j {
        Json::Null => JsonVal::Null,
        Json::Bool(b) => JsonVal::Bool(b),
        Json::Int(i) => JsonVal::Int(i as int),
        Json::Str(s) => JsonVal::Str(s@),
        Json::Arr(a) => JsonVal::Arr(
            Seq::new(
                a@.len(),
                |i: int|
                    if 0 <= i < a@.len() {
                        view_of(a@[i])
                    } else {
                        JsonVal::Null
                    },
            ),
        ),
        Json::Obj(o) => JsonVal::Obj(
            Seq::new(
                o@.len(),
                |i: int|
                    if 0 <= i < o@.len() {
                        (o@[i].0@, view_of(o@[i].1))
                    } else {
                        (Seq::empty(), JsonVal::Null)
                    },
            ),
        ),
    }
}

impl View for Json {
    type V = JsonVal;

    open spec fn view(&self) -> JsonVal {
        view_of(*self)
    }
}

impl Clone for Json {
    /// The copy is equal in the model.
    fn clone(&self) -> (r: Self)
        ensures
            r@ == self@,
    {
        self.clone_json()
    }
}

/// Integers small enough for the executable document.
pub open spec fn wf_val(v: JsonVal) -> bool
    decreases v,
{
    match v {
        JsonVal::Int(i) => i64::MIN <= i <= i64::MAX,
        JsonVal::Arr(a) => forall|i: int| 0 <= i < a.len() ==> wf_val(#[trigger] a[i]),
        JsonVal::Obj(o) => forall|i: int| 0 <= i < o.len() ==> wf_val(#[trigger] o[i].1),
        _ => true,
    }
}

/// Every executable document models a well-formed value.
pub proof fn lemma_view_wf(j: Json)
    ensures
        wf_val(j@),
    decreases j,
{
    match j {
        Json::Arr(a) => {
            let s = j@->Arr_0;
            assert forall|i: int| 0 <= i < s.len() implies wf_val(#[trigger] s[i]) by {
                assert(s[i] == view_of(a@[i]));
                lemma_view_wf(a@[i]);
            }
        }
        Json::Obj(o) => {
            let s = j@->Obj_0;
            assert forall|i: int| 0 <= i < s.len() implies wf_val(#[trigger] s[i].1) by {
                assert(s[i].1 == view_of(o@[i].1));
                lemma_view_wf(o@[i].1);
            }
        }
        _ => {}
    }
}

/// The first field with the given name, if any.
pub open spec fn lookup_field(fields: Seq<(Seq<char>, JsonVal)>, key: Seq<char>) -> Option<JsonVal>
    decreases fields.len(),
{
    if fields.len() == 0 {
        None
    } else if fields[0].0 == key {
        Some(fields[0].1)
    } else {
        lookup_field(fields.drop_first(), key)
    }
}

/// Field lookup lifted to any value: `None` off objects.
pub open spec fn get_of(v: JsonVal, key: Seq<char>) -> Option<JsonVal> {
    match v {
        JsonVal::Obj(fields) => lookup_field(fields, key),
        _ => None,
    }
}

/// Relates `lookup_field` to a scan position: if no field among the first
/// `n` has the key, the lookup continues in the rest.
pub proof fn lemma_lookup_skip(fields: Seq<(Seq<char>, JsonVal)>, key: Seq<char>, n: int)
    requires
        0 <= n <= fields.len(),
        forall|i: int| 0 <= i < n ==> (#[trigger] fields[i]).0 != key,
    ensures
        lookup_field(fields, key) == lookup_field(fields.skip(n), key),
    decreases n,
{
    if n > 0 {
        assert(fields.skip(1) =~= fields.drop_first());
        lemma_lookup_skip(fields.drop_first(), key, n - 1);
        assert(fields.drop_first().skip(n - 1) =~= fields.skip(n));
    } else {
        assert(fields.skip(0) =~= fields);
    }
}

impl Json {
    /// Looks up the first field with the given name; `None` when this is
    /// not an object or the field is absent.
    pub fn get<'a>(&'a self, key: &str) -> (r: Option<&'a Json>)
        ensures
            match r {
                Some(j) => get_of(self@, key@) == Some(j@),
                None => get_of(self@, key@) is None,
            },
    {
        match self {
            Json::Obj(fields) => {
                let ghost fseq = self@->Obj_0;
                proof {
                    assert(self@ is Obj);
                    assert(fseq.len() == fields@.len());
                    assert(forall|i: int|
                        0 <= i < fseq.len() ==> #[trigger] fseq[i] == (
                            fields@[i].0@,
                            view_of(fields@[i].1),
                        ));
                }
                let n = fields.len();
                for k in 0..n
                    invariant
                        n == fields@.len(),
                        fseq == self@->Obj_0,
                        self@ is Obj,
                        fseq.len() == fields@.len(),
                        forall|i: int|
                            0 <= i < fseq.len() ==> #[trigger] fseq[i] == (
                                fields@[i].0@,
                                view_of(fields@[i].1),
                            ),
                        forall|i: int| 0 <= i < k ==> (#[trigger] fseq[i]).0 != key@,
                {
                    if crate::trusted_str::str_eq(fields[k].0.as_str(), key) {
                        proof {
                            lemma_lookup_skip(fseq, key@, k as int);
                            assert(fseq.skip(k as int)[0] == fseq[k as int]);
                            assert(fseq.skip(k as int).len() > 0);
                        }
                        return Some(&fields[k].1);
                    }
                }
                proof {
                    lemma_lookup_skip(fseq, key@, n as int);
                    assert(fseq.skip(n as int) =~= Seq::<(Seq<char>, JsonVal)>::empty());
                }
                None
            }
            _ => None,
        }
    }

    /// The text of a string document.
    pub fn as_text<'a>(&'a self) -> (r: Option<&'a String>)
        ensures
            match r {
                Some(s) => self@ == JsonVal::Str(s@),
                None => !(self@ is Str),
            },
    {
        match self {
            Json::Str(s) => Some(s),
            _ => None,
        }
    }

    /// The value of an integer document.
    pub fn as_int(&self) -> (r: Option<i64>)
        ensures
            match r {
                Some(i) => self@ == JsonVal::Int(i as int),
                None => !(self@ is Int),
            },
    {
        match self {
            Json::Int(i) => Some(*i),
            _ => None,
        }
    }

    /// A copy of the document, equal in the model.
    pub fn clone_json(&self) -> (r: Json)
        ensures
            r@ == self@,
        decreases self,
    {
        match self {
            Json::Null => Json::Null,
            Json::Bool(b) => Json::Bool(*b),
            Json::Int(i) => Json::Int(*i),
            Json::Str(s) => Json::Str(s.clone()),
            Json::Arr(a) => {
                let r = Json::Arr(clone_items(a));
                proof {
                    assert(r@->Arr_0 =~= self@->Arr_0);
                }
                r
            }
            Json::Obj(o) => {
                let r = Json::Obj(clone_fields(o));
                proof {
                    assert(r@->Obj_0 =~= self@->Obj_0);
                }
                r
            }
        }
    }

    /// The truth value of a boolean document.
    pub fn as_bool(&self) -> (r: Option<bool>)
        ensures
            match r {
                Some(b) => self@ == JsonVal::Bool(b),
                None => !(self@ is Bool),
            },
    {
        match self {
            Json::Bool(b) => Some(*b),
            _ => None,
        }
    }
}


/// A copy of a document list, elementwise equal in the model.
fn clone_items(a: &Vec<Json>) -> (out: Vec<Json>)
    ensures
        out@.len() == a@.len(),
        forall|w: int| 0 <= w < a@.len() ==> view_of(#[trigger] out@[w]) == view_of(a@[w]),
    decreases a,
{
    let mut out: Vec<Json> = Vec::new();
    let n = a.len();
    for q in 0..n
        invariant
            n == a@.len(),
            out@.len() == q,
            forall|w: int| 0 <= w < q ==> view_of(#[trigger] out@[w]) == view_of(a@[w]),
        decreases n - q,
    {
        proof {
            assert(decreases_to!(*a => a@));
            assert(decreases_to!(a@ => a@[q as int]));
        }
        out.push(a[q].clone_json());
    }
    out
}

/// A copy of a field list, elementwise equal in the model.
fn clone_fields(o: &Vec<(String, Json)>) -> (out: Vec<(String, Json)>)
    ensures
        out@.len() == o@.len(),
        forall|w: int|
            0 <= w < o@.len() ==> (#[trigger] out@[w]).0@ == o@[w].0@ && view_of(out@[w].1)
                == view_of(o@[w].1),
    decreases o,
{
    let mut out: Vec<(String, Json)> = Vec::new();
    let n = o.len();
    for q in 0..n
        invariant
            n == o@.len(),
            out@.len() == q,
            forall|w: int|
                0 <= w < q ==> (#[trigger] out@[w]).0@ == o@[w].0@ && view_of(out@[w].1)
                    == view_of(o@[w].1),
        decreases n - q,
    {
        proof {
            assert(decreases_to!(*o => o@));
            assert(decreases_to!(o@ => o@[q as int]));
            assert(decreases_to!(o@[q as int] => o@[q as int].1));
        }
        out.push((o[q].0.clone(), o[q].1.clone_json()));
    }
    out
}


/// The model of a field list.
pub open spec fn fields_view(fields: Seq<(String, Json)>) -> Seq<(Seq<char>, JsonVal)> {
    Seq::new(fields.len(), |q: int| (fields[q].0@, view_of(fields[q].1)))
}

/// The model of a document list.
pub open spec fn items_view(items: Seq<Json>) -> Seq<JsonVal> {
    Seq::new(items.len(), |q: int| view_of(items[q]))
}

/// An object document models the field list's model.
pub proof fn lemma_obj_view(fields: Vec<(String, Json)>)
    ensures
        view_of(Json::Obj(fields)) == JsonVal::Obj(fields_view(fields@)),
{
    assert(view_of(Json::Obj(fields))->Obj_0 =~= fields_view(fields@));
}

/// An array document models the item list's model.
pub proof fn lemma_arr_view(items: Vec<Json>)
    ensures
        view_of(Json::Arr(items)) == JsonVal::Arr(items_view(items@)),
{
    assert(view_of(Json::Arr(items))->Arr_0 =~= items_view(items@));
}

} // verus!
