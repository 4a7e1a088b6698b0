//! A plain JSON value model. The proxy's shaping, canonicalization and
//! validation logic is stated and verified over this type; the I/O layer
//! converts to and from its own wire representation at the boundary.
//!
//! Numbers are either 64-bit integers or a carried decimal literal (`Num`),
//! so that the model itself stays free of machine floating point.

use vstd::prelude::*;

verus! {

broadcast use vstd::std_specs::vec::group_vec_axioms, vstd::seq::group_seq_axioms;

/// An executable JSON value.
#[derive(Debug, PartialEq, Eq)]
pub enum Json {
    Null,
    Bool(bool),
    Int(i64),
    /// A non-integer number, carried as its decimal literal.
    Num(String),
    Str(String),
    Arr(Vec<Json>),
    /// Object fields in insertion order; keys are unique in well-formed values.
    Obj(Vec<(String, Json)>),
}

/// The mathematical shape of a JSON value.
pub enum SpecJson {
    Null,
    Bool(bool),
    Int(int),
    Num(Seq<char>),
    Str(Seq<char>),
    Arr(Seq<SpecJson>),
    Obj(Seq<(Seq<char>, SpecJson)>),
}

/// The mathematical value of an executable JSON value.
pub open spec fn view_json(v: Json) -> SpecJson
    decreases v, 0nat,
{
    match v {
        Json::Null => SpecJson::Null,
        Json::Bool(b) => SpecJson::Bool(b),
        Json::Int(n) => SpecJson::Int(n as int),
        Json::Num(s) => SpecJson::Num(s@),
        Json::Str(s) => SpecJson::Str(s@),
        Json::Arr(items) => SpecJson::Arr(view_arr(items@)),
        Json::Obj(fields) => SpecJson::Obj(view_obj(fields@)),
    }
}

/// Element-wise view of an array's items.
pub open spec fn view_arr(s: Seq<Json>) -> Seq<SpecJson>
    decreases s, s.len() + 1,
{
    if s.len() == 0 {
        Seq::empty()
    } else {
        seq![view_json(s.first())] + view_arr(s.drop_first())
    }
}

/// Element-wise view of an object's fields.
pub open spec fn view_obj(s: Seq<(String, Json)>) -> Seq<(Seq<char>, SpecJson)>
    decreases s, s.len() + 1,
{
    if s.len() == 0 {
        Seq::empty()
    } else {
        seq![(s.first().0@, view_json(s.first().1))] + view_obj(s.drop_first())
    }
}

/// `view_arr` maps element-wise.
pub proof fn lemma_view_arr_index(s: Seq<Json>)
    ensures
        view_arr(s).len() == s.len(),
        forall|i: int| 0 <= i < s.len() ==> view_arr(s)[i] == view_json(#[trigger] s[i]),
    decreases s.len(),
{
    if s.len() > 0 {
        lemma_view_arr_index(s.drop_first());
        assert forall|i: int| 0 <= i < s.len() implies view_arr(s)[i] == view_json(
            #[trigger] s[i],
        ) by {
            if i > 0 {
                assert(s.drop_first()[i - 1] == s[i]);
            }
        }
    }
}

/// `view_obj` maps element-wise.
pub proof fn lemma_view_obj_index(s: Seq<(String, Json)>)
    ensures
        view_obj(s).len() == s.len(),
        forall|i: int|
            0 <= i < s.len() ==> view_obj(s)[i] == ((#[trigger] s[i]).0@, view_json(s[i].1)),
    decreases s.len(),
{
    if s.len() > 0 {
        lemma_view_obj_index(s.drop_first());
        assert forall|i: int| 0 <= i < s.len() implies view_obj(s)[i] == ((#[trigger] s[i]).0@,
        view_json(s[i].1)) by {
            if i > 0 {
                assert(s.drop_first()[i - 1] == s[i]);
            }
        }
    }
}

/// Replace the value at the first occurrence of `key`, or append the pair
/// when the key is absent.
pub open spec fn spec_obj_set(
    es: Seq<(Seq<char>, SpecJson)>,
    key: Seq<char>,
    v: SpecJson,
) -> Seq<(Seq<char>, SpecJson)>
    decreases es.len(),
{
    if es.len() == 0 {
        seq![(key, v)]
    } else if es.first().0 == key {
        seq![(key, v)] + es.drop_first()
    } else {
        seq![es.first()] + spec_obj_set(es.drop_first(), key, v)
    }
}

/// Set a key in an object's field list: the value at the first occurrence
/// of `key` is replaced, and an absent key is appended last.
pub fn obj_set_key(entries: Vec<(String, Json)>, key: &str, v: Json) -> (r: Vec<(String, Json)>)
    ensures
        view_obj(r@) == spec_obj_set(view_obj(entries@), key@, view_json(v)),
    decreases entries@.len(),
{
    let ghost allv = view_obj(entries@);
    let mut es = entries;
    if es.len() == 0 {
        let mut out: Vec<(String, Json)> = Vec::new();
        out.push((key.to_owned(), v));
        proof {
            lemma_view_obj_index(out@);
            assert(view_obj(out@) =~= seq![(key@, view_json(v))]);
        }
        return out;
    }
    let head = es.remove(0);
    proof {
        assert(allv =~= seq![(head.0@, view_json(head.1))] + view_obj(es@)) by {
            assert(es@ =~= entries@.drop_first());
        }
    }
    if crate::text::str_eq(head.0.as_str(), key) {
        let mut out: Vec<(String, Json)> = Vec::new();
        out.push((key.to_owned(), v));
        let ghost before_append = out@;
        let mut rest = es;
        out.append(&mut rest);
        proof {
            assert(allv.first().0 == key@);
            assert(allv.drop_first() =~= view_obj(es@));
            lemma_view_obj_concat(before_append, es@);
            lemma_view_obj_index(before_append);
            assert(view_obj(before_append) =~= seq![(key@, view_json(v))]);
            assert(view_obj(out@) =~= seq![(key@, view_json(v))] + view_obj(es@));
        }
        out
    } else {
        let ghost h = (head.0@, view_json(head.1));
        let ghost esv = view_obj(es@);
        let mut tail = obj_set_key(es, key, v);
        let ghost tailv = tail@;
        let mut out: Vec<(String, Json)> = Vec::new();
        out.push(head);
        let ghost before_append = out@;
        out.append(&mut tail);
        proof {
            assert(allv.first() == h && allv.first().0 != key@);
            assert(allv.drop_first() =~= esv);
            lemma_view_obj_concat(before_append, tailv);
            lemma_view_obj_index(before_append);
            assert(view_obj(before_append) =~= seq![h]);
            assert(view_obj(out@) =~= seq![h] + spec_obj_set(esv, key@, view_json(v)));
            assert(spec_obj_set(allv, key@, view_json(v)) == seq![allv.first()] + spec_obj_set(
                allv.drop_first(),
                key@,
                view_json(v),
            ));
        }
        out
    }
}

/// `view_obj` distributes over concatenation.
pub proof fn lemma_view_obj_concat(a: Seq<(String, Json)>, b: Seq<(String, Json)>)
    ensures
        view_obj(a + b) =~= view_obj(a) + view_obj(b),
{
    lemma_view_obj_index(a + b);
    lemma_view_obj_index(a);
    lemma_view_obj_index(b);
    assert forall|i: int| 0 <= i < a.len() + b.len() implies view_obj(a + b)[i] == (view_obj(a)
        + view_obj(b))[i] by {
        if i < a.len() {
            assert((a + b)[i] == a[i]);
        } else {
            assert((a + b)[i] == b[i - a.len()]);
        }
    }
}

/// Appending an element to the underlying field sequence appends its view.
pub proof fn lemma_view_obj_push(s: Seq<(String, Json)>, kv: (String, Json))
    ensures
        view_obj(s.push(kv)) =~= view_obj(s).push((kv.0@, view_json(kv.1))),
{
    lemma_view_obj_index(s.push(kv));
    lemma_view_obj_index(s);
    assert forall|i: int| 0 <= i < s.len() implies view_obj(s.push(kv))[i] == view_obj(s)[i] by {
        assert(s.push(kv)[i] == s[i]);
    }
    assert(s.push(kv)[s.len() as int] == kv);
}

/// Appending an element to the underlying item sequence appends its view.
pub proof fn lemma_view_arr_push(s: Seq<Json>, v: Json)
    ensures
        view_arr(s.push(v)) =~= view_arr(s).push(view_json(v)),
{
    lemma_view_arr_index(s.push(v));
    lemma_view_arr_index(s);
    assert forall|i: int| 0 <= i < s.len() implies view_arr(s.push(v))[i] == view_arr(s)[i] by {
        assert(s.push(v)[i] == s[i]);
    }
    assert(s.push(v)[s.len() as int] == v);
}

impl SpecJson {
    /// Whether object keys are unique, recursively.
    pub open spec fn well_formed(self) -> bool
        decreases self,
    {
        match self {
            SpecJson::Arr(items) => forall|i: int|
                0 <= i < items.len() ==> (#[trigger] items[i]).well_formed(),
            SpecJson::Obj(fields) => {
                &&& forall|i: int, j: int|
                    0 <= i < j < fields.len() ==> (#[trigger] fields[i]).0 != (
                    #[trigger] fields[j]).0
                &&& forall|i: int| 0 <= i < fields.len() ==> (#[trigger] fields[i]).1.well_formed()
            },
            _ => true,
        }
    }

    /// Whether an object field list has a field with the given key.
    pub open spec fn obj_has_key(fields: Seq<(Seq<char>, SpecJson)>, key: Seq<char>) -> bool {
        exists|i: int| 0 <= i < fields.len() && (#[trigger] fields[i]).0 == key
    }
}

impl Json {
    /// Whether this value is `null`.
    pub fn is_null(&self) -> (r: bool)
        ensures
            r == (view_json(*self) is Null),
    {
        match self {
            Json::Null => true,
            _ => false,
        }
    }

    /// A deep copy.
    pub fn duplicate(&self) -> (r: Json)
        ensures
            view_json(r) == view_json(*self),
        decreases self,
    {
        match self {
            Json::Null => Json::Null,
            Json::Bool(b) => Json::Bool(*b),
            Json::Int(n) => Json::Int(*n),
            Json::Num(s) => Json::Num(s.clone()),
            Json::Str(s) => Json::Str(s.clone()),
            Json::Arr(items) => {
                let n = items.len();
                let mut out: Vec<Json> = Vec::new();
                let mut i: usize = 0;
                while i < n
                    invariant
                        n == items@.len(),
                        (*self) is Arr,
                        (*self)->Arr_0 == *items,
                        i <= n,
                        out@.len() == i,
                        forall|t: int|
                            0 <= t < i ==> view_json(#[trigger] out@[t]) == view_json(items@[t]),
                    decreases n - i,
                {
                    proof {
                        assert(decreases_to!(*self => (*self)->Arr_0));
                        assert(decreases_to!(*items => (*items)@));
                        assert(decreases_to!(items@ => items@[i as int]));
                    }
                    let e = items[i].duplicate();
                    out.push(e);
                    i = i + 1;
                }
                proof {
                    lemma_view_arr_index(out@);
                    lemma_view_arr_index(items@);
                    assert forall|t: int| 0 <= t < n implies view_arr(out@)[t] == view_arr(
                        items@,
                    )[t] by {
                        assert(view_json(out@[t]) == view_json(items@[t]));
                    }
                    assert(view_arr(out@) =~= view_arr(items@));
                }
                Json::Arr(out)
            },
            Json::Obj(fields) => {
                let n = fields.len();
                let mut out: Vec<(String, Json)> = Vec::new();
                let mut i: usize = 0;
                while i < n
                    invariant
                        n == fields@.len(),
                        (*self) is Obj,
                        (*self)->Obj_0 == *fields,
                        i <= n,
                        out@.len() == i,
                        forall|t: int|
                            0 <= t < i ==> (#[trigger] out@[t]).0@ == fields@[t].0@ && view_json(
                                out@[t].1,
                            ) == view_json(fields@[t].1),
                    decreases n - i,
                {
                    proof {
                        assert(decreases_to!(*self => (*self)->Obj_0));
                        assert(decreases_to!(*fields => (*fields)@));
                        assert(decreases_to!(fields@ => fields@[i as int]));
                        assert(decreases_to!(fields@[i as int] => fields@[i as int].1));
                    }
                    let k = fields[i].0.clone();
                    let v = fields[i].1.duplicate();
                    out.push((k, v));
                    i = i + 1;
                }
                proof {
                    lemma_view_obj_index(out@);
                    lemma_view_obj_index(fields@);
                    assert forall|t: int| 0 <= t < n implies view_obj(out@)[t] == view_obj(
                        fields@,
                    )[t] by {
                        assert(out@[t].0@ == fields@[t].0@ && view_json(out@[t].1) == view_json(
                            fields@[t].1,
                        ));
                    }
                    assert(view_obj(out@) =~= view_obj(fields@));
                }
                Json::Obj(out)
            },
        }
    }

    /// Look up a field of an object value by key; `None` on non-objects and
    /// missing keys. On duplicate keys the first match wins.
    pub fn get<'a>(&'a self, key: &str) -> (r: Option<&'a Json>)
        ensures
            match r {
                Some(v) => {
                    &&& view_json(*self) is Obj
                    &&& exists|i: int|
                        {
                            &&& 0 <= i < view_json(*self)->Obj_0.len()
                            &&& (#[trigger] view_json(*self)->Obj_0[i]).0 == key@
                            &&& view_json(*v) == view_json(*self)->Obj_0[i].1
                        }
                },
                None => view_json(*self) is Obj ==> !SpecJson::obj_has_key(
                    view_json(*self)->Obj_0,
                    key@,
                ),
            },
    {
        match self {
            Json::Obj(fields) => {
                proof {
                    lemma_view_obj_index(fields@);
                }
                let n = fields.len();
                let mut i: usize = 0;
                while i < n
                    invariant
                        n == fields@.len(),
                        view_json(*self)->Obj_0 == view_obj(fields@),
                        view_json(*self) is Obj,
                        view_obj(fields@).len() == n,
                        forall|t: int|
                            0 <= t < view_obj(fields@).len() ==> #[trigger] view_obj(fields@)[t]
                                == (fields@[t].0@, view_json(fields@[t].1)),
                        i <= n,
                        forall|j: int| 0 <= j < i ==> (#[trigger] view_obj(fields@)[j]).0 != key@,
                    decreases n - i,
                {
                    if crate::text::str_eq(fields[i].0.as_str(), key) {
                        assert(view_obj(fields@)[i as int].0 == key@);
                        return Some(&fields[i].1);
                    }
                    i = i + 1;
                }
                None
            },
            _ => None,
        }
    }
}

} // verus!
