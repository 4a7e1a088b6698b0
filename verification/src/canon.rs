//! Canonical JSON: recursive key-sorting of objects and a deterministic
//! text rendering, used to fingerprint exposed surfaces and profiles.

use crate::json::{
    lemma_view_obj_index, view_json, view_obj, Json, SpecJson,
};
use crate::text::push_char;
use vstd::multiset::Multiset;
use vstd::prelude::*;

verus! {

broadcast use vstd::std_specs::vec::group_vec_axioms, vstd::seq::group_seq_axioms;

/// Lexicographic order on character sequences, by code point.
pub open spec fn lex_le(a: Seq<char>, b: Seq<char>) -> bool
    decreases a.len(),
{
    if a.len() == 0 {
        true
    } else if b.len() == 0 {
        false
    } else if (a.first() as int) < (b.first() as int) {
        true
    } else if (a.first() as int) > (b.first() as int) {
        false
    } else {
        lex_le(a.drop_first(), b.drop_first())
    }
}

/// `lex_le` is total.
pub proof fn lemma_lex_le_total(a: Seq<char>, b: Seq<char>)
    ensures
        lex_le(a, b) || lex_le(b, a),
    decreases a.len(),
{
    if a.len() > 0 && b.len() > 0 && a.first() == b.first() {
        lemma_lex_le_total(a.drop_first(), b.drop_first());
    }
}

/// `lex_le` is antisymmetric.
pub proof fn lemma_lex_le_antisymmetric(a: Seq<char>, b: Seq<char>)
    requires
        lex_le(a, b),
        lex_le(b, a),
    ensures
        a == b,
    decreases a.len(),
{
    if a.len() > 0 && b.len() > 0 && a.first() == b.first() {
        lemma_lex_le_antisymmetric(a.drop_first(), b.drop_first());
        assert(a =~= seq![a.first()] + a.drop_first());
        assert(b =~= seq![b.first()] + b.drop_first());
    } else if a.len() == 0 && b.len() == 0 {
        assert(a =~= b);
    }
}

/// `lex_le` is transitive.
pub proof fn lemma_lex_le_transitive(a: Seq<char>, b: Seq<char>, c: Seq<char>)
    requires
        lex_le(a, b),
        lex_le(b, c),
    ensures
        lex_le(a, c),
    decreases a.len(),
{
    if a.len() > 0 && b.len() > 0 && c.len() > 0 && a.first() == b.first() && b.first()
        == c.first() {
        lemma_lex_le_transitive(a.drop_first(), b.drop_first(), c.drop_first());
    }
}

/// `lex_le` is reflexive.
pub proof fn lemma_lex_le_reflexive(a: Seq<char>)
    ensures
        lex_le(a, a),
    decreases a.len(),
{
    if a.len() > 0 {
        lemma_lex_le_reflexive(a.drop_first());
    }
}

/// Compare two strings lexicographically by code point.
pub fn str_le(a: &str, b: &str) -> (r: bool)
    ensures
        r == lex_le(a@, b@),
{
    let na = a.unicode_len();
    let nb = b.unicode_len();
    let mut i: usize = 0;
    proof {
        assert(a@.skip(0) =~= a@);
        assert(b@.skip(0) =~= b@);
    }
    loop
        invariant
            na == a@.len(),
            nb == b@.len(),
            i <= na,
            i <= nb,
            forall|t: int| 0 <= t < i ==> a@[t] == b@[t],
            lex_le(a@, b@) == lex_le(a@.skip(i as int), b@.skip(i as int)),
        decreases na - i,
    {
        if i >= na {
            proof {
                assert(a@.skip(i as int).len() == 0);
            }
            return true;
        }
        if i >= nb {
            proof {
                assert(b@.skip(i as int).len() == 0);
                assert(a@.skip(i as int).len() > 0);
            }
            return false;
        }
        let ca = a.get_char(i);
        let cb = b.get_char(i);
        proof {
            assert(a@.skip(i as int).first() == a@[i as int]);
            assert(b@.skip(i as int).first() == b@[i as int]);
            assert(a@.skip(i as int).drop_first() =~= a@.skip(i + 1));
            assert(b@.skip(i as int).drop_first() =~= b@.skip(i + 1));
        }
        if (ca as u32) < (cb as u32) {
            return true;
        }
        if (ca as u32) > (cb as u32) {
            return false;
        }
        i = i + 1;
    }
}

/// Object fields sorted by key, in ascending `lex_le` order.
pub open spec fn fields_sorted(s: Seq<(Seq<char>, SpecJson)>) -> bool {
    forall|i: int, j: int| 0 <= i < j < s.len() ==> lex_le((#[trigger] s[i]).0, (#[trigger] s[j]).0)
}

/// Insert a field into a key-sorted field list, after any equal keys.
pub open spec fn spec_insert_field(
    s: Seq<(Seq<char>, SpecJson)>,
    x: (Seq<char>, SpecJson),
) -> Seq<(Seq<char>, SpecJson)>
    decreases s.len(),
{
    if s.len() == 0 {
        seq![x]
    } else if lex_le(s.last().0, x.0) {
        s.push(x)
    } else {
        spec_insert_field(s.drop_last(), x).push(s.last())
    }
}

/// Key-sort a field list by insertion, stably.
pub open spec fn spec_sort_fields(s: Seq<(Seq<char>, SpecJson)>) -> Seq<(Seq<char>, SpecJson)>
    decreases s.len(),
{
    if s.len() == 0 {
        Seq::empty()
    } else {
        spec_insert_field(spec_sort_fields(s.drop_last()), s.last())
    }
}

/// Inserting preserves the multiset of fields.
pub proof fn lemma_insert_field_multiset(s: Seq<(Seq<char>, SpecJson)>, x: (Seq<char>, SpecJson))
    ensures
        spec_insert_field(s, x).to_multiset() == s.to_multiset().insert(x),
        spec_insert_field(s, x).len() == s.len() + 1,
    decreases s.len(),
{
    broadcast use vstd::seq_lib::group_to_multiset_ensures;

    if s.len() == 0 {
        assert(seq![x] =~= Seq::<(Seq<char>, SpecJson)>::empty().push(x));
        assert(Seq::<(Seq<char>, SpecJson)>::empty().to_multiset()
            == Multiset::<(Seq<char>, SpecJson)>::empty());
        assert(spec_insert_field(s, x).to_multiset() =~= s.to_multiset().insert(x));
    } else if lex_le(s.last().0, x.0) {
        assert(s.push(x).to_multiset() == s.to_multiset().insert(x));
    } else {
        lemma_insert_field_multiset(s.drop_last(), x);
        assert(s =~= s.drop_last().push(s.last()));
        assert(s.to_multiset() == s.drop_last().to_multiset().insert(s.last()));
        assert(spec_insert_field(s, x).to_multiset() == spec_insert_field(
            s.drop_last(),
            x,
        ).to_multiset().insert(s.last()));
        assert(spec_insert_field(s, x).to_multiset() =~= s.to_multiset().insert(x));
    }
}

/// Sorting preserves the multiset of fields.
pub proof fn lemma_sort_fields_multiset(s: Seq<(Seq<char>, SpecJson)>)
    ensures
        spec_sort_fields(s).to_multiset() == s.to_multiset(),
        spec_sort_fields(s).len() == s.len(),
    decreases s.len(),
{
    broadcast use vstd::seq_lib::group_to_multiset_ensures;

    if s.len() > 0 {
        lemma_sort_fields_multiset(s.drop_last());
        lemma_insert_field_multiset(spec_sort_fields(s.drop_last()), s.last());
        assert(s =~= s.drop_last().push(s.last()));
        assert(s.to_multiset() == s.drop_last().to_multiset().insert(s.last()));
    }
}

/// Inserting into a key-sorted list keeps it sorted.
pub proof fn lemma_insert_field_sorted(s: Seq<(Seq<char>, SpecJson)>, x: (Seq<char>, SpecJson))
    requires
        fields_sorted(s),
    ensures
        fields_sorted(spec_insert_field(s, x)),
    decreases s.len(),
{
    if s.len() == 0 {
    } else if lex_le(s.last().0, x.0) {
        let r = s.push(x);
        assert forall|i: int, j: int| 0 <= i < j < r.len() implies lex_le(
            (#[trigger] r[i]).0,
            (#[trigger] r[j]).0,
        ) by {
            if j == r.len() - 1 {
                if i == s.len() - 1 {
                } else {
                    lemma_lex_le_transitive(r[i].0, s.last().0, x.0);
                }
            }
        }
    } else {
        lemma_lex_le_total(s.last().0, x.0);
        assert(lex_le(x.0, s.last().0));
        assert(fields_sorted(s.drop_last()));
        lemma_insert_field_sorted(s.drop_last(), x);
        let pre = spec_insert_field(s.drop_last(), x);
        let r = pre.push(s.last());
        lemma_insert_field_multiset(s.drop_last(), x);
        // Every element of `pre` is either x or from s.drop_last(); both are
        // at most s.last() under the key order.
        assert forall|i: int, j: int| 0 <= i < j < r.len() implies lex_le(
            (#[trigger] r[i]).0,
            (#[trigger] r[j]).0,
        ) by {
            if j == r.len() - 1 {
                lemma_insert_field_element_bound(s.drop_last(), x, s.last(), i);
            }
        }
    }
}

/// Helper: every element of an insertion result is key-bounded by any bound
/// on both the original elements and the inserted one.
proof fn lemma_insert_field_element_bound(
    s: Seq<(Seq<char>, SpecJson)>,
    x: (Seq<char>, SpecJson),
    bound: (Seq<char>, SpecJson),
    i: int,
)
    requires
        forall|t: int| 0 <= t < s.len() ==> lex_le((#[trigger] s[t]).0, bound.0),
        lex_le(x.0, bound.0),
        0 <= i < spec_insert_field(s, x).len(),
    ensures
        lex_le(spec_insert_field(s, x)[i].0, bound.0),
    decreases s.len(),
{
    if s.len() == 0 {
    } else if lex_le(s.last().0, x.0) {
    } else {
        if i == spec_insert_field(s, x).len() - 1 {
        } else {
            lemma_insert_field_element_bound(s.drop_last(), x, bound, i);
        }
    }
}

/// Sorting yields a key-sorted list.
pub proof fn lemma_sort_fields_sorted(s: Seq<(Seq<char>, SpecJson)>)
    ensures
        fields_sorted(spec_sort_fields(s)),
    decreases s.len(),
{
    if s.len() > 0 {
        lemma_sort_fields_sorted(s.drop_last());
        lemma_insert_field_sorted(spec_sort_fields(s.drop_last()), s.last());
    }
}

/// Two key-sorted field lists with the same multiset and no repeated keys
/// are equal: the canonical order is unique.
pub proof fn lemma_sorted_fields_unique(a: Seq<(Seq<char>, SpecJson)>, b: Seq<(Seq<char>, SpecJson)>)
    requires
        fields_sorted(a),
        fields_sorted(b),
        a.to_multiset() == b.to_multiset(),
        forall|i: int, j: int| 0 <= i < j < a.len() ==> (#[trigger] a[i]).0 != (#[trigger] a[j]).0,
    ensures
        a == b,
    decreases a.len(),
{
    broadcast use vstd::seq_lib::group_to_multiset_ensures;

    a.to_multiset_ensures();
    b.to_multiset_ensures();
    if a.len() == 0 {
        assert(b.to_multiset().len() == 0);
        assert(a =~= b);
    } else {
        assert(b.len() == a.len());
        let la = a.last();
        let lb = b.last();
        // Each last element occurs in the other sequence.
        assert(a.contains(la)) by {
            assert(a[a.len() - 1] == la);
        }
        assert(b.contains(lb)) by {
            assert(b[b.len() - 1] == lb);
        }
        assert(a.to_multiset().count(la) > 0);
        assert(b.to_multiset().count(lb) > 0);
        assert(b.to_multiset().count(la) > 0);
        assert(a.to_multiset().count(lb) > 0);
        assert(b.contains(la));
        assert(a.contains(lb));
        let ia = choose|t: int| 0 <= t < b.len() && b[t] == la;
        let ib = choose|t: int| 0 <= t < a.len() && a[t] == lb;
        // Keys of the two last elements bound each other, so they are equal.
        assert(lex_le(la.0, lb.0)) by {
            if ia < b.len() - 1 {
                assert(lex_le((b[ia]).0, (b[b.len() - 1]).0));
            } else {
                assert(la == lb);
                lemma_lex_le_reflexive(la.0);
            }
        }
        assert(lex_le(lb.0, la.0)) by {
            if ib < a.len() - 1 {
                assert(lex_le((a[ib]).0, (a[a.len() - 1]).0));
            } else {
                assert(la == lb);
                lemma_lex_le_reflexive(la.0);
            }
        }
        lemma_lex_le_antisymmetric(la.0, lb.0);
        // Keys in `a` are unique, so the element of `a` carrying this key is
        // the last one.
        assert(la == lb) by {
            if ib < a.len() - 1 {
                assert(a[ib].0 != a[a.len() - 1].0);
            }
        }
        // Drop the equal last elements and recurse.
        assert(a =~= a.drop_last().push(la));
        assert(b =~= b.drop_last().push(lb));
        assert(a.drop_last().to_multiset().insert(la) == a.to_multiset());
        assert(b.drop_last().to_multiset().insert(lb) == b.to_multiset());
        assert(a.drop_last().to_multiset() =~= b.drop_last().to_multiset()) by {
            assert(a.drop_last().to_multiset() == a.to_multiset().remove(la));
            assert(b.drop_last().to_multiset() == b.to_multiset().remove(lb));
        }
        assert(fields_sorted(a.drop_last())) by {
            assert(forall|i: int, j: int|
                0 <= i < j < a.drop_last().len() ==> lex_le(
                    (#[trigger] a.drop_last()[i]).0,
                    (#[trigger] a.drop_last()[j]).0,
                ));
        }
        assert(fields_sorted(b.drop_last()));
        assert(forall|i: int, j: int|
            0 <= i < j < a.drop_last().len() ==> (#[trigger] a.drop_last()[i]).0 != (
            #[trigger] a.drop_last()[j]).0);
        lemma_sorted_fields_unique(a.drop_last(), b.drop_last());
    }
}

/// Insert one field into a key-sorted vector, mirroring `spec_insert_field`.
pub fn insert_field(s: Vec<(String, Json)>, x: (String, Json)) -> (r: Vec<(String, Json)>)
    ensures
        view_obj(r@) == spec_insert_field(view_obj(s@), (x.0@, view_json(x.1))),
    decreases s@.len(),
{
    let ghost orig = s@;
    let ghost sv = view_obj(orig);
    let ghost xv = (x.0@, view_json(x.1));
    proof {
        lemma_view_obj_index(orig);
    }
    let mut s = s;
    if s.len() == 0 {
        s.push(x);
        proof {
            lemma_view_obj_index(s@);
            assert(view_obj(s@) =~= seq![xv]);
            assert(spec_insert_field(sv, xv) == seq![xv]);
        }
        return s;
    }
    let n = s.len();
    if str_le(s[n - 1].0.as_str(), x.0.as_str()) {
        proof {
            assert(sv.last() == (orig[n - 1].0@, view_json(orig[n - 1].1)));
            assert(lex_le(sv.last().0, xv.0));
        }
        s.push(x);
        proof {
            assert(s@ == orig.push(s@.last()));
            crate::json::lemma_view_obj_push(orig, s@.last());
            assert(view_obj(s@) =~= sv.push(xv));
            assert(spec_insert_field(sv, xv) == sv.push(xv));
        }
        return s;
    }
    proof {
        assert(sv.last() == (orig[n - 1].0@, view_json(orig[n - 1].1)));
        assert(!lex_le(sv.last().0, xv.0));
    }
    let last = s.pop().unwrap();
    let ghost popped = s@;
    proof {
        assert(popped =~= orig.drop_last());
        lemma_view_obj_index(popped);
        assert forall|t: int| 0 <= t < popped.len() implies view_obj(popped)[t]
            == sv.drop_last()[t] by {
            assert(view_obj(popped)[t] == (popped[t].0@, view_json(popped[t].1)));
            assert(popped[t] == orig[t]);
            assert(sv[t] == (orig[t].0@, view_json(orig[t].1)));
        }
        assert(view_obj(popped) =~= sv.drop_last());
    }
    let mut r = insert_field(s, x);
    let ghost rpre = r@;
    let ghost lastv = (last.0@, view_json(last.1));
    proof {
        assert(lastv == sv.last());
    }
    r.push(last);
    proof {
        assert(r@ == rpre.push(r@.last()));
        crate::json::lemma_view_obj_push(rpre, r@.last());
        assert(view_obj(r@) =~= view_obj(rpre).push(lastv));
        assert(spec_insert_field(sv, xv) == spec_insert_field(sv.drop_last(), xv).push(sv.last()));
    }
    r
}

/// Key-sort object fields, mirroring `spec_sort_fields`.
pub fn sort_fields(fields: Vec<(String, Json)>) -> (r: Vec<(String, Json)>)
    ensures
        view_obj(r@) == spec_sort_fields(view_obj(fields@)),
{
    let ghost vf = view_obj(fields@);
    proof {
        lemma_view_obj_index(fields@);
    }
    let mut out: Vec<(String, Json)> = Vec::new();
    let mut rest = fields;
    let n = rest.len();
    let mut i: usize = 0;
    // Consume from the front, inserting one field at a time.
    let mut acc: Vec<(String, Json)> = Vec::new();
    proof {
        assert(view_obj(acc@).len() == 0);
        assert(vf.take(0) =~= Seq::empty());
    }
    while i < n
        invariant
            n == rest@.len(),
            vf == view_obj(rest@),
            vf.len() == n,
            forall|t: int|
                0 <= t < n ==> vf[t] == ((#[trigger] rest@[t]).0@, view_json(rest@[t].1)),
            i <= n,
            view_obj(acc@) == spec_sort_fields(vf.take(i as int)),
        decreases n - i,
    {
        let k = rest[i].0.clone();
        let v = rest[i].1.duplicate();
        let ghost prev_acc = view_obj(acc@);
        acc = insert_field(acc, (k, v));
        proof {
            assert(vf.take(i + 1).drop_last() =~= vf.take(i as int));
            assert(vf.take(i + 1).last() == vf[i as int]);
            assert(view_obj(acc@) == spec_insert_field(prev_acc, (k@, view_json(v))));
        }
        i = i + 1;
    }
    proof {
        assert(vf.take(n as int) =~= vf);
    }
    acc
}

/// Recursive canonicalization: sort object keys at every level.
pub open spec fn spec_canon(v: SpecJson) -> SpecJson
    decreases v, 0nat,
{
    match v {
        SpecJson::Arr(items) => SpecJson::Arr(spec_canon_arr(items)),
        SpecJson::Obj(fields) => SpecJson::Obj(spec_sort_fields(spec_canon_obj(fields))),
        other => other,
    }
}

pub open spec fn spec_canon_arr(s: Seq<SpecJson>) -> Seq<SpecJson>
    decreases s, s.len() + 1,
{
    if s.len() == 0 {
        Seq::empty()
    } else {
        spec_canon_arr(s.drop_last()).push(spec_canon(s.last()))
    }
}

pub open spec fn spec_canon_obj(fields: Seq<(Seq<char>, SpecJson)>) -> Seq<(Seq<char>, SpecJson)>
    decreases fields, fields.len() + 1,
{
    if fields.len() == 0 {
        Seq::empty()
    } else {
        spec_canon_obj(fields.drop_last()).push(
            (fields.last().0, spec_canon(fields.last().1)),
        )
    }
}

/// Canonicalize a value: objects get their keys sorted, recursively.
pub fn canonicalize(v: &Json) -> (r: Json)
    ensures
        view_json(r) == spec_canon(view_json(*v)),
    decreases v,
{
    match v {
        Json::Arr(items) => {
            let ghost va = crate::json::view_arr(items@);
            proof {
                crate::json::lemma_view_arr_index(items@);
            }
            let n = items.len();
            let mut out: Vec<Json> = Vec::new();
            let mut i: usize = 0;
            while i < n
                invariant
                    n == items@.len(),
                    (*v) is Arr,
                    (*v)->Arr_0 == *items,
                    va == crate::json::view_arr(items@),
                    va.len() == n,
                    forall|t: int| 0 <= t < n ==> va[t] == view_json(#[trigger] items@[t]),
                    i <= n,
                    crate::json::view_arr(out@) == spec_canon_arr(va.take(i as int)),
                decreases n - i,
            {
                proof {
                    assert(decreases_to!(*v => (*v)->Arr_0));
                    assert(decreases_to!(*items => (*items)@));
                    assert(decreases_to!(items@ => items@[i as int]));
                }
                let e = canonicalize(&items[i]);
                let ghost prev = out@;
                out.push(e);
                proof {
                    crate::json::lemma_view_arr_push(prev, e);
                    assert(va.take(i + 1).drop_last() =~= va.take(i as int));
                    assert(va.take(i + 1).last() == view_json(items@[i as int]));
                    assert(crate::json::view_arr(out@) =~= spec_canon_arr(va.take(i + 1)));
                }
                i = i + 1;
            }
            proof {
                assert(va.take(n as int) =~= va);
            }
            Json::Arr(out)
        },
        Json::Obj(fields) => {
            let ghost vf = view_obj(fields@);
            proof {
                lemma_view_obj_index(fields@);
            }
            let n = fields.len();
            let mut out: Vec<(String, Json)> = Vec::new();
            let mut i: usize = 0;
            while i < n
                invariant
                    n == fields@.len(),
                    (*v) is Obj,
                    (*v)->Obj_0 == *fields,
                    vf == view_obj(fields@),
                    vf.len() == n,
                    forall|t: int|
                        0 <= t < n ==> vf[t] == ((#[trigger] fields@[t]).0@, view_json(
                            fields@[t].1,
                        )),
                    i <= n,
                    view_obj(out@) == spec_canon_obj(vf.take(i as int)),
                decreases n - i,
            {
                proof {
                    assert(decreases_to!(*v => (*v)->Obj_0));
                    assert(decreases_to!(*fields => (*fields)@));
                    assert(decreases_to!(fields@ => fields@[i as int]));
                    assert(decreases_to!(fields@[i as int] => fields@[i as int].1));
                    assert(vf.take(i + 1).drop_last() =~= vf.take(i as int));
                    assert(vf.take(i + 1).last() == vf[i as int]);
                }
                let k = fields[i].0.clone();
                let cv = canonicalize(&fields[i].1);
                let ghost prev = out@;
                out.push((k, cv));
                proof {
                    crate::json::lemma_view_obj_push(prev, out@.last());
                    assert(view_obj(out@) =~= spec_canon_obj(vf.take(i + 1)));
                }
                i = i + 1;
            }
            proof {
                assert(vf.take(n as int) =~= vf);
            }
            let sorted = sort_fields(out);
            Json::Obj(sorted)
        },
        other => other.duplicate(),
    }
}

/// The escaped form of one character inside a JSON string literal: quote and
/// backslash get a backslash escape, control characters a `\u00XX` escape.
pub open spec fn spec_escape_char(c: char) -> Seq<char> {
    if c == '"' {
        seq!['\\', '"']
    } else if c == '\\' {
        seq!['\\', '\\']
    } else if (c as int) < 32 {
        seq!['\\', 'u', '0', '0'] + seq![
            crate::digest::spec_hex_digit((c as int) / 16),
            crate::digest::spec_hex_digit((c as int) % 16),
        ]
    } else {
        seq![c]
    }
}

/// The escaped form of a whole string.
pub open spec fn spec_escape(s: Seq<char>) -> Seq<char>
    decreases s.len(),
{
    if s.len() == 0 {
        Seq::empty()
    } else {
        spec_escape(s.drop_last()) + spec_escape_char(s.last())
    }
}

/// A quoted, escaped JSON string literal.
pub open spec fn spec_quote(s: Seq<char>) -> Seq<char> {
    seq!['"'] + spec_escape(s) + seq!['"']
}

/// Deterministic text rendering of a JSON value.
pub open spec fn spec_json_text(v: SpecJson) -> Seq<char>
    decreases v, 0nat,
{
    match v {
        SpecJson::Null => seq!['n', 'u', 'l', 'l'],
        SpecJson::Bool(b) => if b {
            seq!['t', 'r', 'u', 'e']
        } else {
            seq!['f', 'a', 'l', 's', 'e']
        },
        SpecJson::Int(n) => crate::text::spec_dec_i64(n),
        SpecJson::Num(s) => s,
        SpecJson::Str(s) => spec_quote(s),
        SpecJson::Arr(items) => seq!['['] + spec_items_text(items) + seq![']'],
        SpecJson::Obj(fields) => seq!['{'] + spec_fields_text(fields) + seq!['}'],
    }
}

pub open spec fn spec_items_text(s: Seq<SpecJson>) -> Seq<char>
    decreases s, s.len() + 1,
{
    if s.len() == 0 {
        Seq::empty()
    } else if s.len() == 1 {
        spec_json_text(s.last())
    } else {
        spec_items_text(s.drop_last()) + seq![','] + spec_json_text(s.last())
    }
}

pub open spec fn spec_fields_text(fields: Seq<(Seq<char>, SpecJson)>) -> Seq<char>
    decreases fields, fields.len() + 1,
{
    if fields.len() == 0 {
        Seq::empty()
    } else if fields.len() == 1 {
        spec_quote(fields.last().0) + seq![':'] + spec_json_text(fields.last().1)
    } else {
        spec_fields_text(fields.drop_last()) + seq![','] + spec_quote(fields.last().0) + seq![':']
            + spec_json_text(fields.last().1)
    }
}

/// Append the escaped form of a string to `out`.
fn append_escaped(out: &mut String, s: &str)
    ensures
        final(out)@ == old(out)@ + spec_escape(s@),
{
    let n = s.unicode_len();
    let mut i: usize = 0;
    proof {
        assert(old(out)@ + spec_escape(s@.take(0)) =~= old(out)@);
    }
    while i < n
        invariant
            n == s@.len(),
            i <= n,
            out@ == old(out)@ + spec_escape(s@.take(i as int)),
        decreases n - i,
    {
        let c = s.get_char(i);
        proof {
            assert(s@.take(i + 1).drop_last() =~= s@.take(i as int));
            assert(s@.take(i + 1).last() == s@[i as int]);
        }
        if c == '"' {
            push_char(out, '\\');
            push_char(out, '"');
        } else if c == '\\' {
            push_char(out, '\\');
            push_char(out, '\\');
        } else if (c as u32) < 32 {
            push_char(out, '\\');
            push_char(out, 'u');
            push_char(out, '0');
            push_char(out, '0');
            let code = (c as u32) as u8;
            push_char(out, crate::digest::hex_digit(code / 16));
            push_char(out, crate::digest::hex_digit(code % 16));
        } else {
            push_char(out, c);
        }
        proof {
            assert(out@ =~= old(out)@ + spec_escape(s@.take(i + 1)));
        }
        i = i + 1;
    }
    proof {
        assert(s@.take(n as int) =~= s@);
    }
}

/// Append the quoted, escaped JSON literal of a string to `out`.
fn append_quoted(out: &mut String, s: &str)
    ensures
        final(out)@ == old(out)@ + spec_quote(s@),
{
    push_char(out, '"');
    append_escaped(out, s);
    push_char(out, '"');
    proof {
        assert(out@ =~= old(out)@ + spec_quote(s@));
    }
}

/// Append the text rendering of a value to `out`.
pub fn append_json_text(out: &mut String, v: &Json)
    ensures
        final(out)@ == old(out)@ + spec_json_text(view_json(*v)),
    decreases v,
{
    match v {
        Json::Null => {
            push_char(out, 'n');
            push_char(out, 'u');
            push_char(out, 'l');
            push_char(out, 'l');
            proof {
                assert(out@ =~= old(out)@ + spec_json_text(view_json(*v)));
            }
        },
        Json::Bool(b) => {
            if *b {
                push_char(out, 't');
                push_char(out, 'r');
                push_char(out, 'u');
                push_char(out, 'e');
            } else {
                push_char(out, 'f');
                push_char(out, 'a');
                push_char(out, 'l');
                push_char(out, 's');
                push_char(out, 'e');
            }
            proof {
                assert(out@ =~= old(out)@ + spec_json_text(view_json(*v)));
            }
        },
        Json::Int(n) => {
            let rendered = crate::text::i64_to_string(*n);
            out.append(rendered.as_str());
        },
        Json::Num(s) => {
            out.append(s.as_str());
        },
        Json::Str(s) => {
            append_quoted(out, s.as_str());
        },
        Json::Arr(items) => {
            let ghost va = crate::json::view_arr(items@);
            proof {
                crate::json::lemma_view_arr_index(items@);
            }
            push_char(out, '[');
            let n = items.len();
            let mut i: usize = 0;
            proof {
                assert(out@ =~= old(out)@ + seq!['['] + spec_items_text(va.take(0)));
            }
            while i < n
                invariant
                    n == items@.len(),
                    (*v) is Arr,
                    (*v)->Arr_0 == *items,
                    va == crate::json::view_arr(items@),
                    va.len() == n,
                    forall|t: int| 0 <= t < n ==> va[t] == view_json(#[trigger] items@[t]),
                    i <= n,
                    out@ == old(out)@ + seq!['['] + spec_items_text(va.take(i as int)),
                decreases n - i,
            {
                proof {
                    assert(decreases_to!(*v => (*v)->Arr_0));
                    assert(decreases_to!(*items => (*items)@));
                    assert(decreases_to!(items@ => items@[i as int]));
                    assert(va.take(i + 1).drop_last() =~= va.take(i as int));
                    assert(va.take(i + 1).last() == view_json(items@[i as int]));
                }
                if i > 0 {
                    push_char(out, ',');
                }
                append_json_text(out, &items[i]);
                proof {
                    assert(out@ =~= old(out)@ + seq!['['] + spec_items_text(va.take(i + 1)));
                }
                i = i + 1;
            }
            push_char(out, ']');
            proof {
                assert(va.take(n as int) =~= va);
                assert(out@ =~= old(out)@ + spec_json_text(view_json(*v)));
            }
        },
        Json::Obj(fields) => {
            let ghost vf = view_obj(fields@);
            proof {
                lemma_view_obj_index(fields@);
            }
            push_char(out, '{');
            let n = fields.len();
            let mut i: usize = 0;
            proof {
                assert(out@ =~= old(out)@ + seq!['{'] + spec_fields_text(vf.take(0)));
            }
            while i < n
                invariant
                    n == fields@.len(),
                    (*v) is Obj,
                    (*v)->Obj_0 == *fields,
                    vf == view_obj(fields@),
                    vf.len() == n,
                    forall|t: int|
                        0 <= t < n ==> vf[t] == ((#[trigger] fields@[t]).0@, view_json(
                            fields@[t].1,
                        )),
                    i <= n,
                    out@ == old(out)@ + seq!['{'] + spec_fields_text(vf.take(i as int)),
                decreases n - i,
            {
                proof {
                    assert(decreases_to!(*v => (*v)->Obj_0));
                    assert(decreases_to!(*fields => (*fields)@));
                    assert(decreases_to!(fields@ => fields@[i as int]));
                    assert(decreases_to!(fields@[i as int] => fields@[i as int].1));
                    assert(vf.take(i + 1).drop_last() =~= vf.take(i as int));
                    assert(vf.take(i + 1).last() == vf[i as int]);
                }
                if i > 0 {
                    push_char(out, ',');
                }
                append_quoted(out, fields[i].0.as_str());
                push_char(out, ':');
                append_json_text(out, &fields[i].1);
                proof {
                    assert(out@ =~= old(out)@ + seq!['{'] + spec_fields_text(vf.take(i + 1)));
                }
                i = i + 1;
            }
            push_char(out, '}');
            proof {
                assert(vf.take(n as int) =~= vf);
                assert(out@ =~= old(out)@ + spec_json_text(view_json(*v)));
            }
        },
    }
}

/// The text rendering of a value.
pub fn json_to_string(v: &Json) -> (r: String)
    ensures
        r@ == spec_json_text(view_json(*v)),
{
    let mut out = String::new();
    append_json_text(&mut out, v);
    proof {
        assert(Seq::<char>::empty() + spec_json_text(view_json(*v)) =~= spec_json_text(
            view_json(*v),
        ));
    }
    out
}

} // verus!
