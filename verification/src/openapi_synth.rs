//! OpenAPI tool synthesis: merging path-item and operation parameters,
//! flattening JSON request bodies into tool arguments, wrapping output
//! schemas, and the spec-hash policy decision. The loader fetches and
//! resolves documents outside; every synthesis decision is made here over
//! plain values.

use crate::json::{obj_set_key, spec_obj_set, view_json, view_obj, Json, SpecJson};
use crate::text::{str_eq, strings_contain, view_strings};
use vstd::prelude::*;

verus! {

broadcast use vstd::std_specs::vec::group_vec_axioms, vstd::seq::group_seq_axioms;

/// Where an operation parameter lives.
#[derive(Debug, Clone, Copy, PartialEq, Eq, Structural)]
pub enum ParamLocation {
    Path,
    Query,
    Header,
    Cookie,
    Body,
}

/// One resolved operation parameter.
#[derive(Debug)]
pub struct OpParam {
    pub location: ParamLocation,
    pub name: String,
    pub required: bool,
    pub schema: Json,
}

/// The mathematical view of a parameter.
pub struct SpecOpParam {
    pub location: ParamLocation,
    pub name: Seq<char>,
    pub required: bool,
    pub schema: SpecJson,
}

pub open spec fn view_param(p: OpParam) -> SpecOpParam {
    SpecOpParam {
        location: p.location,
        name: p.name@,
        required: p.required,
        schema: view_json(p.schema),
    }
}

pub open spec fn view_params(s: Seq<OpParam>) -> Seq<SpecOpParam> {
    s.map(|i: int, p: OpParam| view_param(p))
}

/// The `(location, name)` key parameters collide on.
pub open spec fn spec_param_key(p: SpecOpParam) -> (ParamLocation, Seq<char>) {
    (p.location, p.name)
}

/// Whether a list holds a parameter with this key.
pub open spec fn spec_has_key(s: Seq<SpecOpParam>, key: (ParamLocation, Seq<char>)) -> bool {
    exists|i: int| 0 <= i < s.len() && spec_param_key(#[trigger] s[i]) == key
}

/// Pairwise-distinct keys, as OpenAPI requires of a parameter list.
pub open spec fn spec_keys_unique(s: Seq<SpecOpParam>) -> bool {
    forall|i: int, j: int|
        0 <= i < j < s.len() ==> spec_param_key(#[trigger] s[i]) != spec_param_key(
            #[trigger] s[j],
        )
}

fn duplicate_param(p: &OpParam) -> (r: OpParam)
    ensures
        view_param(r) == view_param(*p),
{
    OpParam {
        location: p.location,
        name: p.name.clone(),
        required: p.required,
        schema: p.schema.duplicate(),
    }
}

fn same_key(a: &OpParam, b: &OpParam) -> (r: bool)
    ensures
        r == (spec_param_key(view_param(*a)) == spec_param_key(view_param(*b))),
{
    a.location == b.location && str_eq(a.name.as_str(), b.name.as_str())
}

/// Whether some parameter of the list shares the key.
fn has_param_key(s: &Vec<OpParam>, p: &OpParam) -> (r: bool)
    ensures
        r == spec_has_key(view_params(s@), spec_param_key(view_param(*p))),
{
    let ghost sv = view_params(s@);
    proof {
        lemma_view_params_index(s@);
    }
    let n = s.len();
    let mut i: usize = 0;
    while i < n
        invariant
            n == s@.len(),
            sv == view_params(s@),
            sv.len() == n,
            forall|t: int| 0 <= t < n ==> #[trigger] sv[t] == view_param(s@[t]),
            i <= n,
            forall|t: int|
                0 <= t < i ==> spec_param_key(#[trigger] sv[t]) != spec_param_key(view_param(*p)),
        decreases n - i,
    {
        if same_key(&s[i], p) {
            proof {
                assert(spec_param_key(sv[i as int]) == spec_param_key(view_param(*p)));
            }
            return true;
        }
        i = i + 1;
    }
    false
}

/// The path-level parameters whose key no operation-level parameter
/// carries, in order.
pub open spec fn spec_free_path_params(
    pv: Seq<SpecOpParam>,
    ov: Seq<SpecOpParam>,
) -> Seq<SpecOpParam>
    decreases pv.len(),
{
    if pv.len() == 0 {
        Seq::empty()
    } else {
        let pre = spec_free_path_params(pv.drop_last(), ov);
        if spec_has_key(ov, spec_param_key(pv.last())) {
            pre
        } else {
            pre.push(pv.last())
        }
    }
}

/// Every collision-free path parameter survives the filter.
proof fn lemma_free_path_contains(pv: Seq<SpecOpParam>, ov: Seq<SpecOpParam>, q: int)
    requires
        0 <= q < pv.len(),
        !spec_has_key(ov, spec_param_key(pv[q])),
    ensures
        spec_free_path_params(pv, ov).contains(pv[q]),
    decreases pv.len(),
{
    if q == pv.len() - 1 {
        let r = spec_free_path_params(pv, ov);
        assert(r.last() == pv[q]);
        assert(r[r.len() - 1] == pv[q]);
    } else {
        lemma_free_path_contains(pv.drop_last(), ov, q);
        let pre = spec_free_path_params(pv.drop_last(), ov);
        let t = choose|t: int| 0 <= t < pre.len() && pre[t] == pv.drop_last()[q];
        assert(spec_free_path_params(pv, ov)[t] == pv[q]);
    }
}

/// Every filtered entry is a collision-free path parameter.
proof fn lemma_free_path_elements(pv: Seq<SpecOpParam>, ov: Seq<SpecOpParam>, e: int)
    requires
        0 <= e < spec_free_path_params(pv, ov).len(),
    ensures
        exists|q: int|
            0 <= q < pv.len() && #[trigger] pv[q] == spec_free_path_params(pv, ov)[e]
                && !spec_has_key(ov, spec_param_key(pv[q])),
    decreases pv.len(),
{
    let r = spec_free_path_params(pv, ov);
    let pre = spec_free_path_params(pv.drop_last(), ov);
    if spec_has_key(ov, spec_param_key(pv.last())) {
        lemma_free_path_elements(pv.drop_last(), ov, e);
        let q = choose|q: int|
            0 <= q < pv.drop_last().len() && #[trigger] pv.drop_last()[q] == pre[e]
                && !spec_has_key(ov, spec_param_key(pv.drop_last()[q]));
        assert(pv[q] == r[e]);
    } else {
        if e < pre.len() {
            lemma_free_path_elements(pv.drop_last(), ov, e);
            let q = choose|q: int|
                0 <= q < pv.drop_last().len() && #[trigger] pv.drop_last()[q] == pre[e]
                    && !spec_has_key(ov, spec_param_key(pv.drop_last()[q]));
            assert(pv[q] == r[e]);
        } else {
            assert(r[e] == pv[pv.len() - 1]);
        }
    }
}

/// Merge path-item-level and operation-level parameters: the operation
/// wins on a `(location, name)` collision. The result is exactly the
/// collision-free path-level parameters, in order, followed by every
/// operation-level parameter, in order — so every operation parameter is
/// kept, a path parameter is kept exactly when its key is free, and
/// nothing else appears.
/// Merge path-item-level and operation-level parameters: the operation
/// wins on a `(location, name)` collision. The result is exactly the
/// collision-free path-level parameters, in order, followed by every
/// operation-level parameter, in order; `lemma_merged_params_membership`
/// spells out the membership this shape gives.
pub fn merge_operation_params(path_level: &Vec<OpParam>, op_level: &Vec<OpParam>) -> (r: Vec<
    OpParam,
>)
    ensures
        view_params(r@) == spec_free_path_params(view_params(path_level@), view_params(op_level@))
            + view_params(op_level@),
{
    let ghost pv = view_params(path_level@);
    let ghost ov = view_params(op_level@);
    proof {
        lemma_view_params_index(path_level@);
        lemma_view_params_index(op_level@);
    }
    let n = path_level.len();
    let mut out: Vec<OpParam> = Vec::new();
    let mut i: usize = 0;
    while i < n
        invariant
            n == path_level@.len(),
            pv == view_params(path_level@),
            ov == view_params(op_level@),
            pv.len() == n,
            forall|t: int| 0 <= t < n ==> #[trigger] pv[t] == view_param(path_level@[t]),
            i <= n,
            view_params(out@) == spec_free_path_params(pv.take(i as int), ov),
        decreases n - i,
    {
        proof {
            assert(pv.take(i + 1).drop_last() =~= pv.take(i as int));
            assert(pv.take(i + 1).last() == pv[i as int]);
        }
        if !has_param_key(op_level, &path_level[i]) {
            let w = duplicate_param(&path_level[i]);
            let ghost prev = out@;
            out.push(w);
            proof {
                lemma_view_params_index(out@);
                lemma_view_params_index(prev);
                assert(view_params(out@) =~= view_params(prev).push(view_param(w)));
                assert(view_params(out@) =~= spec_free_path_params(pv.take(i + 1), ov));
            }
        } else {
            proof {
                assert(view_params(out@) =~= spec_free_path_params(pv.take(i + 1), ov));
            }
        }
        i = i + 1;
    }
    proof {
        assert(pv.take(n as int) =~= pv);
    }
    let ghost free_count = out@.len();
    let m = op_level.len();
    let mut j: usize = 0;
    while j < m
        invariant
            m == op_level@.len(),
            ov == view_params(op_level@),
            ov.len() == m,
            forall|t: int| 0 <= t < m ==> #[trigger] ov[t] == view_param(op_level@[t]),
            j <= m,
            out@.len() == free_count + j,
            view_params(out@) == spec_free_path_params(pv, ov) + ov.take(j as int),
        decreases m - j,
    {
        let w = duplicate_param(&op_level[j]);
        let ghost prev = out@;
        out.push(w);
        proof {
            lemma_view_params_index(out@);
            lemma_view_params_index(prev);
            assert(view_params(out@) =~= view_params(prev).push(view_param(w)));
            assert(ov.take(j + 1) =~= ov.take(j as int).push(ov[j as int]));
            assert(view_params(out@) =~= spec_free_path_params(pv, ov) + ov.take(j + 1));
        }
        j = j + 1;
    }
    proof {
        assert(ov.take(m as int) =~= ov);
    }
    out
}

/// What the merged shape contains: every operation-level parameter; every
/// collision-free path-level parameter; and nothing else.
pub proof fn lemma_merged_params_membership(pv: Seq<SpecOpParam>, ov: Seq<SpecOpParam>)
    ensures
        forall|q: int|
            0 <= q < ov.len() ==> (spec_free_path_params(pv, ov) + ov).contains(#[trigger] ov[q]),
        forall|q: int|
            0 <= q < pv.len() && !spec_has_key(ov, spec_param_key(#[trigger] pv[q])) ==> (
            spec_free_path_params(pv, ov) + ov).contains(pv[q]),
        forall|e: int|
            0 <= e < (spec_free_path_params(pv, ov) + ov).len() ==> (ov.contains(
                #[trigger] (spec_free_path_params(pv, ov) + ov)[e],
            ) || (exists|q: int|
                0 <= q < pv.len() && #[trigger] pv[q] == (spec_free_path_params(pv, ov) + ov)[e]
                    && !spec_has_key(ov, spec_param_key(pv[q])))),
{
    let free = spec_free_path_params(pv, ov);
    let r = free + ov;
    assert forall|q: int| 0 <= q < ov.len() implies r.contains(#[trigger] ov[q]) by {
        assert(r[free.len() + q] == ov[q]);
    }
    assert forall|q: int|
        0 <= q < pv.len() && !spec_has_key(ov, spec_param_key(#[trigger] pv[q])) implies r.contains(
        pv[q],
    ) by {
        lemma_free_path_contains(pv, ov, q);
        let e = choose|e: int| 0 <= e < free.len() && free[e] == pv[q];
        assert(r[e] == pv[q]);
    }
    assert forall|e: int| 0 <= e < r.len() implies (ov.contains(#[trigger] r[e]) || (exists|
        q: int,
    |
        0 <= q < pv.len() && #[trigger] pv[q] == r[e] && !spec_has_key(
            ov,
            spec_param_key(pv[q]),
        ))) by {
        if e < free.len() {
            lemma_free_path_elements(pv, ov, e);
            assert(r[e] == free[e]);
        } else {
            assert(r[e] == ov[e - free.len()]);
        }
    }
}

proof fn lemma_view_params_index(s: Seq<OpParam>)
    ensures
        view_params(s).len() == s.len(),
        forall|t: int| 0 <= t < s.len() ==> #[trigger] view_params(s)[t] == view_param(s[t]),
{
}

/// Flatten a JSON object request body into tool arguments: one body
/// parameter per property, required per the body's required list; fails
/// with a parameter collision when a property name is already taken.
pub fn flatten_body_params(
    params: Vec<OpParam>,
    body_props: Vec<(String, Json)>,
    required: Vec<String>,
) -> (r: Result<Vec<OpParam>, String>)
    ensures
        ({
            let collision = exists|q: int, e: int|
                {
                    &&& 0 <= q < body_props@.len()
                    &&& 0 <= e < params@.len()
                    &&& (#[trigger] body_props@[q]).0@ == (#[trigger] params@[e]).name@
                };
            match r {
                Ok(out) => {
                    &&& !collision
                    &&& out@.len() == params@.len() + body_props@.len()
                    &&& forall|t: int|
                        0 <= t < params@.len() ==> view_param(#[trigger] out@[t]) == view_param(
                            params@[t],
                        )
                    &&& forall|q: int|
                        0 <= q < body_props@.len() ==> view_param(
                            #[trigger] out@[params@.len() + q],
                        ) == (SpecOpParam {
                            location: ParamLocation::Body,
                            name: body_props@[q].0@,
                            required: view_strings(required@).contains(body_props@[q].0@),
                            schema: view_json(body_props@[q].1),
                        })
                },
                Err(_) => collision,
            }
        }),
{
    let n = body_props.len();
    let mut out = params;
    let ghost base = out@;
    let base_count = out.len();
    let mut q: usize = 0;
    while q < n
        invariant
            n == body_props@.len(),
            base == params@,
            base_count == base.len(),
            base.len() <= out@.len(),
            out@.len() == base.len() + q,
            q <= n,
            forall|t: int| 0 <= t < base.len() ==> #[trigger] out@[t] == base[t],
            forall|t: int|
                0 <= t < q ==> view_param(#[trigger] out@[base.len() + t]) == (SpecOpParam {
                    location: ParamLocation::Body,
                    name: body_props@[t].0@,
                    required: view_strings(required@).contains(body_props@[t].0@),
                    schema: view_json(body_props@[t].1),
                }),
            forall|t: int, e: int|
                0 <= t < q && 0 <= e < base.len() ==> (#[trigger] body_props@[t]).0@ != (
                #[trigger] base[e]).name@,
        decreases n - q,
    {
        // A property name colliding with an existing parameter fails the
        // whole flattening.
        let mut e: usize = 0;
        while e < base_count
            invariant
                base == params@,
                base.len() <= out@.len(),
                base_count == base.len(),
                forall|t: int| 0 <= t < base.len() ==> #[trigger] out@[t] == base[t],
                q < n == body_props@.len(),
                e <= base_count,
                forall|t: int|
                    0 <= t < e ==> (#[trigger] body_props@[q as int]).0@ != (
                    #[trigger] base[t]).name@,
            decreases base_count - e,
        {
            if str_eq(out[e].name.as_str(), body_props[q].0.as_str()) {
                proof {
                    assert(body_props@[q as int].0@ == base[e as int].name@);
                }
                let mut msg = "parameter collision on body property '".to_owned();
                msg.append(body_props[q].0.as_str());
                msg.append("'");
                return Err(msg);
            }
            e = e + 1;
        }
        let is_required = strings_contain(&required, body_props[q].0.as_str());
        out.push(
            OpParam {
                location: ParamLocation::Body,
                name: body_props[q].0.clone(),
                required: is_required,
                schema: body_props[q].1.duplicate(),
            },
        );
        q = q + 1;
    }
    proof {
        assert forall|qq: int, ee: int|
            0 <= qq < body_props@.len() && 0 <= ee < base.len() implies (
        #[trigger] body_props@[qq]).0@ != (#[trigger] base[ee]).name@ by {}
        assert(forall|t: int|
            0 <= t < base.len() ==> view_param(#[trigger] out@[t]) == view_param(base[t]));
    }
    Ok(out)
}

/// Wrap a derived body schema as the advertised output schema:
/// `{type: object, required: ["body"], properties: {body: schema}}`.
pub fn wrap_output_schema(body: Json) -> (r: Json)
    ensures
        view_json(r) == SpecJson::Obj(
            seq![
                ("type"@, SpecJson::Str("object"@)),
                ("required"@, SpecJson::Arr(seq![SpecJson::Str("body"@)])),
                ("properties"@, SpecJson::Obj(seq![("body"@, view_json(body))])),
            ],
        ),
{
    let ghost body_view = view_json(body);
    let mut props: Vec<(String, Json)> = Vec::new();
    props.push(("body".to_owned(), body));
    let mut required: Vec<Json> = Vec::new();
    required.push(Json::Str("body".to_owned()));
    let mut fields: Vec<(String, Json)> = Vec::new();
    fields.push(("type".to_owned(), Json::Str("object".to_owned())));
    fields.push(("required".to_owned(), Json::Arr(required)));
    fields.push(("properties".to_owned(), Json::Obj(props)));
    let r = Json::Obj(fields);
    proof {
        crate::json::lemma_view_obj_index(r->Obj_0@);
        let lhs = view_json(r)->Obj_0;
        assert(lhs[0] == ("type"@, SpecJson::Str("object"@)));
        assert(view_json(r->Obj_0@[1].1)->Arr_0 =~= seq![SpecJson::Str("body"@)]) by {
            crate::json::lemma_view_arr_index((r->Obj_0)@[1].1->Arr_0@);
        }
        assert(lhs[1] == ("required"@, SpecJson::Arr(seq![SpecJson::Str("body"@)])));
        assert(view_json(r->Obj_0@[2].1)->Obj_0 =~= seq![("body"@, body_view)]) by {
            crate::json::lemma_view_obj_index((r->Obj_0)@[2].1->Obj_0@);
        }
        assert(lhs[2] == ("properties"@, SpecJson::Obj(seq![("body"@, body_view)])));
        assert(lhs =~= seq![
            ("type"@, SpecJson::Str("object"@)),
            ("required"@, SpecJson::Arr(seq![SpecJson::Str("body"@)])),
            ("properties"@, SpecJson::Obj(seq![("body"@, body_view)])),
        ]);
    }
    r
}

/// One assembled tool parameter, ready for input-schema synthesis: the
/// exposed name, whether a caller must supply it, its schema, and the
/// default injected into that schema.
pub struct ToolParam {
    pub name: String,
    pub required: bool,
    pub schema: Json,
    pub default: Option<Json>,
}

/// The mathematical view of an assembled parameter.
pub struct SpecToolParam {
    pub name: Seq<char>,
    pub required: bool,
    pub schema: SpecJson,
    pub default: Option<SpecJson>,
}

pub open spec fn view_tool_param(p: ToolParam) -> SpecToolParam {
    SpecToolParam {
        name: p.name@,
        required: p.required,
        schema: view_json(p.schema),
        default: match p.default {
            Some(d) => Some(view_json(d)),
            None => None,
        },
    }
}

pub open spec fn view_tool_params(s: Seq<ToolParam>) -> Seq<SpecToolParam> {
    s.map(|i: int, p: ToolParam| view_tool_param(p))
}

/// A parameter's property schema: its own schema with the default set
/// under `"default"` when one is configured.
pub open spec fn spec_prop_schema(p: SpecToolParam) -> SpecJson {
    match p.default {
        Some(d) => match p.schema {
            SpecJson::Obj(es) => SpecJson::Obj(spec_obj_set(es, "default"@, d)),
            SpecJson::Null => SpecJson::Obj(seq![("default"@, d)]),
            _ => p.schema,
        },
        None => p.schema,
    }
}

/// The `properties` object of the input schema: one field per parameter,
/// in parameter order.
pub open spec fn spec_input_properties(ps: Seq<SpecToolParam>) -> Seq<(Seq<char>, SpecJson)> {
    ps.map(|i: int, p: SpecToolParam| (p.name, spec_prop_schema(p)))
}

/// The `required` list of the input schema: the names of the parameters a
/// caller must supply, that is the required ones without a default.
pub open spec fn spec_required_names(ps: Seq<SpecToolParam>) -> Seq<SpecJson>
    decreases ps.len(),
{
    if ps.len() == 0 {
        Seq::empty()
    } else {
        let prev = spec_required_names(ps.drop_last());
        let p = ps.last();
        if p.required && p.default is None {
            prev.push(SpecJson::Str(p.name))
        } else {
            prev
        }
    }
}

/// The synthesized input schema of a tool: an object schema whose
/// properties carry each parameter's schema (with its default injected)
/// and whose `required` list, present only when nonempty, names the
/// parameters a caller must supply.
pub fn build_input_schema(params: Vec<ToolParam>) -> (r: Json)
    requires
        forall|i: int|
            0 <= i < params@.len() && (#[trigger] params@[i]).default is Some ==> (
            params@[i].schema is Obj || params@[i].schema is Null),
    ensures
        ({
            let pv = view_tool_params(params@);
            let head = seq![
                ("type"@, SpecJson::Str("object"@)),
                ("properties"@, SpecJson::Obj(spec_input_properties(pv))),
            ];
            view_json(r) == SpecJson::Obj(
                if spec_required_names(pv).len() == 0 {
                    head
                } else {
                    head.push(("required"@, SpecJson::Arr(spec_required_names(pv))))
                },
            )
        }),
{
    let ghost pv = view_tool_params(params@);
    let ghost n = params@.len();
    let mut rest = params;
    let total: usize = rest.len();
    proof {
        assert(n == total as int);
    }
    let mut props: Vec<(String, Json)> = Vec::new();
    let mut req: Vec<Json> = Vec::new();
    let mut j: usize = 0;
    while rest.len() > 0
        invariant
            n <= usize::MAX,
            pv.len() == n,
            j + rest@.len() == n,
            view_tool_params(rest@) =~= pv.skip(j as int),
            forall|i: int|
                0 <= i < rest@.len() && (#[trigger] rest@[i]).default is Some ==> (
                rest@[i].schema is Obj || rest@[i].schema is Null),
            crate::json::view_obj(props@) =~= spec_input_properties(pv.take(j as int)),
            crate::json::view_arr(req@) =~= spec_required_names(pv.take(j as int)),
        decreases rest@.len(),
    {
        let ghost prev_rest = rest@;
        let p = rest.remove(0);
        proof {
            assert(p == prev_rest[0] && rest@ =~= prev_rest.drop_first());
            assert(view_tool_params(prev_rest)[0] == view_tool_param(p));
            assert(pv[j as int] == view_tool_param(p));
            assert forall|i: int| 0 <= i < rest@.len() implies view_tool_params(rest@)[i]
                == pv.skip(j + 1)[i] by {
                assert(rest@[i] == prev_rest[i + 1]);
                assert(view_tool_params(prev_rest)[i + 1] == pv.skip(j as int)[i + 1]);
            }
            assert(view_tool_params(rest@) =~= pv.skip(j + 1));
            assert(pv.take(j + 1).drop_last() =~= pv.take(j as int));
            assert(pv.take(j + 1).last() == pv[j as int]);
        }
        let ghost sp = view_tool_param(p);
        let name_copy = p.name.as_str().to_owned();
        if p.required && p.default.is_none() {
            let ghost reqv = req@;
            req.push(Json::Str(p.name.as_str().to_owned()));
            proof {
                crate::json::lemma_view_arr_index(req@);
                crate::json::lemma_view_arr_index(reqv);
                assert forall|t: int|
                    0 <= t < req@.len() implies crate::json::view_arr(req@)[t]
                    == spec_required_names(pv.take(j + 1))[t] by {
                    if t < reqv.len() {
                        assert(req@[t] == reqv[t]);
                        assert(crate::json::view_arr(reqv)[t] == spec_required_names(
                            pv.take(j as int),
                        )[t]);
                    }
                }
                assert(crate::json::view_arr(req@) =~= spec_required_names(pv.take(j + 1)));
            }
        } else {
            proof {
                assert(spec_required_names(pv.take(j + 1)) == spec_required_names(
                    pv.take(j as int),
                ));
            }
        }
        let prop = match p.default {
            Some(d) => match p.schema {
                Json::Obj(fields) => Json::Obj(obj_set_key(fields, "default", d)),
                Json::Null => {
                    let ghost dv = view_json(d);
                    let mut fields: Vec<(String, Json)> = Vec::new();
                    fields.push(("default".to_owned(), d));
                    proof {
                        crate::json::lemma_view_obj_index(fields@);
                        assert(view_obj(fields@) =~= seq![("default"@, dv)]);
                    }
                    Json::Obj(fields)
                },
                other => other,
            },
            None => p.schema,
        };
        proof {
            assert(view_json(prop) == spec_prop_schema(sp));
            crate::json::lemma_view_obj_push(props@, (name_copy, prop));
        }
        props.push((name_copy, prop));
        proof {
            assert(crate::json::view_obj(props@) =~= spec_input_properties(pv.take(j + 1)));
        }
        j = j + 1;
    }
    proof {
        assert(pv.take(j as int) =~= pv);
    }
    let ghost req_names = spec_required_names(pv);
    let has_required = req.len() > 0;
    let props_json = Json::Obj(props);
    proof {
        assert(view_json(props_json) == SpecJson::Obj(spec_input_properties(pv)));
    }
    let req_json = Json::Arr(req);
    proof {
        assert(view_json(req_json) == SpecJson::Arr(req_names));
    }
    let mut fields: Vec<(String, Json)> = Vec::new();
    fields.push(("type".to_owned(), Json::Str("object".to_owned())));
    fields.push(("properties".to_owned(), props_json));
    if has_required {
        fields.push(("required".to_owned(), req_json));
        let r = Json::Obj(fields);
        proof {
            crate::json::lemma_view_obj_index(r->Obj_0@);
            let lhs = view_json(r)->Obj_0;
            assert(r->Obj_0@.len() == 3);
            assert(r->Obj_0@[1].0@ == "properties"@);
            assert(view_json(r->Obj_0@[1].1) == SpecJson::Obj(spec_input_properties(pv)));
            assert(lhs[0] == ("type"@, SpecJson::Str("object"@)));
            assert(lhs[1] == ("properties"@, SpecJson::Obj(spec_input_properties(pv))));
            assert(r->Obj_0@[2].0@ == "required"@);
            assert(view_json(r->Obj_0@[2].1) == SpecJson::Arr(req_names));
            assert(lhs[2] == ("required"@, SpecJson::Arr(req_names)));
            assert(lhs =~= seq![
                ("type"@, SpecJson::Str("object"@)),
                ("properties"@, SpecJson::Obj(spec_input_properties(pv))),
            ].push(("required"@, SpecJson::Arr(req_names))));
        }
        r
    } else {
        let r = Json::Obj(fields);
        proof {
            crate::json::lemma_view_obj_index(r->Obj_0@);
            let lhs = view_json(r)->Obj_0;
            assert(r->Obj_0@.len() == 2);
            assert(r->Obj_0@[1].0@ == "properties"@);
            assert(view_json(r->Obj_0@[1].1) == SpecJson::Obj(spec_input_properties(pv)));
            assert(lhs[0] == ("type"@, SpecJson::Str("object"@)));
            assert(lhs[1] == ("properties"@, SpecJson::Obj(spec_input_properties(pv))));
            assert(req_names.len() == 0);
            assert(lhs =~= seq![
                ("type"@, SpecJson::Str("object"@)),
                ("properties"@, SpecJson::Obj(spec_input_properties(pv))),
            ]);
        }
        r
    }
}

/// The verdict of checking a loaded document against its configured hash.
#[derive(Debug, Clone, Copy, PartialEq, Eq, Structural)]
pub enum HashCheckOutcome {
    /// The document may be used.
    Pass,
    /// The document may be used, but the mismatch is reported.
    Warned,
    /// Startup must fail.
    Fatal,
}

/// Decide the spec-hash policy: with no expected hash the document
/// passes; a mismatch against `"sha256:" + actual` is fatal under `Fail`,
/// reported under `Warn`, and ignored under `Ignore`.
pub fn check_spec_hash(
    policy: crate::openapi_names::HashPolicy,
    expected: Option<&String>,
    actual_hex: &str,
) -> (r: HashCheckOutcome)
    ensures
        ({
            let want = "sha256:"@ + actual_hex@;
            match expected {
                None => r == HashCheckOutcome::Pass,
                Some(e) => if e@ == want {
                    r == HashCheckOutcome::Pass
                } else {
                    r == match policy {
                        crate::openapi_names::HashPolicy::Fail => HashCheckOutcome::Fatal,
                        crate::openapi_names::HashPolicy::Warn => HashCheckOutcome::Warned,
                        crate::openapi_names::HashPolicy::Ignore => HashCheckOutcome::Pass,
                    }
                },
            }
        }),
{
    let e = match expected {
        None => {
            return HashCheckOutcome::Pass;
        },
        Some(e) => e,
    };
    let mut want = "sha256:".to_owned();
    want.append(actual_hex);
    if str_eq(e.as_str(), want.as_str()) {
        return HashCheckOutcome::Pass;
    }
    match policy {
        crate::openapi_names::HashPolicy::Fail => HashCheckOutcome::Fatal,
        crate::openapi_names::HashPolicy::Warn => HashCheckOutcome::Warned,
        crate::openapi_names::HashPolicy::Ignore => HashCheckOutcome::Pass,
    }
}

} // verus!
