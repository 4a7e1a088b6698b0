//! Per-profile tool transforms: tool renames, description overrides,
//! parameter renames and injected defaults. Schema transforms adjust the
//! advertised input schema; call transforms map exposed argument names back
//! to the originals and fill in missing defaults.

use crate::json::{lemma_view_obj_index, view_json, view_obj, Json, SpecJson};
use crate::text::{str_eq, view_strings};
use vstd::prelude::*;

verus! {

broadcast use vstd::std_specs::vec::group_vec_axioms, vstd::seq::group_seq_axioms;

/// Overrides configured for one tool, keyed by its original name.
#[derive(Debug)]
pub struct ToolOverride {
    pub rename: Option<String>,
    pub description: Option<String>,
    /// Original parameter name to exposed parameter name.
    pub param_renames: Vec<(String, String)>,
    /// Defaults injected for parameters the caller leaves out.
    pub defaults: Vec<(String, Json)>,
}

/// The transform pipeline of a profile or source.
#[derive(Debug)]
pub struct TransformPipeline {
    pub tool_overrides: Vec<(String, ToolOverride)>,
}

/// The mathematical view of one override.
pub struct SpecToolOverride {
    pub rename: Option<Seq<char>>,
    pub description: Option<Seq<char>>,
    pub param_renames: Seq<(Seq<char>, Seq<char>)>,
    pub defaults: Seq<(Seq<char>, SpecJson)>,
}

pub open spec fn view_override(o: ToolOverride) -> SpecToolOverride {
    SpecToolOverride {
        rename: match o.rename {
            Some(s) => Some(s@),
            None => None,
        },
        description: match o.description {
            Some(s) => Some(s@),
            None => None,
        },
        param_renames: o.param_renames@.map(|i: int, p: (String, String)| (p.0@, p.1@)),
        defaults: view_obj(o.defaults@),
    }
}

/// The pipeline's view: override entries in order, keyed by original name.
pub open spec fn view_pipeline(p: TransformPipeline) -> Seq<(Seq<char>, SpecToolOverride)> {
    p.tool_overrides@.map(|i: int, e: (String, ToolOverride)| (e.0@, view_override(e.1)))
}

/// First-match lookup of the override for an original tool name.
pub open spec fn spec_override_for(
    entries: Seq<(Seq<char>, SpecToolOverride)>,
    name: Seq<char>,
) -> Option<SpecToolOverride>
    decreases entries.len(),
{
    if entries.len() == 0 {
        None
    } else if entries.first().0 == name {
        Some(entries.first().1)
    } else {
        spec_override_for(entries.drop_first(), name)
    }
}

/// The exposed name of a tool: its configured rename, or its original name.
pub open spec fn spec_exposed_name(
    entries: Seq<(Seq<char>, SpecToolOverride)>,
    original: Seq<char>,
) -> Seq<char> {
    match spec_override_for(entries, original) {
        Some(o) => match o.rename {
            Some(rn) => rn,
            None => original,
        },
        None => original,
    }
}

/// The description override of a tool, if any.
pub open spec fn spec_description_override(
    entries: Seq<(Seq<char>, SpecToolOverride)>,
    original: Seq<char>,
) -> Option<Seq<char>> {
    match spec_override_for(entries, original) {
        Some(o) => o.description,
        None => None,
    }
}

impl TransformPipeline {
    /// A pipeline with no overrides.
    pub fn new() -> (r: TransformPipeline)
        ensures
            view_pipeline(r).len() == 0,
    {
        TransformPipeline { tool_overrides: Vec::new() }
    }

    fn override_for<'a>(&'a self, original: &str) -> (r: Option<&'a ToolOverride>)
        ensures
            match r {
                Some(o) => spec_override_for(view_pipeline(*self), original@) == Some(
                    view_override(*o),
                ),
                None => spec_override_for(view_pipeline(*self), original@) is None,
            },
    {
        let ghost entries = view_pipeline(*self);
        proof {
            lemma_override_lookup(entries, original@);
        }
        let n = self.tool_overrides.len();
        let mut i: usize = 0;
        while i < n
            invariant
                n == self.tool_overrides@.len(),
                entries == view_pipeline(*self),
                entries.len() == n,
                forall|t: int|
                    0 <= t < n ==> #[trigger] entries[t] == (
                        self.tool_overrides@[t].0@,
                        view_override(self.tool_overrides@[t].1),
                    ),
                i <= n,
                forall|t: int| 0 <= t < i ==> (#[trigger] entries[t]).0 != original@,
                (exists|t: int| 0 <= t < entries.len() && (#[trigger] entries[t]).0 == original@)
                    ==> spec_override_for(entries, original@) == Some(
                    entries[first_override_match(entries, original@)].1,
                ),
                (forall|t: int| 0 <= t < entries.len() ==> (#[trigger] entries[t]).0 != original@)
                    ==> spec_override_for(entries, original@) is None,
            decreases n - i,
        {
            if str_eq(self.tool_overrides[i].0.as_str(), original) {
                proof {
                    assert(entries[i as int].0 == original@);
                    assert(first_override_match(entries, original@) == i) by {
                        lemma_override_lookup(entries, original@);
                    }
                }
                return Some(&self.tool_overrides[i].1);
            }
            i = i + 1;
        }
        None
    }

    /// The exposed name of a tool under this pipeline.
    pub fn exposed_tool_name(&self, original: &str) -> (r: String)
        ensures
            r@ == spec_exposed_name(view_pipeline(*self), original@),
    {
        match self.override_for(original) {
            Some(o) => match &o.rename {
                Some(rn) => rn.clone(),
                None => original.to_owned(),
            },
            None => original.to_owned(),
        }
    }

    /// The description override for a tool under this pipeline.
    pub fn description_override(&self, original: &str) -> (r: Option<String>)
        ensures
            match r {
                Some(d) => spec_description_override(view_pipeline(*self), original@) == Some(d@),
                None => spec_description_override(view_pipeline(*self), original@) is None,
            },
    {
        match self.override_for(original) {
            Some(o) => match &o.description {
                Some(d) => Some(d.clone()),
                None => None,
            },
            None => None,
        }
    }
}

/// The index of the first override entry for a name, when one exists.
pub open spec fn first_override_match(
    entries: Seq<(Seq<char>, SpecToolOverride)>,
    name: Seq<char>,
) -> int
    decreases entries.len(),
{
    if entries.len() == 0 {
        0
    } else if entries.first().0 == name {
        0
    } else {
        1 + first_override_match(entries.drop_first(), name)
    }
}

proof fn lemma_override_lookup(entries: Seq<(Seq<char>, SpecToolOverride)>, name: Seq<char>)
    ensures
        (exists|t: int| 0 <= t < entries.len() && (#[trigger] entries[t]).0 == name) ==> {
            let i = first_override_match(entries, name);
            &&& 0 <= i < entries.len()
            &&& entries[i].0 == name
            &&& forall|j: int| 0 <= j < i ==> (#[trigger] entries[j]).0 != name
            &&& spec_override_for(entries, name) == Some(entries[i].1)
        },
        (forall|t: int| 0 <= t < entries.len() ==> (#[trigger] entries[t]).0 != name)
            ==> spec_override_for(entries, name) is None,
    decreases entries.len(),
{
    if entries.len() > 0 {
        lemma_override_lookup(entries.drop_first(), name);
        if entries.first().0 != name {
            let rest = entries.drop_first();
            assert(forall|j: int| 0 <= j < rest.len() ==> #[trigger] rest[j] == entries[j + 1]);
            if exists|t: int| 0 <= t < entries.len() && (#[trigger] entries[t]).0 == name {
                let t0 = choose|t: int|
                    0 <= t < entries.len() && (#[trigger] entries[t]).0 == name;
                assert(t0 != 0);
                assert(rest[t0 - 1].0 == name);
                assert(exists|t: int| 0 <= t < rest.len() && (#[trigger] rest[t]).0 == name);
                let ir = first_override_match(rest, name);
                let im = first_override_match(entries, name);
                assert(im == 1 + ir);
                assert forall|j: int| 0 <= j < im implies (#[trigger] entries[j]).0 != name by {
                    if j > 0 {
                        assert(rest[j - 1].0 != name);
                    }
                }
            } else {
                assert(forall|t: int| 0 <= t < rest.len() ==> (#[trigger] rest[t]).0 != name);
            }
        }
    }
}

/// The original parameter name an exposed name maps back to: the first
/// rename whose exposed side matches, else the name itself.
pub open spec fn spec_reverse_param(
    renames: Seq<(Seq<char>, Seq<char>)>,
    exposed: Seq<char>,
) -> Seq<char>
    decreases renames.len(),
{
    if renames.len() == 0 {
        exposed
    } else if renames.first().1 == exposed {
        renames.first().0
    } else {
        spec_reverse_param(renames.drop_first(), exposed)
    }
}

/// The exposed parameter name an original maps to: the first rename whose
/// original side matches, else the name itself.
pub open spec fn spec_forward_param(
    renames: Seq<(Seq<char>, Seq<char>)>,
    original: Seq<char>,
) -> Seq<char>
    decreases renames.len(),
{
    if renames.len() == 0 {
        original
    } else if renames.first().0 == original {
        renames.first().1
    } else {
        spec_forward_param(renames.drop_first(), original)
    }
}

fn reverse_param(renames: &Vec<(String, String)>, exposed: &str) -> (r: String)
    ensures
        r@ == spec_reverse_param(
            renames@.map(|i: int, p: (String, String)| (p.0@, p.1@)),
            exposed@,
        ),
{
    let ghost rv = renames@.map(|i: int, p: (String, String)| (p.0@, p.1@));
    let n = renames.len();
    let mut i: usize = 0;
    proof {
        assert(rv.skip(0) =~= rv);
    }
    while i < n
        invariant
            n == renames@.len(),
            rv == renames@.map(|i: int, p: (String, String)| (p.0@, p.1@)),
            rv.len() == n,
            i <= n,
            spec_reverse_param(rv, exposed@) == spec_reverse_param(rv.skip(i as int), exposed@),
        decreases n - i,
    {
        proof {
            assert(rv.skip(i as int).first() == rv[i as int]);
            assert(rv.skip(i as int).drop_first() =~= rv.skip(i + 1));
            assert(rv[i as int] == (renames@[i as int].0@, renames@[i as int].1@));
        }
        if str_eq(renames[i].1.as_str(), exposed) {
            return renames[i].0.clone();
        }
        i = i + 1;
    }
    proof {
        assert(rv.skip(n as int).len() == 0);
    }
    exposed.to_owned()
}

fn forward_param(renames: &Vec<(String, String)>, original: &str) -> (r: String)
    ensures
        r@ == spec_forward_param(
            renames@.map(|i: int, p: (String, String)| (p.0@, p.1@)),
            original@,
        ),
{
    let ghost rv = renames@.map(|i: int, p: (String, String)| (p.0@, p.1@));
    let n = renames.len();
    let mut i: usize = 0;
    proof {
        assert(rv.skip(0) =~= rv);
    }
    while i < n
        invariant
            n == renames@.len(),
            rv == renames@.map(|i: int, p: (String, String)| (p.0@, p.1@)),
            rv.len() == n,
            i <= n,
            spec_forward_param(rv, original@) == spec_forward_param(rv.skip(i as int), original@),
        decreases n - i,
    {
        proof {
            assert(rv.skip(i as int).first() == rv[i as int]);
            assert(rv.skip(i as int).drop_first() =~= rv.skip(i + 1));
            assert(rv[i as int] == (renames@[i as int].0@, renames@[i as int].1@));
        }
        if str_eq(renames[i].0.as_str(), original) {
            return renames[i].1.clone();
        }
        i = i + 1;
    }
    proof {
        assert(rv.skip(n as int).len() == 0);
    }
    original.to_owned()
}

/// Argument fields with exposed names mapped back to the originals.
pub open spec fn spec_rename_back(
    fields: Seq<(Seq<char>, SpecJson)>,
    renames: Seq<(Seq<char>, Seq<char>)>,
) -> Seq<(Seq<char>, SpecJson)>
    decreases fields.len(),
{
    if fields.len() == 0 {
        Seq::empty()
    } else {
        spec_rename_back(fields.drop_last(), renames).push(
            (spec_reverse_param(renames, fields.last().0), fields.last().1),
        )
    }
}

/// Fields with each configured default appended when its key is absent.
pub open spec fn spec_add_defaults(
    fields: Seq<(Seq<char>, SpecJson)>,
    defaults: Seq<(Seq<char>, SpecJson)>,
) -> Seq<(Seq<char>, SpecJson)>
    decreases defaults.len(),
{
    if defaults.len() == 0 {
        fields
    } else {
        let with_first = if crate::json::SpecJson::obj_has_key(fields, defaults.first().0) {
            fields
        } else {
            fields.push(defaults.first())
        };
        spec_add_defaults(with_first, defaults.drop_first())
    }
}

/// What `apply_call_transforms` does to an argument object: exposed keys
/// are mapped back to the original parameter names, then missing defaults
/// are appended; values and non-object arguments pass through.
pub open spec fn spec_call_transformed(o: Option<SpecToolOverride>, v: SpecJson) -> SpecJson {
    match o {
        None => v,
        Some(o) => match v {
            SpecJson::Obj(fields) => SpecJson::Obj(
                spec_add_defaults(spec_rename_back(fields, o.param_renames), o.defaults),
            ),
            other => other,
        },
    }
}

fn obj_fields_has_key(fields: &Vec<(String, Json)>, key: &str) -> (r: bool)
    ensures
        r == crate::json::SpecJson::obj_has_key(view_obj(fields@), key@),
{
    proof {
        lemma_view_obj_index(fields@);
    }
    let n = fields.len();
    let mut i: usize = 0;
    while i < n
        invariant
            n == fields@.len(),
            view_obj(fields@).len() == n,
            forall|t: int|
                0 <= t < n ==> #[trigger] view_obj(fields@)[t] == (
                    fields@[t].0@,
                    view_json(fields@[t].1),
                ),
            i <= n,
            forall|t: int| 0 <= t < i ==> (#[trigger] view_obj(fields@)[t]).0 != key@,
        decreases n - i,
    {
        if str_eq(fields[i].0.as_str(), key) {
            proof {
                assert(view_obj(fields@)[i as int].0 == key@);
            }
            return true;
        }
        i = i + 1;
    }
    false
}

impl TransformPipeline {
    /// Rewrite exposed call arguments back into the original tool's
    /// argument names and insert missing defaults.
    pub fn apply_call_transforms(&self, original_tool: &str, args: &Json) -> (r: Json)
        ensures
            view_json(r) == spec_call_transformed(
                spec_override_for(view_pipeline(*self), original_tool@),
                view_json(*args),
            ),
    {
        let o = match self.override_for(original_tool) {
            Some(o) => o,
            None => {
                return args.duplicate();
            },
        };
        let fields = match args {
            Json::Obj(fields) => fields,
            other => {
                return other.duplicate();
            },
        };
        let ghost vf = view_obj(fields@);
        proof {
            lemma_view_obj_index(fields@);
        }
        let ghost renames = o.param_renames@.map(|i: int, p: (String, String)| (p.0@, p.1@));
        let n = fields.len();
        let mut renamed: Vec<(String, Json)> = Vec::new();
        let mut i: usize = 0;
        while i < n
            invariant
                n == fields@.len(),
                vf == view_obj(fields@),
                vf.len() == n,
                forall|t: int|
                    0 <= t < n ==> #[trigger] vf[t] == (fields@[t].0@, view_json(fields@[t].1)),
                renames == o.param_renames@.map(|i: int, p: (String, String)| (p.0@, p.1@)),
                i <= n,
                view_obj(renamed@) == spec_rename_back(vf.take(i as int), renames),
            decreases n - i,
        {
            let new_key = reverse_param(&o.param_renames, fields[i].0.as_str());
            let value = fields[i].1.duplicate();
            let ghost prev = renamed@;
            renamed.push((new_key, value));
            proof {
                crate::json::lemma_view_obj_push(prev, renamed@.last());
                assert(vf.take(i + 1).drop_last() =~= vf.take(i as int));
                assert(vf.take(i + 1).last() == vf[i as int]);
                assert(view_obj(renamed@) =~= spec_rename_back(vf.take(i + 1), renames));
            }
            i = i + 1;
        }
        proof {
            assert(vf.take(n as int) =~= vf);
        }
        // Append each configured default whose key is absent.
        let ghost defaults = view_obj(o.defaults@);
        proof {
            lemma_view_obj_index(o.defaults@);
        }
        let m = o.defaults.len();
        let mut out = renamed;
        let mut j: usize = 0;
        proof {
            assert(defaults.skip(0) =~= defaults);
        }
        while j < m
            invariant
                m == o.defaults@.len(),
                defaults == view_obj(o.defaults@),
                defaults.len() == m,
                forall|t: int|
                    0 <= t < m ==> #[trigger] defaults[t] == (
                        o.defaults@[t].0@,
                        view_json(o.defaults@[t].1),
                    ),
                j <= m,
                spec_add_defaults(view_obj(out@), defaults.skip(j as int)) == spec_add_defaults(
                    spec_rename_back(vf, renames),
                    defaults,
                ),
            decreases m - j,
        {
            proof {
                assert(defaults.skip(j as int).first() == defaults[j as int]);
                assert(defaults.skip(j as int).drop_first() =~= defaults.skip(j + 1));
            }
            if !obj_fields_has_key(&out, o.defaults[j].0.as_str()) {
                let key = o.defaults[j].0.clone();
                let dv = o.defaults[j].1.duplicate();
                let ghost prev = out@;
                out.push((key, dv));
                proof {
                    crate::json::lemma_view_obj_push(prev, out@.last());
                    assert(view_obj(out@) =~= view_obj(prev).push(defaults[j as int]));
                }
            }
            j = j + 1;
        }
        proof {
            assert(defaults.skip(m as int).len() == 0);
        }
        Json::Obj(out)
    }
}

/// Property fields with original keys renamed forward and configured
/// defaults injected into each renamed property's schema.
pub open spec fn spec_transform_props(
    props: Seq<(Seq<char>, SpecJson)>,
    renames: Seq<(Seq<char>, Seq<char>)>,
    defaults: Seq<(Seq<char>, SpecJson)>,
) -> Seq<(Seq<char>, SpecJson)>
    decreases props.len(),
{
    if props.len() == 0 {
        Seq::empty()
    } else {
        let key = props.last().0;
        let sub = props.last().1;
        let with_default = match spec_default_for(defaults, key) {
            Some(dv) => match sub {
                SpecJson::Obj(sub_fields) => if crate::json::SpecJson::obj_has_key(
                    sub_fields,
                    "default"@,
                ) {
                    SpecJson::Obj(sub_fields)
                } else {
                    SpecJson::Obj(sub_fields.push(("default"@, dv)))
                },
                other => other,
            },
            None => sub,
        };
        spec_transform_props(props.drop_last(), renames, defaults).push(
            (spec_forward_param(renames, key), with_default),
        )
    }
}

/// First-match lookup of a configured default for an original parameter.
pub open spec fn spec_default_for(
    defaults: Seq<(Seq<char>, SpecJson)>,
    key: Seq<char>,
) -> Option<SpecJson>
    decreases defaults.len(),
{
    if defaults.len() == 0 {
        None
    } else if defaults.first().0 == key {
        Some(defaults.first().1)
    } else {
        spec_default_for(defaults.drop_first(), key)
    }
}

/// Required-name entries renamed forward; non-strings pass through.
pub open spec fn spec_transform_required(
    items: Seq<SpecJson>,
    renames: Seq<(Seq<char>, Seq<char>)>,
) -> Seq<SpecJson>
    decreases items.len(),
{
    if items.len() == 0 {
        Seq::empty()
    } else {
        let mapped = match items.last() {
            SpecJson::Str(name) => SpecJson::Str(spec_forward_param(renames, name)),
            other => other,
        };
        spec_transform_required(items.drop_last(), renames).push(mapped)
    }
}

/// What `apply_schema_transforms` does to an input schema object: keys of
/// `properties` are renamed, configured defaults appear as `default` in
/// the renamed property schemas, entries of `required` are renamed; every
/// other field, and every non-object schema, passes through.
pub open spec fn spec_schema_transformed(o: Option<SpecToolOverride>, v: SpecJson) -> SpecJson {
    match o {
        None => v,
        Some(o) => match v {
            SpecJson::Obj(fields) => SpecJson::Obj(spec_transform_schema_fields(fields, o)),
            other => other,
        },
    }
}

pub open spec fn spec_transform_schema_fields(
    fields: Seq<(Seq<char>, SpecJson)>,
    o: SpecToolOverride,
) -> Seq<(Seq<char>, SpecJson)>
    decreases fields.len(),
{
    if fields.len() == 0 {
        Seq::empty()
    } else {
        let key = fields.last().0;
        let sub = fields.last().1;
        let mapped = if key == "properties"@ {
            match sub {
                SpecJson::Obj(props) => SpecJson::Obj(
                    spec_transform_props(props, o.param_renames, o.defaults),
                ),
                other => other,
            }
        } else if key == "required"@ {
            match sub {
                SpecJson::Arr(items) => SpecJson::Arr(
                    spec_transform_required(items, o.param_renames),
                ),
                other => other,
            }
        } else {
            sub
        };
        spec_transform_schema_fields(fields.drop_last(), o).push((key, mapped))
    }
}

fn default_for<'a>(defaults: &'a Vec<(String, Json)>, key: &str) -> (r: Option<&'a Json>)
    ensures
        match r {
            Some(dv) => spec_default_for(view_obj(defaults@), key@) == Some(view_json(*dv)),
            None => spec_default_for(view_obj(defaults@), key@) is None,
        },
{
    let ghost dv = view_obj(defaults@);
    proof {
        lemma_view_obj_index(defaults@);
        assert(dv.skip(0) =~= dv);
    }
    let n = defaults.len();
    let mut i: usize = 0;
    while i < n
        invariant
            n == defaults@.len(),
            dv == view_obj(defaults@),
            dv.len() == n,
            forall|t: int|
                0 <= t < n ==> #[trigger] dv[t] == (defaults@[t].0@, view_json(defaults@[t].1)),
            i <= n,
            spec_default_for(dv, key@) == spec_default_for(dv.skip(i as int), key@),
        decreases n - i,
    {
        proof {
            assert(dv.skip(i as int).first() == dv[i as int]);
            assert(dv.skip(i as int).drop_first() =~= dv.skip(i + 1));
        }
        if str_eq(defaults[i].0.as_str(), key) {
            return Some(&defaults[i].1);
        }
        i = i + 1;
    }
    proof {
        assert(dv.skip(n as int).len() == 0);
    }
    None
}

impl TransformPipeline {
    /// Rewrite an advertised input schema for the exposed surface: rename
    /// `properties` keys, surface configured defaults, rename `required`
    /// entries.
    pub fn apply_schema_transforms(&self, original_tool: &str, schema: &Json) -> (r: Json)
        ensures
            view_json(r) == spec_schema_transformed(
                spec_override_for(view_pipeline(*self), original_tool@),
                view_json(*schema),
            ),
    {
        let o = match self.override_for(original_tool) {
            Some(o) => o,
            None => {
                return schema.duplicate();
            },
        };
        let fields = match schema {
            Json::Obj(fields) => fields,
            other => {
                return other.duplicate();
            },
        };
        let ghost ov = view_override(*o);
        let ghost vf = view_obj(fields@);
        proof {
            lemma_view_obj_index(fields@);
        }
        let n = fields.len();
        let mut out: Vec<(String, Json)> = Vec::new();
        let mut i: usize = 0;
        while i < n
            invariant
                n == fields@.len(),
                vf == view_obj(fields@),
                vf.len() == n,
                forall|t: int|
                    0 <= t < n ==> #[trigger] vf[t] == (fields@[t].0@, view_json(fields@[t].1)),
                ov == view_override(*o),
                i <= n,
                view_obj(out@) == spec_transform_schema_fields(vf.take(i as int), ov),
            decreases n - i,
        {
            let key = fields[i].0.clone();
            let mapped: Json = if str_eq(key.as_str(), "properties") {
                match &fields[i].1 {
                    Json::Obj(props) => Json::Obj(self.transform_props(o, props)),
                    other => other.duplicate(),
                }
            } else if str_eq(key.as_str(), "required") {
                match &fields[i].1 {
                    Json::Arr(items) => Json::Arr(transform_required(&o.param_renames, items)),
                    other => other.duplicate(),
                }
            } else {
                fields[i].1.duplicate()
            };
            let ghost prev = out@;
            out.push((key, mapped));
            proof {
                reveal_strlit("properties");
                reveal_strlit("required");
                crate::json::lemma_view_obj_push(prev, out@.last());
                assert(vf.take(i + 1).drop_last() =~= vf.take(i as int));
                assert(vf.take(i + 1).last() == vf[i as int]);
                assert(view_obj(out@) =~= spec_transform_schema_fields(vf.take(i + 1), ov));
            }
            i = i + 1;
        }
        proof {
            assert(vf.take(n as int) =~= vf);
        }
        Json::Obj(out)
    }

    fn transform_props(&self, o: &ToolOverride, props: &Vec<(String, Json)>) -> (r: Vec<
        (String, Json),
    >)
        ensures
            view_obj(r@) == spec_transform_props(
                view_obj(props@),
                view_override(*o).param_renames,
                view_override(*o).defaults,
            ),
    {
        let ghost vp = view_obj(props@);
        let ghost renames = view_override(*o).param_renames;
        let ghost defaults = view_override(*o).defaults;
        proof {
            lemma_view_obj_index(props@);
        }
        let n = props.len();
        let mut out: Vec<(String, Json)> = Vec::new();
        let mut i: usize = 0;
        while i < n
            invariant
                n == props@.len(),
                vp == view_obj(props@),
                vp.len() == n,
                forall|t: int|
                    0 <= t < n ==> #[trigger] vp[t] == (props@[t].0@, view_json(props@[t].1)),
                renames == view_override(*o).param_renames,
                defaults == view_override(*o).defaults,
                i <= n,
                view_obj(out@) == spec_transform_props(vp.take(i as int), renames, defaults),
            decreases n - i,
        {
            let new_key = forward_param(&o.param_renames, props[i].0.as_str());
            let sub = match default_for(&o.defaults, props[i].0.as_str()) {
                Some(dv) => {
                    match &props[i].1 {
                        Json::Obj(sub_fields) => {
                            if obj_fields_has_key(sub_fields, "default") {
                                proof {
                                    reveal_strlit("default");
                                }
                                props[i].1.duplicate()
                            } else {
                                let mut extended: Vec<(String, Json)> = Vec::new();
                                let m = sub_fields.len();
                                let mut j: usize = 0;
                                proof {
                                    lemma_view_obj_index(sub_fields@);
                                }
                                while j < m
                                    invariant
                                        m == sub_fields@.len(),
                                        j <= m,
                                        extended@.len() == j,
                                        forall|t: int|
                                            0 <= t < j ==> (#[trigger] extended@[t]).0@
                                                == sub_fields@[t].0@ && view_json(extended@[t].1)
                                                == view_json(sub_fields@[t].1),
                                    decreases m - j,
                                {
                                    let k2 = sub_fields[j].0.clone();
                                    let v2 = sub_fields[j].1.duplicate();
                                    extended.push((k2, v2));
                                    j = j + 1;
                                }
                                let dvc = dv.duplicate();
                                extended.push(("default".to_owned(), dvc));
                                proof {
                                    reveal_strlit("default");
                                    lemma_view_obj_index(extended@);
                                    lemma_view_obj_index(sub_fields@);
                                    let target = view_obj(sub_fields@).push(
                                        ("default"@, spec_default_for(
                                            defaults,
                                            props@[i as int].0@,
                                        ).unwrap()),
                                    );
                                    assert forall|t: int|
                                        0 <= t < view_obj(extended@).len() implies view_obj(
                                        extended@,
                                    )[t] == target[t] by {
                                        assert(view_obj(extended@)[t] == (
                                            extended@[t].0@,
                                            view_json(extended@[t].1),
                                        ));
                                        if t < sub_fields@.len() {
                                            assert(view_obj(sub_fields@)[t] == (
                                                sub_fields@[t].0@,
                                                view_json(sub_fields@[t].1),
                                            ));
                                        }
                                    }
                                    assert(view_obj(extended@) =~= target);
                                }
                                Json::Obj(extended)
                            }
                        },
                        other => other.duplicate(),
                    }
                },
                None => props[i].1.duplicate(),
            };
            let ghost prev = out@;
            out.push((new_key, sub));
            proof {
                crate::json::lemma_view_obj_push(prev, out@.last());
                assert(vp.take(i + 1).drop_last() =~= vp.take(i as int));
                assert(vp.take(i + 1).last() == vp[i as int]);
                assert(view_obj(out@) =~= spec_transform_props(vp.take(i + 1), renames, defaults));
            }
            i = i + 1;
        }
        proof {
            assert(vp.take(n as int) =~= vp);
        }
        out
    }
}

fn transform_required(renames: &Vec<(String, String)>, items: &Vec<Json>) -> (r: Vec<Json>)
    ensures
        crate::json::view_arr(r@) == spec_transform_required(
            crate::json::view_arr(items@),
            renames@.map(|i: int, p: (String, String)| (p.0@, p.1@)),
        ),
{
    let ghost va = crate::json::view_arr(items@);
    let ghost rv = renames@.map(|i: int, p: (String, String)| (p.0@, p.1@));
    proof {
        crate::json::lemma_view_arr_index(items@);
    }
    let n = items.len();
    let mut out: Vec<Json> = Vec::new();
    let mut i: usize = 0;
    while i < n
        invariant
            n == items@.len(),
            va == crate::json::view_arr(items@),
            va.len() == n,
            forall|t: int| 0 <= t < n ==> va[t] == view_json(#[trigger] items@[t]),
            rv == renames@.map(|i: int, p: (String, String)| (p.0@, p.1@)),
            i <= n,
            crate::json::view_arr(out@) == spec_transform_required(va.take(i as int), rv),
        decreases n - i,
    {
        let mapped: Json = match &items[i] {
            Json::Str(name) => Json::Str(forward_param(renames, name.as_str())),
            other => other.duplicate(),
        };
        let ghost prev = out@;
        out.push(mapped);
        proof {
            crate::json::lemma_view_arr_push(prev, out@.last());
            assert(va.take(i + 1).drop_last() =~= va.take(i as int));
            assert(va.take(i + 1).last() == va[i as int]);
            assert(crate::json::view_arr(out@) =~= spec_transform_required(va.take(i + 1), rv));
        }
        i = i + 1;
    }
    proof {
        assert(va.take(n as int) =~= va);
    }
    out
}

} // verus!
