//! Contract-change tracking: canonical hashes of the exposed tool, resource
//! and prompt surfaces, recorded per profile, with change detection. The
//! first observation of a surface is recorded silently; later changes yield
//! a `ContractChange`.

use crate::canon::{
    canonicalize, json_to_string, sort_fields, spec_canon, spec_json_text, spec_sort_fields,
};
use crate::digest::{sha256_hex_of_str, spec_sha256_hex_of_str};
use crate::json::{
    lemma_view_arr_index, lemma_view_obj_index, view_arr, view_json, view_obj, Json, SpecJson,
};
use crate::model::{
    view_annotations, view_opt_string, view_prompt, view_prompt_argument, view_prompts,
    view_resource, view_resources, view_tool, view_tools, PromptArgument, PromptDef, ResourceDef,
    SpecPromptArgument, SpecPromptDef, SpecResourceDef, SpecToolAnnotations, SpecToolDef,
    ToolAnnotations, ToolDef,
};
use vstd::prelude::*;

verus! {

broadcast use vstd::std_specs::vec::group_vec_axioms, vstd::seq::group_seq_axioms;

/// Which exposed surface a contract hash covers.
#[derive(Debug, Clone, Copy, PartialEq, Eq, Structural)]
pub enum ContractKind {
    Tools,
    Resources,
    Prompts,
}

impl ContractKind {
    /// The MCP notification method announcing a change of this surface.
    pub fn list_changed_method(self) -> (r: &'static str)
        ensures
            r@ == match self {
                ContractKind::Tools => "notifications/tools/list_changed"@,
                ContractKind::Resources => "notifications/resources/list_changed"@,
                ContractKind::Prompts => "notifications/prompts/list_changed"@,
            },
    {
        match self {
            ContractKind::Tools => "notifications/tools/list_changed",
            ContractKind::Resources => "notifications/resources/list_changed",
            ContractKind::Prompts => "notifications/prompts/list_changed",
        }
    }

    /// The short name of this surface.
    pub fn as_str(self) -> (r: &'static str)
        ensures
            r@ == match self {
                ContractKind::Tools => "tools"@,
                ContractKind::Resources => "resources"@,
                ContractKind::Prompts => "prompts"@,
            },
    {
        match self {
            ContractKind::Tools => "tools",
            ContractKind::Resources => "resources",
            ContractKind::Prompts => "prompts",
        }
    }
}

/// A detected change of a profile's exposed surface.
#[derive(Debug)]
pub struct ContractChange {
    pub profile_id: String,
    pub kind: ContractKind,
    pub contract_hash: String,
}

/// A persisted, broadcastable contract change.
#[derive(Debug)]
pub struct ContractEvent {
    pub profile_id: String,
    pub kind: ContractKind,
    pub contract_hash: String,
    pub event_id: u64,
}

/// The canonical JSON of tool annotations: an object holding only the
/// present hints, keys in sorted order; `null` when absent.
pub open spec fn spec_annotations_json(a: Option<SpecToolAnnotations>) -> SpecJson {
    match a {
        None => SpecJson::Null,
        Some(a) => SpecJson::Obj(
            (match a.destructive_hint {
                Some(b) => seq![("destructiveHint"@, SpecJson::Bool(b))],
                None => Seq::empty(),
            }) + (match a.idempotent_hint {
                Some(b) => seq![("idempotentHint"@, SpecJson::Bool(b))],
                None => Seq::empty(),
            }) + (match a.open_world_hint {
                Some(b) => seq![("openWorldHint"@, SpecJson::Bool(b))],
                None => Seq::empty(),
            }) + (match a.read_only_hint {
                Some(b) => seq![("readOnlyHint"@, SpecJson::Bool(b))],
                None => Seq::empty(),
            }) + (match a.title {
                Some(t) => seq![("title"@, SpecJson::Str(t))],
                None => Seq::empty(),
            }),
        ),
    }
}

fn annotations_json(a: &Option<ToolAnnotations>) -> (r: Json)
    ensures
        view_json(r) == spec_annotations_json(
            match a {
                Some(x) => Some(view_annotations(*x)),
                None => None,
            },
        ),
{
    match a {
        None => Json::Null,
        Some(a) => {
            let mut fields: Vec<(String, Json)> = Vec::new();
            if let Some(b) = a.destructive_hint {
                fields.push(("destructiveHint".to_owned(), Json::Bool(b)));
            }
            if let Some(b) = a.idempotent_hint {
                fields.push(("idempotentHint".to_owned(), Json::Bool(b)));
            }
            if let Some(b) = a.open_world_hint {
                fields.push(("openWorldHint".to_owned(), Json::Bool(b)));
            }
            if let Some(b) = a.read_only_hint {
                fields.push(("readOnlyHint".to_owned(), Json::Bool(b)));
            }
            if let Some(t) = &a.title {
                fields.push(("title".to_owned(), Json::Str(t.clone())));
            }
            let r = Json::Obj(fields);
            proof {
                lemma_view_obj_index(r->Obj_0@);
                let lhs = view_json(r)->Obj_0;
                let rhs = spec_annotations_json(Some(view_annotations(*a)))->Obj_0;
                assert(lhs.len() == rhs.len());
                assert forall|t: int| 0 <= t < lhs.len() implies lhs[t] == rhs[t] by {
                    assert(lhs[t] == ((r->Obj_0)@[t].0@, view_json((r->Obj_0)@[t].1)));
                }
                assert(lhs =~= rhs);
            }
            r
        },
    }
}

/// The canonical entry hashed for one tool: name, description, canonical
/// schemas and annotations, with sorted keys.
pub open spec fn spec_tool_entry(t: SpecToolDef) -> SpecJson {
    SpecJson::Obj(
        seq![
            ("annotations"@, spec_annotations_json(t.annotations)),
            (
                "description"@,
                SpecJson::Str(
                    match t.description {
                        Some(d) => d,
                        None => Seq::empty(),
                    },
                ),
            ),
            ("inputSchema"@, spec_canon(t.input_schema)),
            ("name"@, SpecJson::Str(t.name)),
            (
                "outputSchema"@,
                match t.output_schema {
                    Some(s) => spec_canon(s),
                    None => SpecJson::Null,
                },
            ),
        ],
    )
}

fn tool_entry(t: &ToolDef) -> (r: (String, Json))
    ensures
        r.0@ == view_tool(*t).name,
        view_json(r.1) == spec_tool_entry(view_tool(*t)),
{
    let mut fields: Vec<(String, Json)> = Vec::new();
    fields.push(("annotations".to_owned(), annotations_json(&t.annotations)));
    let desc: String = match &t.description {
        Some(d) => d.clone(),
        None => String::new(),
    };
    fields.push(("description".to_owned(), Json::Str(desc)));
    fields.push(("inputSchema".to_owned(), canonicalize(&t.input_schema)));
    fields.push(("name".to_owned(), Json::Str(t.name.clone())));
    let out_schema: Json = match &t.output_schema {
        Some(s) => canonicalize(s),
        None => Json::Null,
    };
    fields.push(("outputSchema".to_owned(), out_schema));
    let r = Json::Obj(fields);
    proof {
        lemma_view_obj_index(r->Obj_0@);
        let lhs = view_json(r)->Obj_0;
        let rhs = spec_tool_entry(view_tool(*t))->Obj_0;
        assert(lhs.len() == rhs.len());
        assert forall|t2: int| 0 <= t2 < lhs.len() implies lhs[t2] == rhs[t2] by {
            assert(lhs[t2] == ((r->Obj_0)@[t2].0@, view_json((r->Obj_0)@[t2].1)));
        }
        assert(lhs =~= rhs);
    }
    (t.name.clone(), r)
}

/// Keyed canonical entries for a tool list.
pub open spec fn spec_tool_entries(ts: Seq<SpecToolDef>) -> Seq<(Seq<char>, SpecJson)> {
    ts.map(|i: int, t: SpecToolDef| (t.name, spec_tool_entry(t)))
}

/// The values of a keyed entry list, keys dropped.
pub open spec fn spec_entry_values(s: Seq<(Seq<char>, SpecJson)>) -> Seq<SpecJson> {
    s.map(|i: int, p: (Seq<char>, SpecJson)| p.1)
}

/// The canonical text hashed for a tool surface: entries sorted by name.
pub open spec fn spec_tools_hash_input(ts: Seq<SpecToolDef>) -> Seq<char> {
    spec_json_text(SpecJson::Arr(spec_entry_values(spec_sort_fields(spec_tool_entries(ts)))))
}

/// The contract hash of a tool surface.
pub open spec fn spec_tools_contract_hash(ts: Seq<SpecToolDef>) -> Seq<char> {
    spec_sha256_hex_of_str(spec_tools_hash_input(ts))
}

/// Collect the values of a sorted entry list into an array value.
fn entry_values(entries: Vec<(String, Json)>) -> (r: Vec<Json>)
    ensures
        view_arr(r@) == spec_entry_values(view_obj(entries@)),
{
    proof {
        lemma_view_obj_index(entries@);
    }
    let n = entries.len();
    let mut out: Vec<Json> = Vec::new();
    let mut i: usize = 0;
    let mut entries = entries;
    while i < n
        invariant
            n == entries@.len(),
            i <= n,
            out@.len() == i,
            forall|t: int|
                0 <= t < n ==> view_obj(entries@)[t] == ((#[trigger] entries@[t]).0@, view_json(
                    entries@[t].1,
                )),
            forall|t: int|
                0 <= t < i ==> view_json(#[trigger] out@[t]) == view_obj(entries@)[t].1,
        decreases n - i,
    {
        let v = entries[i].1.duplicate();
        out.push(v);
        i = i + 1;
    }
    proof {
        lemma_view_arr_index(out@);
        let lhs = view_arr(out@);
        let rhs = spec_entry_values(view_obj(entries@));
        assert forall|t: int| 0 <= t < n implies lhs[t] == rhs[t] by {
            assert(view_json(out@[t]) == view_obj(entries@)[t].1);
            assert(rhs[t] == view_obj(entries@)[t].1);
        }
        assert(lhs =~= rhs);
    }
    out
}

/// Hash the canonical representation of a tool surface.
pub fn tools_contract_hash(tools: &Vec<ToolDef>) -> (r: String)
    ensures
        r@ == spec_tools_contract_hash(view_tools(tools@)),
{
    let n = tools.len();
    let mut entries: Vec<(String, Json)> = Vec::new();
    let mut i: usize = 0;
    while i < n
        invariant
            n == tools@.len(),
            i <= n,
            entries@.len() == i,
            forall|t: int|
                0 <= t < i ==> view_obj(entries@)[t] == #[trigger] spec_tool_entries(
                    view_tools(tools@),
                )[t],
            forall|t: int|
                0 <= t < i ==> view_obj(entries@)[t] == ((#[trigger] entries@[t]).0@, view_json(
                    entries@[t].1,
                )),
        decreases n - i,
    {
        let e = tool_entry(&tools[i]);
        let ghost prev = entries@;
        entries.push(e);
        proof {
            crate::json::lemma_view_obj_push(prev, entries@.last());
            lemma_view_obj_index(entries@);
            assert(spec_tool_entries(view_tools(tools@))[i as int] == (
                view_tool(tools@[i as int]).name,
                spec_tool_entry(view_tool(tools@[i as int])),
            ));
        }
        i = i + 1;
    }
    proof {
        lemma_view_obj_index(entries@);
        assert(view_obj(entries@) =~= spec_tool_entries(view_tools(tools@)));
    }
    let sorted = sort_fields(entries);
    let values = entry_values(sorted);
    let arr = Json::Arr(values);
    let text = json_to_string(&arr);
    sha256_hex_of_str(text.as_str())
}

/// The canonical entry hashed for one resource: present fields only, keys
/// in sorted order.
pub open spec fn spec_resource_entry(r: SpecResourceDef) -> SpecJson {
    SpecJson::Obj(
        (match r.description {
            Some(d) => seq![("description"@, SpecJson::Str(d))],
            None => Seq::empty(),
        }) + (match r.mime_type {
            Some(m) => seq![("mimeType"@, SpecJson::Str(m))],
            None => Seq::empty(),
        }) + seq![("name"@, SpecJson::Str(r.name))] + (match r.size {
            Some(n) => seq![("size"@, SpecJson::Int(n as int))],
            None => Seq::empty(),
        }) + seq![("uri"@, SpecJson::Str(r.uri))],
    )
}

fn resource_entry(r: &ResourceDef) -> (e: (String, Json))
    ensures
        e.0@ == view_resource(*r).uri,
        view_json(e.1) == spec_resource_entry(view_resource(*r)),
{
    let mut fields: Vec<(String, Json)> = Vec::new();
    if let Some(d) = &r.description {
        fields.push(("description".to_owned(), Json::Str(d.clone())));
    }
    if let Some(m) = &r.mime_type {
        fields.push(("mimeType".to_owned(), Json::Str(m.clone())));
    }
    fields.push(("name".to_owned(), Json::Str(r.name.clone())));
    if let Some(n) = r.size {
        fields.push(("size".to_owned(), Json::Int(n as i64)));
    }
    fields.push(("uri".to_owned(), Json::Str(r.uri.clone())));
    let e = Json::Obj(fields);
    proof {
        lemma_view_obj_index(e->Obj_0@);
        let lhs = view_json(e)->Obj_0;
        let rhs = spec_resource_entry(view_resource(*r))->Obj_0;
        assert(lhs.len() == rhs.len());
        assert forall|t: int| 0 <= t < lhs.len() implies lhs[t] == rhs[t] by {
            assert(lhs[t] == ((e->Obj_0)@[t].0@, view_json((e->Obj_0)@[t].1)));
        }
        assert(lhs =~= rhs);
    }
    (r.uri.clone(), e)
}

/// The canonical JSON of one prompt argument.
pub open spec fn spec_prompt_argument_json(a: SpecPromptArgument) -> SpecJson {
    SpecJson::Obj(
        (match a.description {
            Some(d) => seq![("description"@, SpecJson::Str(d))],
            None => Seq::empty(),
        }) + seq![("name"@, SpecJson::Str(a.name))] + (match a.required {
            Some(b) => seq![("required"@, SpecJson::Bool(b))],
            None => Seq::empty(),
        }),
    )
}

fn prompt_argument_json(a: &PromptArgument) -> (e: Json)
    ensures
        view_json(e) == spec_prompt_argument_json(view_prompt_argument(*a)),
{
    let mut fields: Vec<(String, Json)> = Vec::new();
    if let Some(d) = &a.description {
        fields.push(("description".to_owned(), Json::Str(d.clone())));
    }
    fields.push(("name".to_owned(), Json::Str(a.name.clone())));
    if let Some(b) = a.required {
        fields.push(("required".to_owned(), Json::Bool(b)));
    }
    let e = Json::Obj(fields);
    proof {
        lemma_view_obj_index(e->Obj_0@);
        let lhs = view_json(e)->Obj_0;
        let rhs = spec_prompt_argument_json(view_prompt_argument(*a))->Obj_0;
        assert(lhs.len() == rhs.len());
        assert forall|t: int| 0 <= t < lhs.len() implies lhs[t] == rhs[t] by {
            assert(lhs[t] == ((e->Obj_0)@[t].0@, view_json((e->Obj_0)@[t].1)));
        }
        assert(lhs =~= rhs);
    }
    e
}

/// The canonical entry hashed for one prompt.
pub open spec fn spec_prompt_entry(p: SpecPromptDef) -> SpecJson {
    SpecJson::Obj(
        (match p.arguments {
            Some(args) => seq![
                (
                    "arguments"@,
                    SpecJson::Arr(args.map(|i: int, a: SpecPromptArgument| spec_prompt_argument_json(a))),
                ),
            ],
            None => Seq::empty(),
        }) + (match p.description {
            Some(d) => seq![("description"@, SpecJson::Str(d))],
            None => Seq::empty(),
        }) + seq![("name"@, SpecJson::Str(p.name))],
    )
}

fn prompt_entry(p: &PromptDef) -> (e: (String, Json))
    ensures
        e.0@ == view_prompt(*p).name,
        view_json(e.1) == spec_prompt_entry(view_prompt(*p)),
{
    let mut fields: Vec<(String, Json)> = Vec::new();
    if let Some(args) = &p.arguments {
        let n = args.len();
        let mut rendered: Vec<Json> = Vec::new();
        let mut i: usize = 0;
        while i < n
            invariant
                n == args@.len(),
                i <= n,
                rendered@.len() == i,
                forall|t: int|
                    0 <= t < i ==> view_json(#[trigger] rendered@[t]) == spec_prompt_argument_json(
                        view_prompt_argument(args@[t]),
                    ),
            decreases n - i,
        {
            let a = prompt_argument_json(&args[i]);
            rendered.push(a);
            i = i + 1;
        }
        let arr = Json::Arr(rendered);
        proof {
            lemma_view_arr_index(arr->Arr_0@);
            let lhs = view_json(arr)->Arr_0;
            let rhs = view_prompt(*p).arguments.unwrap().map(
                |i: int, a: SpecPromptArgument| spec_prompt_argument_json(a),
            );
            assert(lhs.len() == rhs.len());
            assert forall|t: int| 0 <= t < lhs.len() implies lhs[t] == rhs[t] by {
                assert(lhs[t] == view_json((arr->Arr_0)@[t]));
                assert(view_prompt(*p).arguments.unwrap()[t] == view_prompt_argument(args@[t]));
            }
            assert(lhs =~= rhs);
        }
        fields.push(("arguments".to_owned(), arr));
    }
    if let Some(d) = &p.description {
        fields.push(("description".to_owned(), Json::Str(d.clone())));
    }
    fields.push(("name".to_owned(), Json::Str(p.name.clone())));
    let e = Json::Obj(fields);
    proof {
        lemma_view_obj_index(e->Obj_0@);
        let lhs = view_json(e)->Obj_0;
        let rhs = spec_prompt_entry(view_prompt(*p))->Obj_0;
        assert(lhs.len() == rhs.len());
        assert forall|t: int| 0 <= t < lhs.len() implies lhs[t] == rhs[t] by {
            assert(lhs[t] == ((e->Obj_0)@[t].0@, view_json((e->Obj_0)@[t].1)));
        }
        assert(lhs =~= rhs);
    }
    (p.name.clone(), e)
}

/// Keyed canonical entries for a resource list.
pub open spec fn spec_resource_entries(rs: Seq<SpecResourceDef>) -> Seq<(Seq<char>, SpecJson)> {
    rs.map(|i: int, r: SpecResourceDef| (r.uri, spec_resource_entry(r)))
}

/// Keyed canonical entries for a prompt list.
pub open spec fn spec_prompt_entries(ps: Seq<SpecPromptDef>) -> Seq<(Seq<char>, SpecJson)> {
    ps.map(|i: int, p: SpecPromptDef| (p.name, spec_prompt_entry(p)))
}

/// The canonical text hashed for a resource surface: entries sorted by uri.
pub open spec fn spec_resources_hash_input(rs: Seq<SpecResourceDef>) -> Seq<char> {
    spec_json_text(
        SpecJson::Arr(spec_entry_values(spec_sort_fields(spec_resource_entries(rs)))),
    )
}

/// The contract hash of a resource surface.
pub open spec fn spec_resources_contract_hash(rs: Seq<SpecResourceDef>) -> Seq<char> {
    spec_sha256_hex_of_str(spec_resources_hash_input(rs))
}

/// The canonical text hashed for a prompt surface: entries sorted by name.
pub open spec fn spec_prompts_hash_input(ps: Seq<SpecPromptDef>) -> Seq<char> {
    spec_json_text(SpecJson::Arr(spec_entry_values(spec_sort_fields(spec_prompt_entries(ps)))))
}

/// The contract hash of a prompt surface.
pub open spec fn spec_prompts_contract_hash(ps: Seq<SpecPromptDef>) -> Seq<char> {
    spec_sha256_hex_of_str(spec_prompts_hash_input(ps))
}

/// Hash the canonical representation of a resource surface.
pub fn resources_contract_hash(resources: &Vec<ResourceDef>) -> (r: String)
    ensures
        r@ == spec_resources_contract_hash(view_resources(resources@)),
{
    let n = resources.len();
    let mut entries: Vec<(String, Json)> = Vec::new();
    let mut i: usize = 0;
    while i < n
        invariant
            n == resources@.len(),
            i <= n,
            entries@.len() == i,
            forall|t: int|
                0 <= t < i ==> view_obj(entries@)[t] == #[trigger] spec_resource_entries(
                    view_resources(resources@),
                )[t],
            forall|t: int|
                0 <= t < i ==> view_obj(entries@)[t] == ((#[trigger] entries@[t]).0@, view_json(
                    entries@[t].1,
                )),
        decreases n - i,
    {
        let e = resource_entry(&resources[i]);
        let ghost prev = entries@;
        entries.push(e);
        proof {
            crate::json::lemma_view_obj_push(prev, entries@.last());
            lemma_view_obj_index(entries@);
            assert(spec_resource_entries(view_resources(resources@))[i as int] == (
                view_resource(resources@[i as int]).uri,
                spec_resource_entry(view_resource(resources@[i as int])),
            ));
        }
        i = i + 1;
    }
    proof {
        lemma_view_obj_index(entries@);
        assert(view_obj(entries@) =~= spec_resource_entries(view_resources(resources@)));
    }
    let sorted = sort_fields(entries);
    let values = entry_values(sorted);
    let arr = Json::Arr(values);
    let text = json_to_string(&arr);
    sha256_hex_of_str(text.as_str())
}

/// Hash the canonical representation of a prompt surface.
pub fn prompts_contract_hash(prompts: &Vec<PromptDef>) -> (r: String)
    ensures
        r@ == spec_prompts_contract_hash(view_prompts(prompts@)),
{
    let n = prompts.len();
    let mut entries: Vec<(String, Json)> = Vec::new();
    let mut i: usize = 0;
    while i < n
        invariant
            n == prompts@.len(),
            i <= n,
            entries@.len() == i,
            forall|t: int|
                0 <= t < i ==> view_obj(entries@)[t] == #[trigger] spec_prompt_entries(
                    view_prompts(prompts@),
                )[t],
            forall|t: int|
                0 <= t < i ==> view_obj(entries@)[t] == ((#[trigger] entries@[t]).0@, view_json(
                    entries@[t].1,
                )),
        decreases n - i,
    {
        let e = prompt_entry(&prompts[i]);
        let ghost prev = entries@;
        entries.push(e);
        proof {
            crate::json::lemma_view_obj_push(prev, entries@.last());
            lemma_view_obj_index(entries@);
            assert(spec_prompt_entries(view_prompts(prompts@))[i as int] == (
                view_prompt(prompts@[i as int]).name,
                spec_prompt_entry(view_prompt(prompts@[i as int])),
            ));
        }
        i = i + 1;
    }
    proof {
        lemma_view_obj_index(entries@);
        assert(view_obj(entries@) =~= spec_prompt_entries(view_prompts(prompts@)));
    }
    let sorted = sort_fields(entries);
    let values = entry_values(sorted);
    let arr = Json::Arr(values);
    let text = json_to_string(&arr);
    sha256_hex_of_str(text.as_str())
}

/// The recorded hashes for one profile's three surfaces.
#[derive(Debug)]
pub struct SurfaceHashes {
    pub tools: Option<String>,
    pub resources: Option<String>,
    pub prompts: Option<String>,
}

/// The mathematical view of a profile's recorded hashes.
pub open spec fn view_surface(h: SurfaceHashes, kind: ContractKind) -> Option<Seq<char>> {
    match kind {
        ContractKind::Tools => view_opt_string(h.tools),
        ContractKind::Resources => view_opt_string(h.resources),
        ContractKind::Prompts => view_opt_string(h.prompts),
    }
}

/// First-match lookup of a profile's recorded hashes.
pub open spec fn spec_lookup(
    s: Seq<(String, SurfaceHashes)>,
    profile: Seq<char>,
) -> Option<SurfaceHashes>
    decreases s.len(),
{
    if s.len() == 0 {
        None
    } else if s.first().0@ == profile {
        Some(s.first().1)
    } else {
        spec_lookup(s.drop_first(), profile)
    }
}

/// First-match lookup agrees with the first matching index.
proof fn lemma_lookup_index(s: Seq<(String, SurfaceHashes)>, profile: Seq<char>)
    ensures
        (exists|i: int| 0 <= i < s.len() && (#[trigger] s[i]).0@ == profile) ==> {
            let i = first_match(s, profile);
            &&& 0 <= i < s.len()
            &&& s[i].0@ == profile
            &&& forall|j: int| 0 <= j < i ==> (#[trigger] s[j]).0@ != profile
            &&& spec_lookup(s, profile) == Some(s[i].1)
        },
        (forall|i: int| 0 <= i < s.len() ==> (#[trigger] s[i]).0@ != profile) ==> spec_lookup(
            s,
            profile,
        ) is None,
    decreases s.len(),
{
    if s.len() > 0 {
        lemma_lookup_index(s.drop_first(), profile);
        if s.first().0@ != profile {
            let rest = s.drop_first();
            assert(forall|j: int| 0 <= j < rest.len() ==> #[trigger] rest[j] == s[j + 1]);
            if exists|i: int| 0 <= i < s.len() && (#[trigger] s[i]).0@ == profile {
                let i0 = choose|i: int| 0 <= i < s.len() && (#[trigger] s[i]).0@ == profile;
                assert(i0 != 0);
                assert(rest[i0 - 1].0@ == profile);
                assert(exists|i: int| 0 <= i < rest.len() && (#[trigger] rest[i]).0@ == profile);
                let ir = first_match(rest, profile);
                let im = first_match(s, profile);
                assert(im == 1 + ir);
                assert(s[im].0@ == profile);
                assert forall|j: int| 0 <= j < im implies (#[trigger] s[j]).0@ != profile by {
                    if j > 0 {
                        assert(rest[j - 1].0@ != profile);
                    }
                }
            } else {
                assert(forall|i: int| 0 <= i < rest.len() ==> (#[trigger] rest[i]).0@ != profile);
            }
        }
    }
}

/// The index of the first entry for a profile, when one exists.
pub open spec fn first_match(s: Seq<(String, SurfaceHashes)>, profile: Seq<char>) -> int
    decreases s.len(),
{
    if s.len() == 0 {
        0
    } else if s.first().0@ == profile {
        0
    } else {
        1 + first_match(s.drop_first(), profile)
    }
}

/// Tracks contract hashes per profile and detects changes.
///
/// `update_*_contract` records the new hash and reports a `ContractChange`
/// exactly when a different hash had been recorded before: the first
/// observation of a profile's surface is silent, and re-observing the same
/// surface is silent.
#[derive(Debug)]
pub struct ContractTracker {
    entries: Vec<(String, SurfaceHashes)>,
    next_event_id: u64,
}

impl ContractTracker {
    /// The recorded hash for a profile and surface, if any.
    pub closed spec fn spec_hash(self, profile: Seq<char>, kind: ContractKind) -> Option<
        Seq<char>,
    > {
        match spec_lookup(self.entries@, profile) {
            None => None,
            Some(h) => view_surface(h, kind),
        }
    }

    /// Profiles are recorded at most once.
    pub closed spec fn wf(self) -> bool {
        forall|i: int, j: int|
            0 <= i < j < self.entries@.len() ==> (#[trigger] self.entries@[i]).0@ != (
            #[trigger] self.entries@[j]).0@
    }

    /// An empty tracker: nothing recorded yet.
    pub fn new() -> (r: ContractTracker)
        ensures
            r.wf(),
            forall|p: Seq<char>, k: ContractKind| r.spec_hash(p, k) is None,
            r.spec_next_event_id() == 1,
    {
        ContractTracker { entries: Vec::new(), next_event_id: 1 }
    }

    /// The next event id this tracker will hand out.
    pub closed spec fn spec_next_event_id(self) -> u64 {
        self.next_event_id
    }

    /// Hand out a fresh, locally monotonic event id.
    pub fn next_local_event_id(&mut self) -> (r: u64)
        ensures
            r == old(self).spec_next_event_id(),
            final(self).spec_next_event_id() as int == if old(self).spec_next_event_id()
                < u64::MAX {
                old(self).spec_next_event_id() + 1int
            } else {
                u64::MAX as int
            },
            final(self).wf() == old(self).wf(),
            forall|p: Seq<char>, k: ContractKind|
                final(self).spec_hash(p, k) == old(self).spec_hash(p, k),
    {
        let r = self.next_event_id;
        if self.next_event_id < u64::MAX {
            self.next_event_id = self.next_event_id + 1;
        }
        r
    }

    /// Record `new_hash` for `(profile_id, kind)` and report a change.
    ///
    /// Reports nothing when the same hash is already recorded, and nothing
    /// on the very first observation unless `notify_on_first` is set.
    fn update_contract_hash(
        &mut self,
        profile_id: &str,
        kind: ContractKind,
        new_hash: String,
        notify_on_first: bool,
    ) -> (r: Option<ContractChange>)
        requires
            old(self).wf(),
        ensures
            final(self).wf(),
            final(self).spec_hash(profile_id@, kind) == Some(new_hash@),
            final(self).spec_next_event_id() == old(self).spec_next_event_id(),
            forall|p: Seq<char>, k: ContractKind|
                p != profile_id@ || k != kind ==> final(self).spec_hash(p, k) == old(
                    self,
                ).spec_hash(p, k),
            match r {
                Some(c) => {
                    &&& c.profile_id@ == profile_id@
                    &&& c.kind == kind
                    &&& c.contract_hash@ == new_hash@
                    &&& old(self).spec_hash(profile_id@, kind) != Some(new_hash@)
                    &&& (old(self).spec_hash(profile_id@, kind) is Some || notify_on_first)
                },
                None => old(self).spec_hash(profile_id@, kind) == Some(new_hash@) || (old(
                    self,
                ).spec_hash(profile_id@, kind) is None && !notify_on_first),
            },
    {
        let ghost olds = self.entries@;
        proof {
            lemma_lookup_index(olds, profile_id@);
        }
        let n = self.entries.len();
        let mut idx: usize = n;
        let mut found = false;
        let mut i: usize = 0;
        while i < n
            invariant
                n == self.entries@.len(),
                self.entries@ == olds,
                i <= n,
                found ==> idx < n && olds[idx as int].0@ == profile_id@ && (forall|j: int|
                    0 <= j < idx ==> (#[trigger] olds[j]).0@ != profile_id@),
                !found ==> forall|j: int| 0 <= j < i ==> (#[trigger] olds[j]).0@ != profile_id@,
                found ==> idx < i,
            decreases n - i + (if found { 0int } else { 1int }),
        {
            if !found && crate::text::str_eq(self.entries[i].0.as_str(), profile_id) {
                found = true;
                idx = i;
            }
            i = i + 1;
        }
        if !found {
            // First observation of this profile.
            let hashes = match kind {
                ContractKind::Tools => SurfaceHashes {
                    tools: Some(new_hash.clone()),
                    resources: None,
                    prompts: None,
                },
                ContractKind::Resources => SurfaceHashes {
                    tools: None,
                    resources: Some(new_hash.clone()),
                    prompts: None,
                },
                ContractKind::Prompts => SurfaceHashes {
                    tools: None,
                    resources: None,
                    prompts: Some(new_hash.clone()),
                },
            };
            self.entries.push((profile_id.to_owned(), hashes));
            proof {
                lemma_lookup_push(olds, self.entries@.last(), profile_id@);
                assert forall|p: Seq<char>, k: ContractKind|
                    p != profile_id@ || k != kind implies self.spec_hash(p, k) == old(
                    self,
                ).spec_hash(p, k) by {
                    lemma_lookup_push(olds, self.entries@.last(), p);
                }
                assert(old(self).spec_hash(profile_id@, kind) is None);
            }
            if notify_on_first {
                return Some(
                    ContractChange {
                        profile_id: profile_id.to_owned(),
                        kind,
                        contract_hash: new_hash,
                    },
                );
            }
            return None;
        }
        // The profile is already recorded at `idx`.
        let prev_same = match kind {
            ContractKind::Tools => match &self.entries[idx].1.tools {
                Some(h) => crate::text::string_eq(h, &new_hash),
                None => false,
            },
            ContractKind::Resources => match &self.entries[idx].1.resources {
                Some(h) => crate::text::string_eq(h, &new_hash),
                None => false,
            },
            ContractKind::Prompts => match &self.entries[idx].1.prompts {
                Some(h) => crate::text::string_eq(h, &new_hash),
                None => false,
            },
        };
        let had_prev = match kind {
            ContractKind::Tools => self.entries[idx].1.tools.is_some(),
            ContractKind::Resources => self.entries[idx].1.resources.is_some(),
            ContractKind::Prompts => self.entries[idx].1.prompts.is_some(),
        };
        let old_entry = self.entries.remove(idx);
        let key = old_entry.0;
        let old_hashes = old_entry.1;
        let updated = match kind {
            ContractKind::Tools => SurfaceHashes {
                tools: Some(new_hash.clone()),
                resources: old_hashes.resources,
                prompts: old_hashes.prompts,
            },
            ContractKind::Resources => SurfaceHashes {
                tools: old_hashes.tools,
                resources: Some(new_hash.clone()),
                prompts: old_hashes.prompts,
            },
            ContractKind::Prompts => SurfaceHashes {
                tools: old_hashes.tools,
                resources: old_hashes.resources,
                prompts: Some(new_hash.clone()),
            },
        };
        self.entries.insert(idx, (key, updated));
        proof {
            assert(self.entries@ =~= olds.update(idx as int, self.entries@[idx as int]));
            lemma_lookup_update(olds, idx as int, self.entries@[idx as int], profile_id@);
            assert(old(self).spec_hash(profile_id@, kind) == view_surface(
                olds[idx as int].1,
                kind,
            ));
            assert forall|p: Seq<char>, k: ContractKind|
                p != profile_id@ || k != kind implies self.spec_hash(p, k) == old(
                self,
            ).spec_hash(p, k) by {
                lemma_lookup_update(olds, idx as int, self.entries@[idx as int], p);
                lemma_lookup_index(olds, p);
                lemma_lookup_index(self.entries@, p);
            }
        }
        if prev_same {
            return None;
        }
        if !had_prev && !notify_on_first {
            return None;
        }
        Some(ContractChange { profile_id: key_string(profile_id), kind, contract_hash: new_hash })
    }

    /// Record the tools surface for a profile; report a change when a
    /// different hash was recorded before. First observations are silent.
    pub fn update_tools_contract(&mut self, profile_id: &str, tools: &Vec<ToolDef>) -> (r: Option<
        ContractChange,
    >)
        requires
            old(self).wf(),
        ensures
            final(self).wf(),
            final(self).spec_hash(profile_id@, ContractKind::Tools) == Some(
                spec_tools_contract_hash(view_tools(tools@)),
            ),
            forall|p: Seq<char>, k: ContractKind|
                p != profile_id@ || k != ContractKind::Tools ==> final(self).spec_hash(p, k)
                    == old(self).spec_hash(p, k),
            match r {
                Some(c) => {
                    &&& c.profile_id@ == profile_id@
                    &&& c.kind == ContractKind::Tools
                    &&& c.contract_hash@ == spec_tools_contract_hash(view_tools(tools@))
                    &&& old(self).spec_hash(profile_id@, ContractKind::Tools) is Some
                    &&& old(self).spec_hash(profile_id@, ContractKind::Tools) != Some(
                        spec_tools_contract_hash(view_tools(tools@)),
                    )
                },
                None => old(self).spec_hash(profile_id@, ContractKind::Tools) is None || old(
                    self,
                ).spec_hash(profile_id@, ContractKind::Tools) == Some(
                    spec_tools_contract_hash(view_tools(tools@)),
                ),
            },
    {
        let new_hash = tools_contract_hash(tools);
        self.update_contract_hash(profile_id, ContractKind::Tools, new_hash, false)
    }

    /// Record the resources surface for a profile; first observations are
    /// silent.
    pub fn update_resources_contract(
        &mut self,
        profile_id: &str,
        resources: &Vec<ResourceDef>,
    ) -> (r: Option<ContractChange>)
        requires
            old(self).wf(),
        ensures
            final(self).wf(),
            final(self).spec_hash(profile_id@, ContractKind::Resources) == Some(
                spec_resources_contract_hash(view_resources(resources@)),
            ),
            forall|p: Seq<char>, k: ContractKind|
                p != profile_id@ || k != ContractKind::Resources ==> final(self).spec_hash(p, k)
                    == old(self).spec_hash(p, k),
            match r {
                Some(c) => {
                    &&& c.profile_id@ == profile_id@
                    &&& c.kind == ContractKind::Resources
                    &&& c.contract_hash@ == spec_resources_contract_hash(
                        view_resources(resources@),
                    )
                    &&& old(self).spec_hash(profile_id@, ContractKind::Resources) is Some
                    &&& old(self).spec_hash(profile_id@, ContractKind::Resources) != Some(
                        spec_resources_contract_hash(view_resources(resources@)),
                    )
                },
                None => old(self).spec_hash(profile_id@, ContractKind::Resources) is None || old(
                    self,
                ).spec_hash(profile_id@, ContractKind::Resources) == Some(
                    spec_resources_contract_hash(view_resources(resources@)),
                ),
            },
    {
        let new_hash = resources_contract_hash(resources);
        self.update_contract_hash(profile_id, ContractKind::Resources, new_hash, false)
    }

    /// Record the prompts surface for a profile; first observations are
    /// silent.
    pub fn update_prompts_contract(
        &mut self,
        profile_id: &str,
        prompts: &Vec<PromptDef>,
    ) -> (r: Option<ContractChange>)
        requires
            old(self).wf(),
        ensures
            final(self).wf(),
            final(self).spec_hash(profile_id@, ContractKind::Prompts) == Some(
                spec_prompts_contract_hash(view_prompts(prompts@)),
            ),
            forall|p: Seq<char>, k: ContractKind|
                p != profile_id@ || k != ContractKind::Prompts ==> final(self).spec_hash(p, k)
                    == old(self).spec_hash(p, k),
            match r {
                Some(c) => {
                    &&& c.profile_id@ == profile_id@
                    &&& c.kind == ContractKind::Prompts
                    &&& c.contract_hash@ == spec_prompts_contract_hash(view_prompts(prompts@))
                    &&& old(self).spec_hash(profile_id@, ContractKind::Prompts) is Some
                    &&& old(self).spec_hash(profile_id@, ContractKind::Prompts) != Some(
                        spec_prompts_contract_hash(view_prompts(prompts@)),
                    )
                },
                None => old(self).spec_hash(profile_id@, ContractKind::Prompts) is None || old(
                    self,
                ).spec_hash(profile_id@, ContractKind::Prompts) == Some(
                    spec_prompts_contract_hash(view_prompts(prompts@)),
                ),
            },
    {
        let new_hash = prompts_contract_hash(prompts);
        self.update_contract_hash(profile_id, ContractKind::Prompts, new_hash, false)
    }

    /// Apply a contract update that originated on another node. Idempotent:
    /// re-applying a recorded hash reports no change; a new hash is recorded
    /// and reported, also on first observation.
    pub fn apply_remote_event(&mut self, event: &ContractEvent) -> (r: Option<ContractChange>)
        requires
            old(self).wf(),
        ensures
            final(self).wf(),
            final(self).spec_hash(event.profile_id@, event.kind) == Some(event.contract_hash@),
            forall|p: Seq<char>, k: ContractKind|
                p != event.profile_id@ || k != event.kind ==> final(self).spec_hash(p, k) == old(
                    self,
                ).spec_hash(p, k),
            r is None <==> old(self).spec_hash(event.profile_id@, event.kind) == Some(
                event.contract_hash@,
            ),
    {
        self.update_contract_hash(
            event.profile_id.as_str(),
            event.kind,
            event.contract_hash.clone(),
            true,
        )
    }
}

fn key_string(s: &str) -> (r: String)
    ensures
        r@ == s@,
{
    s.to_owned()
}

/// Appending an entry for another key leaves lookups unchanged; lookups for
/// the appended key that was absent before now find it.
proof fn lemma_lookup_push(
    s: Seq<(String, SurfaceHashes)>,
    x: (String, SurfaceHashes),
    profile: Seq<char>,
)
    ensures
        spec_lookup(s.push(x), profile) == if spec_lookup(s, profile) is Some {
            spec_lookup(s, profile)
        } else if x.0@ == profile {
            Some(x.1)
        } else {
            None
        },
    decreases s.len(),
{
    if s.len() == 0 {
        assert(s.push(x).first() == x);
        assert(s.push(x).drop_first() =~= Seq::empty());
        assert(spec_lookup(s, profile) is None);
        assert(spec_lookup(Seq::empty(), profile) is None);
        if x.0@ == profile {
            assert(spec_lookup(s.push(x), profile) == Some(x.1));
        } else {
            assert(spec_lookup(s.push(x), profile) == spec_lookup(
                s.push(x).drop_first(),
                profile,
            ));
        }
    } else {
        assert(s.push(x).first() == s.first());
        assert(s.push(x).drop_first() =~= s.drop_first().push(x));
        lemma_lookup_push(s.drop_first(), x, profile);
        if s.first().0@ == profile {
            assert(spec_lookup(s.push(x), profile) == Some(s.first().1));
            assert(spec_lookup(s, profile) == Some(s.first().1));
        } else {
            assert(spec_lookup(s.push(x), profile) == spec_lookup(
                s.drop_first().push(x),
                profile,
            ));
            assert(spec_lookup(s, profile) == spec_lookup(s.drop_first(), profile));
        }
    }
}

/// Updating an entry in place changes only lookups that resolve to it.
proof fn lemma_lookup_update(
    s: Seq<(String, SurfaceHashes)>,
    idx: int,
    x: (String, SurfaceHashes),
    profile: Seq<char>,
)
    requires
        0 <= idx < s.len(),
        x.0@ == s[idx].0@,
    ensures
        spec_lookup(s.update(idx, x), profile) == if spec_lookup(s, profile) is Some
            && first_match(s, profile) == idx {
            Some(x.1)
        } else {
            spec_lookup(s, profile)
        },
    decreases s.len(),
{
    lemma_lookup_index(s, profile);
    lemma_lookup_index(s.update(idx, x), profile);
    if s.len() > 0 {
        if idx == 0 {
            assert(s.update(idx, x).first() == x);
            assert(s.update(idx, x).drop_first() =~= s.drop_first());
        } else {
            assert(s.update(idx, x).first() == s.first());
            assert(s.update(idx, x).drop_first() =~= s.drop_first().update(idx - 1, x));
            lemma_lookup_update(s.drop_first(), idx - 1, x, profile);
        }
    }
}

/// Mapping two permutations of the same elements yields permutations.
proof fn lemma_map_multiset<A, B>(a: Seq<A>, b: Seq<A>, f: spec_fn(A) -> B)
    requires
        a.to_multiset() == b.to_multiset(),
    ensures
        a.map_values(f).to_multiset() == b.map_values(f).to_multiset(),
    decreases a.len(),
{
    broadcast use vstd::seq_lib::group_to_multiset_ensures;

    assert(a.to_multiset().len() == a.len());
    assert(b.to_multiset().len() == b.len());
    if a.len() == 0 {
        assert(b.len() == 0);
        assert(a.map_values(f) =~= b.map_values(f));
    } else {
        let la = a.last();
        assert(a.contains(la)) by {
            assert(a[a.len() - 1] == la);
        }
        assert(a.to_multiset().count(la) > 0);
        assert(b.to_multiset().count(la) > 0);
        assert(b.contains(la));
        let ib = choose|i: int| 0 <= i < b.len() && b[i] == la;
        let ad = a.drop_last();
        let bd = b.remove(ib);
        assert(a =~= ad.push(la));
        assert(a.to_multiset() == ad.to_multiset().insert(la));
        assert(bd.to_multiset() == b.to_multiset().remove(la));
        assert(ad.to_multiset() =~= bd.to_multiset()) by {
            assert(ad.to_multiset() == a.to_multiset().remove(la)) by {
                assert(ad.to_multiset().insert(la).remove(la) =~= ad.to_multiset());
            }
        }
        lemma_map_multiset(ad, bd, f);
        assert(a.map_values(f) =~= ad.map_values(f).push(f(la)));
        assert(a.map_values(f).to_multiset() == ad.map_values(f).to_multiset().insert(f(la)));
        assert(bd.map_values(f) =~= b.map_values(f).remove(ib)) by {
            assert forall|t: int| 0 <= t < bd.len() implies bd.map_values(f)[t] == b.map_values(
                f,
            ).remove(ib)[t] by {
                if t < ib {
                    assert(bd[t] == b[t]);
                } else {
                    assert(bd[t] == b[t + 1]);
                }
            }
        }
        assert(b.map_values(f).remove(ib).to_multiset() == b.map_values(f).to_multiset().remove(
            b.map_values(f)[ib],
        ));
        assert(b.map_values(f)[ib] == f(la));
        assert(b.map_values(f).to_multiset().count(f(la)) > 0) by {
            assert(b.map_values(f)[ib] == f(la));
            assert(b.map_values(f).contains(f(la)));
        }
        assert(b.map_values(f).to_multiset().remove(f(la)).insert(f(la)) =~= b.map_values(
            f,
        ).to_multiset());
        assert(a.map_values(f).to_multiset() =~= b.map_values(f).to_multiset());
    }
}

/// Two permutations of the same keyed entries, with no repeated key, sort
/// to the same canonical order.
proof fn lemma_sorted_entries_equal(ea: Seq<(Seq<char>, SpecJson)>, eb: Seq<(Seq<char>, SpecJson)>)
    requires
        ea.to_multiset() == eb.to_multiset(),
        forall|i: int, j: int|
            0 <= i < j < ea.len() ==> (#[trigger] ea[i]).0 != (#[trigger] ea[j]).0,
    ensures
        spec_sort_fields(ea) == spec_sort_fields(eb),
{
    broadcast use vstd::seq_lib::group_to_multiset_ensures;

    crate::canon::lemma_sort_fields_multiset(ea);
    crate::canon::lemma_sort_fields_multiset(eb);
    crate::canon::lemma_sort_fields_sorted(ea);
    crate::canon::lemma_sort_fields_sorted(eb);
    let sa = spec_sort_fields(ea);
    let sb = spec_sort_fields(eb);
    assert forall|i: int, j: int| 0 <= i < j < sa.len() implies (#[trigger] sa[i]).0 != (
    #[trigger] sa[j]).0 by {
        if sa[i] == sa[j] {
            // A pair occurring twice after sorting occurs twice before it.
            assert(sa.remove(i).to_multiset() == sa.to_multiset().remove(sa[i]));
            assert(sa.remove(i)[j - 1] == sa[j]);
            assert(sa.remove(i).contains(sa[j]));
            assert(sa.remove(i).to_multiset().count(sa[i]) > 0);
            assert(ea.to_multiset().count(sa[i]) >= 2);
            let i1 = choose|t: int| 0 <= t < ea.len() && ea[t] == sa[i];
            assert(ea.remove(i1).to_multiset().count(sa[i]) > 0);
            assert(ea.remove(i1).contains(sa[i]));
            let i2 = choose|t: int| 0 <= t < ea.remove(i1).len() && ea.remove(i1)[t] == sa[i];
            if i2 < i1 {
                assert(ea[i2] == sa[i]);
                assert(ea[i2].0 == ea[i1].0);
            } else {
                assert(ea[i2 + 1] == sa[i]);
                assert(ea[i2 + 1].0 == ea[i1].0);
            }
        } else {
            // Two different pairs with the same key would both occur in the
            // original entries.
            assert(sa.contains(sa[i]));
            assert(sa.contains(sa[j]));
            assert(sa.to_multiset().count(sa[i]) > 0);
            assert(sa.to_multiset().count(sa[j]) > 0);
            assert(ea.contains(sa[i]));
            assert(ea.contains(sa[j]));
            let i1 = choose|t: int| 0 <= t < ea.len() && ea[t] == sa[i];
            let i2 = choose|t: int| 0 <= t < ea.len() && ea[t] == sa[j];
            assert(i1 != i2);
        }
    }
    crate::canon::lemma_sorted_fields_unique(sa, sb);
}

/// Order insensitivity: permuting a tool list does not change its contract
/// hash, provided tool names are distinct.
pub proof fn lemma_tools_contract_order_insensitive(a: Seq<SpecToolDef>, b: Seq<SpecToolDef>)
    requires
        a.to_multiset() == b.to_multiset(),
        forall|i: int, j: int|
            0 <= i < j < a.len() ==> (#[trigger] a[i]).name != (#[trigger] a[j]).name,
    ensures
        spec_tools_contract_hash(a) == spec_tools_contract_hash(b),
{
    let f = |t: SpecToolDef| (t.name, spec_tool_entry(t));
    lemma_map_multiset(a, b, f);
    assert(spec_tool_entries(a) =~= a.map_values(f));
    assert(spec_tool_entries(b) =~= b.map_values(f));
    assert forall|i: int, j: int|
        0 <= i < j < spec_tool_entries(a).len() implies (#[trigger] spec_tool_entries(a)[i]).0
        != (#[trigger] spec_tool_entries(a)[j]).0 by {
        assert(spec_tool_entries(a)[i].0 == a[i].name);
        assert(spec_tool_entries(a)[j].0 == a[j].name);
    }
    lemma_sorted_entries_equal(spec_tool_entries(a), spec_tool_entries(b));
}

/// Order insensitivity: permuting a resource list does not change its
/// contract hash, provided resource URIs are distinct.
pub proof fn lemma_resources_contract_order_insensitive(
    a: Seq<SpecResourceDef>,
    b: Seq<SpecResourceDef>,
)
    requires
        a.to_multiset() == b.to_multiset(),
        forall|i: int, j: int|
            0 <= i < j < a.len() ==> (#[trigger] a[i]).uri != (#[trigger] a[j]).uri,
    ensures
        spec_resources_contract_hash(a) == spec_resources_contract_hash(b),
{
    let f = |r: SpecResourceDef| (r.uri, spec_resource_entry(r));
    lemma_map_multiset(a, b, f);
    assert(spec_resource_entries(a) =~= a.map_values(f));
    assert(spec_resource_entries(b) =~= b.map_values(f));
    assert forall|i: int, j: int|
        0 <= i < j < spec_resource_entries(a).len() implies (
    #[trigger] spec_resource_entries(a)[i]).0 != (#[trigger] spec_resource_entries(a)[j]).0 by {
        assert(spec_resource_entries(a)[i].0 == a[i].uri);
        assert(spec_resource_entries(a)[j].0 == a[j].uri);
    }
    lemma_sorted_entries_equal(spec_resource_entries(a), spec_resource_entries(b));
}

/// Order insensitivity: permuting a prompt list does not change its
/// contract hash, provided prompt names are distinct.
pub proof fn lemma_prompts_contract_order_insensitive(a: Seq<SpecPromptDef>, b: Seq<SpecPromptDef>)
    requires
        a.to_multiset() == b.to_multiset(),
        forall|i: int, j: int|
            0 <= i < j < a.len() ==> (#[trigger] a[i]).name != (#[trigger] a[j]).name,
    ensures
        spec_prompts_contract_hash(a) == spec_prompts_contract_hash(b),
{
    let f = |p: SpecPromptDef| (p.name, spec_prompt_entry(p));
    lemma_map_multiset(a, b, f);
    assert(spec_prompt_entries(a) =~= a.map_values(f));
    assert(spec_prompt_entries(b) =~= b.map_values(f));
    assert forall|i: int, j: int|
        0 <= i < j < spec_prompt_entries(a).len() implies (#[trigger] spec_prompt_entries(a)[i]).0
        != (#[trigger] spec_prompt_entries(a)[j]).0 by {
        assert(spec_prompt_entries(a)[i].0 == a[i].name);
        assert(spec_prompt_entries(a)[j].0 == a[j].name);
    }
    lemma_sorted_entries_equal(spec_prompt_entries(a), spec_prompt_entries(b));
}

} // verus!
