//! Catalog data: tools, resources and prompts as a source reports them,
//! with their mathematical views and canonical JSON renderings.

use crate::json::{view_json, Json, SpecJson};
use vstd::prelude::*;

verus! {

broadcast use vstd::std_specs::vec::group_vec_axioms, vstd::seq::group_seq_axioms;

/// MCP tool behavior hints.
#[derive(Debug, PartialEq, Eq)]
pub struct ToolAnnotations {
    pub title: Option<String>,
    pub read_only_hint: Option<bool>,
    pub destructive_hint: Option<bool>,
    pub idempotent_hint: Option<bool>,
    pub open_world_hint: Option<bool>,
}

/// A tool as a source reports it.
#[derive(Debug, PartialEq, Eq)]
pub struct ToolDef {
    pub name: String,
    pub description: Option<String>,
    pub input_schema: Json,
    pub output_schema: Option<Json>,
    pub annotations: Option<ToolAnnotations>,
}

/// A resource as a source reports it.
#[derive(Debug, PartialEq, Eq)]
pub struct ResourceDef {
    pub uri: String,
    pub name: String,
    pub description: Option<String>,
    pub mime_type: Option<String>,
    pub size: Option<u32>,
}

/// An argument a prompt accepts.
#[derive(Debug, PartialEq, Eq)]
pub struct PromptArgument {
    pub name: String,
    pub description: Option<String>,
    pub required: Option<bool>,
}

/// A prompt as a source reports it.
#[derive(Debug, PartialEq, Eq)]
pub struct PromptDef {
    pub name: String,
    pub description: Option<String>,
    pub arguments: Option<Vec<PromptArgument>>,
}

/// The mathematical view of tool annotations.
pub struct SpecToolAnnotations {
    pub title: Option<Seq<char>>,
    pub read_only_hint: Option<bool>,
    pub destructive_hint: Option<bool>,
    pub idempotent_hint: Option<bool>,
    pub open_world_hint: Option<bool>,
}

/// The mathematical view of a tool.
pub struct SpecToolDef {
    pub name: Seq<char>,
    pub description: Option<Seq<char>>,
    pub input_schema: SpecJson,
    pub output_schema: Option<SpecJson>,
    pub annotations: Option<SpecToolAnnotations>,
}

/// The mathematical view of a resource.
pub struct SpecResourceDef {
    pub uri: Seq<char>,
    pub name: Seq<char>,
    pub description: Option<Seq<char>>,
    pub mime_type: Option<Seq<char>>,
    pub size: Option<u32>,
}

/// The mathematical view of a prompt argument.
pub struct SpecPromptArgument {
    pub name: Seq<char>,
    pub description: Option<Seq<char>>,
    pub required: Option<bool>,
}

/// The mathematical view of a prompt.
pub struct SpecPromptDef {
    pub name: Seq<char>,
    pub description: Option<Seq<char>>,
    pub arguments: Option<Seq<SpecPromptArgument>>,
}

pub open spec fn view_opt_string(s: Option<String>) -> Option<Seq<char>> {
    match s {
        Some(x) => Some(x@),
        None => None,
    }
}

pub open spec fn view_annotations(a: ToolAnnotations) -> SpecToolAnnotations {
    SpecToolAnnotations {
        title: view_opt_string(a.title),
        read_only_hint: a.read_only_hint,
        destructive_hint: a.destructive_hint,
        idempotent_hint: a.idempotent_hint,
        open_world_hint: a.open_world_hint,
    }
}

pub open spec fn view_tool(t: ToolDef) -> SpecToolDef {
    SpecToolDef {
        name: t.name@,
        description: view_opt_string(t.description),
        input_schema: view_json(t.input_schema),
        output_schema: match t.output_schema {
            Some(s) => Some(view_json(s)),
            None => None,
        },
        annotations: match t.annotations {
            Some(a) => Some(view_annotations(a)),
            None => None,
        },
    }
}

pub open spec fn view_tools(s: Seq<ToolDef>) -> Seq<SpecToolDef> {
    s.map(|i: int, t: ToolDef| view_tool(t))
}

pub open spec fn view_resource(r: ResourceDef) -> SpecResourceDef {
    SpecResourceDef {
        uri: r.uri@,
        name: r.name@,
        description: view_opt_string(r.description),
        mime_type: view_opt_string(r.mime_type),
        size: r.size,
    }
}

pub open spec fn view_resources(s: Seq<ResourceDef>) -> Seq<SpecResourceDef> {
    s.map(|i: int, r: ResourceDef| view_resource(r))
}

pub open spec fn view_prompt_argument(a: PromptArgument) -> SpecPromptArgument {
    SpecPromptArgument {
        name: a.name@,
        description: view_opt_string(a.description),
        required: a.required,
    }
}

pub open spec fn view_prompt(p: PromptDef) -> SpecPromptDef {
    SpecPromptDef {
        name: p.name@,
        description: view_opt_string(p.description),
        arguments: match p.arguments {
            Some(v) => Some(v@.map(|i: int, a: PromptArgument| view_prompt_argument(a))),
            None => None,
        },
    }
}

pub open spec fn view_prompts(s: Seq<PromptDef>) -> Seq<SpecPromptDef> {
    s.map(|i: int, p: PromptDef| view_prompt(p))
}

impl ToolAnnotations {
    /// A field-for-field copy.
    pub fn duplicate(&self) -> (r: ToolAnnotations)
        ensures
            view_annotations(r) == view_annotations(*self),
    {
        ToolAnnotations {
            title: match &self.title {
                Some(t) => Some(t.clone()),
                None => None,
            },
            read_only_hint: self.read_only_hint,
            destructive_hint: self.destructive_hint,
            idempotent_hint: self.idempotent_hint,
            open_world_hint: self.open_world_hint,
        }
    }
}

impl ToolDef {
    /// A deep copy.
    pub fn duplicate(&self) -> (r: ToolDef)
        ensures
            view_tool(r) == view_tool(*self),
    {
        self.duplicate_with_name(self.name.clone())
    }

    /// A deep copy carrying a different exposed name.
    pub fn duplicate_with_name(&self, name: String) -> (r: ToolDef)
        ensures
            view_tool(r) == (SpecToolDef { name: name@, ..view_tool(*self) }),
    {
        ToolDef {
            name,
            description: match &self.description {
                Some(d) => Some(d.clone()),
                None => None,
            },
            input_schema: self.input_schema.duplicate(),
            output_schema: match &self.output_schema {
                Some(s) => Some(s.duplicate()),
                None => None,
            },
            annotations: match &self.annotations {
                Some(a) => Some(a.duplicate()),
                None => None,
            },
        }
    }
}

} // verus!
