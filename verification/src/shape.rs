//! Response shaping: a configurable transform pipeline that reshapes JSON
//! tool outputs (drop nulls, pick top-level fields, redact keys, truncate
//! strings, limit arrays) and rewrites advertised output schemas to match.

use crate::json::{Json, SpecJson, view_json, view_arr, view_obj, lemma_view_arr_index, lemma_view_obj_index, lemma_view_arr_push, lemma_view_obj_push};
use crate::text::{push_char, seq_contains_char, str_contains_char, strings_contain, view_strings};
use vstd::prelude::*;

verus! {

broadcast use vstd::std_specs::vec::group_vec_axioms, vstd::seq::group_seq_axioms;

/// A response-shaping step, as configured.
#[derive(Debug, PartialEq, Eq)]
pub enum ResponseTransform {
    /// Drop `null` members from objects, recursively.
    DropNulls,
    /// Keep only the top-level fields named by these JSON pointers.
    PickPointers { pointers: Vec<String> },
    /// Replace the values of matching keys, recursively.
    RedactKeys { keys: Vec<String>, replacement: Option<String> },
    /// Truncate strings to at most this many characters, recursively.
    TruncateStrings { max_chars: usize },
    /// Truncate arrays to at most this many items, recursively.
    LimitArrays { max_items: usize },
}

/// How a tool-level transform chain composes with the source-level pipeline.
#[derive(Debug, PartialEq, Eq, Clone, Copy)]
pub enum TransformChainMode {
    Append,
    Replace,
}

/// A tool-level transform chain overriding or extending the base pipeline.
#[derive(Debug, PartialEq, Eq)]
pub struct ResponseTransformChainConfig {
    pub mode: TransformChainMode,
    pub pipeline: Vec<ResponseTransform>,
}

/// The mathematical shape of a configured transform.
pub enum SpecTransform {
    DropNulls,
    Pick(Seq<Seq<char>>),
    Redact(Seq<Seq<char>>, Option<Seq<char>>),
    Truncate(nat),
    Limit(nat),
}

/// The mathematical value of a configured transform.
pub open spec fn view_transform(t: ResponseTransform) -> SpecTransform {
    match t {
        ResponseTransform::DropNulls => SpecTransform::DropNulls,
        ResponseTransform::PickPointers { pointers } => SpecTransform::Pick(
            view_strings(pointers@),
        ),
        ResponseTransform::RedactKeys { keys, replacement } => SpecTransform::Redact(
            view_strings(keys@),
            match replacement {
                Some(s) => Some(s@),
                None => None,
            },
        ),
        ResponseTransform::TruncateStrings { max_chars } => SpecTransform::Truncate(
            max_chars as nat,
        ),
        ResponseTransform::LimitArrays { max_items } => SpecTransform::Limit(max_items as nat),
    }
}

/// Element-wise view of a transform list.
pub open spec fn view_transforms(s: Seq<ResponseTransform>) -> Seq<SpecTransform> {
    s.map(|i: int, t: ResponseTransform| view_transform(t))
}

/// The mathematical shape of a compiled step.
pub enum SpecStep {
    DropNulls,
    Pick(Seq<Seq<char>>),
    Redact(Seq<Seq<char>>, Seq<char>),
    Truncate(nat),
    Limit(nat),
}

/// A compiled response shaping pipeline, safe to share after construction.
#[derive(Debug, PartialEq, Eq, Default)]
pub struct CompiledResponsePipeline {
    steps: Vec<CompiledTransform>,
}

#[derive(Debug, PartialEq, Eq)]
enum CompiledTransform {
    DropNulls,
    PickTopLevelFields { fields: Vec<String> },
    RedactKeys { keys: Vec<String>, replacement: String },
    TruncateStrings { max_chars: usize },
    LimitArrays { max_items: usize },
}

impl CompiledTransform {
    spec fn view_step(self) -> SpecStep {
        match self {
            CompiledTransform::DropNulls => SpecStep::DropNulls,
            CompiledTransform::PickTopLevelFields { fields } => SpecStep::Pick(
                view_strings(fields@),
            ),
            CompiledTransform::RedactKeys { keys, replacement } => SpecStep::Redact(
                view_strings(keys@),
                replacement@,
            ),
            CompiledTransform::TruncateStrings { max_chars } => SpecStep::Truncate(
                max_chars as nat,
            ),
            CompiledTransform::LimitArrays { max_items } => SpecStep::Limit(max_items as nat),
        }
    }
}

impl CompiledResponsePipeline {
    /// The mathematical value of the pipeline: its steps, in order.
    pub closed spec fn view_steps(self) -> Seq<SpecStep> {
        self.steps@.map(|i: int, t: CompiledTransform| t.view_step())
    }

    /// Whether the pipeline has no steps.
    pub fn is_empty(&self) -> (r: bool)
        ensures
            r == (self.view_steps().len() == 0),
    {
        self.steps.len() == 0
    }
}

/// Decoding of one RFC 6901 token: `~0` is `~`, `~1` is `/`; any other
/// escape is an error (`None`).
pub open spec fn spec_decode_token(s: Seq<char>) -> Option<Seq<char>>
    decreases s.len(),
{
    if s.len() == 0 {
        Some(Seq::empty())
    } else if s.first() != '~' {
        match spec_decode_token(s.drop_first()) {
            Some(rest) => Some(seq![s.first()] + rest),
            None => None,
        }
    } else if s.len() == 1 {
        None
    } else if s[1] == '0' {
        match spec_decode_token(s.subrange(2, s.len() as int)) {
            Some(rest) => Some(seq!['~'] + rest),
            None => None,
        }
    } else if s[1] == '1' {
        match spec_decode_token(s.subrange(2, s.len() as int)) {
            Some(rest) => Some(seq!['/'] + rest),
            None => None,
        }
    } else {
        None
    }
}

/// The field a top-level JSON pointer names: the pointer must start with
/// `'/'`, contain no further `'/'`, and decode per RFC 6901.
pub open spec fn spec_parse_pointer(p: Seq<char>) -> Option<Seq<char>> {
    if p.len() < 2 || p.first() != '/' || seq_contains_char(p.drop_first(), '/') {
        None
    } else {
        spec_decode_token(p.drop_first())
    }
}

/// A pointer that names a nested member: well-formed start, but a second
/// `'/'` follows.
pub open spec fn spec_nested_pointer(p: Seq<char>) -> bool {
    p.len() >= 2 && p.first() == '/' && seq_contains_char(p.drop_first(), '/')
}

/// Decode an RFC 6901 pointer token; errors report the offending escape.
pub fn decode_pointer_token(token: &str) -> (r: Result<String, String>)
    ensures
        match r {
            Ok(s) => spec_decode_token(token@) == Some(s@),
            Err(_) => spec_decode_token(token@) is None,
        },
{
    let n = token.unicode_len();
    let mut out = String::new();
    let mut i: usize = 0;
    proof {
        assert(token@.subrange(0, n as int) =~= token@);
        if spec_decode_token(token@) is Some {
            assert(out@ + spec_decode_token(token@).unwrap() =~= spec_decode_token(
                token@,
            ).unwrap());
        }
    }
    while i < n
        invariant
            n == token@.len(),
            i <= n,
            spec_decode_token(token@) == match spec_decode_token(
                token@.subrange(i as int, n as int),
            ) {
                Some(rest) => Some(out@ + rest),
                None => None::<Seq<char>>,
            },
        decreases n - i,
    {
        let c = token.get_char(i);
        if c != '~' {
            push_char(&mut out, c);
            proof {
                assert(token@.subrange(i as int, n as int).drop_first() =~= token@.subrange(
                    i + 1,
                    n as int,
                ));
            }
            i = i + 1;
        } else {
            if i + 1 >= n {
                let mut msg = String::new();
                msg.append("dangling '~' in json pointer token '");
                msg.append(token);
                msg.append("'");
                return Err(msg);
            }
            let e = token.get_char(i + 1);
            if e == '0' || e == '1' {
                push_char(&mut out, if e == '0' { '~' } else { '/' });
                proof {
                    assert(token@.subrange(i as int, n as int).subrange(
                        2,
                        token@.subrange(i as int, n as int).len() as int,
                    ) =~= token@.subrange(i + 2, n as int));
                }
                i = i + 2;
            } else {
                let mut msg = String::new();
                msg.append("invalid json pointer escape in token '");
                msg.append(token);
                msg.append("'");
                return Err(msg);
            }
        }
    }
    proof {
        assert(token@.subrange(n as int, n as int) =~= Seq::<char>::empty());
        assert(out@ + Seq::<char>::empty() =~= out@);
    }
    Ok(out)
}

/// Parse a top-level JSON pointer such as `/id` to the field it names.
pub fn parse_top_level_json_pointer(ptr: &str) -> (r: Result<String, String>)
    ensures
        match r {
            Ok(s) => spec_parse_pointer(ptr@) == Some(s@),
            Err(e) => spec_parse_pointer(ptr@) is None && (spec_nested_pointer(ptr@)
                ==> crate::text::seq_contains_seq(e@, "top-level"@)),
        },
{
    let n = ptr.unicode_len();
    if n == 0 {
        return Err("json pointer must not be empty".to_owned());
    }
    if ptr.get_char(0) != '/' {
        let mut msg = String::new();
        msg.append("json pointer must start with '/', got '");
        msg.append(ptr);
        msg.append("'");
        return Err(msg);
    }
    if n == 1 {
        return Err("json pointer must not be '/' (empty token)".to_owned());
    }
    let rest = ptr.substring_char(1, n);
    proof {
        assert(rest@ =~= ptr@.drop_first());
    }
    if str_contains_char(rest, '/') {
        let mut msg = String::new();
        msg.append("only top-level pointers are supported (e.g. '/id'); got '");
        msg.append(ptr);
        msg.append("'");
        proof {
            reveal_strlit("only top-level pointers are supported (e.g. '/id'); got '");
            reveal_strlit("top-level");
            reveal_strlit("'");
            assert("top-level"@.len() == 9);
            assert(msg@.subrange(5int, 5int + "top-level"@.len() as int) =~= "top-level"@);
            assert(crate::text::seq_contains_seq(msg@, "top-level"@));
        }
        return Err(msg);
    }
    decode_pointer_token(rest)
}

/// All pointers of a `pickPointers` step parse as top-level pointers.
pub open spec fn spec_pointers_valid(pointers: Seq<Seq<char>>) -> bool {
    forall|i: int| 0 <= i < pointers.len() ==> spec_parse_pointer(#[trigger] pointers[i]) is Some
}

/// The fields named by a list of top-level pointers, in order.
pub open spec fn spec_pointer_fields(pointers: Seq<Seq<char>>) -> Seq<Seq<char>> {
    pointers.map(|i: int, p: Seq<char>| spec_parse_pointer(p)->Some_0)
}

fn compile_top_level_pointers(pointers: &Vec<String>) -> (r: Result<Vec<String>, String>)
    ensures
        match r {
            Ok(fields) => {
                &&& spec_pointers_valid(view_strings(pointers@))
                &&& fields@.len() == pointers@.len()
                &&& forall|i: int|
                    0 <= i < pointers@.len() ==> (#[trigger] fields@[i])@ == spec_parse_pointer(
                        pointers@[i]@,
                    ).unwrap()
            },
            Err(e) => !spec_pointers_valid(view_strings(pointers@)) && (exists|j: int|
                0 <= j < pointers@.len() && spec_parse_pointer(
                    #[trigger] (pointers@[j])@,
                ) is None && (spec_nested_pointer((pointers@[j])@)
                    ==> crate::text::seq_contains_seq(e@, "top-level"@))),
        },
{
    let n = pointers.len();
    let mut fields: Vec<String> = Vec::new();
    let mut i: usize = 0;
    while i < n
        invariant
            n == pointers@.len(),
            i <= n,
            fields@.len() == i,
            forall|t: int|
                0 <= t < i ==> (#[trigger] fields@[t])@ == spec_parse_pointer(
                    pointers@[t]@,
                ).unwrap() && spec_parse_pointer(pointers@[t]@) is Some,
        decreases n - i,
    {
        match parse_top_level_json_pointer(pointers[i].as_str()) {
            Ok(f) => {
                fields.push(f);
            },
            Err(e) => {
                proof {
                    assert(view_strings(pointers@)[i as int] == pointers@[i as int]@);
                    assert(spec_parse_pointer((pointers@[i as int])@) is None);
                }
                return Err(e);
            },
        }
        i = i + 1;
    }
    proof {
        assert forall|t: int| 0 <= t < n implies spec_parse_pointer(
            #[trigger] view_strings(pointers@)[t],
        ) is Some by {
            assert((fields@[t])@ == spec_parse_pointer(pointers@[t]@).unwrap());
            assert(view_strings(pointers@)[t] == pointers@[t]@);
        }
    }
    Ok(fields)
}

/// The spec-level composition of a tool chain over a base pipeline.
pub open spec fn spec_apply_chain(
    base: Seq<SpecTransform>,
    mode: Option<TransformChainMode>,
    chain: Seq<SpecTransform>,
) -> Seq<SpecTransform> {
    match mode {
        None => base,
        Some(m) => if m is Replace {
            chain
        } else {
            base + chain
        },
    }
}

fn duplicate_transform(t: &ResponseTransform) -> (r: ResponseTransform)
    ensures
        view_transform(r) == view_transform(*t),
{
    match t {
        ResponseTransform::DropNulls => ResponseTransform::DropNulls,
        ResponseTransform::PickPointers { pointers } => {
            let cloned = clone_strings(pointers);
            proof {
                assert(view_strings(cloned@) =~= view_strings(pointers@));
            }
            ResponseTransform::PickPointers { pointers: cloned }
        },
        ResponseTransform::RedactKeys { keys, replacement } => {
            let rep = match replacement {
                Some(s) => Some(s.clone()),
                None => None,
            };
            let cloned = clone_strings(keys);
            proof {
                assert(view_strings(cloned@) =~= view_strings(keys@));
            }
            ResponseTransform::RedactKeys { keys: cloned, replacement: rep }
        },
        ResponseTransform::TruncateStrings { max_chars } => ResponseTransform::TruncateStrings {
            max_chars: *max_chars,
        },
        ResponseTransform::LimitArrays { max_items } => ResponseTransform::LimitArrays {
            max_items: *max_items,
        },
    }
}

fn clone_strings(v: &Vec<String>) -> (r: Vec<String>)
    ensures
        r@.len() == v@.len(),
        forall|t: int| 0 <= t < v@.len() ==> (#[trigger] r@[t])@ == v@[t]@,
{
    let n = v.len();
    let mut out: Vec<String> = Vec::new();
    let mut i: usize = 0;
    while i < n
        invariant
            n == v@.len(),
            i <= n,
            out@.len() == i,
            forall|t: int| 0 <= t < i ==> (#[trigger] out@[t])@ == v@[t]@,
        decreases n - i,
    {
        out.push(v[i].clone());
        i = i + 1;
    }
    proof {
        assert forall|t: int| 0 <= t < n implies view_strings(out@)[t] == view_strings(
            v@,
        )[t] by {}
    }
    out
}

/// Compose a tool-level chain over a base pipeline: `replace` discards the
/// base, `append` runs the base first; no chain keeps the base alone.
pub fn apply_chain(
    base: &Vec<ResponseTransform>,
    chain: Option<&ResponseTransformChainConfig>,
) -> (r: Vec<ResponseTransform>)
    ensures
        view_transforms(r@) =~= spec_apply_chain(
            view_transforms(base@),
            match chain {
                Some(c) => Some(c.mode),
                None => None,
            },
            match chain {
                Some(c) => view_transforms(c.pipeline@),
                None => Seq::empty(),
            },
        ),
{
    match chain {
        None => {
            let out = clone_transforms(base);
            proof {
                assert(view_transforms(out@) =~= view_transforms(base@));
            }
            out
        },
        Some(c) => {
            match c.mode {
                TransformChainMode::Replace => {
                    let out = clone_transforms(&c.pipeline);
                    proof {
                        assert(view_transforms(out@) =~= view_transforms(c.pipeline@));
                    }
                    out
                },
                TransformChainMode::Append => {
                    let mut out = clone_transforms(base);
                    let n = c.pipeline.len();
                    let mut i: usize = 0;
                    while i < n
                        invariant
                            n == c.pipeline@.len(),
                            i <= n,
                            out@.len() == base@.len() + i,
                            forall|t: int|
                                0 <= t < base@.len() ==> view_transform(#[trigger] out@[t])
                                    == view_transform(base@[t]),
                            forall|t: int|
                                0 <= t < i ==> view_transform(
                                    #[trigger] out@[base@.len() + t],
                                ) == view_transform(c.pipeline@[t]),
                        decreases n - i,
                    {
                        let t = duplicate_transform(&c.pipeline[i]);
                        out.push(t);
                        i = i + 1;
                    }
                    proof {
                        let lhs = view_transforms(out@);
                        let rhs = view_transforms(base@) + view_transforms(c.pipeline@);
                        assert forall|t: int| 0 <= t < lhs.len() implies lhs[t] == rhs[t] by {
                            if t < base@.len() {
                                assert(view_transform(out@[t]) == view_transform(base@[t]));
                            } else {
                                assert(view_transform(out@[base@.len() + (t - base@.len())])
                                    == view_transform(c.pipeline@[t - base@.len()]));
                                assert(base@.len() + (t - base@.len()) == t);
                            }
                        }
                        assert(lhs =~= rhs);
                    }
                    out
                },
            }
        },
    }
}

fn clone_transforms(v: &Vec<ResponseTransform>) -> (r: Vec<ResponseTransform>)
    ensures
        r@.len() == v@.len(),
        forall|t: int|
            0 <= t < v@.len() ==> view_transform(#[trigger] r@[t]) == view_transform(v@[t]),
{
    let n = v.len();
    let mut out: Vec<ResponseTransform> = Vec::new();
    let mut i: usize = 0;
    while i < n
        invariant
            n == v@.len(),
            i <= n,
            out@.len() == i,
            forall|t: int|
                0 <= t < i ==> view_transform(#[trigger] out@[t]) == view_transform(v@[t]),
        decreases n - i,
    {
        let t = duplicate_transform(&v[i]);
        out.push(t);
        i = i + 1;
    }
    out
}

/// The compiled step a single configured transform yields, when valid.
pub open spec fn spec_compile_step(t: SpecTransform) -> Option<SpecStep> {
    match t {
        SpecTransform::DropNulls => Some(SpecStep::DropNulls),
        SpecTransform::Pick(pointers) => if spec_pointers_valid(pointers) {
            Some(SpecStep::Pick(spec_pointer_fields(pointers)))
        } else {
            None
        },
        SpecTransform::Redact(keys, replacement) => Some(
            SpecStep::Redact(
                keys,
                match replacement {
                    Some(s) => s,
                    None => default_redaction(),
                },
            ),
        ),
        SpecTransform::Truncate(max_chars) => Some(SpecStep::Truncate(max_chars)),
        SpecTransform::Limit(max_items) => Some(SpecStep::Limit(max_items)),
    }
}

/// The replacement used when `redactKeys` does not configure one.
pub open spec fn default_redaction() -> Seq<char> {
    "***REDACTED***"@
}

/// What compilation yields for a finalized list of transforms: on success,
/// step-for-step compilation; on failure, some step does not compile.
pub open spec fn spec_compiles_to(
    effective: Seq<SpecTransform>,
    r: Result<CompiledResponsePipeline, String>,
) -> bool {
    match r {
        Ok(p) => {
            &&& p.view_steps().len() == effective.len()
            &&& forall|i: int|
                0 <= i < effective.len() ==> spec_compile_step(#[trigger] effective[i]) == Some(
                    p.view_steps()[i],
                )
        },
        Err(_) => exists|i: int|
            0 <= i < effective.len() && spec_compile_step(#[trigger] effective[i]) is None,
    }
}

/// Compile a finalized transform list; fails exactly when a `pickPointers`
/// step holds an invalid pointer.
pub fn compile_pipeline_from_transforms(transforms: &Vec<ResponseTransform>) -> (r: Result<
    CompiledResponsePipeline,
    String,
>)
    ensures
        spec_compiles_to(view_transforms(transforms@), r),
        // When compilation fails, the message points at a bad pointer; a
        // nested pointer is reported as such.
        match r {
            Err(e) => exists|i: int, j: int|
                {
                    &&& 0 <= i < transforms@.len()
                    &&& transforms@[i] is PickPointers
                    &&& 0 <= j < transforms@[i]->PickPointers_pointers@.len()
                    &&& spec_parse_pointer(
                        #[trigger] (transforms@[i]->PickPointers_pointers@[j])@,
                    ) is None
                    &&& (spec_nested_pointer((transforms@[i]->PickPointers_pointers@[j])@)
                        ==> crate::text::seq_contains_seq(e@, "top-level"@))
                },
            Ok(_) => true,
        },
{
    let n = transforms.len();
    let mut steps: Vec<CompiledTransform> = Vec::new();
    let mut i: usize = 0;
    while i < n
        invariant
            n == transforms@.len(),
            i <= n,
            steps@.len() == i,
            forall|t: int|
                0 <= t < i ==> spec_compile_step(view_transform(transforms@[t])) == Some(
                    (#[trigger] steps@[t]).view_step(),
                ),
        decreases n - i,
    {
        match &transforms[i] {
            ResponseTransform::DropNulls => {
                steps.push(CompiledTransform::DropNulls);
            },
            ResponseTransform::PickPointers { pointers } => {
                match compile_top_level_pointers(pointers) {
                    Ok(fields) => {
                        proof {
                            assert forall|t: int| 0 <= t < pointers@.len() implies view_strings(
                                fields@,
                            )[t] == #[trigger] spec_pointer_fields(view_strings(pointers@))[t] by {
                                assert((fields@[t])@ == spec_parse_pointer(
                                    pointers@[t]@,
                                ).unwrap());
                                assert(view_strings(pointers@)[t] == pointers@[t]@);
                            }
                            assert(view_strings(fields@) =~= spec_pointer_fields(
                                view_strings(pointers@),
                            ));
                        }
                        steps.push(CompiledTransform::PickTopLevelFields { fields });
                    },
                    Err(e) => {
                        proof {
                            assert(view_transforms(transforms@)[i as int] == view_transform(
                                transforms@[i as int],
                            ));
                            assert(spec_compile_step(
                                view_transforms(transforms@)[i as int],
                            ) is None);
                        }
                        return Err(e);
                    },
                }
            },
            ResponseTransform::RedactKeys { keys, replacement } => {
                let rep: String = match replacement {
                    Some(s) => s.clone(),
                    None => "***REDACTED***".to_owned(),
                };
                let cloned = clone_strings(keys);
                proof {
                    assert(view_strings(cloned@) =~= view_strings(keys@));
                }
                steps.push(CompiledTransform::RedactKeys { keys: cloned, replacement: rep });
            },
            ResponseTransform::TruncateStrings { max_chars } => {
                steps.push(CompiledTransform::TruncateStrings { max_chars: *max_chars });
            },
            ResponseTransform::LimitArrays { max_items } => {
                steps.push(CompiledTransform::LimitArrays { max_items: *max_items });
            },
        }
        i = i + 1;
    }
    let out = CompiledResponsePipeline { steps };
    proof {
        assert forall|t: int| 0 <= t < n implies spec_compile_step(
            #[trigger] view_transforms(transforms@)[t],
        ) == Some(out.view_steps()[t]) by {
            assert(view_transforms(transforms@)[t] == view_transform(transforms@[t]));
            assert(out.view_steps()[t] == out.steps@[t].view_step());
        }
    }
    Ok(out)
}

/// Compile a base pipeline together with an optional tool-level chain.
pub fn compile_pipeline(
    base: &Vec<ResponseTransform>,
    chain: Option<&ResponseTransformChainConfig>,
) -> (r: Result<CompiledResponsePipeline, String>)
    ensures
        spec_compiles_to(
            spec_apply_chain(
                view_transforms(base@),
                match chain {
                    Some(c) => Some(c.mode),
                    None => None,
                },
                match chain {
                    Some(c) => view_transforms(c.pipeline@),
                    None => Seq::empty(),
                },
            ),
            r,
        ),
{
    let effective = apply_chain(base, chain);
    let r = compile_pipeline_from_transforms(&effective);
    proof {
        let eff = spec_apply_chain(
            view_transforms(base@),
            match chain {
                Some(c) => Some(c.mode),
                None => None,
            },
            match chain {
                Some(c) => view_transforms(c.pipeline@),
                None => Seq::empty(),
            },
        );
        assert(view_transforms(effective@) =~= eff);
        assert(view_transforms(effective@) == eff);
        assert(spec_compiles_to(eff, r));
    }
    r
}


/// `dropNulls`: remove `null` object members, recursively.
pub open spec fn spec_drop_nulls(v: SpecJson) -> SpecJson
    decreases v, 0nat,
{
    match v {
        SpecJson::Arr(items) => SpecJson::Arr(spec_drop_nulls_arr(items)),
        SpecJson::Obj(fields) => SpecJson::Obj(spec_drop_nulls_obj(fields)),
        other => other,
    }
}

pub open spec fn spec_drop_nulls_arr(s: Seq<SpecJson>) -> Seq<SpecJson>
    decreases s, s.len() + 1,
{
    if s.len() == 0 {
        Seq::empty()
    } else {
        spec_drop_nulls_arr(s.drop_last()).push(spec_drop_nulls(s.last()))
    }
}

pub open spec fn spec_drop_nulls_obj(fields: Seq<(Seq<char>, SpecJson)>) -> Seq<
    (Seq<char>, SpecJson),
>
    decreases fields, fields.len() + 1,
{
    if fields.len() == 0 {
        Seq::empty()
    } else {
        let pre = spec_drop_nulls_obj(fields.drop_last());
        if fields.last().1 is Null {
            pre
        } else {
            pre.push((fields.last().0, spec_drop_nulls(fields.last().1)))
        }
    }
}

/// Apply `dropNulls` to a value.
pub fn drop_nulls(v: &Json) -> (r: Json)
    ensures
        view_json(r) == spec_drop_nulls(view_json(*v)),
    decreases v,
{
    match v {
        Json::Arr(items) => {
            let ghost va = view_arr(items@);
            proof {
                lemma_view_arr_index(items@);
            }
            let n = items.len();
            let mut out: Vec<Json> = Vec::new();
            let mut i: usize = 0;
            while i < n
                invariant
                    n == items@.len(),
                    (*v) is Arr,
                    (*v)->Arr_0 == *items,
                    va == view_arr(items@),
                    va.len() == n,
                    forall|t: int| 0 <= t < n ==> va[t] == view_json(#[trigger] items@[t]),
                    i <= n,
                    view_arr(out@) == spec_drop_nulls_arr(va.take(i as int)),
                decreases n - i,
            {
                proof {
                    assert(decreases_to!(*v => (*v)->Arr_0));
                    assert(decreases_to!(*items => (*items)@));
                    assert(decreases_to!(items@ => items@[i as int]));
                }
                let e = drop_nulls(&items[i]);
                let ghost prev = out@;
                out.push(e);
                proof {
                    lemma_view_arr_push(prev, e);
                    assert(va.take(i + 1).drop_last() =~= va.take(i as int));
                    assert(va.take(i + 1).last() == view_json(items@[i as int]));
                    assert(view_arr(out@) =~= spec_drop_nulls_arr(va.take(i + 1)));
                }
                i = i + 1;
            }
            proof {
                assert(va.take(n as int) =~= va);
            }
            Json::Arr(out)
        },
        Json::Obj(fields) => {
            let ghost vf = view_obj(fields@);
            proof {
                lemma_view_obj_index(fields@);
            }
            let n = fields.len();
            let mut out: Vec<(String, Json)> = Vec::new();
            let mut i: usize = 0;
            while i < n
                invariant
                    n == fields@.len(),
                    (*v) is Obj,
                    (*v)->Obj_0 == *fields,
                    vf == view_obj(fields@),
                    vf.len() == n,
                    forall|t: int|
                        0 <= t < n ==> vf[t] == ((#[trigger] fields@[t]).0@, view_json(
                            fields@[t].1,
                        )),
                    i <= n,
                    view_obj(out@) == spec_drop_nulls_obj(vf.take(i as int)),
                decreases n - i,
            {
                proof {
                    assert(decreases_to!(*v => (*v)->Obj_0));
                    assert(decreases_to!(*fields => (*fields)@));
                    assert(decreases_to!(fields@ => fields@[i as int]));
                    assert(decreases_to!(fields@[i as int] => fields@[i as int].1));
                    assert(vf.take(i + 1).drop_last() =~= vf.take(i as int));
                    assert(vf.take(i + 1).last() == vf[i as int]);
                }
                if !fields[i].1.is_null() {
                    let k = fields[i].0.clone();
                    let dv = drop_nulls(&fields[i].1);
                    let ghost prev = out@;
                    out.push((k, dv));
                    proof {
                        lemma_view_obj_push(prev, out@.last());
                        assert(view_obj(out@) =~= spec_drop_nulls_obj(vf.take(i + 1)));
                    }
                } else {
                    proof {
                        assert(view_obj(out@) =~= spec_drop_nulls_obj(vf.take(i + 1)));
                    }
                }
                i = i + 1;
            }
            proof {
                assert(vf.take(n as int) =~= vf);
            }
            Json::Obj(out)
        },
        other => other.duplicate(),
    }
}

/// `redactKeys`: replace the value of any matching key with the replacement
/// string, recursively.
pub open spec fn spec_redact(v: SpecJson, keys: Seq<Seq<char>>, rep: Seq<char>) -> SpecJson
    decreases v, 0nat,
{
    match v {
        SpecJson::Arr(items) => SpecJson::Arr(spec_redact_arr(items, keys, rep)),
        SpecJson::Obj(fields) => SpecJson::Obj(spec_redact_obj(fields, keys, rep)),
        other => other,
    }
}

pub open spec fn spec_redact_arr(s: Seq<SpecJson>, keys: Seq<Seq<char>>, rep: Seq<char>) -> Seq<
    SpecJson,
>
    decreases s, s.len() + 1,
{
    if s.len() == 0 {
        Seq::empty()
    } else {
        spec_redact_arr(s.drop_last(), keys, rep).push(spec_redact(s.last(), keys, rep))
    }
}

pub open spec fn spec_redact_obj(
    fields: Seq<(Seq<char>, SpecJson)>,
    keys: Seq<Seq<char>>,
    rep: Seq<char>,
) -> Seq<(Seq<char>, SpecJson)>
    decreases fields, fields.len() + 1,
{
    if fields.len() == 0 {
        Seq::empty()
    } else {
        let pre = spec_redact_obj(fields.drop_last(), keys, rep);
        if keys.contains(fields.last().0) {
            pre.push((fields.last().0, SpecJson::Str(rep)))
        } else {
            pre.push((fields.last().0, spec_redact(fields.last().1, keys, rep)))
        }
    }
}

/// Apply `redactKeys` to a value.
pub fn redact_keys(v: &Json, keys: &Vec<String>, replacement: &String) -> (r: Json)
    ensures
        view_json(r) == spec_redact(view_json(*v), view_strings(keys@), replacement@),
    decreases v,
{
    match v {
        Json::Arr(items) => {
            let ghost va = view_arr(items@);
            proof {
                lemma_view_arr_index(items@);
            }
            let n = items.len();
            let mut out: Vec<Json> = Vec::new();
            let mut i: usize = 0;
            while i < n
                invariant
                    n == items@.len(),
                    (*v) is Arr,
                    (*v)->Arr_0 == *items,
                    va == view_arr(items@),
                    va.len() == n,
                    forall|t: int| 0 <= t < n ==> va[t] == view_json(#[trigger] items@[t]),
                    i <= n,
                    view_arr(out@) == spec_redact_arr(
                        va.take(i as int),
                        view_strings(keys@),
                        replacement@,
                    ),
                decreases n - i,
            {
                proof {
                    assert(decreases_to!(*v => (*v)->Arr_0));
                    assert(decreases_to!(*items => (*items)@));
                    assert(decreases_to!(items@ => items@[i as int]));
                }
                let e = redact_keys(&items[i], keys, replacement);
                let ghost prev = out@;
                out.push(e);
                proof {
                    lemma_view_arr_push(prev, e);
                    assert(va.take(i + 1).drop_last() =~= va.take(i as int));
                    assert(va.take(i + 1).last() == view_json(items@[i as int]));
                    assert(view_arr(out@) =~= spec_redact_arr(
                        va.take(i + 1),
                        view_strings(keys@),
                        replacement@,
                    ));
                }
                i = i + 1;
            }
            proof {
                assert(va.take(n as int) =~= va);
            }
            Json::Arr(out)
        },
        Json::Obj(fields) => {
            let ghost vf = view_obj(fields@);
            proof {
                lemma_view_obj_index(fields@);
            }
            let n = fields.len();
            let mut out: Vec<(String, Json)> = Vec::new();
            let mut i: usize = 0;
            while i < n
                invariant
                    n == fields@.len(),
                    (*v) is Obj,
                    (*v)->Obj_0 == *fields,
                    vf == view_obj(fields@),
                    vf.len() == n,
                    forall|t: int|
                        0 <= t < n ==> vf[t] == ((#[trigger] fields@[t]).0@, view_json(
                            fields@[t].1,
                        )),
                    i <= n,
                    view_obj(out@) == spec_redact_obj(
                        vf.take(i as int),
                        view_strings(keys@),
                        replacement@,
                    ),
                decreases n - i,
            {
                proof {
                    assert(decreases_to!(*v => (*v)->Obj_0));
                    assert(decreases_to!(*fields => (*fields)@));
                    assert(decreases_to!(fields@ => fields@[i as int]));
                    assert(decreases_to!(fields@[i as int] => fields@[i as int].1));
                    assert(vf.take(i + 1).drop_last() =~= vf.take(i as int));
                    assert(vf.take(i + 1).last() == vf[i as int]);
                }
                let k = fields[i].0.clone();
                let ghost prev = out@;
                if strings_contain(keys, fields[i].0.as_str()) {
                    let rep = Json::Str(replacement.clone());
                    out.push((k, rep));
                    proof {
                        lemma_view_obj_push(prev, out@.last());
                        assert(view_obj(out@) =~= spec_redact_obj(
                            vf.take(i + 1),
                            view_strings(keys@),
                            replacement@,
                        ));
                    }
                } else {
                    let dv = redact_keys(&fields[i].1, keys, replacement);
                    out.push((k, dv));
                    proof {
                        lemma_view_obj_push(prev, out@.last());
                        assert(view_obj(out@) =~= spec_redact_obj(
                            vf.take(i + 1),
                            view_strings(keys@),
                            replacement@,
                        ));
                    }
                }
                i = i + 1;
            }
            proof {
                assert(vf.take(n as int) =~= vf);
            }
            Json::Obj(out)
        },
        other => other.duplicate(),
    }
}

/// `truncateStrings`: cap every string at `max` characters, recursively.
pub open spec fn spec_truncate(v: SpecJson, max: nat) -> SpecJson
    decreases v, 0nat,
{
    match v {
        SpecJson::Str(s) => if s.len() <= max {
            SpecJson::Str(s)
        } else {
            SpecJson::Str(s.take(max as int))
        },
        SpecJson::Arr(items) => SpecJson::Arr(spec_truncate_arr(items, max)),
        SpecJson::Obj(fields) => SpecJson::Obj(spec_truncate_obj(fields, max)),
        other => other,
    }
}

pub open spec fn spec_truncate_arr(s: Seq<SpecJson>, max: nat) -> Seq<SpecJson>
    decreases s, s.len() + 1,
{
    if s.len() == 0 {
        Seq::empty()
    } else {
        spec_truncate_arr(s.drop_last(), max).push(spec_truncate(s.last(), max))
    }
}

pub open spec fn spec_truncate_obj(fields: Seq<(Seq<char>, SpecJson)>, max: nat) -> Seq<
    (Seq<char>, SpecJson),
>
    decreases fields, fields.len() + 1,
{
    if fields.len() == 0 {
        Seq::empty()
    } else {
        spec_truncate_obj(fields.drop_last(), max).push(
            (fields.last().0, spec_truncate(fields.last().1, max)),
        )
    }
}

/// Apply `truncateStrings` to a value.
pub fn truncate_strings(v: &Json, max: usize) -> (r: Json)
    ensures
        view_json(r) == spec_truncate(view_json(*v), max as nat),
    decreases v,
{
    match v {
        Json::Str(s) => {
            let n = s.as_str().unicode_len();
            if n <= max {
                Json::Str(s.clone())
            } else {
                let t = s.as_str().substring_char(0, max).to_owned();
                proof {
                    assert(t@ =~= s@.take(max as int));
                }
                Json::Str(t)
            }
        },
        Json::Arr(items) => {
            let ghost va = view_arr(items@);
            proof {
                lemma_view_arr_index(items@);
            }
            let n = items.len();
            let mut out: Vec<Json> = Vec::new();
            let mut i: usize = 0;
            while i < n
                invariant
                    n == items@.len(),
                    (*v) is Arr,
                    (*v)->Arr_0 == *items,
                    va == view_arr(items@),
                    va.len() == n,
                    forall|t: int| 0 <= t < n ==> va[t] == view_json(#[trigger] items@[t]),
                    i <= n,
                    view_arr(out@) == spec_truncate_arr(va.take(i as int), max as nat),
                decreases n - i,
            {
                proof {
                    assert(decreases_to!(*v => (*v)->Arr_0));
                    assert(decreases_to!(*items => (*items)@));
                    assert(decreases_to!(items@ => items@[i as int]));
                }
                let e = truncate_strings(&items[i], max);
                let ghost prev = out@;
                out.push(e);
                proof {
                    lemma_view_arr_push(prev, e);
                    assert(va.take(i + 1).drop_last() =~= va.take(i as int));
                    assert(va.take(i + 1).last() == view_json(items@[i as int]));
                    assert(view_arr(out@) =~= spec_truncate_arr(va.take(i + 1), max as nat));
                }
                i = i + 1;
            }
            proof {
                assert(va.take(n as int) =~= va);
            }
            Json::Arr(out)
        },
        Json::Obj(fields) => {
            let ghost vf = view_obj(fields@);
            proof {
                lemma_view_obj_index(fields@);
            }
            let n = fields.len();
            let mut out: Vec<(String, Json)> = Vec::new();
            let mut i: usize = 0;
            while i < n
                invariant
                    n == fields@.len(),
                    (*v) is Obj,
                    (*v)->Obj_0 == *fields,
                    vf == view_obj(fields@),
                    vf.len() == n,
                    forall|t: int|
                        0 <= t < n ==> vf[t] == ((#[trigger] fields@[t]).0@, view_json(
                            fields@[t].1,
                        )),
                    i <= n,
                    view_obj(out@) == spec_truncate_obj(vf.take(i as int), max as nat),
                decreases n - i,
            {
                proof {
                    assert(decreases_to!(*v => (*v)->Obj_0));
                    assert(decreases_to!(*fields => (*fields)@));
                    assert(decreases_to!(fields@ => fields@[i as int]));
                    assert(decreases_to!(fields@[i as int] => fields@[i as int].1));
                    assert(vf.take(i + 1).drop_last() =~= vf.take(i as int));
                    assert(vf.take(i + 1).last() == vf[i as int]);
                }
                let k = fields[i].0.clone();
                let dv = truncate_strings(&fields[i].1, max);
                let ghost prev = out@;
                out.push((k, dv));
                proof {
                    lemma_view_obj_push(prev, out@.last());
                    assert(view_obj(out@) =~= spec_truncate_obj(vf.take(i + 1), max as nat));
                }
                i = i + 1;
            }
            proof {
                assert(vf.take(n as int) =~= vf);
            }
            Json::Obj(out)
        },
        other => other.duplicate(),
    }
}

/// `limitArrays`: cap every array at `max` items, recursively.
pub open spec fn spec_limit(v: SpecJson, max: nat) -> SpecJson
    decreases v, 0nat,
{
    match v {
        SpecJson::Arr(items) => SpecJson::Arr(
            spec_limit_arr(
                if items.len() <= max {
                    items
                } else {
                    items.take(max as int)
                },
                max,
            ),
        ),
        SpecJson::Obj(fields) => SpecJson::Obj(spec_limit_obj(fields, max)),
        other => other,
    }
}

pub open spec fn spec_limit_arr(s: Seq<SpecJson>, max: nat) -> Seq<SpecJson>
    decreases s, s.len() + 1,
{
    if s.len() == 0 {
        Seq::empty()
    } else {
        spec_limit_arr(s.drop_last(), max).push(spec_limit(s.last(), max))
    }
}

pub open spec fn spec_limit_obj(fields: Seq<(Seq<char>, SpecJson)>, max: nat) -> Seq<
    (Seq<char>, SpecJson),
>
    decreases fields, fields.len() + 1,
{
    if fields.len() == 0 {
        Seq::empty()
    } else {
        spec_limit_obj(fields.drop_last(), max).push(
            (fields.last().0, spec_limit(fields.last().1, max)),
        )
    }
}

/// Apply `limitArrays` to a value.
pub fn limit_arrays(v: &Json, max: usize) -> (r: Json)
    ensures
        view_json(r) == spec_limit(view_json(*v), max as nat),
    decreases v,
{
    match v {
        Json::Arr(items) => {
            let ghost va = view_arr(items@);
            proof {
                lemma_view_arr_index(items@);
            }
            let n = items.len();
            let bound = if n <= max {
                n
            } else {
                max
            };
            let ghost kept = if va.len() <= max as nat {
                va
            } else {
                va.take(max as int)
            };
            let mut out: Vec<Json> = Vec::new();
            let mut i: usize = 0;
            while i < bound
                invariant
                    n == items@.len(),
                    bound == if n <= max {
                        n
                    } else {
                        max
                    },
                    (*v) is Arr,
                    (*v)->Arr_0 == *items,
                    va == view_arr(items@),
                    va.len() == n,
                    kept == if va.len() <= max as nat {
                        va
                    } else {
                        va.take(max as int)
                    },
                    forall|t: int| 0 <= t < n ==> va[t] == view_json(#[trigger] items@[t]),
                    i <= bound,
                    view_arr(out@) == spec_limit_arr(kept.take(i as int), max as nat),
                decreases bound - i,
            {
                proof {
                    assert(decreases_to!(*v => (*v)->Arr_0));
                    assert(decreases_to!(*items => (*items)@));
                    assert(decreases_to!(items@ => items@[i as int]));
                }
                let e = limit_arrays(&items[i], max);
                let ghost prev = out@;
                out.push(e);
                proof {
                    lemma_view_arr_push(prev, e);
                    assert(kept.take(i + 1).drop_last() =~= kept.take(i as int));
                    assert(kept.take(i + 1).last() == va[i as int]);
                    assert(view_arr(out@) =~= spec_limit_arr(kept.take(i + 1), max as nat));
                }
                i = i + 1;
            }
            proof {
                assert(kept.take(bound as int) =~= kept);
            }
            Json::Arr(out)
        },
        Json::Obj(fields) => {
            let ghost vf = view_obj(fields@);
            proof {
                lemma_view_obj_index(fields@);
            }
            let n = fields.len();
            let mut out: Vec<(String, Json)> = Vec::new();
            let mut i: usize = 0;
            while i < n
                invariant
                    n == fields@.len(),
                    (*v) is Obj,
                    (*v)->Obj_0 == *fields,
                    vf == view_obj(fields@),
                    vf.len() == n,
                    forall|t: int|
                        0 <= t < n ==> vf[t] == ((#[trigger] fields@[t]).0@, view_json(
                            fields@[t].1,
                        )),
                    i <= n,
                    view_obj(out@) == spec_limit_obj(vf.take(i as int), max as nat),
                decreases n - i,
            {
                proof {
                    assert(decreases_to!(*v => (*v)->Obj_0));
                    assert(decreases_to!(*fields => (*fields)@));
                    assert(decreases_to!(fields@ => fields@[i as int]));
                    assert(decreases_to!(fields@[i as int] => fields@[i as int].1));
                    assert(vf.take(i + 1).drop_last() =~= vf.take(i as int));
                    assert(vf.take(i + 1).last() == vf[i as int]);
                }
                let k = fields[i].0.clone();
                let dv = limit_arrays(&fields[i].1, max);
                let ghost prev = out@;
                out.push((k, dv));
                proof {
                    lemma_view_obj_push(prev, out@.last());
                    assert(view_obj(out@) =~= spec_limit_obj(vf.take(i + 1), max as nat));
                }
                i = i + 1;
            }
            proof {
                assert(vf.take(n as int) =~= vf);
            }
            Json::Obj(out)
        },
        other => other.duplicate(),
    }
}

/// `pickPointers`: keep only the named top-level fields of an object;
/// non-objects pass through unchanged.
pub open spec fn spec_pick(v: SpecJson, fields: Seq<Seq<char>>) -> SpecJson {
    match v {
        SpecJson::Obj(obj) => SpecJson::Obj(spec_pick_obj(obj, fields)),
        other => other,
    }
}

pub open spec fn spec_pick_obj(
    obj: Seq<(Seq<char>, SpecJson)>,
    fields: Seq<Seq<char>>,
) -> Seq<(Seq<char>, SpecJson)>
    decreases obj.len(),
{
    if obj.len() == 0 {
        Seq::empty()
    } else {
        let pre = spec_pick_obj(obj.drop_last(), fields);
        if fields.contains(obj.last().0) {
            pre.push(obj.last())
        } else {
            pre
        }
    }
}

/// Apply a `pickPointers` field set to a value.
pub fn pick_top_level_fields(v: &Json, fields: &Vec<String>) -> (r: Json)
    ensures
        view_json(r) == spec_pick(view_json(*v), view_strings(fields@)),
{
    match v {
        Json::Obj(obj) => {
            let ghost vf = view_obj(obj@);
            proof {
                lemma_view_obj_index(obj@);
            }
            let n = obj.len();
            let mut out: Vec<(String, Json)> = Vec::new();
            let mut i: usize = 0;
            while i < n
                invariant
                    n == obj@.len(),
                    vf == view_obj(obj@),
                    vf.len() == n,
                    forall|t: int|
                        0 <= t < n ==> vf[t] == ((#[trigger] obj@[t]).0@, view_json(obj@[t].1)),
                    i <= n,
                    view_obj(out@) == spec_pick_obj(vf.take(i as int), view_strings(fields@)),
                decreases n - i,
            {
                proof {
                    assert(vf.take(i + 1).drop_last() =~= vf.take(i as int));
                    assert(vf.take(i + 1).last() == vf[i as int]);
                }
                if strings_contain(fields, obj[i].0.as_str()) {
                    let k = obj[i].0.clone();
                    let dv = obj[i].1.duplicate();
                    let ghost prev = out@;
                    out.push((k, dv));
                    proof {
                        lemma_view_obj_push(prev, out@.last());
                        assert(view_obj(out@) =~= spec_pick_obj(
                            vf.take(i + 1),
                            view_strings(fields@),
                        ));
                    }
                } else {
                    proof {
                        assert(view_obj(out@) =~= spec_pick_obj(
                            vf.take(i + 1),
                            view_strings(fields@),
                        ));
                    }
                }
                i = i + 1;
            }
            proof {
                assert(vf.take(n as int) =~= vf);
            }
            Json::Obj(out)
        },
        other => other.duplicate(),
    }
}

/// The effect of a single compiled step on a value.
pub open spec fn spec_apply_step(step: SpecStep, v: SpecJson) -> SpecJson {
    match step {
        SpecStep::DropNulls => spec_drop_nulls(v),
        SpecStep::Pick(fields) => spec_pick(v, fields),
        SpecStep::Redact(keys, rep) => spec_redact(v, keys, rep),
        SpecStep::Truncate(max) => spec_truncate(v, max),
        SpecStep::Limit(max) => spec_limit(v, max),
    }
}

/// The effect of a step sequence on a value, first step first.
pub open spec fn spec_apply_steps(steps: Seq<SpecStep>, v: SpecJson) -> SpecJson
    decreases steps.len(),
{
    if steps.len() == 0 {
        v
    } else {
        spec_apply_steps(steps.drop_first(), spec_apply_step(steps.first(), v))
    }
}

impl CompiledResponsePipeline {
    /// Apply the pipeline to a tool output value, step by step.
    pub fn apply_to_value(&self, v: &Json) -> (r: Json)
        ensures
            view_json(r) == spec_apply_steps(self.view_steps(), view_json(*v)),
    {
        let ghost steps = self.view_steps();
        let n = self.steps.len();
        let mut cur = v.duplicate();
        let mut i: usize = 0;
        proof {
            assert(steps.skip(0) =~= steps);
        }
        while i < n
            invariant
                n == self.steps@.len(),
                steps == self.view_steps(),
                steps.len() == n,
                i <= n,
                spec_apply_steps(steps.skip(i as int), view_json(cur)) == spec_apply_steps(
                    steps,
                    view_json(*v),
                ),
            decreases n - i,
        {
            proof {
                assert(steps[i as int] == self.steps@[i as int].view_step());
                assert(steps.skip(i as int).first() == steps[i as int]);
                assert(steps.skip(i as int).drop_first() =~= steps.skip(i + 1));
            }
            let next = match &self.steps[i] {
                CompiledTransform::DropNulls => drop_nulls(&cur),
                CompiledTransform::PickTopLevelFields { fields } => pick_top_level_fields(
                    &cur,
                    fields,
                ),
                CompiledTransform::RedactKeys { keys, replacement } => redact_keys(
                    &cur,
                    keys,
                    replacement,
                ),
                CompiledTransform::TruncateStrings { max_chars } => truncate_strings(
                    &cur,
                    *max_chars,
                ),
                CompiledTransform::LimitArrays { max_items } => limit_arrays(&cur, *max_items),
            };
            cur = next;
            i = i + 1;
        }
        proof {
            assert(steps.skip(n as int) =~= Seq::<SpecStep>::empty());
        }
        cur
    }
}

/// The schema rewrite accompanying `dropNulls`: since null members are
/// gone, no member can be promised, so every `required` list is removed,
/// recursively.
pub open spec fn spec_remove_required(v: SpecJson) -> SpecJson
    decreases v, 0nat,
{
    match v {
        SpecJson::Arr(items) => SpecJson::Arr(spec_remove_required_arr(items)),
        SpecJson::Obj(fields) => SpecJson::Obj(spec_remove_required_obj(fields)),
        other => other,
    }
}

pub open spec fn spec_remove_required_arr(s: Seq<SpecJson>) -> Seq<SpecJson>
    decreases s, s.len() + 1,
{
    if s.len() == 0 {
        Seq::empty()
    } else {
        spec_remove_required_arr(s.drop_last()).push(spec_remove_required(s.last()))
    }
}

pub open spec fn spec_remove_required_obj(fields: Seq<(Seq<char>, SpecJson)>) -> Seq<
    (Seq<char>, SpecJson),
>
    decreases fields, fields.len() + 1,
{
    if fields.len() == 0 {
        Seq::empty()
    } else {
        let pre = spec_remove_required_obj(fields.drop_last());
        if fields.last().0 == "required"@ {
            pre
        } else {
            pre.push((fields.last().0, spec_remove_required(fields.last().1)))
        }
    }
}

/// Remove every `required` member of a schema, recursively.
pub fn remove_required_recursively(v: &Json) -> (r: Json)
    ensures
        view_json(r) == spec_remove_required(view_json(*v)),
    decreases v,
{
    match v {
        Json::Arr(items) => {
            let ghost va = view_arr(items@);
            proof {
                lemma_view_arr_index(items@);
            }
            let n = items.len();
            let mut out: Vec<Json> = Vec::new();
            let mut i: usize = 0;
            while i < n
                invariant
                    n == items@.len(),
                    (*v) is Arr,
                    (*v)->Arr_0 == *items,
                    va == view_arr(items@),
                    va.len() == n,
                    forall|t: int| 0 <= t < n ==> va[t] == view_json(#[trigger] items@[t]),
                    i <= n,
                    view_arr(out@) == spec_remove_required_arr(va.take(i as int)),
                decreases n - i,
            {
                proof {
                    assert(decreases_to!(*v => (*v)->Arr_0));
                    assert(decreases_to!(*items => (*items)@));
                    assert(decreases_to!(items@ => items@[i as int]));
                }
                let e = remove_required_recursively(&items[i]);
                let ghost prev = out@;
                out.push(e);
                proof {
                    lemma_view_arr_push(prev, e);
                    assert(va.take(i + 1).drop_last() =~= va.take(i as int));
                    assert(va.take(i + 1).last() == view_json(items@[i as int]));
                    assert(view_arr(out@) =~= spec_remove_required_arr(va.take(i + 1)));
                }
                i = i + 1;
            }
            proof {
                assert(va.take(n as int) =~= va);
            }
            Json::Arr(out)
        },
        Json::Obj(fields) => {
            let ghost vf = view_obj(fields@);
            proof {
                lemma_view_obj_index(fields@);
            }
            let n = fields.len();
            let mut out: Vec<(String, Json)> = Vec::new();
            let mut i: usize = 0;
            while i < n
                invariant
                    n == fields@.len(),
                    (*v) is Obj,
                    (*v)->Obj_0 == *fields,
                    vf == view_obj(fields@),
                    vf.len() == n,
                    forall|t: int|
                        0 <= t < n ==> vf[t] == ((#[trigger] fields@[t]).0@, view_json(
                            fields@[t].1,
                        )),
                    i <= n,
                    view_obj(out@) == spec_remove_required_obj(vf.take(i as int)),
                decreases n - i,
            {
                proof {
                    assert(decreases_to!(*v => (*v)->Obj_0));
                    assert(decreases_to!(*fields => (*fields)@));
                    assert(decreases_to!(fields@ => fields@[i as int]));
                    assert(decreases_to!(fields@[i as int] => fields@[i as int].1));
                    assert(vf.take(i + 1).drop_last() =~= vf.take(i as int));
                    assert(vf.take(i + 1).last() == vf[i as int]);
                    reveal_strlit("required");
                }
                if !crate::text::str_eq(fields[i].0.as_str(), "required") {
                    let k = fields[i].0.clone();
                    let dv = remove_required_recursively(&fields[i].1);
                    let ghost prev = out@;
                    out.push((k, dv));
                    proof {
                        lemma_view_obj_push(prev, out@.last());
                        assert(view_obj(out@) =~= spec_remove_required_obj(vf.take(i + 1)));
                    }
                } else {
                    proof {
                        assert(view_obj(out@) =~= spec_remove_required_obj(vf.take(i + 1)));
                    }
                }
                i = i + 1;
            }
            proof {
                assert(vf.take(n as int) =~= vf);
            }
            Json::Obj(out)
        },
        other => other.duplicate(),
    }
}

/// The schema rewrite accompanying `pickPointers`, when the schema is an
/// object with an object `properties` member: unpicked properties leave
/// `properties`, and `required` keeps the picked names only.
pub open spec fn spec_prune_schema(v: SpecJson, keep: Seq<Seq<char>>) -> SpecJson {
    match v {
        SpecJson::Obj(fields) => SpecJson::Obj(spec_prune_fields(fields, keep)),
        other => other,
    }
}

pub open spec fn spec_prune_fields(
    fields: Seq<(Seq<char>, SpecJson)>,
    keep: Seq<Seq<char>>,
) -> Seq<(Seq<char>, SpecJson)>
    decreases fields.len(),
{
    if fields.len() == 0 {
        Seq::empty()
    } else {
        let key = fields.last().0;
        let sub = fields.last().1;
        let mapped = if key == "properties"@ {
            match sub {
                SpecJson::Obj(props) => SpecJson::Obj(spec_pick_obj(props, keep)),
                other => other,
            }
        } else if key == "required"@ {
            match sub {
                SpecJson::Arr(items) => SpecJson::Arr(spec_keep_required(items, keep)),
                other => other,
            }
        } else {
            sub
        };
        spec_prune_fields(fields.drop_last(), keep).push((key, mapped))
    }
}

/// `required` entries naming picked properties; other entries drop.
pub open spec fn spec_keep_required(items: Seq<SpecJson>, keep: Seq<Seq<char>>) -> Seq<SpecJson>
    decreases items.len(),
{
    if items.len() == 0 {
        Seq::empty()
    } else {
        let pre = spec_keep_required(items.drop_last(), keep);
        match items.last() {
            SpecJson::Str(name) => if keep.contains(name) {
                pre.push(SpecJson::Str(name))
            } else {
                pre
            },
            _ => pre,
        }
    }
}

/// Whether a schema is an object schema with an object `properties`
/// member, so pruning can apply.
pub open spec fn spec_prunable(v: SpecJson) -> bool {
    match v {
        SpecJson::Obj(fields) => exists|i: int|
            0 <= i < fields.len() && (#[trigger] fields[i]).0 == "properties"@ && fields[i].1
                is Obj,
        _ => false,
    }
}

/// Prune a schema for a `pickPointers` field set. Returns `None` when the
/// schema has no object `properties` member to prune; the caller then
/// widens by removing `required` instead.
pub fn prune_schema_top_level_properties(v: &Json, keep: &Vec<String>) -> (r: Option<Json>)
    ensures
        match r {
            Some(out) => spec_prunable(view_json(*v)) && view_json(out) == spec_prune_schema(
                view_json(*v),
                view_strings(keep@),
            ),
            None => !spec_prunable(view_json(*v)),
        },
{
    let fields = match v {
        Json::Obj(fields) => fields,
        _ => {
            return None;
        },
    };
    let ghost vf = view_obj(fields@);
    proof {
        lemma_view_obj_index(fields@);
        reveal_strlit("properties");
        reveal_strlit("required");
    }
    // First decide whether pruning applies at all.
    let n = fields.len();
    let mut prunable = false;
    let mut i: usize = 0;
    while i < n
        invariant
            n == fields@.len(),
            vf == view_obj(fields@),
            vf.len() == n,
            forall|t: int|
                0 <= t < n ==> vf[t] == ((#[trigger] fields@[t]).0@, view_json(fields@[t].1)),
            i <= n,
            prunable == exists|t: int|
                0 <= t < i && (#[trigger] vf[t]).0 == "properties"@ && vf[t].1 is Obj,
        decreases n - i,
    {
        proof {
            reveal_strlit("properties");
        }
        if crate::text::str_eq(fields[i].0.as_str(), "properties") {
            if let Json::Obj(_) = &fields[i].1 {
                proof {
                    assert(vf[i as int].0 == "properties"@ && vf[i as int].1 is Obj);
                }
                prunable = true;
            }
        }
        i = i + 1;
    }
    if !prunable {
        return None;
    }
    // Rewrite the fields.
    let mut out: Vec<(String, Json)> = Vec::new();
    let mut j: usize = 0;
    while j < n
        invariant
            n == fields@.len(),
            vf == view_obj(fields@),
            vf.len() == n,
            forall|t: int|
                0 <= t < n ==> vf[t] == ((#[trigger] fields@[t]).0@, view_json(fields@[t].1)),
            j <= n,
            view_obj(out@) == spec_prune_fields(vf.take(j as int), view_strings(keep@)),
        decreases n - j,
    {
        let key = fields[j].0.clone();
        let mapped: Json = if crate::text::str_eq(key.as_str(), "properties") {
            match &fields[j].1 {
                Json::Obj(props) => Json::Obj(pick_obj_fields(props, keep)),
                other => other.duplicate(),
            }
        } else if crate::text::str_eq(key.as_str(), "required") {
            match &fields[j].1 {
                Json::Arr(items) => Json::Arr(keep_required(items, keep)),
                other => other.duplicate(),
            }
        } else {
            fields[j].1.duplicate()
        };
        let ghost prev = out@;
        out.push((key, mapped));
        proof {
            reveal_strlit("properties");
            reveal_strlit("required");
            lemma_view_obj_push(prev, out@.last());
            assert(vf.take(j + 1).drop_last() =~= vf.take(j as int));
            assert(vf.take(j + 1).last() == vf[j as int]);
            assert(view_obj(out@) =~= spec_prune_fields(vf.take(j + 1), view_strings(keep@)));
        }
        j = j + 1;
    }
    proof {
        assert(vf.take(n as int) =~= vf);
    }
    Some(Json::Obj(out))
}

fn pick_obj_fields(props: &Vec<(String, Json)>, keep: &Vec<String>) -> (r: Vec<(String, Json)>)
    ensures
        view_obj(r@) == spec_pick_obj(view_obj(props@), view_strings(keep@)),
{
    let ghost vp = view_obj(props@);
    proof {
        lemma_view_obj_index(props@);
    }
    let n = props.len();
    let mut out: Vec<(String, Json)> = Vec::new();
    let mut i: usize = 0;
    while i < n
        invariant
            n == props@.len(),
            vp == view_obj(props@),
            vp.len() == n,
            forall|t: int|
                0 <= t < n ==> vp[t] == ((#[trigger] props@[t]).0@, view_json(props@[t].1)),
            i <= n,
            view_obj(out@) == spec_pick_obj(vp.take(i as int), view_strings(keep@)),
        decreases n - i,
    {
        proof {
            assert(vp.take(i + 1).drop_last() =~= vp.take(i as int));
            assert(vp.take(i + 1).last() == vp[i as int]);
        }
        if strings_contain(keep, props[i].0.as_str()) {
            let k = props[i].0.clone();
            let dv = props[i].1.duplicate();
            let ghost prev = out@;
            out.push((k, dv));
            proof {
                lemma_view_obj_push(prev, out@.last());
                assert(view_obj(out@) =~= spec_pick_obj(vp.take(i + 1), view_strings(keep@)));
            }
        } else {
            proof {
                assert(view_obj(out@) =~= spec_pick_obj(vp.take(i + 1), view_strings(keep@)));
            }
        }
        i = i + 1;
    }
    proof {
        assert(vp.take(n as int) =~= vp);
    }
    out
}

fn keep_required(items: &Vec<Json>, keep: &Vec<String>) -> (r: Vec<Json>)
    ensures
        view_arr(r@) == spec_keep_required(view_arr(items@), view_strings(keep@)),
{
    let ghost va = view_arr(items@);
    proof {
        lemma_view_arr_index(items@);
    }
    let n = items.len();
    let mut out: Vec<Json> = Vec::new();
    let mut i: usize = 0;
    while i < n
        invariant
            n == items@.len(),
            va == view_arr(items@),
            va.len() == n,
            forall|t: int| 0 <= t < n ==> va[t] == view_json(#[trigger] items@[t]),
            i <= n,
            view_arr(out@) == spec_keep_required(va.take(i as int), view_strings(keep@)),
        decreases n - i,
    {
        proof {
            assert(va.take(i + 1).drop_last() =~= va.take(i as int));
            assert(va.take(i + 1).last() == va[i as int]);
        }
        let mut kept = false;
        if let Json::Str(name) = &items[i] {
            if strings_contain(keep, name.as_str()) {
                let ghost prev = out@;
                out.push(Json::Str(name.clone()));
                proof {
                    lemma_view_arr_push(prev, out@.last());
                    assert(view_arr(out@) =~= spec_keep_required(
                        va.take(i + 1),
                        view_strings(keep@),
                    ));
                }
                kept = true;
            }
        }
        if !kept {
            proof {
                assert(view_arr(out@) =~= spec_keep_required(va.take(i + 1), view_strings(keep@)));
            }
        }
        i = i + 1;
    }
    proof {
        assert(va.take(n as int) =~= va);
    }
    out
}

impl CompiledResponsePipeline {
    /// Apply the pipeline's schema rewrites for the steps that have exact
    /// ones here: `dropNulls` removes `required` everywhere, and
    /// `pickPointers` prunes `properties` and `required` — falling back to
    /// removing `required` when the schema has no properties to prune, in
    /// which case a warning is reported. Steps that only widen or clamp
    /// leave the schema unchanged here.
    pub fn apply_to_schema(&self, schema: &Json) -> (r: (Json, Vec<String>))
        ensures
            view_json(r.0) == spec_apply_schema_steps(self.view_steps(), view_json(*schema)),
    {
        let ghost steps = self.view_steps();
        let n = self.steps.len();
        let mut cur = schema.duplicate();
        let mut warnings: Vec<String> = Vec::new();
        let mut i: usize = 0;
        proof {
            assert(steps.skip(0) =~= steps);
        }
        while i < n
            invariant
                n == self.steps@.len(),
                steps == self.view_steps(),
                steps.len() == n,
                i <= n,
                spec_apply_schema_steps(steps.skip(i as int), view_json(cur))
                    == spec_apply_schema_steps(steps, view_json(*schema)),
            decreases n - i,
        {
            proof {
                assert(steps[i as int] == self.steps@[i as int].view_step());
                assert(steps.skip(i as int).first() == steps[i as int]);
                assert(steps.skip(i as int).drop_first() =~= steps.skip(i + 1));
            }
            let next: Json = match &self.steps[i] {
                CompiledTransform::DropNulls => remove_required_recursively(&cur),
                CompiledTransform::PickTopLevelFields { fields } => {
                    match prune_schema_top_level_properties(&cur, fields) {
                        Some(pruned) => pruned,
                        None => {
                            warnings.push(
                                "pickPointers: cannot prune output schema; widening by removing required".to_owned(),
                            );
                            remove_required_recursively(&cur)
                        },
                    }
                },
                CompiledTransform::RedactKeys { .. } => cur,
                CompiledTransform::TruncateStrings { .. } => cur,
                CompiledTransform::LimitArrays { .. } => cur,
            };
            cur = next;
            i = i + 1;
        }
        proof {
            assert(steps.skip(n as int) =~= Seq::<SpecStep>::empty());
        }
        (cur, warnings)
    }
}

/// The schema effect of one step.
pub open spec fn spec_apply_schema_step(step: SpecStep, v: SpecJson) -> SpecJson {
    match step {
        SpecStep::DropNulls => spec_remove_required(v),
        SpecStep::Pick(fields) => if spec_prunable(v) {
            spec_prune_schema(v, fields)
        } else {
            spec_remove_required(v)
        },
        _ => v,
    }
}

/// The schema effect of a step sequence, first step first.
pub open spec fn spec_apply_schema_steps(steps: Seq<SpecStep>, v: SpecJson) -> SpecJson
    decreases steps.len(),
{
    if steps.len() == 0 {
        v
    } else {
        spec_apply_schema_steps(steps.drop_first(), spec_apply_schema_step(steps.first(), v))
    }
}

} // verus!
