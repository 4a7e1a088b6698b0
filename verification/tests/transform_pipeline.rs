use mcp_proxy_core::aggregate::merge_prompts_with_collisions;
use mcp_proxy_core::json::Json;
use mcp_proxy_core::model::PromptDef;
use mcp_proxy_core::transforms::{ToolOverride, TransformPipeline};

fn pipeline_with(overrides: Vec<(&str, ToolOverride)>) -> TransformPipeline {
    TransformPipeline {
        tool_overrides: overrides
            .into_iter()
            .map(|(k, v)| (k.to_string(), v))
            .collect(),
    }
}

fn override_with(
    rename: Option<&str>,
    param_renames: Vec<(&str, &str)>,
    defaults: Vec<(&str, Json)>,
) -> ToolOverride {
    ToolOverride {
        rename: rename.map(|r| r.to_string()),
        description: None,
        param_renames: param_renames
            .into_iter()
            .map(|(a, b)| (a.to_string(), b.to_string()))
            .collect(),
        defaults: defaults
            .into_iter()
            .map(|(k, v)| (k.to_string(), v))
            .collect(),
    }
}

fn obj(fields: Vec<(&str, Json)>) -> Json {
    Json::Obj(fields.into_iter().map(|(k, v)| (k.to_string(), v)).collect())
}

#[test]
fn exposed_tool_name_uses_rename() {
    let p = pipeline_with(vec![("tool_a", override_with(Some("renamed"), vec![], vec![]))]);
    assert_eq!(p.exposed_tool_name("tool_a"), "renamed");
    assert_eq!(p.exposed_tool_name("other"), "other");
    assert_eq!(TransformPipeline::new().exposed_tool_name("tool_a"), "tool_a");
}

#[test]
fn call_transforms_reverse_renames_and_insert_defaults() {
    let p = pipeline_with(vec![(
        "tool_a",
        override_with(
            None,
            vec![("orig_param", "nice_param")],
            vec![("filled", Json::Int(7))],
        ),
    )]);
    let args = obj(vec![("nice_param", Json::Str("v".to_string()))]);
    let rewritten = p.apply_call_transforms("tool_a", &args);
    assert_eq!(
        rewritten,
        obj(vec![
            ("orig_param", Json::Str("v".to_string())),
            ("filled", Json::Int(7)),
        ])
    );
    // A present argument is not overwritten by the default.
    let args2 = obj(vec![("filled", Json::Int(1))]);
    let rewritten2 = p.apply_call_transforms("tool_a", &args2);
    assert_eq!(rewritten2, obj(vec![("filled", Json::Int(1))]));
}

#[test]
fn schema_transforms_rename_properties_and_required() {
    let p = pipeline_with(vec![(
        "tool_a",
        override_with(
            None,
            vec![("orig_param", "nice_param")],
            vec![("orig_param", Json::Str("dv".to_string()))],
        ),
    )]);
    let schema = obj(vec![
        ("type", Json::Str("object".to_string())),
        (
            "properties",
            obj(vec![(
                "orig_param",
                obj(vec![("type", Json::Str("string".to_string()))]),
            )]),
        ),
        ("required", Json::Arr(vec![Json::Str("orig_param".to_string())])),
    ]);
    let rewritten = p.apply_schema_transforms("tool_a", &schema);
    assert_eq!(
        rewritten,
        obj(vec![
            ("type", Json::Str("object".to_string())),
            (
                "properties",
                obj(vec![(
                    "nice_param",
                    obj(vec![
                        ("type", Json::Str("string".to_string())),
                        ("default", Json::Str("dv".to_string())),
                    ]),
                )]),
            ),
            ("required", Json::Arr(vec![Json::Str("nice_param".to_string())])),
        ])
    );
}

fn prompt(source: &str, name: &str) -> (String, PromptDef) {
    (
        source.to_string(),
        PromptDef {
            name: name.to_string(),
            description: None,
            arguments: None,
        },
    )
}

#[test]
fn prompt_collisions_are_prefixed() {
    let merged = merge_prompts_with_collisions(vec![
        prompt("s1", "greet"),
        prompt("s2", "greet"),
        prompt("s1", "unique"),
    ]);
    let names: Vec<String> = merged.iter().map(|p| p.name.clone()).collect();
    assert!(names.contains(&"s1:greet".to_string()));
    assert!(names.contains(&"s2:greet".to_string()));
    assert!(names.contains(&"unique".to_string()));
    assert!(!names.contains(&"greet".to_string()));
}
