use mcp_proxy_core::httptool::{
    annotations_for_method, encode_query_component, serialize_empty_query_value,
    serialize_query_array, value_to_string, HttpMethod, QueryStyle,
};
use mcp_proxy_core::json::Json;
use mcp_proxy_core::openapi_names::{
    generate_canonical_name, matches_pattern, normalize_tool_path, reserve_unique_tool_name,
    trim_ascii,
};
use mcp_proxy_core::shape::{
    apply_chain, compile_pipeline_from_transforms, decode_pointer_token,
    parse_top_level_json_pointer, ResponseTransform, ResponseTransformChainConfig,
    TransformChainMode,
};
use mcp_proxy_core::validate::{rank_suggestions, validate_tool_arguments, ArgumentViolation};

fn obj(fields: Vec<(&str, Json)>) -> Json {
    Json::Obj(fields.into_iter().map(|(k, v)| (k.to_string(), v)).collect())
}

#[test]
fn drop_nulls_removes_null_fields_recursively() {
    let pipeline =
        compile_pipeline_from_transforms(&vec![ResponseTransform::DropNulls]).unwrap();
    let v = obj(vec![
        ("a", Json::Int(1)),
        ("b", Json::Null),
        ("c", obj(vec![("x", Json::Null), ("y", Json::Int(2))])),
        ("d", Json::Arr(vec![obj(vec![("k", Json::Null), ("v", Json::Int(1))])])),
    ]);
    let shaped = pipeline.apply_to_value(&v);
    assert_eq!(
        shaped,
        obj(vec![
            ("a", Json::Int(1)),
            ("c", obj(vec![("y", Json::Int(2))])),
            ("d", Json::Arr(vec![obj(vec![("v", Json::Int(1))])])),
        ])
    );
}

#[test]
fn pick_pointers_keeps_only_selected_fields() {
    let pipeline = compile_pipeline_from_transforms(&vec![ResponseTransform::PickPointers {
        pointers: vec!["/id".into(), "/name".into()],
    }])
    .unwrap();

    let v = obj(vec![
        ("id", Json::Int(1)),
        ("name", Json::Str("x".to_string())),
        ("extra", Json::Bool(true)),
    ]);
    let shaped = pipeline.apply_to_value(&v);
    assert_eq!(
        shaped,
        obj(vec![("id", Json::Int(1)), ("name", Json::Str("x".to_string()))])
    );
}

#[test]
fn pick_pointers_rejects_nested_pointers() {
    let err = compile_pipeline_from_transforms(&vec![ResponseTransform::PickPointers {
        pointers: vec!["/a/b".into()],
    }])
    .unwrap_err();
    assert!(err.contains("top-level"));
}

#[test]
fn redact_truncate_and_limit_shape_values() {
    let pipeline = compile_pipeline_from_transforms(&vec![
        ResponseTransform::RedactKeys { keys: vec!["secret".into()], replacement: None },
        ResponseTransform::TruncateStrings { max_chars: 3 },
        ResponseTransform::LimitArrays { max_items: 2 },
    ])
    .unwrap();
    let v = obj(vec![
        ("secret", Json::Str("hunter2".to_string())),
        ("text", Json::Str("abcdef".to_string())),
        (
            "items",
            Json::Arr(vec![Json::Int(1), Json::Int(2), Json::Int(3)]),
        ),
    ]);
    let shaped = pipeline.apply_to_value(&v);
    assert_eq!(
        shaped,
        obj(vec![
            ("secret", Json::Str("***".to_string())),
            ("text", Json::Str("abc".to_string())),
            ("items", Json::Arr(vec![Json::Int(1), Json::Int(2)])),
        ])
    );
}

#[test]
fn chain_modes_append_and_replace() {
    let base = vec![ResponseTransform::DropNulls];
    let chain = ResponseTransformChainConfig {
        mode: TransformChainMode::Append,
        pipeline: vec![ResponseTransform::TruncateStrings { max_chars: 5 }],
    };
    let appended = apply_chain(&base, Some(&chain));
    assert_eq!(appended.len(), 2);
    let replacing = ResponseTransformChainConfig {
        mode: TransformChainMode::Replace,
        pipeline: vec![ResponseTransform::TruncateStrings { max_chars: 5 }],
    };
    let replaced = apply_chain(&base, Some(&replacing));
    assert_eq!(replaced.len(), 1);
    assert_eq!(apply_chain(&base, None).len(), 1);
    let compiled = compile_pipeline_from_transforms(&Vec::new()).unwrap();
    assert!(compiled.is_empty());
}

#[test]
fn pointer_tokens_decode_rfc6901_escapes() {
    assert_eq!(decode_pointer_token("a~0b~1c").unwrap(), "a~b/c");
    assert!(decode_pointer_token("bad~2").is_err());
    assert_eq!(parse_top_level_json_pointer("/plain").unwrap(), "plain");
    assert!(parse_top_level_json_pointer("no-slash").is_err());
    assert!(parse_top_level_json_pointer("/").is_err());
}

#[test]
fn annotations_set_open_world_for_all_methods() {
    for m in [
        HttpMethod::Get,
        HttpMethod::Post,
        HttpMethod::Put,
        HttpMethod::Patch,
        HttpMethod::Delete,
        HttpMethod::Head,
        HttpMethod::Options,
    ] {
        let a = annotations_for_method(&m);
        assert_eq!(a.open_world_hint, Some(true));
    }

    let custom = HttpMethod::Other("PROPFIND".to_string());
    let a = annotations_for_method(&custom);
    assert_eq!(a.open_world_hint, Some(true));
}

#[test]
fn annotations_get_is_readonly_and_idempotent() {
    let a = annotations_for_method(&HttpMethod::Get);
    assert_eq!(a.read_only_hint, Some(true));
    assert_eq!(a.destructive_hint, Some(false));
    assert_eq!(a.idempotent_hint, Some(true));
}

#[test]
fn annotations_patch_leaves_idempotence_unknown() {
    let a = annotations_for_method(&HttpMethod::Patch);
    assert_eq!(a.read_only_hint, Some(false));
    assert_eq!(a.destructive_hint, Some(true));
    assert_eq!(a.idempotent_hint, None);
}

#[test]
fn annotations_unknown_method_only_sets_open_world() {
    let custom = HttpMethod::Other("PROPFIND".to_string());
    let a = annotations_for_method(&custom);
    assert_eq!(a.read_only_hint, None);
    assert_eq!(a.destructive_hint, None);
    assert_eq!(a.idempotent_hint, None);
    assert_eq!(a.open_world_hint, Some(true));
}

#[test]
fn test_value_to_string() {
    assert_eq!(value_to_string(&Json::Int(123)), "123");
    assert_eq!(value_to_string(&Json::Str("hello".to_string())), "hello");
    assert_eq!(value_to_string(&Json::Bool(true)), "true");
    assert_eq!(value_to_string(&Json::Null), "");
}

#[test]
fn test_query_serialization_respects_explode() {
    let items = vec![Json::Str("a".to_string()), Json::Str("b".to_string())];
    let exploded = serialize_query_array("tags", &items, QueryStyle::Form, true, false);
    assert_eq!(exploded.len(), 2);
    assert_eq!(exploded[0].key, "tags");
    assert_eq!(exploded[0].value, "a");
    assert_eq!(exploded[1].value, "b");

    let joined = serialize_query_array("tags", &items, QueryStyle::Form, false, false);
    assert_eq!(joined.len(), 1);
    assert_eq!(joined[0].value, "a,b");

    let piped = serialize_query_array("tags", &items, QueryStyle::PipeDelimited, false, false);
    assert_eq!(piped[0].value, "a|b");
}

#[test]
fn empty_query_values_follow_required_and_allow_empty() {
    assert_eq!(serialize_empty_query_value("q", false, false, false).len(), 0);
    let kept = serialize_empty_query_value("q", true, false, false);
    assert_eq!(kept.len(), 1);
    assert_eq!(kept[0].key, "q");
    assert_eq!(kept[0].value, "");
}

#[test]
fn query_components_are_percent_encoded() {
    assert_eq!(encode_query_component("a b&c", false), "a%20b%26c");
    // allowReserved keeps ':' and '/' but still encodes '&' and '='.
    assert_eq!(encode_query_component("a:/b&=", true), "a:/b%26%3D");
}

#[test]
fn test_generate_canonical_name() {
    assert_eq!(generate_canonical_name("get", "/pet/{petId}"), "get_pet_petId");
    assert_eq!(generate_canonical_name("post", "/store/order"), "post_store_order");
    assert_eq!(
        generate_canonical_name("get", "/user/{username}/repos"),
        "get_user_username_repos"
    );
    assert_eq!(generate_canonical_name("delete", "/pet/{petId}"), "delete_pet_petId");
}

#[test]
fn test_matches_pattern() {
    assert!(matches_pattern("GET *", "GET /users"));
    assert!(matches_pattern("GET /users/*", "GET /users/123"));
    assert!(!matches_pattern("GET /users/*", "POST /users/123"));
    assert!(matches_pattern("DELETE *", "DELETE /users/123"));
    assert!(!matches_pattern("GET /users", "GET /users/{id}"));
    assert!(matches_pattern("GET /users/?*", "GET /users/123"));
}

#[test]
fn unique_tool_names_get_numeric_suffixes() {
    let mut names: Vec<String> = Vec::new();
    assert_eq!(reserve_unique_tool_name(&mut names, "getPet"), "getPet");
    assert_eq!(reserve_unique_tool_name(&mut names, "getPet"), "getPet_1");
    assert_eq!(reserve_unique_tool_name(&mut names, "getPet"), "getPet_2");
}

#[test]
fn tool_paths_are_normalized_and_methods_trimmed() {
    assert_eq!(normalize_tool_path("pets"), "/pets");
    assert_eq!(normalize_tool_path("/pets"), "/pets");
    assert_eq!(trim_ascii("  GET \t"), "GET");
}

#[test]
fn unknown_and_missing_parameters_are_reported() {
    let valid = vec!["petId".to_string(), "name".to_string()];
    let required = vec!["petId".to_string()];
    let args = vec!["petd".to_string()];
    let suggestions = vec![("petd".to_string(), vec!["petId".to_string()])];
    let violations = validate_tool_arguments(&valid, &required, &args, &suggestions, Vec::new());
    assert_eq!(violations.len(), 2);
    assert!(matches!(
        &violations[0],
        ArgumentViolation::UnknownParameter { parameter, .. } if parameter == "petd"
    ));
    assert!(matches!(
        &violations[1],
        ArgumentViolation::MissingRequired { parameter } if parameter == "petId"
    ));

    let ok = validate_tool_arguments(
        &valid,
        &required,
        &vec!["petId".to_string()],
        &Vec::new(),
        Vec::new(),
    );
    assert_eq!(ok.len(), 0);
}

#[test]
fn suggestions_rank_by_score_above_threshold() {
    let scored = vec![
        (650_000u64, "far".to_string()),
        (820_000u64, "close".to_string()),
        (910_000u64, "closest".to_string()),
    ];
    let ranked = rank_suggestions(&scored);
    assert_eq!(ranked, vec!["closest".to_string(), "close".to_string()]);
}

#[test]
fn schema_drop_nulls_removes_required() {
    let pipeline =
        compile_pipeline_from_transforms(&vec![ResponseTransform::DropNulls]).unwrap();
    let schema = obj(vec![
        ("type", Json::Str("object".to_string())),
        (
            "properties",
            obj(vec![("a", obj(vec![("type", Json::Str("string".to_string()))]))]),
        ),
        ("required", Json::Arr(vec![Json::Str("a".to_string())])),
    ]);
    let (rewritten, warnings) = pipeline.apply_to_schema(&schema);
    assert!(warnings.is_empty());
    assert_eq!(
        rewritten,
        obj(vec![
            ("type", Json::Str("object".to_string())),
            (
                "properties",
                obj(vec![("a", obj(vec![("type", Json::Str("string".to_string()))]))]),
            ),
        ])
    );
}

#[test]
fn schema_pick_pointers_prunes_properties_and_required() {
    let pipeline = compile_pipeline_from_transforms(&vec![ResponseTransform::PickPointers {
        pointers: vec!["/a".into()],
    }])
    .unwrap();
    let schema = obj(vec![
        ("type", Json::Str("object".to_string())),
        (
            "properties",
            obj(vec![
                ("a", obj(vec![("type", Json::Str("string".to_string()))])),
                ("b", obj(vec![("type", Json::Str("string".to_string()))])),
            ]),
        ),
        (
            "required",
            Json::Arr(vec![Json::Str("a".to_string()), Json::Str("b".to_string())]),
        ),
    ]);
    let (rewritten, warnings) = pipeline.apply_to_schema(&schema);
    assert!(warnings.is_empty());
    assert_eq!(
        rewritten,
        obj(vec![
            ("type", Json::Str("object".to_string())),
            (
                "properties",
                obj(vec![("a", obj(vec![("type", Json::Str("string".to_string()))]))]),
            ),
            ("required", Json::Arr(vec![Json::Str("a".to_string())])),
        ])
    );
}

#[test]
fn suggestions_and_missing_follow_the_exact_report_order() {
    let valid = vec!["alpha".to_string(), "beta".to_string()];
    let required = vec!["alpha".to_string(), "beta".to_string()];
    let args = vec!["beta".to_string(), "gamma".to_string(), "delta".to_string()];
    let violations = validate_tool_arguments(&valid, &required, &args, &Vec::new(), Vec::new());
    // Unknown arguments first, in argument order, then missing required.
    assert_eq!(violations.len(), 3);
    assert!(matches!(
        &violations[0],
        ArgumentViolation::UnknownParameter { parameter, .. } if parameter == "gamma"
    ));
    assert!(matches!(
        &violations[1],
        ArgumentViolation::UnknownParameter { parameter, .. } if parameter == "delta"
    ));
    assert!(matches!(
        &violations[2],
        ArgumentViolation::MissingRequired { parameter } if parameter == "alpha"
    ));
}
