use mcp_proxy_core::json::Json;
use mcp_proxy_core::openapi_names::HashPolicy;
use mcp_proxy_core::openapi_synth::{
    build_input_schema, check_spec_hash, flatten_body_params, merge_operation_params,
    wrap_output_schema, HashCheckOutcome, OpParam, ParamLocation, ToolParam,
};

fn param(location: ParamLocation, name: &str, required: bool) -> OpParam {
    OpParam {
        location,
        name: name.to_string(),
        required,
        schema: Json::Obj(vec![("type".to_string(), Json::Str("string".to_string()))]),
    }
}

#[test]
fn operation_parameters_override_path_level_ones() {
    let path_level = vec![
        param(ParamLocation::Path, "petId", true),
        param(ParamLocation::Query, "verbose", false),
    ];
    let op_level = vec![param(ParamLocation::Query, "verbose", true)];
    let merged = merge_operation_params(&path_level, &op_level);
    assert_eq!(merged.len(), 2);
    // The path-only parameter survives; the colliding one carries the
    // operation's settings.
    assert!(merged.iter().any(|p| p.name == "petId" && p.required));
    assert!(merged.iter().any(|p| p.name == "verbose" && p.required));
    assert_eq!(merged.iter().filter(|p| p.name == "verbose").count(), 1);
}

#[test]
fn body_properties_flatten_unless_they_collide() {
    let params = vec![param(ParamLocation::Query, "name", false)];
    let props = vec![(
        "age".to_string(),
        Json::Obj(vec![("type".to_string(), Json::Str("integer".to_string()))]),
    )];
    let ok = flatten_body_params(
        vec![param(ParamLocation::Query, "q", false)],
        props,
        vec!["age".to_string()],
    )
    .expect("no collision");
    assert_eq!(ok.len(), 2);
    assert!(matches!(ok[1].location, ParamLocation::Body));
    assert!(ok[1].required);
    assert_eq!(ok[1].name, "age");

    let err = flatten_body_params(
        params,
        vec![("name".to_string(), Json::Null)],
        Vec::new(),
    )
    .unwrap_err();
    assert!(err.contains("collision"));
}

#[test]
fn output_schemas_wrap_the_body() {
    let body = Json::Obj(vec![("type".to_string(), Json::Str("array".to_string()))]);
    let wrapped = wrap_output_schema(body);
    let Json::Obj(fields) = &wrapped else { panic!("object schema") };
    assert_eq!(fields[0].0, "type");
    assert_eq!(fields[1].0, "required");
    assert_eq!(fields[2].0, "properties");
}

#[test]
fn spec_hash_policy_decides_startup() {
    let actual = "abcd";
    assert_eq!(check_spec_hash(HashPolicy::Fail, None, actual), HashCheckOutcome::Pass);
    let good = "sha256:abcd".to_string();
    assert_eq!(
        check_spec_hash(HashPolicy::Fail, Some(&good), actual),
        HashCheckOutcome::Pass
    );
    let bad = "sha256:0000".to_string();
    // A mismatch under policy `fail` is fatal; the process exits nonzero.
    assert_eq!(
        check_spec_hash(HashPolicy::Fail, Some(&bad), actual),
        HashCheckOutcome::Fatal
    );
    assert_eq!(
        check_spec_hash(HashPolicy::Warn, Some(&bad), actual),
        HashCheckOutcome::Warned
    );
    assert_eq!(
        check_spec_hash(HashPolicy::Ignore, Some(&bad), actual),
        HashCheckOutcome::Pass
    );
}

#[test]
fn input_schemas_inject_defaults_and_list_required() {
    let params = vec![
        ToolParam {
            name: "q".to_string(),
            required: true,
            schema: Json::Obj(vec![("type".to_string(), Json::Str("string".to_string()))]),
            default: None,
        },
        ToolParam {
            name: "limit".to_string(),
            required: true,
            schema: Json::Obj(vec![("type".to_string(), Json::Str("integer".to_string()))]),
            default: Some(Json::Int(10)),
        },
    ];
    let schema = build_input_schema(params);
    let Json::Obj(fields) = schema else { panic!("object schema") };
    assert_eq!(fields[0].0, "type");
    assert_eq!(fields[1].0, "properties");
    let Json::Obj(props) = &fields[1].1 else { panic!("properties object") };
    let Json::Obj(limit) = &props[1].1 else { panic!("limit schema") };
    // The configured default is injected into the parameter's schema.
    assert_eq!(limit[1], ("default".to_string(), Json::Int(10)));
    // A defaulted parameter is not listed as required.
    let Json::Arr(required) = &fields[2].1 else { panic!("required list") };
    assert_eq!(required.len(), 1);
    assert_eq!(required[0], Json::Str("q".to_string()));
}
