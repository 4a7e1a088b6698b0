use mcp_proxy_core::aggregate::{
    build_source_records, lookup_route, merge_tools_surface, tool_is_enabled, ToolRecord,
    ToolRoute, ToolRouteKind, ToolSurfaceMerge,
};
use mcp_proxy_core::cache::{profile_fingerprint, ToolSurfaceCache};
use mcp_proxy_core::config::{
    DataPlaneAuthMode, DataPlaneAuthSettings, DataPlaneLimitsSettings, McpProfileSettings, Profile,
};
use mcp_proxy_core::contracts::{
    prompts_contract_hash, resources_contract_hash, tools_contract_hash, ContractKind,
    ContractTracker,
};
use mcp_proxy_core::json::Json;
use mcp_proxy_core::model::{PromptArgument, PromptDef, ResourceDef, ToolDef};
use mcp_proxy_core::sessions::SessionRegistry;
use mcp_proxy_core::transforms::TransformPipeline;

fn tool(name: &str) -> ToolDef {
    ToolDef {
        name: name.to_string(),
        description: Some(String::new()),
        input_schema: Json::Obj(Vec::new()),
        output_schema: None,
        annotations: None,
    }
}

fn record(server: &str, name: &str) -> ToolRecord {
    ToolRecord {
        kind: ToolRouteKind::Upstream,
        source_id: server.to_string(),
        original_name: name.to_string(),
        tool: tool(name),
    }
}

fn route_tool(surface: &ToolSurfaceMerge, name: &str) -> Option<(String, String)> {
    for (key, route) in &surface.routes {
        if key == name {
            return Some((route.source_id.clone(), route.original_name.clone()));
        }
    }
    None
}

fn exposed_names(surface: &ToolSurfaceMerge) -> Vec<String> {
    surface.tools.iter().map(|t| t.name.clone()).collect()
}

#[test]
fn test_no_collision() {
    let records = vec![record("server1", "tool_a"), record("server2", "tool_b")];
    let surface = merge_tools_surface(&records);
    let names = exposed_names(&surface);
    assert!(names.contains(&"tool_a".to_string()));
    assert!(names.contains(&"tool_b".to_string()));
    assert_eq!(names.len(), 2);
}

#[test]
fn test_collision_prefixing() {
    let records = vec![record("server1", "search"), record("server2", "search")];
    let surface = merge_tools_surface(&records);
    let names = exposed_names(&surface);
    assert!(names.contains(&"server1:search".to_string()));
    assert!(names.contains(&"server2:search".to_string()));
    assert!(!names.contains(&"search".to_string()));
    assert!(route_tool(&surface, "search").is_none());
    assert!(surface.ambiguous_names.contains(&"search".to_string()));
}

#[test]
fn test_route_tool() {
    let records = vec![record("filesystem", "read_file")];
    let surface = merge_tools_surface(&records);

    let result = route_tool(&surface, "read_file");
    assert_eq!(result, Some(("filesystem".into(), "read_file".into())));

    let result = route_tool(&surface, "nonexistent");
    assert_eq!(result, None);
}

#[test]
fn tool_rename_changes_exposed_name_and_routes_to_original() {
    // The rename has been applied by the transform stage: the record's base
    // name is the exposed name, its original name the source's.
    let mut renamed = record("server1", "tool_a");
    renamed.tool.name = "renamed".to_string();
    let surface = merge_tools_surface(&vec![renamed]);

    assert!(exposed_names(&surface).contains(&"renamed".to_string()));
    assert_eq!(
        route_tool(&surface, "renamed"),
        Some(("server1".into(), "tool_a".into()))
    );

    // Allow optional prefix even when there is no collision.
    assert_eq!(
        route_tool(&surface, "server1:renamed"),
        Some(("server1".into(), "tool_a".into()))
    );
}

#[test]
fn tool_rename_participates_in_collision_detection() {
    let mut renamed = record("server1", "tool_a");
    renamed.tool.name = "search".to_string();
    let records = vec![renamed, record("server2", "search")];
    let surface = merge_tools_surface(&records);

    let names = exposed_names(&surface);
    assert!(names.contains(&"server1:search".to_string()));
    assert!(names.contains(&"server2:search".to_string()));
    assert!(!names.contains(&"search".to_string()));

    assert_eq!(
        route_tool(&surface, "server1:search"),
        Some(("server1".into(), "tool_a".into()))
    );
    assert_eq!(
        route_tool(&surface, "server2:search"),
        Some(("server2".into(), "search".into()))
    );
}

#[test]
fn tool_allowlist_is_keyed_by_source_and_original_name() {
    let empty: Vec<String> = Vec::new();
    assert!(tool_is_enabled(&empty, "s1", "t1"));
    let allow = vec!["s1:t1".to_string()];
    assert!(tool_is_enabled(&allow, "s1", "t1"));
    assert!(!tool_is_enabled(&allow, "s2", "t1"));
    assert!(!tool_is_enabled(&allow, "s1", "t2"));
}

#[test]
fn tools_contract_first_observation_does_not_notify() {
    let mut tracker = ContractTracker::new();
    let change = tracker.update_tools_contract("p1", &vec![tool("a")]);
    assert!(change.is_none());
}

#[test]
fn tools_contract_is_order_insensitive_and_only_notifies_on_change() {
    let mut tracker = ContractTracker::new();

    // First observation: record only.
    assert!(tracker
        .update_tools_contract("p1", &vec![tool("b"), tool("a")])
        .is_none());

    // Same tool set, different order: no notify.
    assert!(tracker
        .update_tools_contract("p1", &vec![tool("a"), tool("b")])
        .is_none());

    // Add a tool: notify.
    let change = tracker
        .update_tools_contract("p1", &vec![tool("a"), tool("b"), tool("c")])
        .expect("change");
    assert!(matches!(change.kind, ContractKind::Tools));
    assert_eq!(change.profile_id, "p1");
}

fn resource(uri: &str, name: &str) -> ResourceDef {
    ResourceDef {
        uri: uri.to_string(),
        name: name.to_string(),
        description: None,
        mime_type: None,
        size: None,
    }
}

#[test]
fn resources_contract_hash_is_order_insensitive() {
    let a = resource("file:///a", "a");
    let b = resource("file:///b", "b");
    let a2 = resource("file:///a", "a");
    let b2 = resource("file:///b", "b");
    assert_eq!(
        resources_contract_hash(&vec![a, b]),
        resources_contract_hash(&vec![b2, a2])
    );
}

fn prompt(name: &str, description: Option<&str>, args: Option<Vec<PromptArgument>>) -> PromptDef {
    PromptDef {
        name: name.to_string(),
        description: description.map(|d| d.to_string()),
        arguments: args,
    }
}

#[test]
fn prompts_contract_first_observation_does_not_notify() {
    let mut tracker = ContractTracker::new();
    let p = prompt("p1", Some("desc"), None);
    assert!(tracker.update_prompts_contract("p1", &vec![p]).is_none());
}

#[test]
fn prompts_contract_notifies_on_change() {
    let mut tracker = ContractTracker::new();

    // First observation: record only.
    let p = prompt("p1", Some("desc"), None);
    assert!(tracker.update_prompts_contract("p1", &vec![p]).is_none());

    // Add an argument: should notify.
    let arg = PromptArgument {
        name: "x".to_string(),
        description: None,
        required: Some(true),
    };
    let p2 = prompt("p1", Some("desc"), Some(vec![arg]));
    let change = tracker
        .update_prompts_contract("p1", &vec![p2])
        .expect("change");
    assert!(matches!(change.kind, ContractKind::Prompts));
}

#[test]
fn tools_contract_hash_includes_schema_and_description() {
    let mut t1 = tool("a");
    t1.description = Some("d1".to_string());
    let mut t2 = tool("a");
    t2.description = Some("d2".to_string());
    assert_ne!(
        tools_contract_hash(&vec![t1]),
        tools_contract_hash(&vec![t2])
    );
    // The prompts hash covers the full record too.
    assert_ne!(
        prompts_contract_hash(&vec![prompt("p", Some("x"), None)]),
        prompts_contract_hash(&vec![prompt("p", Some("y"), None)])
    );
}

fn profile(enabled_tools: Vec<String>, source_ids: Vec<String>) -> Profile {
    Profile {
        id: "11111111-2222-4333-8444-555555555555".to_string(),
        name: "p".to_string(),
        description: None,
        tenant_id: "t1".to_string(),
        enabled: true,
        allow_partial_upstreams: false,
        upstream_ids: Vec::new(),
        source_ids,
        transforms: TransformPipeline::new(),
        enabled_tools,
        data_plane_auth: DataPlaneAuthSettings {
            mode: DataPlaneAuthMode::Disabled,
            accept_x_api_key: true,
        },
        data_plane_limits: DataPlaneLimitsSettings {
            rate_limit_enabled: false,
            rate_limit_tool_calls_per_minute: None,
            quota_enabled: false,
            quota_tool_calls: None,
        },
        tool_call_timeout_secs: None,
        tool_policies: Vec::new(),
        mcp: McpProfileSettings::new_default(),
    }
}

#[test]
fn fingerprint_changes_with_surface_shaping_fields() {
    let base = profile(vec![], vec!["s1".to_string()]);
    let with_allowlist = profile(vec!["s1:t1".to_string()], vec!["s1".to_string()]);
    let with_sources = profile(vec![], vec!["s1".to_string(), "s2".to_string()]);
    let fp_base = profile_fingerprint(&base);
    assert_ne!(fp_base, profile_fingerprint(&with_allowlist));
    assert_ne!(fp_base, profile_fingerprint(&with_sources));
    // Recomputing over an equal profile gives the same fingerprint.
    assert_eq!(fp_base, profile_fingerprint(&profile(vec![], vec!["s1".to_string()])));
}

#[test]
fn cache_misses_on_fingerprint_change_and_expiry() {
    let mut cache = ToolSurfaceCache::new(1000);
    let surface = merge_tools_surface(&vec![record("s1", "t1")]);
    cache.put("p1", "token", "fp1".to_string(), surface, 0);
    assert!(cache.get("token", "fp1", 10).is_some());
    // A different fingerprint misses even though the token matches.
    assert!(cache.get("token", "fp2", 10).is_none());
    // Expiry misses.
    assert!(cache.get("token", "fp1", 5000).is_none());
    // Invalidate drops the session.
    cache.invalidate("token");
    assert!(cache.get("token", "fp1", 10).is_none());
}

#[test]
fn session_cleanup_is_complete() {
    let mut reg = SessionRegistry::new();
    reg.observe_peer("sess-1");
    reg.observe_peer("sess-2");
    reg.record_session_state("stdio-a", "sess-1");
    reg.record_session_state("stdio-b", "sess-1");
    reg.record_session_state("stdio-a", "sess-2");
    assert!(reg.has_peer("sess-1"));
    assert!(reg.retains_session("sess-1"));

    reg.close_session("sess-1");
    assert!(!reg.has_peer("sess-1"));
    assert!(!reg.retains_session("sess-1"));
    // Other sessions keep their state.
    assert!(reg.has_peer("sess-2"));
    assert!(reg.retains_session("sess-2"));
}

#[test]
fn source_records_drop_same_source_duplicates_first_wins() {
    let entries = vec![
        ("a".to_string(), tool("alpha")),
        ("b".to_string(), tool("alpha")),
        ("c".to_string(), tool("beta")),
    ];
    let (kept, dropped) = build_source_records(
        ToolRouteKind::SharedLocal,
        "s1",
        entries,
        &Vec::new(),
    );
    // The first bearer of a name survives; the later duplicate is
    // reported, never overwriting.
    assert_eq!(kept.len(), 2);
    assert_eq!(kept[0].original_name, "a");
    assert_eq!(kept[0].tool.name, "alpha");
    assert_eq!(kept[1].original_name, "c");
    assert_eq!(dropped, vec!["alpha".to_string()]);
}

#[test]
fn source_records_respect_the_allowlist() {
    let entries = vec![
        ("a".to_string(), tool("alpha")),
        ("b".to_string(), tool("beta")),
    ];
    let allow = vec!["s1:b".to_string()];
    let (kept, dropped) =
        build_source_records(ToolRouteKind::SharedLocal, "s1", entries, &allow);
    assert_eq!(kept.len(), 1);
    assert_eq!(kept[0].original_name, "b");
    assert!(dropped.is_empty());
}

#[test]
fn route_lookup_finds_the_first_entry() {
    let routes = vec![
        (
            "x".to_string(),
            ToolRoute {
                kind: ToolRouteKind::Upstream,
                source_id: "s1".to_string(),
                original_name: "x".to_string(),
            },
        ),
        (
            "y".to_string(),
            ToolRoute {
                kind: ToolRouteKind::Upstream,
                source_id: "s2".to_string(),
                original_name: "y".to_string(),
            },
        ),
    ];
    let ix = lookup_route(&routes, "y").expect("y routed");
    assert_eq!(routes[ix].1.source_id, "s2");
    assert!(lookup_route(&routes, "z").is_none());
}
