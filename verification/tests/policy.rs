use mcp_proxy_core::canon::{canonicalize, json_to_string};
use mcp_proxy_core::config::{
    is_valid_oidc_subject, is_valid_source_id, resolve_tool_call_timeout_secs,
    tool_call_timeout_secs_for, tool_source_kind_str, DataPlaneLimitsSettings, NullableU64,
    Profile, ToolPolicy, ToolSourceKind,
};
use mcp_proxy_core::config::{
    DataPlaneAuthMode, DataPlaneAuthSettings, McpProfileSettings,
};
use mcp_proxy_core::contracts::ContractKind;
use mcp_proxy_core::digest::{sha256_hex_of_str, to_hex};
use mcp_proxy_core::json::Json;
use mcp_proxy_core::retry::{
    after_failed_attempt, clamp_delay, may_dispatch, schedule_backoff, ErrorCategory,
    RetryDecision, RetryPolicy, RetrySchedule, MAX_HOPS,
};
use mcp_proxy_core::safety::{
    is_denied_ip, IpAddress, Ipv4Address, Ipv6Address, OutboundHttpSafety, SafetyRejection,
    UrlCheck,
};
use mcp_proxy_core::transforms::TransformPipeline;

fn v4(a: u8, b: u8, c: u8, d: u8) -> IpAddress {
    IpAddress::V4(Ipv4Address { octets: [a, b, c, d] })
}

#[test]
fn hop_cap_blocks_dispatch_at_limit() {
    assert!(may_dispatch(0));
    assert!(may_dispatch(MAX_HOPS - 1));
    assert!(!may_dispatch(MAX_HOPS));
    assert!(!may_dispatch(MAX_HOPS + 1));
}

#[test]
fn no_retry_without_budget() {
    // Remaining budget at or below the scheduled backoff fails as timeout.
    assert_eq!(schedule_backoff(100, 50), RetrySchedule::FailTimeout);
    assert_eq!(schedule_backoff(100, 100), RetrySchedule::FailTimeout);
    assert_eq!(schedule_backoff(100, 101), RetrySchedule::WaitThenRetry(100));
    assert_eq!(schedule_backoff(0, 0), RetrySchedule::FailTimeout);
}

fn policy(non_retryable: Vec<&str>) -> RetryPolicy {
    RetryPolicy {
        maximum_attempts: 3,
        initial_interval_ms: 100,
        maximum_interval_ms: None,
        non_retryable_error_types: non_retryable.into_iter().map(|s| s.to_string()).collect(),
    }
}

#[test]
fn retry_categorization_follows_policy() {
    let p = policy(vec!["deserialize"]);
    // A 5xx within the attempt budget retries after the backoff.
    assert_eq!(
        after_failed_attempt(Some(&p), Some(ErrorCategory::Upstream5xx), 1, 3, 100, 5000),
        RetryDecision::WaitThenRetry(100)
    );
    // A non-retryable category surfaces the error immediately.
    assert_eq!(
        after_failed_attempt(Some(&p), Some(ErrorCategory::Deserialize), 1, 3, 100, 5000),
        RetryDecision::FailWithError
    );
    // The attempt budget caps retries.
    assert_eq!(
        after_failed_attempt(Some(&p), Some(ErrorCategory::Upstream5xx), 3, 3, 100, 5000),
        RetryDecision::FailWithError
    );
    // Without a policy there is no retry.
    assert_eq!(
        after_failed_attempt(None, Some(ErrorCategory::Transport), 1, 1, 0, 5000),
        RetryDecision::FailWithError
    );
    // Exhausted budget turns the retry into a timeout.
    assert_eq!(
        after_failed_attempt(Some(&p), Some(ErrorCategory::Timeout), 1, 3, 100, 50),
        RetryDecision::FailTimeout
    );
    assert_eq!(clamp_delay(&policy(vec![]), 100), 100);
    let capped = RetryPolicy { maximum_interval_ms: Some(60), ..policy(vec![]) };
    assert_eq!(clamp_delay(&capped, 100), 60);
    assert_eq!(ErrorCategory::Upstream5xx.as_str(), "upstream_5xx");
}

#[test]
fn restrictive_policy_blocks_loopback() {
    let safety = OutboundHttpSafety::gateway_default();
    let check = safety.check_url_parts("http", Some("127.0.0.1"), Some(&v4(127, 0, 0, 1)));
    assert_eq!(check, UrlCheck::Reject(SafetyRejection::DeniedAddress));
}

#[test]
fn permissive_policy_allows_loopback() {
    let safety = OutboundHttpSafety::permissive();
    let check = safety.check_url_parts("http", Some("127.0.0.1"), Some(&v4(127, 0, 0, 1)));
    assert_eq!(check, UrlCheck::Allow);
}

#[test]
fn denied_ranges_cover_private_metadata_and_reserved() {
    assert!(is_denied_ip(&v4(10, 0, 0, 1)));
    assert!(is_denied_ip(&v4(172, 16, 0, 1)));
    assert!(!is_denied_ip(&v4(172, 32, 0, 1)));
    assert!(is_denied_ip(&v4(192, 168, 1, 1)));
    assert!(is_denied_ip(&v4(169, 254, 169, 254)));
    assert!(is_denied_ip(&v4(100, 64, 0, 1)));
    assert!(is_denied_ip(&v4(240, 0, 0, 1)));
    assert!(is_denied_ip(&v4(224, 0, 0, 1)));
    assert!(!is_denied_ip(&v4(8, 8, 8, 8)));
    let loopback6 = IpAddress::V6(Ipv6Address { segments: [0, 0, 0, 0, 0, 0, 0, 1] });
    assert!(is_denied_ip(&loopback6));
    let global6 = IpAddress::V6(Ipv6Address { segments: [0x2607, 0, 0, 0, 0, 0, 0, 1] });
    assert!(!is_denied_ip(&global6));
}

#[test]
fn scheme_and_host_checks_precede_dns() {
    let safety = OutboundHttpSafety::gateway_default();
    assert_eq!(
        safety.check_url_parts("ftp", Some("example.com"), None),
        UrlCheck::Reject(SafetyRejection::UnsupportedScheme)
    );
    assert_eq!(
        safety.check_url_parts("https", None, None),
        UrlCheck::Reject(SafetyRejection::MissingHost)
    );
    assert_eq!(
        safety.check_url_parts("https", Some("example.com"), None),
        UrlCheck::NeedsDnsCheck
    );
    let allow = OutboundHttpSafety {
        allowed_hosts: Some(vec!["example.com".to_string()]),
        ..OutboundHttpSafety::gateway_default()
    };
    assert_eq!(
        safety_host(&allow, "Example.COM"),
        UrlCheck::NeedsDnsCheck
    );
    assert_eq!(
        safety_host(&allow, "other.com"),
        UrlCheck::Reject(SafetyRejection::HostNotAllowed)
    );
    // Every resolved address must pass.
    assert_eq!(
        allow.check_resolved(&vec![v4(8, 8, 8, 8), v4(10, 0, 0, 1)]),
        UrlCheck::Reject(SafetyRejection::DeniedAddress)
    );
    assert_eq!(allow.check_resolved(&vec![v4(8, 8, 8, 8)]), UrlCheck::Allow);
    assert_eq!(
        allow.check_resolved(&Vec::new()),
        UrlCheck::Reject(SafetyRejection::NoAddresses)
    );
}

fn safety_host(safety: &OutboundHttpSafety, host: &str) -> UrlCheck {
    safety.check_url_parts("https", Some(host), None)
}

fn base_profile() -> Profile {
    Profile {
        id: "11111111-2222-4333-8444-555555555555".to_string(),
        name: "p".to_string(),
        description: None,
        tenant_id: "t1".to_string(),
        enabled: true,
        allow_partial_upstreams: false,
        upstream_ids: Vec::new(),
        source_ids: Vec::new(),
        transforms: TransformPipeline::new(),
        enabled_tools: Vec::new(),
        data_plane_auth: DataPlaneAuthSettings {
            mode: DataPlaneAuthMode::Disabled,
            accept_x_api_key: true,
        },
        data_plane_limits: DataPlaneLimitsSettings {
            rate_limit_enabled: false,
            rate_limit_tool_calls_per_minute: None,
            quota_enabled: false,
            quota_tool_calls: None,
        },
        tool_call_timeout_secs: None,
        tool_policies: Vec::new(),
        mcp: McpProfileSettings::new_default(),
    }
}

#[test]
fn timeout_resolution_takes_the_largest_and_clamps() {
    let mut p = base_profile();
    assert_eq!(tool_call_timeout_secs_for(&p, "s:t", 30, 600), 30);
    p.tool_call_timeout_secs = Some(120);
    assert_eq!(tool_call_timeout_secs_for(&p, "s:t", 30, 600), 120);
    p.tool_policies = vec![ToolPolicy {
        tool: "s:t".to_string(),
        timeout_secs: Some(9000),
        retry: None,
    }];
    // The largest of per-tool, profile and default wins; the system
    // maximum caps it.
    assert_eq!(tool_call_timeout_secs_for(&p, "s:t", 30, 600), 600);
    assert_eq!(tool_call_timeout_secs_for(&p, "other:t", 30, 600), 120);
    // A small per-tool timeout does not undercut the profile timeout.
    p.tool_call_timeout_secs = Some(60);
    p.tool_policies = vec![ToolPolicy {
        tool: "s:t".to_string(),
        timeout_secs: Some(5),
        retry: None,
    }];
    assert_eq!(tool_call_timeout_secs_for(&p, "s:t", 30, 300), 60);
}

#[test]
fn nullable_fields_resolve_set_clear_and_keep() {
    let mut existing = base_profile();
    existing.tool_call_timeout_secs = Some(45);
    assert_eq!(
        resolve_tool_call_timeout_secs(Some(NullableU64::Value(9)), Some(&existing)),
        Some(9)
    );
    assert_eq!(
        resolve_tool_call_timeout_secs(Some(NullableU64::Null), Some(&existing)),
        None
    );
    assert_eq!(resolve_tool_call_timeout_secs(None, Some(&existing)), Some(45));
}

#[test]
fn source_ids_and_subjects_are_validated() {
    assert!(is_valid_source_id("my-source_1"));
    assert!(!is_valid_source_id(""));
    assert!(!is_valid_source_id("bad:id"));
    assert!(!is_valid_source_id("bad id"));
    assert_eq!(tool_source_kind_str(ToolSourceKind::Http), "http");
    assert_eq!(tool_source_kind_str(ToolSourceKind::Openapi), "openapi");
    assert!(is_valid_oidc_subject(" someone@example "));
    assert!(!is_valid_oidc_subject("  "));
    assert!(!is_valid_oidc_subject("a/b"));
}

#[test]
fn limits_need_positive_bounds_when_enabled() {
    let ok = DataPlaneLimitsSettings {
        rate_limit_enabled: true,
        rate_limit_tool_calls_per_minute: Some(10),
        quota_enabled: false,
        quota_tool_calls: None,
    };
    assert!(ok.validate().is_ok());
    let bad = DataPlaneLimitsSettings {
        rate_limit_enabled: true,
        rate_limit_tool_calls_per_minute: None,
        quota_enabled: false,
        quota_tool_calls: None,
    };
    assert!(bad.validate().is_err());
}

#[test]
fn contract_kind_names_match_mcp_methods() {
    assert_eq!(
        ContractKind::Tools.list_changed_method(),
        "notifications/tools/list_changed"
    );
    assert_eq!(
        ContractKind::Resources.list_changed_method(),
        "notifications/resources/list_changed"
    );
    assert_eq!(ContractKind::Prompts.as_str(), "prompts");
}

#[test]
fn canonical_json_sorts_keys_recursively() {
    let v = Json::Obj(vec![
        ("b".to_string(), Json::Int(2)),
        (
            "a".to_string(),
            Json::Obj(vec![
                ("z".to_string(), Json::Null),
                ("y".to_string(), Json::Bool(false)),
            ]),
        ),
    ]);
    let canon = canonicalize(&v);
    assert_eq!(json_to_string(&canon), "{\"a\":{\"y\":false,\"z\":null},\"b\":2}");
    // Hashing the canonical text is deterministic and hex encoded.
    let h = sha256_hex_of_str("abc");
    assert_eq!(h.len(), 64);
    assert_eq!(h, sha256_hex_of_str("abc"));
    assert_ne!(h, sha256_hex_of_str("abd"));
    assert_eq!(to_hex(&vec![0xbe, 0xef]), "beef");
}
