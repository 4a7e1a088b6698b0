//! Control-plane data carried into the data plane: profiles, tenants,
//! auth and limit settings, and the rules that resolve an update request
//! against an existing profile.

use crate::retry::RetryPolicy;
use crate::text::{push_char, str_eq, view_strings};
use crate::transforms::TransformPipeline;
use vstd::prelude::*;

verus! {

broadcast use vstd::std_specs::vec::group_vec_axioms, vstd::seq::group_seq_axioms;

/// An MCP capability the gateway may advertise.
#[derive(Debug, Clone, Copy, PartialEq, Eq, Structural)]
pub enum McpCapability {
    Logging,
    Completions,
    ResourcesSubscribe,
    ToolsListChanged,
    ResourcesListChanged,
    PromptsListChanged,
}

/// Which capabilities a profile advertises: a non-empty allowlist overrides
/// the defaults; the denylist applies after.
#[derive(Debug)]
pub struct McpCapabilitiesPolicy {
    pub allow: Vec<McpCapability>,
    pub deny: Vec<McpCapability>,
}

/// Server-to-client notification filtering for the merged stream.
#[derive(Debug)]
pub struct McpNotificationFilter {
    pub allow: Vec<String>,
    pub deny: Vec<String>,
}

/// How proxied request ids are namespaced.
#[derive(Debug, Clone, Copy, PartialEq, Eq, Structural)]
pub enum RequestIdNamespacing {
    /// `unrelated.proxy.<b64(upstream)>.<b64(json(id))>`.
    Opaque,
    /// `unrelated.proxy.r.<upstream>.<b64(json(id))>`.
    Readable,
}

/// How SSE event ids from upstreams are namespaced.
#[derive(Debug, Clone, Copy, PartialEq, Eq, Structural)]
pub enum SseEventIdNamespacing {
    /// `{upstream_id}/{upstream_event_id}`.
    UpstreamSlash,
    /// Upstream event ids pass through unchanged.
    Raw,
}

/// Namespacing policy for ids in the merged stream.
#[derive(Debug)]
pub struct McpNamespacing {
    pub request_id: RequestIdNamespacing,
    pub sse_event_id: SseEventIdNamespacing,
}

/// A profile's MCP behavior settings.
#[derive(Debug)]
pub struct McpProfileSettings {
    pub capabilities: McpCapabilitiesPolicy,
    pub notifications: McpNotificationFilter,
    pub namespacing: McpNamespacing,
}

impl McpProfileSettings {
    /// The default settings: no filtering, opaque request ids, namespaced
    /// SSE event ids.
    pub fn new_default() -> (r: McpProfileSettings)
        ensures
            r.capabilities.allow@.len() == 0,
            r.capabilities.deny@.len() == 0,
            r.notifications.allow@.len() == 0,
            r.notifications.deny@.len() == 0,
            r.namespacing.request_id == RequestIdNamespacing::Opaque,
            r.namespacing.sse_event_id == SseEventIdNamespacing::UpstreamSlash,
    {
        McpProfileSettings {
            capabilities: McpCapabilitiesPolicy { allow: Vec::new(), deny: Vec::new() },
            notifications: McpNotificationFilter { allow: Vec::new(), deny: Vec::new() },
            namespacing: McpNamespacing {
                request_id: RequestIdNamespacing::Opaque,
                sse_event_id: SseEventIdNamespacing::UpstreamSlash,
            },
        }
    }
}

/// How the data plane authenticates requests.
#[derive(Debug, Clone, Copy, PartialEq, Eq, Structural)]
pub enum DataPlaneAuthMode {
    Disabled,
    ApiKeyInitializeOnly,
    ApiKeyEveryRequest,
    JwtEveryRequest,
}

/// Auth settings of a profile.
#[derive(Debug, Clone, Copy, PartialEq, Eq, Structural)]
pub struct DataPlaneAuthSettings {
    pub mode: DataPlaneAuthMode,
    pub accept_x_api_key: bool,
}

/// Rate limit and quota settings of a profile.
#[derive(Debug, Clone, Copy, PartialEq, Eq, Structural)]
pub struct DataPlaneLimitsSettings {
    pub rate_limit_enabled: bool,
    pub rate_limit_tool_calls_per_minute: Option<i64>,
    pub quota_enabled: bool,
    pub quota_tool_calls: Option<i64>,
}

impl DataPlaneLimitsSettings {
    /// Whether the settings are consistent: an enabled limit needs a
    /// positive bound.
    pub open spec fn spec_valid(self) -> bool {
        &&& (self.rate_limit_enabled ==> match self.rate_limit_tool_calls_per_minute {
            Some(v) => v > 0,
            None => false,
        })
        &&& (self.quota_enabled ==> match self.quota_tool_calls {
            Some(v) => v > 0,
            None => false,
        })
    }

    /// Reject an enabled limit without a positive bound.
    pub fn validate(&self) -> (r: Result<(), &'static str>)
        ensures
            r is Ok <==> self.spec_valid(),
    {
        if self.rate_limit_enabled {
            match self.rate_limit_tool_calls_per_minute {
                Some(v) if v > 0 => (),
                _ => {
                    return Err("rateLimitToolCallsPerMinute must be a positive integer");
                },
            }
        }
        if self.quota_enabled {
            match self.quota_tool_calls {
                Some(v) if v > 0 => (),
                _ => {
                    return Err("quotaToolCalls must be a positive integer");
                },
            }
        }
        Ok(())
    }
}

/// A principal bound to a tenant via OIDC.
#[derive(Debug)]
pub struct OidcPrincipalBinding {
    pub issuer: String,
    pub subject: String,
    pub profile_id: Option<String>,
    pub enabled: bool,
}

/// A tenant of the gateway.
#[derive(Debug)]
pub struct Tenant {
    pub id: String,
    pub enabled: bool,
}

/// The tenant record returned by the control plane.
#[derive(Debug)]
pub struct TenantResponse {
    pub id: String,
    pub enabled: bool,
}

/// Shape a tenant into its response record.
pub fn tenant_to_response(t: Tenant) -> (r: TenantResponse)
    ensures
        r.id@ == t.id@,
        r.enabled == t.enabled,
{
    TenantResponse { id: t.id, enabled: t.enabled }
}

/// The answer to creating a profile.
#[derive(Debug)]
pub struct CreateProfileResponse {
    pub ok: bool,
    pub id: String,
    pub data_plane_path: String,
}

/// The answer to issuing a tenant token.
#[derive(Debug)]
pub struct IssueTenantTokenResponse {
    pub ok: bool,
    pub tenant_id: String,
    pub token: String,
    pub exp_unix_secs: u64,
}

/// A tenant-scoped tool source record.
#[derive(Debug)]
pub struct ToolSource {
    pub id: String,
    pub tool_type: String,
    pub enabled: bool,
}

/// The name of a stored tenant secret.
#[derive(Debug)]
pub struct TenantSecretMetadata {
    pub name: String,
}

/// Metadata of an API key, without its secret.
#[derive(Debug)]
pub struct ApiKeyMetadata {
    pub id: String,
    pub name: String,
    pub prefix: String,
    pub profile_id: Option<String>,
    pub revoked_at_unix: Option<i64>,
    pub last_used_at_unix: Option<i64>,
    pub total_tool_calls_attempted: i64,
    pub total_requests_attempted: i64,
    pub created_at_unix: i64,
}

/// The answer to creating an API key: the secret appears here once.
#[derive(Debug)]
pub struct CreateApiKeyResponse {
    pub ok: bool,
    pub id: String,
    pub secret: String,
    pub prefix: String,
    pub profile_id: Option<String>,
}

/// The admin client's stored connection settings.
#[derive(Debug)]
pub struct CliConfig {
    pub admin_base: Option<String>,
    pub data_base: Option<String>,
    pub admin_token: Option<String>,
}

/// OIDC validation settings.
#[derive(Debug)]
pub struct OidcConfig {
    pub issuer: String,
    pub audiences: Vec<String>,
    pub jwks_uri: String,
    pub leeway_secs: u64,
    pub jwks_refresh_secs: u64,
}

/// A per-profile, per-tool policy.
#[derive(Debug)]
pub struct ToolPolicy {
    /// Stable tool reference, `"<source_id>:<original_tool_name>"`.
    pub tool: String,
    /// Per-tool timeout override, in seconds.
    pub timeout_secs: Option<u64>,
    /// Per-tool retry policy.
    pub retry: Option<RetryPolicy>,
}

/// A profile: the bundle of sources, transforms and policy one data-plane
/// endpoint serves.
#[derive(Debug)]
pub struct Profile {
    pub id: String,
    pub name: String,
    pub description: Option<String>,
    pub tenant_id: String,
    pub enabled: bool,
    pub allow_partial_upstreams: bool,
    pub upstream_ids: Vec<String>,
    pub source_ids: Vec<String>,
    pub transforms: TransformPipeline,
    pub enabled_tools: Vec<String>,
    pub data_plane_auth: DataPlaneAuthSettings,
    pub data_plane_limits: DataPlaneLimitsSettings,
    pub tool_call_timeout_secs: Option<u64>,
    pub tool_policies: Vec<ToolPolicy>,
    pub mcp: McpProfileSettings,
}

/// A value that an update request can set, clear, or leave alone.
#[derive(Debug, Clone, Copy, PartialEq, Eq, Structural)]
pub enum NullableU64 {
    Null,
    Value(u64),
}

/// A string an update request can set, clear, or leave alone.
#[derive(Debug)]
pub enum NullableString {
    Null,
    Value(String),
}

/// The default data-plane auth settings: API key on initialize, with the
/// alternate key header accepted.
pub fn default_data_plane_auth() -> (r: DataPlaneAuthSettings)
    ensures
        r == (DataPlaneAuthSettings {
            mode: DataPlaneAuthMode::ApiKeyInitializeOnly,
            accept_x_api_key: true,
        }),
{
    DataPlaneAuthSettings { mode: DataPlaneAuthMode::ApiKeyInitializeOnly, accept_x_api_key: true }
}

/// Resolve the auth settings of a profile write: the request's value wins;
/// an update without one keeps the existing settings; otherwise defaults.
pub fn resolve_data_plane_auth_settings(
    req: Option<DataPlaneAuthSettings>,
    existing: Option<&Profile>,
    is_update: bool,
) -> (r: DataPlaneAuthSettings)
    ensures
        r == match req {
            Some(v) => v,
            None => if is_update && existing is Some {
                existing.unwrap().data_plane_auth
            } else {
                DataPlaneAuthSettings {
                    mode: DataPlaneAuthMode::ApiKeyInitializeOnly,
                    accept_x_api_key: true,
                }
            },
        },
{
    match req {
        Some(v) => v,
        None => {
            if is_update {
                match existing {
                    Some(p) => p.data_plane_auth,
                    None => default_data_plane_auth(),
                }
            } else {
                default_data_plane_auth()
            }
        },
    }
}

/// Resolve the limit settings of a profile write, validated: the request's
/// value wins; an update without one keeps the existing settings;
/// otherwise everything disabled.
pub fn resolve_data_plane_limits_settings(
    req: Option<DataPlaneLimitsSettings>,
    existing: Option<&Profile>,
    is_update: bool,
) -> (r: Result<DataPlaneLimitsSettings, &'static str>)
    ensures
        ({
            let limits = match req {
                Some(v) => v,
                None => if is_update && existing is Some {
                    existing.unwrap().data_plane_limits
                } else {
                    DataPlaneLimitsSettings {
                        rate_limit_enabled: false,
                        rate_limit_tool_calls_per_minute: None,
                        quota_enabled: false,
                        quota_tool_calls: None,
                    }
                },
            };
            match r {
                Ok(v) => v == limits && limits.spec_valid(),
                Err(_) => !limits.spec_valid(),
            }
        }),
{
    let limits = match req {
        Some(v) => v,
        None => {
            if is_update {
                match existing {
                    Some(p) => p.data_plane_limits,
                    None => DataPlaneLimitsSettings {
                        rate_limit_enabled: false,
                        rate_limit_tool_calls_per_minute: None,
                        quota_enabled: false,
                        quota_tool_calls: None,
                    },
                }
            } else {
                DataPlaneLimitsSettings {
                    rate_limit_enabled: false,
                    rate_limit_tool_calls_per_minute: None,
                    quota_enabled: false,
                    quota_tool_calls: None,
                }
            }
        },
    };
    match limits.validate() {
        Ok(_) => Ok(limits),
        Err(e) => Err(e),
    }
}

/// Resolve a nullable timeout: the request can set or clear it; without a
/// request the existing value stands.
pub fn resolve_tool_call_timeout_secs(req: Option<NullableU64>, existing: Option<&Profile>) -> (r:
    Option<u64>)
    ensures
        r == match req {
            Some(NullableU64::Null) => None::<u64>,
            Some(NullableU64::Value(v)) => Some(v),
            None => match existing {
                Some(p) => p.tool_call_timeout_secs,
                None => None,
            },
        },
{
    match req {
        Some(NullableU64::Null) => None,
        Some(NullableU64::Value(v)) => Some(v),
        None => match existing {
            Some(p) => p.tool_call_timeout_secs,
            None => None,
        },
    }
}

/// Resolve a nullable description: the request can set or clear it;
/// without a request the existing value stands.
pub fn resolve_profile_description(
    req_description: Option<&NullableString>,
    existing: Option<&Profile>,
) -> (r: Option<String>)
    ensures
        match (req_description, r) {
            (Some(NullableString::Null), None) => true,
            (Some(NullableString::Value(v)), Some(out)) => out@ == v@,
            (None, out) => match existing {
                Some(p) => match (p.description, out) {
                    (Some(d), Some(o)) => o@ == d@,
                    (None, None) => true,
                    _ => false,
                },
                None => out is None,
            },
            _ => false,
        },
{
    match req_description {
        None => match existing {
            Some(p) => match &p.description {
                Some(d) => Some(d.clone()),
                None => None,
            },
            None => None,
        },
        Some(NullableString::Null) => None,
        Some(NullableString::Value(v)) => Some(v.clone()),
    }
}

/// A source id: nonempty, no `':'`, ASCII letters, digits, `'_'` or `'-'`.
pub open spec fn spec_valid_source_id(s: Seq<char>) -> bool {
    &&& s.len() > 0
    &&& forall|i: int|
        0 <= i < s.len() ==> (('a' <= #[trigger] s[i] <= 'z') || ('A' <= s[i] <= 'Z') || ('0'
            <= s[i] <= '9') || s[i] == '_' || s[i] == '-')
}

/// Check a source id.
pub fn is_valid_source_id(id: &str) -> (r: bool)
    ensures
        r == spec_valid_source_id(id@),
{
    let n = id.unicode_len();
    if n == 0 {
        return false;
    }
    let mut i: usize = 0;
    while i < n
        invariant
            n == id@.len(),
            i <= n,
            forall|t: int|
                0 <= t < i ==> (('a' <= #[trigger] id@[t] <= 'z') || ('A' <= id@[t] <= 'Z') || ('0'
                    <= id@[t] <= '9') || id@[t] == '_' || id@[t] == '-'),
        decreases n - i,
    {
        let c = id.get_char(i);
        let ok = ('a' <= c && c <= 'z') || ('A' <= c && c <= 'Z') || ('0' <= c && c <= '9') || c
            == '_' || c == '-';
        if !ok {
            return false;
        }
        i = i + 1;
    }
    true
}

/// A kind of tenant-scoped tool source.
#[derive(Debug, Clone, Copy, PartialEq, Eq, Structural)]
pub enum ToolSourceKind {
    Http,
    Openapi,
}

/// The wire name of a tool-source kind.
pub fn tool_source_kind_str(k: ToolSourceKind) -> (r: &'static str)
    ensures
        r@ == match k {
            ToolSourceKind::Http => "http"@,
            ToolSourceKind::Openapi => "openapi"@,
        },
{
    match k {
        ToolSourceKind::Http => "http",
        ToolSourceKind::Openapi => "openapi",
    }
}

/// An OIDC subject: nonempty after trimming and free of `'/'`.
pub fn is_valid_oidc_subject(subject: &str) -> (r: bool)
    ensures
        r == ({
            let t = crate::openapi_names::spec_trim(subject@);
            t.len() > 0 && !crate::text::seq_contains_char(t, '/')
        }),
{
    let t = crate::openapi_names::trim_ascii(subject);
    if t.as_str().unicode_len() == 0 {
        return false;
    }
    !crate::text::str_contains_char(t.as_str(), '/')
}

/// Whether a parsed URL path is this profile's own MCP endpoint path,
/// `/{profile_id}/mcp`, with or without a trailing slash. An upstream
/// endpoint with such a path is a self-loop and is rejected.
pub fn is_profile_mcp_path(profile_id: &str, path: &str) -> (r: bool)
    ensures
        r == ({
            let want = seq!['/'] + profile_id@ + "/mcp"@;
            path@ == want || path@ == want + seq!['/']
        }),
{
    let mut want = String::new();
    push_char(&mut want, '/');
    want.append(profile_id);
    want.append("/mcp");
    if str_eq(path, want.as_str()) {
        return true;
    }
    push_char(&mut want, '/');
    proof {
        assert(want@.drop_last() =~= seq!['/'] + profile_id@ + "/mcp"@);
        assert(want@ =~= (seq!['/'] + profile_id@ + "/mcp"@) + seq!['/']);
    }
    str_eq(path, want.as_str())
}

/// The configured profile timeout, treating zero as absent.
pub open spec fn spec_profile_timeout_secs(profile: Profile) -> u64 {
    match profile.tool_call_timeout_secs {
        Some(v) => if v > 0 {
            v
        } else {
            0
        },
        None => 0,
    }
}

/// The configured per-tool timeout, treating zero as absent.
pub open spec fn spec_per_tool_timeout_secs(profile: Profile, tool_ref: Seq<char>) -> u64 {
    match spec_tool_policy_for(profile.tool_policies@, tool_ref) {
        Some(p) => match p.timeout_secs {
            Some(v) => if v > 0 {
                v
            } else {
                0
            },
            None => 0,
        },
        None => 0,
    }
}

/// The effective timeout for a tool call, in seconds: the largest of the
/// per-tool timeout, the profile timeout and the system default, capped by
/// the system maximum and floored at one second. Zero and absent values do
/// not participate.
pub fn tool_call_timeout_secs_for(
    profile: &Profile,
    tool_ref: &str,
    system_default_secs: u64,
    system_max_secs: u64,
) -> (r: u64)
    ensures
        ({
            let profile_secs = spec_profile_timeout_secs(*profile);
            let tool_secs = spec_per_tool_timeout_secs(*profile, tool_ref@);
            let largest = if system_default_secs >= profile_secs && system_default_secs
                >= tool_secs {
                system_default_secs
            } else if profile_secs >= tool_secs {
                profile_secs
            } else {
                tool_secs
            };
            let capped = if largest <= system_max_secs {
                largest
            } else {
                system_max_secs
            };
            r == if capped >= 1 {
                capped
            } else {
                1u64
            }
        }),
{
    let mut largest = system_default_secs;
    if let Some(v) = profile.tool_call_timeout_secs {
        if v > 0 && v > largest {
            largest = v;
        }
    }
    match tool_policy_for(&profile.tool_policies, tool_ref) {
        Some(p) => {
            if let Some(v) = p.timeout_secs {
                if v > 0 && v > largest {
                    largest = v;
                }
            }
        },
        None => (),
    }
    let capped = if largest <= system_max_secs {
        largest
    } else {
        system_max_secs
    };
    if capped >= 1 {
        capped
    } else {
        1
    }
}

/// The spec view of a tool policy, as far as the timeout and retry
/// decisions read it.
pub struct SpecToolPolicy {
    pub tool: Seq<char>,
    pub timeout_secs: Option<u64>,
    pub has_retry: bool,
}

pub open spec fn view_policy(p: ToolPolicy) -> SpecToolPolicy {
    SpecToolPolicy {
        tool: p.tool@,
        timeout_secs: p.timeout_secs,
        has_retry: p.retry is Some,
    }
}

/// First-match lookup of the policy for a stable tool reference.
pub open spec fn spec_tool_policy_for(policies: Seq<ToolPolicy>, tool_ref: Seq<char>) -> Option<
    SpecToolPolicy,
>
    decreases policies.len(),
{
    if policies.len() == 0 {
        None
    } else if policies.first().tool@ == tool_ref {
        Some(view_policy(policies.first()))
    } else {
        spec_tool_policy_for(policies.drop_first(), tool_ref)
    }
}

/// Find the policy configured for a tool reference.
pub fn tool_policy_for<'a>(policies: &'a Vec<ToolPolicy>, tool_ref: &str) -> (r: Option<
    &'a ToolPolicy,
>)
    ensures
        match r {
            Some(p) => spec_tool_policy_for(policies@, tool_ref@) == Some(view_policy(*p)),
            None => spec_tool_policy_for(policies@, tool_ref@) is None,
        },
{
    proof {
        lemma_policy_lookup(policies@, tool_ref@);
    }
    let n = policies.len();
    let mut i: usize = 0;
    while i < n
        invariant
            n == policies@.len(),
            i <= n,
            forall|t: int| 0 <= t < i ==> (#[trigger] policies@[t]).tool@ != tool_ref@,
            (exists|t: int|
                0 <= t < policies@.len() && (#[trigger] policies@[t]).tool@ == tool_ref@) ==> (
            spec_tool_policy_for(policies@, tool_ref@) == Some(
                view_policy(policies@[first_policy_match(policies@, tool_ref@)]),
            ) && 0 <= first_policy_match(policies@, tool_ref@) < policies@.len() && policies@[
                first_policy_match(policies@, tool_ref@)
            ].tool@ == tool_ref@ && (forall|j: int|
                0 <= j < first_policy_match(policies@, tool_ref@) ==> (
                #[trigger] policies@[j]).tool@ != tool_ref@)),
            (forall|t: int|
                0 <= t < policies@.len() ==> (#[trigger] policies@[t]).tool@ != tool_ref@)
                ==> spec_tool_policy_for(policies@, tool_ref@) is None,
        decreases n - i,
    {
        if str_eq(policies[i].tool.as_str(), tool_ref) {
            proof {
                assert(policies@[i as int].tool@ == tool_ref@);
                assert(first_policy_match(policies@, tool_ref@) == i);
            }
            return Some(&policies[i]);
        }
        i = i + 1;
    }
    None
}

/// The index of the first policy for a tool reference, when one exists.
pub open spec fn first_policy_match(policies: Seq<ToolPolicy>, tool_ref: Seq<char>) -> int
    decreases policies.len(),
{
    if policies.len() == 0 {
        0
    } else if policies.first().tool@ == tool_ref {
        0
    } else {
        1 + first_policy_match(policies.drop_first(), tool_ref)
    }
}

proof fn lemma_policy_lookup(policies: Seq<ToolPolicy>, tool_ref: Seq<char>)
    ensures
        (exists|t: int| 0 <= t < policies.len() && (#[trigger] policies[t]).tool@ == tool_ref)
            ==> {
            let i = first_policy_match(policies, tool_ref);
            &&& 0 <= i < policies.len()
            &&& policies[i].tool@ == tool_ref
            &&& forall|j: int| 0 <= j < i ==> (#[trigger] policies[j]).tool@ != tool_ref
            &&& spec_tool_policy_for(policies, tool_ref) == Some(view_policy(policies[i]))
        },
        (forall|t: int| 0 <= t < policies.len() ==> (#[trigger] policies[t]).tool@ != tool_ref)
            ==> spec_tool_policy_for(policies, tool_ref) is None,
    decreases policies.len(),
{
    if policies.len() > 0 {
        lemma_policy_lookup(policies.drop_first(), tool_ref);
        if policies.first().tool@ != tool_ref {
            let rest = policies.drop_first();
            assert(forall|j: int| 0 <= j < rest.len() ==> #[trigger] rest[j] == policies[j + 1]);
            if exists|t: int| 0 <= t < policies.len() && (#[trigger] policies[t]).tool@
                == tool_ref {
                let t0 = choose|t: int|
                    0 <= t < policies.len() && (#[trigger] policies[t]).tool@ == tool_ref;
                assert(t0 != 0);
                assert(rest[t0 - 1].tool@ == tool_ref);
                assert(exists|t: int|
                    0 <= t < rest.len() && (#[trigger] rest[t]).tool@ == tool_ref);
                let ir = first_policy_match(rest, tool_ref);
                let im = first_policy_match(policies, tool_ref);
                assert(im == 1 + ir);
                assert forall|j: int| 0 <= j < im implies (#[trigger] policies[j]).tool@
                    != tool_ref by {
                    if j > 0 {
                        assert(rest[j - 1].tool@ != tool_ref);
                    }
                }
            } else {
                assert(forall|t: int|
                    0 <= t < rest.len() ==> (#[trigger] rest[t]).tool@ != tool_ref);
            }
        }
    }
}

} // verus!
