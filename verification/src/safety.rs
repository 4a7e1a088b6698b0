//! Outbound HTTP safety: SSRF checks on schemes, hosts and destination
//! addresses, response-size caps and redirect policy. The caller parses the
//! URL and resolves names; every decision about what may be contacted is
//! made here.

use crate::text::{push_char, strings_contain, view_strings};
use vstd::prelude::*;

verus! {

/// An IPv4 address, as four octets.
#[derive(Debug, Clone, Copy, PartialEq, Eq)]
pub struct Ipv4Address {
    pub octets: [u8; 4],
}

/// An IPv6 address, as eight 16-bit segments.
#[derive(Debug, Clone, Copy, PartialEq, Eq)]
pub struct Ipv6Address {
    pub segments: [u16; 8],
}

/// A resolved or literal destination address.
#[derive(Debug, Clone, Copy, PartialEq, Eq)]
pub enum IpAddress {
    V4(Ipv4Address),
    V6(Ipv6Address),
}

/// IPv4 destinations never contacted when private networks are disallowed:
/// loopback, private ranges, link-local, unspecified, broadcast, multicast,
/// carrier-grade NAT and the reserved top of the space.
pub open spec fn spec_denied_v4(o0: u8, o1: u8, o2: u8, o3: u8) -> bool {
    ||| o0 == 127  // loopback
    ||| o0 == 10  // private 10/8
    ||| (o0 == 172 && 16 <= o1 < 32)  // private 172.16/12
    ||| (o0 == 192 && o1 == 168)  // private 192.168/16
    ||| (o0 == 169 && o1 == 254)  // link-local, incl. metadata addresses
    ||| (o0 == 0 && o1 == 0 && o2 == 0 && o3 == 0)  // unspecified
    ||| (o0 == 255 && o1 == 255 && o2 == 255 && o3 == 255)  // broadcast
    ||| (224 <= o0 < 240)  // multicast
    ||| (o0 == 100 && 64 <= o1 < 128)  // carrier-grade NAT 100.64/10
    ||| o0 >= 240  // reserved 240/4
}

/// IPv6 destinations never contacted when private networks are disallowed:
/// loopback, unspecified, multicast, unique-local and link-local unicast.
pub open spec fn spec_denied_v6(s: Seq<u16>) -> bool {
    ||| (s[0] == 0 && s[1] == 0 && s[2] == 0 && s[3] == 0 && s[4] == 0 && s[5] == 0 && s[6] == 0
        && s[7] <= 1)  // unspecified or loopback
    ||| s[0] >= 0xff00  // multicast ff00::/8
    ||| (0xfc00 <= s[0] < 0xfe00)  // unique-local fc00::/7
    ||| (0xfe80 <= s[0] < 0xfec0)  // link-local unicast fe80::/10
}

/// Whether an address may never be a destination under a restrictive policy.
pub open spec fn spec_denied_ip(ip: IpAddress) -> bool {
    match ip {
        IpAddress::V4(v4) => spec_denied_v4(
            v4.octets[0],
            v4.octets[1],
            v4.octets[2],
            v4.octets[3],
        ),
        IpAddress::V6(v6) => spec_denied_v6(v6.segments@),
    }
}

/// Test an address against the deny ranges.
pub fn is_denied_ip(ip: &IpAddress) -> (r: bool)
    ensures
        r == spec_denied_ip(*ip),
{
    match ip {
        IpAddress::V4(v4) => {
            let o0 = v4.octets[0];
            let o1 = v4.octets[1];
            let o2 = v4.octets[2];
            let o3 = v4.octets[3];
            o0 == 127 || o0 == 10 || (o0 == 172 && 16 <= o1 && o1 < 32) || (o0 == 192 && o1 == 168)
                || (o0 == 169 && o1 == 254) || (o0 == 0 && o1 == 0 && o2 == 0 && o3 == 0) || (o0
                == 255 && o1 == 255 && o2 == 255 && o3 == 255) || (224 <= o0 && o0 < 240) || (o0
                == 100 && 64 <= o1 && o1 < 128) || o0 >= 240
        },
        IpAddress::V6(v6) => {
            let s0 = v6.segments[0];
            (v6.segments[0] == 0 && v6.segments[1] == 0 && v6.segments[2] == 0 && v6.segments[3]
                == 0 && v6.segments[4] == 0 && v6.segments[5] == 0 && v6.segments[6] == 0
                && v6.segments[7] <= 1) || s0 >= 0xff00 || (0xfc00 <= s0 && s0 < 0xfe00) || (0xfe80
                <= s0 && s0 < 0xfec0)
        },
    }
}

/// Redirect behavior for outbound requests.
#[derive(Debug, Clone, Copy, PartialEq, Eq, Structural)]
pub enum RedirectPolicy {
    /// Do not follow redirects.
    Never,
    /// Follow redirects, re-checking the destination URL on each hop.
    Checked,
}

/// Outbound HTTP safety policy.
#[derive(Debug)]
pub struct OutboundHttpSafety {
    /// When set, only these hosts may be contacted (compared lower-cased).
    pub allowed_hosts: Option<Vec<String>>,
    /// Whether private, loopback, link-local and reserved ranges may be
    /// contacted.
    pub allow_private_networks: bool,
    /// Cap on response body size, in bytes; `None` means unlimited.
    pub max_response_bytes: Option<usize>,
    /// Redirect behavior.
    pub redirects: RedirectPolicy,
}

impl OutboundHttpSafety {
    /// The most permissive policy: anything may be contacted, responses are
    /// unlimited, redirects are followed with re-checks.
    pub fn permissive() -> (r: OutboundHttpSafety)
        ensures
            r.allowed_hosts is None,
            r.allow_private_networks,
            r.max_response_bytes is None,
            r.redirects == RedirectPolicy::Checked,
    {
        OutboundHttpSafety {
            allowed_hosts: None,
            allow_private_networks: true,
            max_response_bytes: None,
            redirects: RedirectPolicy::Checked,
        }
    }

    /// The restrictive default for multi-tenant deployments: private
    /// networks blocked, responses capped at 1 MiB, redirects not followed.
    pub fn gateway_default() -> (r: OutboundHttpSafety)
        ensures
            r.allowed_hosts is None,
            !r.allow_private_networks,
            r.max_response_bytes == Some(1048576usize),
            r.redirects == RedirectPolicy::Never,
    {
        OutboundHttpSafety {
            allowed_hosts: None,
            allow_private_networks: false,
            max_response_bytes: Some(1048576),
            redirects: RedirectPolicy::Never,
        }
    }
}

/// Why a URL was refused.
#[derive(Debug, Clone, Copy, PartialEq, Eq, Structural)]
pub enum SafetyRejection {
    /// The scheme is neither `http` nor `https`.
    UnsupportedScheme,
    /// The URL has no host.
    MissingHost,
    /// The host is not in the configured allowlist.
    HostNotAllowed,
    /// The destination address falls in a denied range.
    DeniedAddress,
    /// Name resolution produced no addresses.
    NoAddresses,
}

/// The outcome of checking a URL before connecting.
#[derive(Debug, Clone, Copy, PartialEq, Eq, Structural)]
pub enum UrlCheck {
    /// The URL may be contacted.
    Allow,
    /// The URL must not be contacted.
    Reject(SafetyRejection),
    /// The host must be resolved and every address checked with
    /// `check_resolved`.
    NeedsDnsCheck,
}

/// Lower-cased ASCII letters; other characters unchanged.
pub open spec fn spec_ascii_lower(s: Seq<char>) -> Seq<char> {
    s.map(
        |i: int, c: char|
            if 'A' <= c <= 'Z' {
                (((c as u32) + 32) as u8) as char
            } else {
                c
            },
    )
}

/// Lower-case the ASCII letters of a string.
pub fn ascii_lowercase(s: &str) -> (r: String)
    ensures
        r@ == spec_ascii_lower(s@),
{
    let n = s.unicode_len();
    let mut out = String::new();
    let mut i: usize = 0;
    while i < n
        invariant
            n == s@.len(),
            i <= n,
            out@.len() == i,
            forall|t: int| 0 <= t < i ==> out@[t] == spec_ascii_lower(s@)[t],
        decreases n - i,
    {
        let c = s.get_char(i);
        if 'A' <= c && c <= 'Z' {
            let code = (c as u32) + 32;
            push_char(&mut out, (code as u8) as char);
        } else {
            push_char(&mut out, c);
        }
        i = i + 1;
    }
    proof {
        assert(out@ =~= spec_ascii_lower(s@));
    }
    out
}

/// The decision `check_url_parts` makes, as a function of the policy and
/// the URL's parts.
pub open spec fn spec_check_url(
    policy_hosts: Option<Seq<Seq<char>>>,
    allow_private: bool,
    scheme: Seq<char>,
    host: Option<Seq<char>>,
    ip_literal: Option<IpAddress>,
) -> UrlCheck {
    if scheme != "http"@ && scheme != "https"@ {
        UrlCheck::Reject(SafetyRejection::UnsupportedScheme)
    } else if host is None {
        UrlCheck::Reject(SafetyRejection::MissingHost)
    } else if policy_hosts is Some && !policy_hosts.unwrap().contains(
        spec_ascii_lower(host.unwrap()),
    ) {
        UrlCheck::Reject(SafetyRejection::HostNotAllowed)
    } else if allow_private {
        UrlCheck::Allow
    } else if ip_literal is Some {
        if spec_denied_ip(ip_literal.unwrap()) {
            UrlCheck::Reject(SafetyRejection::DeniedAddress)
        } else {
            UrlCheck::Allow
        }
    } else {
        UrlCheck::NeedsDnsCheck
    }
}

impl OutboundHttpSafety {
    /// Check a URL's parts before connecting: the scheme must be HTTP(S),
    /// a host must be present and allowlisted, and — when private networks
    /// are disallowed — a literal address must pass the deny ranges, while
    /// a named host must go through DNS checking.
    pub fn check_url_parts(
        &self,
        scheme: &str,
        host: Option<&str>,
        ip_literal: Option<&IpAddress>,
    ) -> (r: UrlCheck)
        ensures
            r == spec_check_url(
                match self.allowed_hosts {
                    Some(hs) => Some(view_strings(hs@)),
                    None => None,
                },
                self.allow_private_networks,
                scheme@,
                match host {
                    Some(h) => Some(h@),
                    None => None,
                },
                match ip_literal {
                    Some(ip) => Some(*ip),
                    None => None,
                },
            ),
    {
        if !(crate::text::str_eq(scheme, "http") || crate::text::str_eq(scheme, "https")) {
            return UrlCheck::Reject(SafetyRejection::UnsupportedScheme);
        }
        let h = match host {
            Some(h) => h,
            None => {
                return UrlCheck::Reject(SafetyRejection::MissingHost);
            },
        };
        if let Some(allowed) = &self.allowed_hosts {
            let lowered = ascii_lowercase(h);
            if !strings_contain(allowed, lowered.as_str()) {
                return UrlCheck::Reject(SafetyRejection::HostNotAllowed);
            }
        }
        if self.allow_private_networks {
            return UrlCheck::Allow;
        }
        match ip_literal {
            Some(ip) => {
                if is_denied_ip(ip) {
                    UrlCheck::Reject(SafetyRejection::DeniedAddress)
                } else {
                    UrlCheck::Allow
                }
            },
            None => UrlCheck::NeedsDnsCheck,
        }
    }

    /// Check every resolved address of a host: the connection is allowed
    /// exactly when at least one address came back and none falls in a
    /// denied range.
    pub fn check_resolved(&self, addrs: &Vec<IpAddress>) -> (r: UrlCheck)
        requires
            !self.allow_private_networks,
        ensures
            r == UrlCheck::Allow <==> (addrs@.len() > 0 && forall|i: int|
                0 <= i < addrs@.len() ==> !spec_denied_ip(#[trigger] addrs@[i])),
            addrs@.len() == 0 ==> r == UrlCheck::Reject(SafetyRejection::NoAddresses),
            (exists|i: int| 0 <= i < addrs@.len() && spec_denied_ip(#[trigger] addrs@[i])) ==> r
                == UrlCheck::Reject(SafetyRejection::DeniedAddress),
    {
        let n = addrs.len();
        if n == 0 {
            return UrlCheck::Reject(SafetyRejection::NoAddresses);
        }
        let mut i: usize = 0;
        while i < n
            invariant
                n == addrs@.len(),
                i <= n,
                forall|t: int| 0 <= t < i ==> !spec_denied_ip(#[trigger] addrs@[t]),
            decreases n - i,
        {
            if is_denied_ip(&addrs[i]) {
                return UrlCheck::Reject(SafetyRejection::DeniedAddress);
            }
            i = i + 1;
        }
        UrlCheck::Allow
    }

    /// Whether a redirect target must pass the full check again before it
    /// is followed. With `Never` redirects are not followed at all.
    pub fn recheck_redirects(&self) -> (r: bool)
        ensures
            r == (self.redirects == RedirectPolicy::Checked),
    {
        match self.redirects {
            RedirectPolicy::Checked => true,
            RedirectPolicy::Never => false,
        }
    }

    /// Whether a response of `total` bytes exceeds the configured cap.
    pub fn response_too_large(&self, total: usize) -> (r: bool)
        ensures
            r == match self.max_response_bytes {
                Some(max) => total > max,
                None => false,
            },
    {
        match self.max_response_bytes {
            Some(max) => total > max,
            None => false,
        }
    }
}

/// The rendering of a URL from its parts with credentials, query and
/// fragment dropped: scheme, `://`, host, an optional `:port`, and the
/// path alone. Whatever stood in the userinfo, query or fragment of the
/// original URL cannot occur in it except through these parts.
pub open spec fn spec_redacted_url(
    scheme: Seq<char>,
    host: Seq<char>,
    port: Option<u16>,
    path: Seq<char>,
) -> Seq<char> {
    scheme + "://"@ + host + (match port {
        Some(p) => seq![':'] + crate::text::spec_dec(p as nat),
        None => Seq::<char>::empty(),
    }) + path
}

/// Render a URL for an error message from its already-parsed parts,
/// leaving out credentials, query and fragment.
pub fn redact_url_parts(scheme: &str, host: &str, port: Option<u16>, path: &str) -> (r: String)
    ensures
        r@ == spec_redacted_url(scheme@, host@, port, path@),
{
    let mut out = scheme.to_owned();
    out.append("://");
    out.append(host);
    if let Some(p) = port {
        push_char(&mut out, ':');
        crate::text::append_dec_u64(&mut out, p as u64);
    }
    out.append(path);
    proof {
        reveal_strlit("://");
        assert(out@ =~= spec_redacted_url(scheme@, host@, port, path@));
    }
    out
}

} // verus!
