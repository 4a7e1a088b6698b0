use mcp_proxy_core::b64::{b64_decode, b64_encode};
use mcp_proxy_core::config::RequestIdNamespacing;
use mcp_proxy_core::ids::{
    make_prefixed, make_proxied_request_id, parse_prefixed, parse_proxied_request_id,
    parse_resource_collision_urn, resource_collision_urn, split_prefixed, stable_tool_ref,
    RequestId,
};

#[test]
fn server_prefixed_roundtrip() {
    let key = make_prefixed("server", "tool");
    assert_eq!(key, "server:tool");

    let parsed = parse_prefixed("server:tool").expect("parse server:tool");
    assert_eq!(parsed.0, "server");
    assert_eq!(parsed.1, "tool");
}

#[test]
fn server_prefixed_parses_last_colon() {
    let parsed = parse_prefixed("a:b:c").expect("parse a:b:c");
    assert_eq!(parsed.0, "a:b");
    assert_eq!(parsed.1, "c");
}

#[test]
fn server_prefixed_rejects_empty_parts() {
    assert!(parse_prefixed(":tool").is_none());
    assert!(parse_prefixed("server:").is_none());
    assert!(parse_prefixed(":").is_none());
}

#[test]
fn split_prefixed_takes_last_colon() {
    let parsed = split_prefixed("a:b:c").expect("parse a:b:c");
    assert_eq!(parsed.0, "a:b");
    assert_eq!(parsed.1, "c");
    assert!(split_prefixed("nocolon").is_none());
    assert!(split_prefixed(":name").is_none());
    assert!(split_prefixed("server:").is_none());
}

#[test]
fn stable_tool_ref_joins_source_and_name() {
    assert_eq!(stable_tool_ref("src", "tool"), "src:tool");
}

#[test]
fn base64url_roundtrip_and_alphabet() {
    let data: Vec<u8> = vec![0, 1, 2, 250, 251, 252, 253, 254, 255];
    let encoded = b64_encode(&data);
    // If the digest of the bytes were handed back unchanged, the text
    // could hold '.' or non-alphabet bytes; it never does.
    assert!(!encoded.contains('.'));
    assert_eq!(b64_decode(&encoded), Some(data));
    assert_eq!(b64_encode(&Vec::new()), "");
    assert!(b64_decode("a").is_none());
    assert!(b64_decode("ab=c").is_none());
}

#[test]
fn proxied_request_id_opaque_roundtrip() {
    let id = RequestId::Num(42);
    let wire = make_proxied_request_id(RequestIdNamespacing::Opaque, "up-1", &id);
    assert!(wire.starts_with("unrelated.proxy."));
    let (upstream, back) = parse_proxied_request_id(&wire).expect("parse opaque id");
    assert_eq!(upstream, "up-1");
    assert_eq!(back, RequestId::Num(42));
}

#[test]
fn proxied_request_id_readable_roundtrip() {
    let id = RequestId::Str("abc \"quoted\" \\ and \u{1} control".to_string());
    let wire = make_proxied_request_id(RequestIdNamespacing::Readable, "dotted.upstream", &id);
    assert!(wire.starts_with("unrelated.proxy.r."));
    let (upstream, back) = parse_proxied_request_id(&wire).expect("parse readable id");
    assert_eq!(upstream, "dotted.upstream");
    assert_eq!(back, id);
}

#[test]
fn proxied_request_id_negative_number_roundtrip() {
    let id = RequestId::Num(i64::MIN);
    let wire = make_proxied_request_id(RequestIdNamespacing::Opaque, "u", &id);
    let (upstream, back) = parse_proxied_request_id(&wire).expect("parse");
    assert_eq!(upstream, "u");
    assert_eq!(back, RequestId::Num(i64::MIN));
}

#[test]
fn readable_and_opaque_wire_forms_differ() {
    let id = RequestId::Num(7);
    let opaque = make_proxied_request_id(RequestIdNamespacing::Opaque, "up", &id);
    let readable = make_proxied_request_id(RequestIdNamespacing::Readable, "up", &id);
    assert_ne!(opaque, readable);
    // Each parses back through its own branch to the same pair.
    assert_eq!(
        parse_proxied_request_id(&opaque).expect("opaque"),
        ("up".to_string(), RequestId::Num(7))
    );
    assert_eq!(
        parse_proxied_request_id(&readable).expect("readable"),
        ("up".to_string(), RequestId::Num(7))
    );
    assert!(parse_proxied_request_id("something else").is_none());
}

#[test]
fn resource_urn_embeds_source_and_hash() {
    let urn = resource_collision_urn("srv", "file:///a");
    assert!(urn.starts_with("urn:unrelated-mcp-gateway:resource:srv:"));
    // SHA-256 in hex is 64 characters; an unhashed URI would not be.
    assert_eq!(urn.len(), "urn:unrelated-mcp-gateway:resource:srv:".len() + 64);
    assert_ne!(urn, resource_collision_urn("srv", "file:///b"));
    let (src, hash) = parse_resource_collision_urn(&urn).expect("parse urn");
    assert_eq!(src, "srv");
    assert_eq!(hash.len(), 64);
}
