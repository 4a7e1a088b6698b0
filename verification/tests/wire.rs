use mcp_proxy_core::b64::b64_std_encode;
use mcp_proxy_core::httptool::{
    body_to_text_or_wrapped, is_image_content_type, replace_all, substitute_path_param,
};
use mcp_proxy_core::json::{obj_set_key, Json};
use mcp_proxy_core::safety::redact_url_parts;
use mcp_proxy_core::upstream::{build_upstream_headers, inject_budget_meta, UpstreamAuth};

#[test]
fn standard_base64_pads_correctly() {
    assert_eq!(b64_std_encode(&b"f".to_vec()), "Zg==");
    assert_eq!(b64_std_encode(&b"fo".to_vec()), "Zm8=");
    assert_eq!(b64_std_encode(&b"foo".to_vec()), "Zm9v");
    // The two alternate characters of the standard alphabet.
    assert_eq!(b64_std_encode(&vec![0xfb, 0xff]), "+/8=");
}

#[test]
fn upstream_headers_carry_hop_and_auth() {
    let h = build_upstream_headers(&UpstreamAuth::Anonymous, 0);
    assert!(h.is_empty());
    let h = build_upstream_headers(
        &UpstreamAuth::Bearer { token: "t0k".to_string() },
        2,
    );
    assert_eq!(h.len(), 2);
    assert_eq!(h[0], ("x-unrelated-gateway-hop".to_string(), "2".to_string()));
    assert_eq!(h[1], ("Authorization".to_string(), "Bearer t0k".to_string()));
    let h = build_upstream_headers(
        &UpstreamAuth::Basic { username: "user".to_string(), password: "pass".to_string() },
        0,
    );
    assert_eq!(h, vec![("Authorization".to_string(), "Basic dXNlcjpwYXNz".to_string())]);
    let h = build_upstream_headers(
        &UpstreamAuth::QueryParameter { name: "k".to_string(), value: "v".to_string() },
        0,
    );
    assert!(h.is_empty());
}

#[test]
fn budget_meta_merges_into_existing_meta() {
    let params = Json::Obj(vec![
        ("name".to_string(), Json::Str("t".to_string())),
        (
            "_meta".to_string(),
            Json::Obj(vec![("keep".to_string(), Json::Bool(true))]),
        ),
    ]);
    let out = inject_budget_meta(params, 1500);
    let Json::Obj(fields) = out else { panic!("object") };
    assert_eq!(fields[0].0, "name");
    let Json::Obj(meta) = &fields[1].1 else { panic!("meta object") };
    assert_eq!(meta[0].0, "keep");
    let Json::Obj(inner) = &meta[1].1 else { panic!("unrelated object") };
    assert_eq!(inner[0], ("timeoutMs".to_string(), Json::Int(1500)));
}

#[test]
fn budget_meta_appends_when_absent() {
    let params = Json::Obj(vec![("name".to_string(), Json::Str("t".to_string()))]);
    let out = inject_budget_meta(params, 10);
    let Json::Obj(fields) = out else { panic!("object") };
    assert_eq!(fields.len(), 2);
    assert_eq!(fields[1].0, "_meta");
    // A non-object request is left alone.
    let other = inject_budget_meta(Json::Int(3), 10);
    assert_eq!(other, Json::Int(3));
}

#[test]
fn object_set_replaces_first_occurrence_or_appends() {
    let es = vec![
        ("a".to_string(), Json::Int(1)),
        ("b".to_string(), Json::Int(2)),
    ];
    let r = obj_set_key(es, "a", Json::Int(9));
    assert_eq!(r[0], ("a".to_string(), Json::Int(9)));
    assert_eq!(r[1], ("b".to_string(), Json::Int(2)));
    let r = obj_set_key(r, "c", Json::Int(3));
    assert_eq!(r.len(), 3);
    assert_eq!(r[2], ("c".to_string(), Json::Int(3)));
}

#[test]
fn image_content_types_are_detected() {
    assert!(is_image_content_type(Some(&"image/png".to_string())));
    assert!(is_image_content_type(Some(&"IMAGE/JPEG".to_string())));
    assert!(!is_image_content_type(Some(&"image/".to_string())));
    assert!(!is_image_content_type(Some(&"text/html".to_string())));
    assert!(!is_image_content_type(None));
}

#[test]
fn response_bodies_decode_or_wrap() {
    let text = body_to_text_or_wrapped(b"hello".to_vec(), None);
    assert_eq!(text, Json::Str("hello".to_string()));
    let ct = "application/octet-stream".to_string();
    let wrapped = body_to_text_or_wrapped(vec![0xff, 0xfe], Some(&ct));
    let Json::Obj(fields) = wrapped else { panic!("wrapped object") };
    assert_eq!(fields[0], ("encoding".to_string(), Json::Str("base64".to_string())));
    assert_eq!(fields[1], ("mimeType".to_string(), Json::Str(ct.clone())));
    assert_eq!(fields[2], ("data".to_string(), Json::Str("//4=".to_string())));
}

#[test]
fn redacted_urls_keep_only_scheme_host_port_and_path() {
    assert_eq!(
        redact_url_parts("https", "example.com", Some(8443), "/v1/items"),
        "https://example.com:8443/v1/items"
    );
    assert_eq!(
        redact_url_parts("http", "localhost", None, "/"),
        "http://localhost/"
    );
}

#[test]
fn path_templates_substitute_every_placeholder() {
    assert_eq!(
        substitute_path_param("/pets/{petId}/photos/{petId}", "petId", "42"),
        "/pets/42/photos/42"
    );
    assert_eq!(
        substitute_path_param("/pets/{petId}", "other", "42"),
        "/pets/{petId}"
    );
    // Replacement is left to right and without overlap.
    assert_eq!(replace_all("aaa", "aa", "b"), "ba");
}
