//! What a proxied upstream call carries: the hop-count header, the
//! explicit upstream authentication header, and the remaining-budget
//! metadata injected into the forwarded request.

use crate::json::{obj_set_key, spec_obj_set, view_json, view_obj, Json, SpecJson};
use crate::text::{push_char, spec_dec, u64_to_string};
use vstd::prelude::*;

verus! {

broadcast use vstd::std_specs::vec::group_vec_axioms, vstd::seq::group_seq_axioms;

/// The header that carries the hop count of a proxied call.
pub open spec fn spec_hop_header_name() -> Seq<char> {
    "x-unrelated-gateway-hop"@
}

/// Upstream authentication configuration. It is explicit per upstream;
/// the caller's own `Authorization` header is never forwarded.
pub enum UpstreamAuth {
    /// No credentials.
    Anonymous,
    /// A credential carried in the URL's query, not in a header.
    QueryParameter { name: String, value: String },
    /// A bearer token.
    Bearer { token: String },
    /// A literal header.
    HeaderValue { name: String, value: String },
    /// HTTP basic authentication.
    Basic { username: String, password: String },
}

/// The view of a header list.
pub open spec fn view_headers(s: Seq<(String, String)>) -> Seq<(Seq<char>, Seq<char>)> {
    s.map(|i: int, p: (String, String)| (p.0@, p.1@))
}

/// The header an authentication configuration adds: none for anonymous
/// or query credentials, `Authorization` for bearer and basic, the
/// configured header otherwise.
pub open spec fn spec_auth_headers(auth: UpstreamAuth) -> Seq<(Seq<char>, Seq<char>)> {
    match auth {
        UpstreamAuth::Anonymous => Seq::empty(),
        UpstreamAuth::QueryParameter { .. } => Seq::empty(),
        UpstreamAuth::Bearer { token } => seq![("Authorization"@, "Bearer "@ + token@)],
        UpstreamAuth::HeaderValue { name, value } => seq![(name@, value@)],
        UpstreamAuth::Basic { username, password } => seq![
            (
                "Authorization"@,
                "Basic "@ + crate::b64::spec_b64_std(
                    vstd::utf8::encode_utf8(username@ + seq![':'] + password@),
                ),
            ),
        ],
    }
}

/// Build the headers of a proxied upstream call: the hop-count header
/// when a hop count is carried, then the explicit authentication header.
pub fn build_upstream_headers(auth: &UpstreamAuth, hop: u32) -> (r: Vec<(String, String)>)
    ensures
        view_headers(r@) == (if hop > 0 {
            seq![(spec_hop_header_name(), spec_dec(hop as nat))]
        } else {
            Seq::<(Seq<char>, Seq<char>)>::empty()
        }) + spec_auth_headers(*auth),
{
    let ghost hop_part: Seq<(Seq<char>, Seq<char>)> = if hop > 0 {
        seq![(spec_hop_header_name(), spec_dec(hop as nat))]
    } else {
        Seq::empty()
    };
    let mut out: Vec<(String, String)> = Vec::new();
    if hop > 0 {
        out.push(("x-unrelated-gateway-hop".to_owned(), u64_to_string(hop as u64)));
    }
    proof {
        assert(view_headers(out@) =~= hop_part);
    }
    let ghost before = out@;
    match auth {
        UpstreamAuth::Anonymous => {
            proof {
                assert(view_headers(out@) =~= hop_part + spec_auth_headers(*auth));
            }
        },
        UpstreamAuth::QueryParameter { .. } => {
            proof {
                assert(view_headers(out@) =~= hop_part + spec_auth_headers(*auth));
            }
        },
        UpstreamAuth::Bearer { token } => {
            let mut v = "Bearer ".to_owned();
            v.append(token.as_str());
            proof {
                reveal_strlit("Bearer ");
            }
            out.push(("Authorization".to_owned(), v));
            proof {
                assert(view_headers(out@) =~= hop_part + spec_auth_headers(*auth));
            }
        },
        UpstreamAuth::HeaderValue { name, value } => {
            out.push((name.as_str().to_owned(), value.as_str().to_owned()));
            proof {
                assert(view_headers(out@) =~= hop_part + spec_auth_headers(*auth));
            }
        },
        UpstreamAuth::Basic { username, password } => {
            let mut creds = username.as_str().to_owned();
            push_char(&mut creds, ':');
            creds.append(password.as_str());
            proof {
                assert(creds@ =~= username@ + seq![':'] + password@);
            }
            let bytes = creds.as_str().as_bytes_vec();
            let encoded = crate::b64::b64_std_encode(&bytes);
            let mut v = "Basic ".to_owned();
            v.append(encoded.as_str());
            proof {
                reveal_strlit("Basic ");
            }
            out.push(("Authorization".to_owned(), v));
            proof {
                assert(view_headers(out@) =~= hop_part + spec_auth_headers(*auth));
            }
        },
    }
    out
}

/// The metadata entries of a value: an object's fields, else none.
pub open spec fn spec_meta_entries(v: SpecJson) -> Seq<(Seq<char>, SpecJson)> {
    match v {
        SpecJson::Obj(es) => es,
        _ => Seq::empty(),
    }
}

/// A request's fields with the remaining budget recorded under
/// `_meta.unrelated`: an existing `_meta` object keeps its other entries,
/// anything else under `_meta` is replaced, and an absent `_meta` is
/// appended.
pub open spec fn spec_inject_meta(
    es: Seq<(Seq<char>, SpecJson)>,
    inner: SpecJson,
) -> Seq<(Seq<char>, SpecJson)>
    decreases es.len(),
{
    if es.len() == 0 {
        seq![
            ("_meta"@, SpecJson::Obj(seq![("unrelated"@, inner)])),
        ]
    } else if es.first().0 == "_meta"@ {
        seq![
            (
                "_meta"@,
                SpecJson::Obj(
                    spec_obj_set(spec_meta_entries(es.first().1), "unrelated"@, inner),
                ),
            ),
        ] + es.drop_first()
    } else {
        seq![es.first()] + spec_inject_meta(es.drop_first(), inner)
    }
}

/// The `timeoutMs` value recorded for a remaining budget: the budget in
/// milliseconds, saturated at the largest representable integer.
pub open spec fn spec_budget_ms(remaining_ms: u64) -> int {
    if remaining_ms > i64::MAX as u64 {
        i64::MAX as int
    } else {
        remaining_ms as int
    }
}

/// The budget object injected under `_meta.unrelated`.
pub open spec fn spec_budget_value(remaining_ms: u64) -> SpecJson {
    SpecJson::Obj(seq![("timeoutMs"@, SpecJson::Int(spec_budget_ms(remaining_ms)))])
}

/// Inject the remaining call budget into a proxied request's parameters,
/// under `_meta.unrelated.timeoutMs`. A non-object value is returned
/// unchanged.
pub fn inject_budget_meta(params: Json, remaining_ms: u64) -> (r: Json)
    ensures
        match params {
            Json::Obj(_) => view_json(r) == SpecJson::Obj(
                spec_inject_meta(view_json(params)->Obj_0, spec_budget_value(remaining_ms)),
            ),
            _ => r == params,
        },
{
    let ms: i64 = if remaining_ms > 0x7fff_ffff_ffff_ffffu64 {
        i64::MAX
    } else {
        remaining_ms as i64
    };
    let mut inner_fields: Vec<(String, Json)> = Vec::new();
    inner_fields.push(("timeoutMs".to_owned(), Json::Int(ms)));
    proof {
        crate::json::lemma_view_obj_index(inner_fields@);
        assert(view_obj(inner_fields@) =~= seq![("timeoutMs"@, SpecJson::Int(spec_budget_ms(
            remaining_ms,
        )))]);
    }
    let inner = Json::Obj(inner_fields);
    match params {
        Json::Obj(fields) => {
            let ghost fv = view_obj(fields@);
            let out = inject_into_fields(fields, inner);
            proof {
                assert(view_json(out) == SpecJson::Obj(spec_inject_meta(fv, spec_budget_value(
                    remaining_ms,
                ))));
            }
            out
        },
        other => other,
    }
}

/// Walk a request's fields to the first `_meta` entry and merge the
/// budget object into it.
fn inject_into_fields(fields: Vec<(String, Json)>, inner: Json) -> (r: Json)
    ensures
        view_json(r) == SpecJson::Obj(spec_inject_meta(view_obj(fields@), view_json(inner))),
    decreases fields@.len(),
{
    let ghost allv = view_obj(fields@);
    let ghost iv = view_json(inner);
    let mut es = fields;
    if es.len() == 0 {
        let mut unrelated: Vec<(String, Json)> = Vec::new();
        unrelated.push(("unrelated".to_owned(), inner));
        proof {
            crate::json::lemma_view_obj_index(unrelated@);
            assert(view_obj(unrelated@) =~= seq![("unrelated"@, iv)]);
        }
        let mut out: Vec<(String, Json)> = Vec::new();
        out.push(("_meta".to_owned(), Json::Obj(unrelated)));
        proof {
            crate::json::lemma_view_obj_index(out@);
            assert(view_obj(out@) =~= seq![("_meta"@, SpecJson::Obj(seq![("unrelated"@, iv)]))]);
        }
        return Json::Obj(out);
    }
    let head = es.remove(0);
    proof {
        assert(allv =~= seq![(head.0@, view_json(head.1))] + view_obj(es@)) by {
            assert(es@ =~= fields@.drop_first());
        }
    }
    if crate::text::str_eq(head.0.as_str(), "_meta") {
        let ghost headv = view_json(head.1);
        let meta_fields: Vec<(String, Json)> = match head.1 {
            Json::Obj(mf) => mf,
            _ => Vec::new(),
        };
        proof {
            assert(view_obj(meta_fields@) =~= spec_meta_entries(headv));
        }
        let merged = obj_set_key(meta_fields, "unrelated", inner);
        let ghost mergedv = view_obj(merged@);
        let mut out: Vec<(String, Json)> = Vec::new();
        out.push(("_meta".to_owned(), Json::Obj(merged)));
        let ghost before_append = out@;
        let mut rest = es;
        out.append(&mut rest);
        proof {
            assert(allv.first().0 == "_meta"@);
            assert(allv.drop_first() =~= view_obj(es@));
            crate::json::lemma_view_obj_concat(before_append, es@);
            crate::json::lemma_view_obj_index(before_append);
            assert(view_obj(before_append) =~= seq![("_meta"@, SpecJson::Obj(mergedv))]);
            assert(mergedv == spec_obj_set(spec_meta_entries(allv.first().1), "unrelated"@, iv));
            assert(view_obj(out@) =~= seq![("_meta"@, SpecJson::Obj(mergedv))] + view_obj(es@));
            assert(spec_inject_meta(allv, iv) == seq![
                ("_meta"@, SpecJson::Obj(mergedv)),
            ] + allv.drop_first());
        }
        Json::Obj(out)
    } else {
        let ghost h = (head.0@, view_json(head.1));
        let ghost esv = view_obj(es@);
        let tail = inject_into_fields(es, inner);
        let ghost tailv = view_json(tail)->Obj_0;
        let tail_fields = match tail {
            Json::Obj(tf) => tf,
            _ => Vec::new(),
        };
        proof {
            assert(view_obj(tail_fields@) == tailv);
        }
        let mut out: Vec<(String, Json)> = Vec::new();
        out.push(head);
        let ghost before_append = out@;
        let mut t = tail_fields;
        let ghost tfv = t@;
        out.append(&mut t);
        proof {
            assert(allv.first() == h && allv.first().0 != "_meta"@);
            assert(allv.drop_first() =~= esv);
            crate::json::lemma_view_obj_concat(before_append, tfv);
            crate::json::lemma_view_obj_index(before_append);
            assert(view_obj(before_append) =~= seq![h]);
            assert(view_obj(out@) =~= seq![h] + spec_inject_meta(esv, iv));
            assert(spec_inject_meta(allv, iv) == seq![allv.first()] + spec_inject_meta(
                allv.drop_first(),
                iv,
            ));
        }
        Json::Obj(out)
    }
}

} // verus!
