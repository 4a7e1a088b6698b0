//! The declarative HTTP tool DSL runtime's pure core: method semantics for
//! tool annotations, argument rendering, and OpenAPI-style query
//! serialization with percent-encoding.

use crate::json::{view_json, Json, SpecJson};
use crate::model::ToolAnnotations;
use crate::text::{push_char, spec_dec_i64};
use vstd::prelude::*;

verus! {

broadcast use vstd::std_specs::vec::group_vec_axioms, vstd::seq::group_seq_axioms;

/// An HTTP method, as the DSL names them.
#[derive(Debug, PartialEq, Eq)]
pub enum HttpMethod {
    Get,
    Head,
    Options,
    Post,
    Put,
    Patch,
    Delete,
    /// An extension method, carried verbatim.
    Other(String),
}

/// Tool annotations inferred from HTTP method semantics: safe methods are
/// read-only and idempotent, `PUT` and `DELETE` idempotent and
/// destructive, `PATCH` destructive with idempotence left open, unknown
/// methods carry only the open-world hint, which is always set.
pub fn annotations_for_method(method: &HttpMethod) -> (r: ToolAnnotations)
    ensures
        r.open_world_hint == Some(true),
        r.title is None,
        match method {
            HttpMethod::Get | HttpMethod::Head | HttpMethod::Options => r.read_only_hint == Some(
                true,
            ) && r.destructive_hint == Some(false) && r.idempotent_hint == Some(true),
            HttpMethod::Post => r.read_only_hint == Some(false) && r.destructive_hint == Some(
                false,
            ) && r.idempotent_hint == Some(false),
            HttpMethod::Put | HttpMethod::Delete => r.read_only_hint == Some(false)
                && r.destructive_hint == Some(true) && r.idempotent_hint == Some(true),
            HttpMethod::Patch => r.read_only_hint == Some(false) && r.destructive_hint == Some(
                true,
            ) && r.idempotent_hint is None,
            HttpMethod::Other(_) => r.read_only_hint is None && r.destructive_hint is None
                && r.idempotent_hint is None,
        },
{
    match method {
        HttpMethod::Get | HttpMethod::Head | HttpMethod::Options => ToolAnnotations {
            title: None,
            read_only_hint: Some(true),
            destructive_hint: Some(false),
            idempotent_hint: Some(true),
            open_world_hint: Some(true),
        },
        HttpMethod::Post => ToolAnnotations {
            title: None,
            read_only_hint: Some(false),
            destructive_hint: Some(false),
            idempotent_hint: Some(false),
            open_world_hint: Some(true),
        },
        HttpMethod::Put | HttpMethod::Delete => ToolAnnotations {
            title: None,
            read_only_hint: Some(false),
            destructive_hint: Some(true),
            idempotent_hint: Some(true),
            open_world_hint: Some(true),
        },
        HttpMethod::Patch => ToolAnnotations {
            title: None,
            read_only_hint: Some(false),
            destructive_hint: Some(true),
            idempotent_hint: None,
            open_world_hint: Some(true),
        },
        HttpMethod::Other(_) => ToolAnnotations {
            title: None,
            read_only_hint: None,
            destructive_hint: None,
            idempotent_hint: None,
            open_world_hint: Some(true),
        },
    }
}

/// How an argument renders into a path segment, header or query value:
/// strings verbatim, numbers and booleans as their literals, `null` empty,
/// arrays and objects as JSON text.
pub open spec fn spec_value_to_string(v: SpecJson) -> Seq<char> {
    match v {
        SpecJson::Str(s) => s,
        SpecJson::Int(n) => spec_dec_i64(n),
        SpecJson::Num(s) => s,
        SpecJson::Bool(b) => if b {
            seq!['t', 'r', 'u', 'e']
        } else {
            seq!['f', 'a', 'l', 's', 'e']
        },
        SpecJson::Null => Seq::empty(),
        other => crate::canon::spec_json_text(other),
    }
}

/// Render an argument value for a path, header or query position.
pub fn value_to_string(v: &Json) -> (r: String)
    ensures
        r@ == spec_value_to_string(view_json(*v)),
{
    match v {
        Json::Str(s) => s.clone(),
        Json::Int(n) => crate::text::i64_to_string(*n),
        Json::Num(s) => s.clone(),
        Json::Bool(b) => {
            let r = if *b {
                "true".to_owned()
            } else {
                "false".to_owned()
            };
            proof {
                reveal_strlit("true");
                reveal_strlit("false");
                if *b {
                    assert(r@ =~= seq!['t', 'r', 'u', 'e']);
                } else {
                    assert(r@ =~= seq!['f', 'a', 'l', 's', 'e']);
                }
            }
            r
        },
        Json::Null => String::new(),
        other => crate::canon::json_to_string(other),
    }
}

/// A serialized query pair, percent-encoding still to come.
#[derive(Debug, PartialEq, Eq)]
pub struct QueryPair {
    pub key: String,
    pub value: String,
    pub allow_reserved: bool,
}

/// The spec view of a query pair.
pub struct SpecQueryPair {
    pub key: Seq<char>,
    pub value: Seq<char>,
    pub allow_reserved: bool,
}

pub open spec fn view_pair(p: QueryPair) -> SpecQueryPair {
    SpecQueryPair { key: p.key@, value: p.value@, allow_reserved: p.allow_reserved }
}

pub open spec fn view_pairs(s: Seq<QueryPair>) -> Seq<SpecQueryPair> {
    s.map(|i: int, p: QueryPair| view_pair(p))
}

/// OpenAPI query serialization styles.
#[derive(Debug, Clone, Copy, PartialEq, Eq, Structural)]
pub enum QueryStyle {
    Form,
    SpaceDelimited,
    PipeDelimited,
    DeepObject,
}

/// Per-parameter query serialization settings.
#[derive(Debug, Clone, Copy, PartialEq, Eq, Structural)]
pub struct QuerySerialization {
    pub style: QueryStyle,
    pub explode: bool,
    pub allow_reserved: bool,
    pub allow_empty_value: bool,
}

/// The default `explode` per style: `form` and `deepObject` explode.
pub fn default_query_explode(style: QueryStyle) -> (r: bool)
    ensures
        r == (style == QueryStyle::Form || style == QueryStyle::DeepObject),
{
    match style {
        QueryStyle::Form | QueryStyle::DeepObject => true,
        QueryStyle::SpaceDelimited | QueryStyle::PipeDelimited => false,
    }
}

/// Whether an argument counts as empty for query serialization.
pub open spec fn spec_query_value_is_empty(v: SpecJson) -> bool {
    match v {
        SpecJson::Str(s) => s.len() == 0,
        SpecJson::Arr(a) => a.len() == 0,
        SpecJson::Obj(o) => o.len() == 0,
        SpecJson::Null => true,
        _ => false,
    }
}

/// Test an argument for emptiness.
pub fn query_value_is_empty(v: &Json) -> (r: bool)
    ensures
        r == spec_query_value_is_empty(view_json(*v)),
{
    match v {
        Json::Str(s) => s.as_str().unicode_len() == 0,
        Json::Arr(a) => a.len() == 0,
        Json::Obj(o) => {
            proof {
                crate::json::lemma_view_obj_index(o@);
            }
            o.len() == 0
        },
        Json::Null => true,
        _ => false,
    }
}

/// An empty value is emitted as `name=` exactly when the parameter is
/// required or allows empty values; otherwise it is dropped.
pub fn serialize_empty_query_value(
    name: &str,
    required: bool,
    allow_reserved: bool,
    allow_empty_value: bool,
) -> (r: Vec<QueryPair>)
    ensures
        (allow_empty_value || required) ==> (r@.len() == 1 && view_pair(r@[0]) == (SpecQueryPair {
            key: name@,
            value: Seq::empty(),
            allow_reserved,
        })),
        !(allow_empty_value || required) ==> r@.len() == 0,
{
    if allow_empty_value || required {
        let mut out: Vec<QueryPair> = Vec::new();
        out.push(QueryPair { key: name.to_owned(), value: String::new(), allow_reserved });
        out
    } else {
        Vec::new()
    }
}

/// A scalar renders as one `name=value` pair.
pub fn serialize_query_scalar(name: &str, value: &Json, allow_reserved: bool) -> (r: Vec<
    QueryPair,
>)
    ensures
        r@.len() == 1,
        view_pair(r@[0]) == (SpecQueryPair {
            key: name@,
            value: spec_value_to_string(view_json(*value)),
            allow_reserved,
        }),
{
    let mut out: Vec<QueryPair> = Vec::new();
    out.push(QueryPair { key: name.to_owned(), value: value_to_string(value), allow_reserved });
    out
}

/// The rendered items of an array argument.
pub open spec fn spec_rendered_items(items: Seq<SpecJson>) -> Seq<Seq<char>> {
    items.map(|i: int, v: SpecJson| spec_value_to_string(v))
}

/// Rendered items joined with a separator.
pub open spec fn spec_join(items: Seq<Seq<char>>, sep: char) -> Seq<char>
    decreases items.len(),
{
    if items.len() == 0 {
        Seq::empty()
    } else if items.len() == 1 {
        items.last()
    } else {
        spec_join(items.drop_last(), sep) + seq![sep] + items.last()
    }
}

fn join_rendered(items: &Vec<Json>, sep: char) -> (r: String)
    ensures
        r@ == spec_join(spec_rendered_items(crate::json::view_arr(items@)), sep),
{
    let ghost va = crate::json::view_arr(items@);
    proof {
        crate::json::lemma_view_arr_index(items@);
    }
    let n = items.len();
    let mut out = String::new();
    let mut i: usize = 0;
    while i < n
        invariant
            n == items@.len(),
            va == crate::json::view_arr(items@),
            va.len() == n,
            forall|t: int| 0 <= t < n ==> va[t] == view_json(#[trigger] items@[t]),
            i <= n,
            out@ == spec_join(spec_rendered_items(va.take(i as int)), sep),
        decreases n - i,
    {
        proof {
            assert(spec_rendered_items(va.take(i + 1)).drop_last() =~= spec_rendered_items(
                va.take(i as int),
            ));
            assert(spec_rendered_items(va.take(i + 1)).last() == spec_value_to_string(
                va[i as int],
            ));
        }
        if i > 0 {
            push_char(&mut out, sep);
        }
        let rendered = value_to_string(&items[i]);
        out.append(rendered.as_str());
        i = i + 1;
    }
    proof {
        assert(va.take(n as int) =~= va);
    }
    out
}

/// Serialize an array argument per its style: `form` with explode repeats
/// the name; without explode it comma-joins; `spaceDelimited` and
/// `pipeDelimited` join with their separator; `deepObject` comma-joins.
pub fn serialize_query_array(
    name: &str,
    items: &Vec<Json>,
    style: QueryStyle,
    explode: bool,
    allow_reserved: bool,
) -> (r: Vec<QueryPair>)
    ensures
        ({
            let rendered = spec_rendered_items(crate::json::view_arr(items@));
            if style == QueryStyle::Form && explode {
                &&& r@.len() == rendered.len()
                &&& forall|i: int|
                    0 <= i < rendered.len() ==> view_pair(#[trigger] r@[i]) == (SpecQueryPair {
                        key: name@,
                        value: rendered[i],
                        allow_reserved,
                    })
            } else {
                &&& r@.len() == 1
                &&& view_pair(r@[0]) == (SpecQueryPair {
                    key: name@,
                    value: spec_join(
                        rendered,
                        if style == QueryStyle::SpaceDelimited {
                            ' '
                        } else if style == QueryStyle::PipeDelimited {
                            '|'
                        } else {
                            ','
                        },
                    ),
                    allow_reserved,
                })
            }
        }),
{
    let ghost va = crate::json::view_arr(items@);
    proof {
        crate::json::lemma_view_arr_index(items@);
    }
    if style == QueryStyle::Form && explode {
        let n = items.len();
        let mut out: Vec<QueryPair> = Vec::new();
        let mut i: usize = 0;
        while i < n
            invariant
                n == items@.len(),
                va == crate::json::view_arr(items@),
                va.len() == n,
                forall|t: int| 0 <= t < n ==> va[t] == view_json(#[trigger] items@[t]),
                i <= n,
                out@.len() == i,
                forall|t: int|
                    0 <= t < i ==> view_pair(#[trigger] out@[t]) == (SpecQueryPair {
                        key: name@,
                        value: spec_rendered_items(va)[t],
                        allow_reserved,
                    }),
            decreases n - i,
        {
            out.push(
                QueryPair {
                    key: name.to_owned(),
                    value: value_to_string(&items[i]),
                    allow_reserved,
                },
            );
            i = i + 1;
        }
        out
    } else {
        let sep: char = if style == QueryStyle::SpaceDelimited {
            ' '
        } else if style == QueryStyle::PipeDelimited {
            '|'
        } else {
            ','
        };
        let joined = join_rendered(items, sep);
        let mut out: Vec<QueryPair> = Vec::new();
        out.push(QueryPair { key: name.to_owned(), value: joined, allow_reserved });
        out
    }
}

/// An unreserved byte survives percent-encoding untouched.
pub open spec fn spec_unreserved(b: u8) -> bool {
    (0x41 <= b <= 0x5a)  // A-Z
    || (0x61 <= b <= 0x7a)  // a-z
    || (0x30 <= b <= 0x39)  // 0-9
    || b == 0x2d  // -
    || b == 0x2e  // .
    || b == 0x5f  // _
    || b == 0x7e  // ~
}

/// Whether a byte is unreserved.
pub fn is_unreserved(b: u8) -> (r: bool)
    ensures
        r == spec_unreserved(b),
{
    (0x41 <= b && b <= 0x5a) || (0x61 <= b && b <= 0x7a) || (0x30 <= b && b <= 0x39) || b == 0x2d
        || b == 0x2e || b == 0x5f || b == 0x7e
}

/// Reserved bytes that may stay raw when `allowReserved` is set. `&`, `=`
/// and `#` are excluded: they would corrupt the joined query string.
pub open spec fn spec_reserved_but_safe(b: u8) -> bool {
    ||| b == 0x3a  // :
    ||| b == 0x2f  // /
    ||| b == 0x3f  // ?
    ||| b == 0x5b  // [
    ||| b == 0x5d  // ]
    ||| b == 0x40  // @
    ||| b == 0x21  // !
    ||| b == 0x24  // $
    ||| b == 0x27  // '
    ||| b == 0x28  // (
    ||| b == 0x29  // )
    ||| b == 0x2a  // *
    ||| b == 0x2b  // +
    ||| b == 0x2c  // ,
    ||| b == 0x3b  // ;
}

/// Whether a byte is reserved but safe inside a query pair.
pub fn is_reserved_but_safe_in_pairs(b: u8) -> (r: bool)
    ensures
        r == spec_reserved_but_safe(b),
{
    b == 0x3a || b == 0x2f || b == 0x3f || b == 0x5b || b == 0x5d || b == 0x40 || b == 0x21 || b
        == 0x24 || b == 0x27 || b == 0x28 || b == 0x29 || b == 0x2a || b == 0x2b || b == 0x2c || b
        == 0x3b
}

/// Percent-encoding of a byte sequence: kept bytes pass as characters,
/// everything else becomes `%XX` with upper-case hex.
pub open spec fn spec_encode_query(bytes: Seq<u8>, allow_reserved: bool) -> Seq<char>
    decreases bytes.len(),
{
    if bytes.len() == 0 {
        Seq::empty()
    } else {
        let b = bytes.last();
        let rest = spec_encode_query(bytes.drop_last(), allow_reserved);
        if spec_unreserved(b) || (allow_reserved && spec_reserved_but_safe(b)) {
            rest + seq![b as char]
        } else {
            rest + seq![
                '%',
                spec_upper_hex_digit(b as int / 16),
                spec_upper_hex_digit(b as int % 16),
            ]
        }
    }
}

/// The upper-case hex digit for `d < 16`.
pub open spec fn spec_upper_hex_digit(d: int) -> char {
    if d == 0 {
        '0'
    } else if d == 1 {
        '1'
    } else if d == 2 {
        '2'
    } else if d == 3 {
        '3'
    } else if d == 4 {
        '4'
    } else if d == 5 {
        '5'
    } else if d == 6 {
        '6'
    } else if d == 7 {
        '7'
    } else if d == 8 {
        '8'
    } else if d == 9 {
        '9'
    } else if d == 10 {
        'A'
    } else if d == 11 {
        'B'
    } else if d == 12 {
        'C'
    } else if d == 13 {
        'D'
    } else if d == 14 {
        'E'
    } else {
        'F'
    }
}

fn upper_hex_digit(d: u8) -> (c: char)
    requires
        d < 16,
    ensures
        c == spec_upper_hex_digit(d as int),
{
    if d == 0 {
        '0'
    } else if d == 1 {
        '1'
    } else if d == 2 {
        '2'
    } else if d == 3 {
        '3'
    } else if d == 4 {
        '4'
    } else if d == 5 {
        '5'
    } else if d == 6 {
        '6'
    } else if d == 7 {
        '7'
    } else if d == 8 {
        '8'
    } else if d == 9 {
        '9'
    } else if d == 10 {
        'A'
    } else if d == 11 {
        'B'
    } else if d == 12 {
        'C'
    } else if d == 13 {
        'D'
    } else if d == 14 {
        'E'
    } else {
        'F'
    }
}

/// Percent-encode a query component over its UTF-8 bytes.
pub fn encode_query_component(s: &str, allow_reserved: bool) -> (r: String)
    ensures
        r@ == spec_encode_query(vstd::utf8::encode_utf8(s@), allow_reserved),
{
    let bytes = vstd::string::StrSliceExecFns::as_bytes_vec(s);
    let n = bytes.len();
    let mut out = String::new();
    let mut i: usize = 0;
    while i < n
        invariant
            n == bytes@.len(),
            bytes@ == vstd::utf8::encode_utf8(s@),
            i <= n,
            out@ == spec_encode_query(bytes@.take(i as int), allow_reserved),
        decreases n - i,
    {
        let b = bytes[i];
        proof {
            assert(bytes@.take(i + 1).drop_last() =~= bytes@.take(i as int));
            assert(bytes@.take(i + 1).last() == bytes@[i as int]);
        }
        let keep = is_unreserved(b) || (allow_reserved && is_reserved_but_safe_in_pairs(b));
        if keep {
            push_char(&mut out, b as char);
        } else {
            push_char(&mut out, '%');
            push_char(&mut out, upper_hex_digit(b / 16));
            push_char(&mut out, upper_hex_digit(b % 16));
        }
        i = i + 1;
    }
    proof {
        assert(bytes@.take(n as int) =~= bytes@);
    }
    out
}

/// ASCII lowercasing of one character.
pub open spec fn spec_ascii_lower(c: char) -> char {
    if 'A' <= c <= 'Z' {
        ((c as int) + 32) as char
    } else {
        c
    }
}

/// Whether a content type names an image: it begins with `image/`, ASCII
/// case-insensitively, with a nonempty remainder.
pub open spec fn spec_is_image_type(s: Seq<char>) -> bool {
    s.len() > 6 && (forall|i: int|
        0 <= i < 6 ==> spec_ascii_lower(s[i]) == #[trigger] "image/"@[i])
}

/// Decide whether a response's content type advertises an image.
pub fn is_image_content_type(content_type: Option<&String>) -> (r: bool)
    ensures
        r == match content_type {
            Some(ct) => spec_is_image_type(ct@),
            None => false,
        },
{
    let Some(ct) = content_type else { return false };
    proof {
        reveal_strlit("image/");
    }
    let n = ct.as_str().unicode_len();
    if n <= 6 {
        return false;
    }
    let mut i: usize = 0;
    while i < 6
        invariant
            content_type == Some(ct),
            n == ct@.len(),
            n > 6,
            i <= 6,
            forall|t: int| 0 <= t < i ==> spec_ascii_lower(ct@[t]) == #[trigger] "image/"@[t],
        decreases 6 - i,
    {
        proof {
            reveal_strlit("image/");
        }
        let c = ct.as_str().get_char(i);
        let lower: char = if 'A' <= c && c <= 'Z' {
            (((c as u32) + 32) as u8) as char
        } else {
            c
        };
        proof {
            vstd::utf8::char_is_scalar(c);
            assert(lower == spec_ascii_lower(ct@[i as int]));
        }
        let expected: char = match i {
            0 => 'i',
            1 => 'm',
            2 => 'a',
            3 => 'g',
            4 => 'e',
            _ => '/',
        };
        proof {
            assert(expected == "image/"@[i as int]);
        }
        if lower != expected {
            proof {
                assert(spec_ascii_lower(ct@[i as int]) != "image/"@[i as int]);
                assert(!spec_is_image_type(ct@));
            }
            return false;
        }
        i = i + 1;
    }
    true
}

/// A successful non-image response body as a JSON value: decoded text
/// when the bytes are valid UTF-8, else an object wrapping the bytes in
/// standard base64 with the content type alongside.
pub fn body_to_text_or_wrapped(bytes: Vec<u8>, content_type: Option<&String>) -> (r: Json)
    ensures
        match view_json(r) {
            SpecJson::Str(s) => vstd::utf8::valid_utf8(bytes@) && vstd::utf8::encode_utf8(s)
                == bytes@,
            SpecJson::Obj(es) => !vstd::utf8::valid_utf8(bytes@) && es == seq![
                ("encoding"@, SpecJson::Str("base64"@)),
                (
                    "mimeType"@,
                    match content_type {
                        Some(ct) => SpecJson::Str(ct@),
                        None => SpecJson::Null,
                    },
                ),
                ("data"@, SpecJson::Str(crate::b64::spec_b64_std(bytes@))),
            ],
            _ => false,
        },
{
    let ghost bv = bytes@;
    match crate::text::string_from_utf8_ref(&bytes) {
        Some(s) => {
            proof {
                broadcast use vstd::utf8::encode_utf8_valid_utf8;

                assert(vstd::utf8::valid_utf8(bytes@));
            }
            Json::Str(s)
        },
        None => {
            let encoded = crate::b64::b64_std_encode(&bytes);
            let mut fields: Vec<(String, Json)> = Vec::new();
            fields.push(("encoding".to_owned(), Json::Str("base64".to_owned())));
            let mime: Json = match content_type {
                Some(ct) => Json::Str(ct.as_str().to_owned()),
                None => Json::Null,
            };
            fields.push(("mimeType".to_owned(), mime));
            fields.push(("data".to_owned(), Json::Str(encoded)));
            let r = Json::Obj(fields);
            proof {
                crate::json::lemma_view_obj_index(r->Obj_0@);
                assert(r->Obj_0@.len() == 3);
                assert(r->Obj_0@[0].0@ == "encoding"@ && view_json(r->Obj_0@[0].1)
                    == SpecJson::Str("base64"@));
                assert(r->Obj_0@[1].0@ == "mimeType"@ && view_json(r->Obj_0@[1].1) == (
                match content_type {
                    Some(ct) => SpecJson::Str(ct@),
                    None => SpecJson::Null,
                }));
                assert(r->Obj_0@[2].0@ == "data"@ && view_json(r->Obj_0@[2].1) == SpecJson::Str(
                    crate::b64::spec_b64_std(bv),
                ));
                assert(view_json(r)->Obj_0 =~= seq![
                    ("encoding"@, SpecJson::Str("base64"@)),
                    (
                        "mimeType"@,
                        match content_type {
                            Some(ct) => SpecJson::Str(ct@),
                            None => SpecJson::Null,
                        },
                    ),
                    ("data"@, SpecJson::Str(crate::b64::spec_b64_std(bv))),
                ]);
            }
            r
        },
    }
}

/// Left-to-right, non-overlapping replacement of every occurrence of
/// `pat` in `s` by `val`, as `str::replace` performs it.
pub open spec fn spec_subst(s: Seq<char>, pat: Seq<char>, val: Seq<char>) -> Seq<char>
    decreases s.len(),
{
    if pat.len() == 0 || s.len() < pat.len() {
        s
    } else if s.take(pat.len() as int) == pat {
        val + spec_subst(s.skip(pat.len() as int), pat, val)
    } else {
        seq![s[0]] + spec_subst(s.skip(1), pat, val)
    }
}

/// The placeholder that names a path parameter in a template.
pub open spec fn spec_placeholder(name: Seq<char>) -> Seq<char> {
    seq!['{'] + name + seq!['}']
}

/// Replace every occurrence of `pat` in `s` by `val`, left to right and
/// without overlap.
pub fn replace_all(s: &str, pat: &str, val: &str) -> (r: String)
    requires
        pat@.len() > 0,
    ensures
        r@ == spec_subst(s@, pat@, val@),
{
    let n = s.unicode_len();
    let m = pat.unicode_len();
    let mut out = String::new();
    let mut i: usize = 0;
    proof {
        assert(s@.skip(0) =~= s@);
        assert(out@ + spec_subst(s@, pat@, val@) =~= spec_subst(s@, pat@, val@));
    }
    while i < n
        invariant
            n == s@.len(),
            m == pat@.len(),
            m > 0,
            i <= n,
            out@ + spec_subst(s@.skip(i as int), pat@, val@) == spec_subst(s@, pat@, val@),
        decreases n - i,
    {
        let matched = if n - i >= m {
            let mut k: usize = 0;
            let mut same = true;
            while k < m && same
                invariant
                    n == s@.len(),
                    m == pat@.len(),
                    i + m <= n,
                    k <= m,
                    same ==> forall|t: int|
                        0 <= t < k ==> s@.skip(i as int).take(m as int)[t] == #[trigger] pat@[t],
                    !same ==> s@.skip(i as int).take(m as int) != pat@,
                decreases m - k + (if same { 1int } else { 0int }),
            {
                if s.get_char(i + k) != pat.get_char(k) {
                    proof {
                        assert(s@.skip(i as int).take(m as int)[k as int] != pat@[k as int]);
                    }
                    same = false;
                } else {
                    proof {
                        assert(s@.skip(i as int).take(m as int)[k as int] == pat@[k as int]);
                    }
                    k = k + 1;
                }
            }
            proof {
                if same {
                    assert(s@.skip(i as int).take(m as int) =~= pat@);
                }
            }
            same
        } else {
            proof {
                assert(s@.skip(i as int).len() < m);
            }
            false
        };
        if matched {
            let ghost before = out@;
            out.append(val);
            proof {
                assert(spec_subst(s@.skip(i as int), pat@, val@) == val@ + spec_subst(
                    s@.skip(i as int).skip(m as int),
                    pat@,
                    val@,
                ));
                assert(s@.skip(i as int).skip(m as int) =~= s@.skip(i + m));
                assert(before + (val@ + spec_subst(s@.skip(i + m), pat@, val@)) =~= (before + val@)
                    + spec_subst(s@.skip(i + m), pat@, val@));
            }
            i = i + m;
        } else {
            let c = s.get_char(i);
            let ghost before = out@;
            push_char(&mut out, c);
            proof {
                let rem = s@.skip(i as int);
                assert(rem.len() >= 1 && rem[0] == s@[i as int]);
                if rem.len() >= m {
                    assert(spec_subst(rem, pat@, val@) == seq![rem[0]] + spec_subst(
                        rem.skip(1),
                        pat@,
                        val@,
                    ));
                } else {
                    assert(spec_subst(rem, pat@, val@) == rem);
                    assert(rem =~= seq![rem[0]] + rem.skip(1));
                    assert(spec_subst(rem.skip(1), pat@, val@) == rem.skip(1));
                }
                assert(rem.skip(1) =~= s@.skip(i + 1));
                assert(before + (seq![s@[i as int]] + spec_subst(s@.skip(i + 1), pat@, val@))
                    =~= before.push(s@[i as int]) + spec_subst(s@.skip(i + 1), pat@, val@));
            }
            i = i + 1;
        }
    }
    proof {
        assert(s@.skip(n as int) =~= Seq::<char>::empty());
        assert(spec_subst(Seq::<char>::empty(), pat@, val@) == Seq::<char>::empty());
        assert(out@ + Seq::<char>::empty() =~= out@);
    }
    out
}

/// Substitute one path parameter into a template: every `{name}`
/// placeholder is replaced by the rendered value.
pub fn substitute_path_param(path: &str, name: &str, value: &str) -> (r: String)
    ensures
        r@ == spec_subst(path@, spec_placeholder(name@), value@),
{
    let mut pat = String::new();
    push_char(&mut pat, '{');
    pat.append(name);
    push_char(&mut pat, '}');
    proof {
        assert(pat@ =~= spec_placeholder(name@));
    }
    replace_all(path, pat.as_str(), value)
}

} // verus!
