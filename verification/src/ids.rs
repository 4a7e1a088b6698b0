//! Identifier codecs: `server:name` prefixed identifiers used for
//! collision disambiguation, and their parsers.

use vstd::prelude::*;

verus! {

/// A sequence of characters containing no `':'`.
pub open spec fn colon_free(s: Seq<char>) -> bool {
    forall|i: int| 0 <= i < s.len() ==> s[i] != ':'
}

/// The prefixed form `server:name`.
pub open spec fn spec_prefixed(server: Seq<char>, name: Seq<char>) -> Seq<char> {
    server + seq![':'] + name
}

/// Build the prefixed identifier `server:name`.
pub fn make_prefixed(server: &str, name: &str) -> (r: String)
    requires
        server@.len() > 0,
        name@.len() > 0,
    ensures
        r@ == spec_prefixed(server@, name@),
{
    proof {
        reveal_strlit(":");
    }
    let mut out = server.to_owned();
    out.append(":");
    out.append(name);
    proof {
        assert(out@ =~= spec_prefixed(server@, name@));
    }
    out
}

/// Split a prefixed identifier on the **last** `':'`, rejecting empty parts.
///
/// `a:b:c` parses as `("a:b", "c")`. Returns `None` when the string has no
/// decomposition `server + ":" + name` with nonempty parts and a colon-free
/// `name`.
pub fn parse_prefixed(s: &str) -> (r: Option<(String, String)>)
    ensures
        match r {
            Some(p) => {
                &&& p.0@.len() > 0
                &&& p.1@.len() > 0
                &&& colon_free(p.1@)
                &&& s@ == spec_prefixed(p.0@, p.1@)
            },
            None => forall|a: Seq<char>, b: Seq<char>|
                s@ == #[trigger] spec_prefixed(a, b) && colon_free(b) ==> a.len() == 0 || b.len()
                    == 0,
        },
{
    let n = s.unicode_len();
    let mut j: usize = n;
    let mut found = false;
    let mut k: usize = 0;
    while j > 0 && !found
        invariant
            n == s@.len(),
            j <= n,
            found ==> j < n && k == j && s@[k as int] == ':',
            forall|t: int| j <= t < s@.len() && !(found && t == j) ==> s@[t] != ':',
        decreases j + (if found { 0int } else { 1int }),
    {
        if s.get_char(j - 1) == ':' {
            found = true;
            k = j - 1;
        }
        j = j - 1;
    }
    if !found {
        proof {
            lemma_no_colon_no_split(s@);
        }
        return None;
    }
    // `k` is the index of the last colon.
    assert(forall|t: int| k < t < s@.len() ==> s@[t] != ':');
    if k == 0 || k == n - 1 {
        proof {
            lemma_split_at_last_colon(s@, k as int);
        }
        return None;
    }
    let server = s.substring_char(0, k).to_owned();
    let name = s.substring_char(k + 1, n).to_owned();
    proof {
        assert(s@ =~= s@.subrange(0, k as int) + seq![s@[k as int]] + s@.subrange(
            k + 1,
            n as int,
        ));
    }
    Some((server, name))
}

/// When a string has no colon at all, it admits no prefixed decomposition.
proof fn lemma_no_colon_no_split(s: Seq<char>)
    requires
        colon_free(s),
    ensures
        forall|a: Seq<char>, b: Seq<char>|
            s == #[trigger] spec_prefixed(a, b) && colon_free(b) ==> a.len() == 0 || b.len() == 0,
{
    assert forall|a: Seq<char>, b: Seq<char>|
        s == #[trigger] spec_prefixed(a, b) && colon_free(b) implies a.len() == 0 || b.len()
        == 0 by {
        assert(s[a.len() as int] == ':');
    }
}

/// Any colon-free-suffix decomposition splits exactly at the last colon.
proof fn lemma_split_at_last_colon(s: Seq<char>, k: int)
    requires
        0 <= k < s.len(),
        s[k] == ':',
        forall|t: int| k < t < s.len() ==> s[t] != ':',
    ensures
        forall|a: Seq<char>, b: Seq<char>|
            s == #[trigger] spec_prefixed(a, b) && colon_free(b) ==> a.len() == k,
{
    assert forall|a: Seq<char>, b: Seq<char>|
        s == #[trigger] spec_prefixed(a, b) && colon_free(b) implies a.len() == k by {
        assert(s[a.len() as int] == ':');
        if a.len() < k {
            assert(s[k] == b[k - a.len() - 1]);
        }
    }
}

/// Split a prefixed identifier at the **last** `':'`, rejecting empty
/// parts: `a:b:c` splits as `("a:b", "c")`, as `parse_prefixed` does.
pub fn split_prefixed(s: &str) -> (r: Option<(String, String)>)
    ensures
        match r {
            Some(p) => {
                &&& p.0@.len() > 0
                &&& p.1@.len() > 0
                &&& colon_free(p.1@)
                &&& s@ == spec_prefixed(p.0@, p.1@)
            },
            None => forall|a: Seq<char>, b: Seq<char>|
                s@ == #[trigger] spec_prefixed(a, b) && colon_free(b) ==> a.len() == 0 || b.len()
                    == 0,
        },
{
    parse_prefixed(s)
}

/// Split at the **first** `':'`, rejecting empty parts: the prefix is
/// colon-free, the rest may itself hold colons. The collision-URN parser
/// uses this; on a generated URN the two directions agree, since both the
/// source id and the hex tail are colon-free.
fn split_first_colon(s: &str) -> (r: Option<(String, String)>)
    ensures
        match r {
            Some(p) => {
                &&& p.0@.len() > 0
                &&& p.1@.len() > 0
                &&& colon_free(p.0@)
                &&& s@ == spec_prefixed(p.0@, p.1@)
            },
            None => forall|a: Seq<char>, b: Seq<char>|
                s@ == #[trigger] spec_prefixed(a, b) && colon_free(a) ==> a.len() == 0 || b.len()
                    == 0,
        },
{
    let n = s.unicode_len();
    let mut j: usize = 0;
    let mut found = false;
    while j < n && !found
        invariant
            n == s@.len(),
            j <= n,
            found ==> j < n && s@[j as int] == ':',
            forall|t: int| 0 <= t < j ==> s@[t] != ':',
        decreases n - j + (if found { 0int } else { 1int }),
    {
        if s.get_char(j) == ':' {
            found = true;
        } else {
            j = j + 1;
        }
    }
    if !found {
        proof {
            lemma_no_colon_no_first_split(s@);
        }
        return None;
    }
    let k = j;
    if k == 0 || k == n - 1 {
        proof {
            lemma_split_at_first_colon(s@, k as int);
        }
        return None;
    }
    let prefix = s.substring_char(0, k).to_owned();
    let rest = s.substring_char(k + 1, n).to_owned();
    proof {
        assert(s@ =~= s@.subrange(0, k as int) + seq![s@[k as int]] + s@.subrange(
            k + 1,
            n as int,
        ));
    }
    Some((prefix, rest))
}

proof fn lemma_no_colon_no_first_split(s: Seq<char>)
    requires
        colon_free(s),
    ensures
        forall|a: Seq<char>, b: Seq<char>|
            s == #[trigger] spec_prefixed(a, b) && colon_free(a) ==> a.len() == 0 || b.len() == 0,
{
    assert forall|a: Seq<char>, b: Seq<char>|
        s == #[trigger] spec_prefixed(a, b) && colon_free(a) implies a.len() == 0 || b.len()
        == 0 by {
        assert(s[a.len() as int] == ':');
    }
}

/// Any colon-free-prefix decomposition splits exactly at the first colon.
proof fn lemma_split_at_first_colon(s: Seq<char>, k: int)
    requires
        0 <= k < s.len(),
        s[k] == ':',
        forall|t: int| 0 <= t < k ==> s[t] != ':',
    ensures
        forall|a: Seq<char>, b: Seq<char>|
            s == #[trigger] spec_prefixed(a, b) && colon_free(a) ==> a.len() == k,
{
    assert forall|a: Seq<char>, b: Seq<char>|
        s == #[trigger] spec_prefixed(a, b) && colon_free(a) implies a.len() == k by {
        assert(s[a.len() as int] == ':');
        if k < a.len() {
            assert(s[k] == a[k]);
        }
    }
}

/// Stable reference for a tool: `"<source_id>:<original_tool_name>"`.
pub fn stable_tool_ref(source_id: &str, original_name: &str) -> (r: String)
    ensures
        r@ == source_id@ + seq![':'] + original_name@,
{
    proof {
        reveal_strlit(":");
    }
    let mut out = source_id.to_owned();
    out.append(":");
    out.append(original_name);
    proof {
        assert(out@ =~= source_id@ + seq![':'] + original_name@);
    }
    out
}

/// The URN namespace prefix for resource collision identifiers.
pub open spec fn spec_resource_urn_prefix() -> Seq<char> {
    "urn:unrelated-mcp-gateway:resource:"@
}

/// The stable URN exposed for a resource whose URI collides across
/// sources: the source id and the SHA-256 of the original URI.
pub open spec fn spec_resource_urn(upstream: Seq<char>, original_uri: Seq<char>) -> Seq<char> {
    spec_resource_urn_prefix() + upstream + seq![':']
        + crate::digest::spec_sha256_hex_of_str(original_uri)
}

/// Build the collision URN for a resource.
pub fn resource_collision_urn(upstream_id: &str, original_uri: &str) -> (r: String)
    ensures
        r@ == spec_resource_urn(upstream_id@, original_uri@),
{
    let mut out = "urn:unrelated-mcp-gateway:resource:".to_owned();
    out.append(upstream_id);
    out.append(":");
    let h = crate::digest::sha256_hex_of_str(original_uri);
    out.append(h.as_str());
    proof {
        reveal_strlit(":");
        assert(out@ =~= spec_resource_urn(upstream_id@, original_uri@));
    }
    out
}

/// Parse a collision URN back to its source id and URI hash: the prefix is
/// stripped and the remainder split at its first `':'`.
pub fn parse_resource_collision_urn(uri: &str) -> (r: Option<(String, String)>)
    ensures
        match r {
            Some(p) => {
                &&& colon_free(p.0@)
                &&& uri@ == spec_resource_urn_prefix() + spec_prefixed(p.0@, p.1@)
            },
            None => forall|a: Seq<char>, b: Seq<char>|
                uri@ == spec_resource_urn_prefix() + #[trigger] spec_prefixed(a, b) && colon_free(
                    a,
                ) ==> a.len() == 0 || b.len() == 0,
        },
{
    let n = uri.unicode_len();
    let prefix = "urn:unrelated-mcp-gateway:resource:";
    let np = prefix.unicode_len();
    proof {
        reveal_strlit("urn:unrelated-mcp-gateway:resource:");
    }
    if n < np {
        proof {
            assert forall|a: Seq<char>, b: Seq<char>|
                uri@ == spec_resource_urn_prefix() + #[trigger] spec_prefixed(a, b) && colon_free(
                    a,
                ) implies a.len() == 0 || b.len() == 0 by {
                assert(uri@.len() >= spec_resource_urn_prefix().len());
            }
        }
        return None;
    }
    let head = uri.substring_char(0, np);
    if !crate::text::str_eq(head, prefix) {
        proof {
            assert forall|a: Seq<char>, b: Seq<char>|
                uri@ == spec_resource_urn_prefix() + #[trigger] spec_prefixed(a, b) && colon_free(
                    a,
                ) implies a.len() == 0 || b.len() == 0 by {
                assert(uri@.subrange(0, np as int) =~= spec_resource_urn_prefix());
            }
        }
        return None;
    }
    let rest = uri.substring_char(np, n);
    proof {
        assert(rest@ =~= uri@.skip(np as int));
    }
    match split_first_colon(rest) {
        Some(p) => {
            proof {
                assert(uri@ =~= uri@.subrange(0, np as int) + uri@.skip(np as int));
            }
            Some(p)
        },
        None => {
            proof {
                assert forall|a: Seq<char>, b: Seq<char>|
                    uri@ == spec_resource_urn_prefix() + #[trigger] spec_prefixed(a, b)
                        && colon_free(a) implies a.len() == 0 || b.len() == 0 by {
                    assert(uri@.skip(np as int) =~= spec_prefixed(a, b));
                    assert(rest@ == spec_prefixed(a, b));
                }
            }
            None
        },
    }
}

/// A generated collision URN parses back to its parts: the URN is the
/// prefix followed by the source id, a colon, and 64 separator-free hex
/// characters, and that decomposition with a colon-free prefix is the
/// only one. Together with `parse_resource_collision_urn`'s contract this
/// pins the parse of every generated URN to `(upstream_id, hex digest)`.
pub proof fn lemma_resource_urn_parses(upstream: Seq<char>, original_uri: Seq<char>)
    requires
        upstream.len() > 0,
        colon_free(upstream),
    ensures
        spec_resource_urn(upstream, original_uri) == spec_resource_urn_prefix() + spec_prefixed(
            upstream,
            crate::digest::spec_sha256_hex_of_str(original_uri),
        ),
        crate::digest::spec_sha256_hex_of_str(original_uri).len() == 64,
        forall|a: Seq<char>, b: Seq<char>|
            spec_resource_urn(upstream, original_uri) == spec_resource_urn_prefix()
                + #[trigger] spec_prefixed(a, b) && colon_free(a) ==> (a == upstream && b
                == crate::digest::spec_sha256_hex_of_str(original_uri)),
{
    let hex = crate::digest::spec_sha256_hex_of_str(original_uri);
    crate::digest::lemma_sha256_hex_shape(original_uri);
    let prefix = spec_resource_urn_prefix();
    let rest = spec_prefixed(upstream, hex);
    assert(spec_resource_urn(upstream, original_uri) =~= prefix + rest);
    assert(rest[upstream.len() as int] == ':');
    assert(forall|t: int| 0 <= t < upstream.len() ==> #[trigger] rest[t] != ':');
    assert forall|t: int|
        upstream.len() < t < rest.len() implies #[trigger] rest[t] != ':' by {
        assert(rest[t] == hex[t - upstream.len() - 1]);
    }
    assert forall|a: Seq<char>, b: Seq<char>|
        spec_resource_urn(upstream, original_uri) == spec_resource_urn_prefix()
            + #[trigger] spec_prefixed(a, b) && colon_free(a) implies (a == upstream && b
        == hex) by {
        let other = spec_prefixed(a, b);
        assert(rest =~= other) by {
            assert forall|t: int| 0 <= t < rest.len() implies rest[t] == other[t] by {
                assert((prefix + rest)[prefix.len() + t] == rest[t]);
                assert((prefix + other)[prefix.len() + t] == other[t]);
            }
        }
        lemma_sep_first(rest, upstream.len() as int, ':', a, b);
        assert(a =~= upstream);
        assert(b =~= hex);
    }
}

/// A JSON-RPC request id: a number or a string.
#[derive(Debug, PartialEq, Eq)]
pub enum RequestId {
    Num(i64),
    Str(String),
}

/// The mathematical view of a request id.
pub enum SpecRequestId {
    Num(int),
    Str(Seq<char>),
}

pub open spec fn view_request_id(id: RequestId) -> SpecRequestId {
    match id {
        RequestId::Num(n) => SpecRequestId::Num(n as int),
        RequestId::Str(s) => SpecRequestId::Str(s@),
    }
}

/// The JSON text of a request id: a decimal number, or a quoted string.
pub open spec fn spec_id_json(id: SpecRequestId) -> Seq<char> {
    match id {
        SpecRequestId::Num(n) => crate::text::spec_dec_i64(n),
        SpecRequestId::Str(s) => crate::canon::spec_quote(s),
    }
}

/// Render a request id as JSON text.
pub fn id_to_json(id: &RequestId) -> (r: String)
    ensures
        r@ == spec_id_json(view_request_id(*id)),
{
    match id {
        RequestId::Num(n) => crate::text::i64_to_string(*n),
        RequestId::Str(s) => {
            let v = crate::json::Json::Str(s.clone());
            let r = crate::canon::json_to_string(&v);
            r
        },
    }
}

/// The digit value of a decimal character; 10 when none.
pub open spec fn spec_digit_val(c: char) -> int {
    if c == '0' {
        0
    } else if c == '1' {
        1
    } else if c == '2' {
        2
    } else if c == '3' {
        3
    } else if c == '4' {
        4
    } else if c == '5' {
        5
    } else if c == '6' {
        6
    } else if c == '7' {
        7
    } else if c == '8' {
        8
    } else if c == '9' {
        9
    } else {
        10
    }
}

/// The number denoted by a digit sequence; `None` when a character is no
/// digit or the sequence is empty.
pub open spec fn spec_parse_digits(t: Seq<char>) -> Option<int>
    decreases t.len(),
{
    if t.len() == 0 {
        None
    } else if t.len() == 1 {
        if spec_digit_val(t[0]) < 10 {
            Some(spec_digit_val(t[0]))
        } else {
            None
        }
    } else {
        if spec_digit_val(t.last()) < 10 {
            match spec_parse_digits(t.drop_last()) {
                Some(v) => Some(v * 10 + spec_digit_val(t.last())),
                None => None,
            }
        } else {
            None
        }
    }
}

/// Parsing inverts decimal rendering.
pub proof fn lemma_parse_dec(n: nat)
    ensures
        spec_parse_digits(crate::text::spec_dec(n)) == Some(n as int),
    decreases n,
{
    if n < 10 {
        assert(spec_digit_val(crate::text::spec_digit(n as int)) == n);
    } else {
        lemma_parse_dec(n / 10);
        let t = crate::text::spec_dec(n);
        assert(t == crate::text::spec_dec(n / 10) + seq![
            crate::text::spec_digit((n % 10) as int),
        ]);
        assert(t.drop_last() =~= crate::text::spec_dec(n / 10));
        assert(spec_digit_val(t.last()) == n % 10);
        assert(t.len() >= 2) by {
            lemma_dec_len_min(n / 10);
        }
    }
}

proof fn lemma_dec_len_min(n: nat)
    ensures
        crate::text::spec_dec(n).len() >= 1,
    decreases n,
{
    if n >= 10 {
        lemma_dec_len_min(n / 10);
    }
}

/// The value of an escaped-hex digit; 16 when none. Only lower-case
/// digits appear in escapes the serializer writes.
pub open spec fn spec_hex_val(c: char) -> int {
    if c == '0' {
        0
    } else if c == '1' {
        1
    } else if c == '2' {
        2
    } else if c == '3' {
        3
    } else if c == '4' {
        4
    } else if c == '5' {
        5
    } else if c == '6' {
        6
    } else if c == '7' {
        7
    } else if c == '8' {
        8
    } else if c == '9' {
        9
    } else if c == 'a' {
        10
    } else if c == 'b' {
        11
    } else if c == 'c' {
        12
    } else if c == 'd' {
        13
    } else if c == 'e' {
        14
    } else if c == 'f' {
        15
    } else {
        16
    }
}

/// Undo string escaping, block by block from the front.
pub open spec fn spec_unescape(t: Seq<char>) -> Option<Seq<char>>
    decreases t.len(),
{
    if t.len() == 0 {
        Some(Seq::empty())
    } else if t.first() != '\\' {
        match spec_unescape(t.drop_first()) {
            Some(rest) => Some(seq![t.first()] + rest),
            None => None,
        }
    } else if t.len() >= 2 && t[1] == '"' {
        match spec_unescape(t.skip(2)) {
            Some(rest) => Some(seq!['"'] + rest),
            None => None,
        }
    } else if t.len() >= 2 && t[1] == '\\' {
        match spec_unescape(t.skip(2)) {
            Some(rest) => Some(seq!['\\'] + rest),
            None => None,
        }
    } else if t.len() >= 6 && t[1] == 'u' && t[2] == '0' && t[3] == '0' && spec_hex_val(t[4]) < 16
        && spec_hex_val(t[5]) < 16 {
        match spec_unescape(t.skip(6)) {
            Some(rest) => Some(
                seq![(((spec_hex_val(t[4]) * 16 + spec_hex_val(t[5])) as u8) as char)] + rest,
            ),
            None => None,
        }
    } else {
        None
    }
}

/// A character's code point is nonnegative, and a control character
/// survives the round trip through a byte.
proof fn lemma_char_code_facts(c: char)
    ensures
        0 <= c as int,
        (c as int) < 32 ==> ((c as int) as u8) as char == c,
{
}

/// Escaping prepends the first character's block.
proof fn lemma_escape_front(s: Seq<char>)
    requires
        s.len() > 0,
    ensures
        crate::canon::spec_escape(s) == crate::canon::spec_escape_char(s.first())
            + crate::canon::spec_escape(s.drop_first()),
    decreases s.len(),
{
    if s.len() == 1 {
        assert(s.drop_last() =~= Seq::<char>::empty());
        assert(s.drop_first() =~= Seq::<char>::empty());
        assert(s.first() == s.last());
        assert(crate::canon::spec_escape_char(s.first()) + crate::canon::spec_escape(
            s.drop_first(),
        ) =~= crate::canon::spec_escape(s));
    } else {
        lemma_escape_front(s.drop_last());
        assert(s.drop_last().first() == s.first());
        assert(s.drop_last().drop_first() =~= s.drop_first().drop_last());
        assert(s.drop_first().last() == s.last());
        assert(crate::canon::spec_escape(s.drop_first()) == crate::canon::spec_escape(
            s.drop_first().drop_last(),
        ) + crate::canon::spec_escape_char(s.drop_first().last()));
        assert(crate::canon::spec_escape(s) =~= crate::canon::spec_escape_char(s.first())
            + crate::canon::spec_escape(s.drop_first()));
    }
}

/// The hex digits the serializer writes decode to their value.
proof fn lemma_hex_val_of_digit(d: int)
    requires
        0 <= d < 16,
    ensures
        spec_hex_val(crate::digest::spec_hex_digit(d)) == d,
{
}

/// Unescaping inverts escaping.
pub proof fn lemma_unescape_escape(s: Seq<char>)
    ensures
        spec_unescape(crate::canon::spec_escape(s)) == Some(s),
    decreases s.len(),
{
    if s.len() == 0 {
    } else {
        lemma_escape_front(s);
        lemma_unescape_escape(s.drop_first());
        let c = s.first();
        let t = crate::canon::spec_escape(s);
        let blk = crate::canon::spec_escape_char(c);
        let rest = crate::canon::spec_escape(s.drop_first());
        if c == '"' {
            assert(t[0] == '\\' && t[1] == '"');
            assert(t.skip(2) =~= rest);
            assert(seq!['"'] + s.drop_first() =~= s);
        } else if c == '\\' {
            assert(t[0] == '\\' && t[1] == '\\');
            assert(t.skip(2) =~= rest);
            assert(seq!['\\'] + s.drop_first() =~= s);
        } else if (c as int) < 32 {
            lemma_char_code_facts(c);
            assert(t[0] == '\\' && t[1] == 'u' && t[2] == '0' && t[3] == '0');
            assert(t[4] == crate::digest::spec_hex_digit((c as int) / 16));
            assert(t[5] == crate::digest::spec_hex_digit((c as int) % 16));
            lemma_hex_val_of_digit((c as int) / 16);
            lemma_hex_val_of_digit((c as int) % 16);
            assert(t.skip(6) =~= rest);
            assert(spec_hex_val(t[4]) * 16 + spec_hex_val(t[5]) == c as int);
            assert((((c as int) as u8) as char) == c);
            assert(seq![c] + s.drop_first() =~= s);
        } else {
            assert(blk =~= seq![c]);
            assert(t.first() == c);
            assert(c != '\\');
            assert(t.drop_first() =~= rest);
            assert(seq![c] + s.drop_first() =~= s);
        }
    }
}

/// Parse JSON text as a request id: a quoted string, or a decimal number
/// within the 64-bit signed range.
pub open spec fn spec_parse_id_json(t: Seq<char>) -> Option<SpecRequestId> {
    if t.len() >= 2 && t.first() == '"' && t.last() == '"' {
        match spec_unescape(t.subrange(1, t.len() - 1)) {
            Some(s) => Some(SpecRequestId::Str(s)),
            None => None,
        }
    } else if t.len() >= 1 && t.first() == '-' {
        match spec_parse_digits(t.drop_first()) {
            Some(v) => if 0 - v >= i64::MIN as int {
                Some(SpecRequestId::Num(0 - v))
            } else {
                None
            },
            None => None,
        }
    } else {
        match spec_parse_digits(t) {
            Some(v) => if v <= i64::MAX as int {
                Some(SpecRequestId::Num(v))
            } else {
                None
            },
            None => None,
        }
    }
}

/// Rendering then parsing returns the id.
pub proof fn lemma_parse_id_roundtrip(id: SpecRequestId)
    requires
        id is Num ==> i64::MIN as int <= id->Num_0 <= i64::MAX as int,
    ensures
        spec_parse_id_json(spec_id_json(id)) == Some(id),
{
    match id {
        SpecRequestId::Num(n) => {
            let t = spec_id_json(id);
            if n >= 0 {
                lemma_parse_dec(n as nat);
                lemma_dec_len_min(n as nat);
                assert(t.first() != '"') by {
                    lemma_dec_first_is_digit(n as nat);
                }
                assert(t.first() != '-') by {
                    lemma_dec_first_is_digit(n as nat);
                }
                if t.len() >= 2 && t.first() == '"' && t.last() == '"' {
                    assert(false);
                }
            } else {
                let m = (0 - n) as nat;
                lemma_parse_dec(m);
                lemma_dec_len_min(m);
                assert(t == seq!['-'] + crate::text::spec_dec(m));
                assert(t.first() == '-');
                assert(t.drop_first() =~= crate::text::spec_dec(m));
                if t.len() >= 2 && t.first() == '"' && t.last() == '"' {
                    assert(false);
                }
            }
        },
        SpecRequestId::Str(inner) => {
            let t = spec_id_json(id);
            assert(t == seq!['"'] + crate::canon::spec_escape(inner) + seq!['"']);
            assert(t.first() == '"');
            assert(t.last() == '"');
            assert(t.len() >= 2);
            assert(t.subrange(1, t.len() - 1) =~= crate::canon::spec_escape(inner));
            lemma_unescape_escape(inner);
        },
    }
}

/// The first character of a decimal rendering is a digit.
proof fn lemma_dec_first_is_digit(n: nat)
    ensures
        spec_digit_val(crate::text::spec_dec(n).first()) < 10,
    decreases n,
{
    if n < 10 {
        assert(spec_digit_val(crate::text::spec_digit(n as int)) < 10);
    } else {
        lemma_dec_first_is_digit(n / 10);
        lemma_dec_len_min(n / 10);
        assert(crate::text::spec_dec(n).first() == crate::text::spec_dec(n / 10).first());
    }
}

fn digit_val(c: char) -> (r: u8)
    ensures
        r as int == spec_digit_val(c),
{
    if c == '0' {
        0
    } else if c == '1' {
        1
    } else if c == '2' {
        2
    } else if c == '3' {
        3
    } else if c == '4' {
        4
    } else if c == '5' {
        5
    } else if c == '6' {
        6
    } else if c == '7' {
        7
    } else if c == '8' {
        8
    } else if c == '9' {
        9
    } else {
        10
    }
}

fn hex_val(c: char) -> (r: u8)
    ensures
        r as int == spec_hex_val(c),
{
    if c == '0' {
        0
    } else if c == '1' {
        1
    } else if c == '2' {
        2
    } else if c == '3' {
        3
    } else if c == '4' {
        4
    } else if c == '5' {
        5
    } else if c == '6' {
        6
    } else if c == '7' {
        7
    } else if c == '8' {
        8
    } else if c == '9' {
        9
    } else if c == 'a' {
        10
    } else if c == 'b' {
        11
    } else if c == 'c' {
        12
    } else if c == 'd' {
        13
    } else if c == 'e' {
        14
    } else if c == 'f' {
        15
    } else {
        16
    }
}

/// Digit sequences denote nonnegative values.
proof fn lemma_parse_digits_nonneg(t: Seq<char>)
    ensures
        match spec_parse_digits(t) {
            Some(v) => v >= 0,
            None => true,
        },
    decreases t.len(),
{
    if t.len() > 1 {
        lemma_parse_digits_nonneg(t.drop_last());
    }
}

/// A digit sequence's value dominates each prefix's value.
proof fn lemma_parse_digits_prefix(t: Seq<char>, k: int)
    requires
        0 <= k < t.len(),
        spec_parse_digits(t) is Some,
    ensures
        spec_parse_digits(t.take(k + 1)) is Some,
        spec_parse_digits(t.take(k + 1)).unwrap() <= spec_parse_digits(t).unwrap(),
    decreases t.len() - k,
{
    if k + 1 == t.len() {
        assert(t.take(k + 1) =~= t);
    } else {
        lemma_parse_digits_prefix(t, k + 1);
        let u = t.take(k + 2);
        assert(u.drop_last() =~= t.take(k + 1));
        assert(u.last() == t[k + 1]);
        lemma_parse_digits_nonneg(t.take(k + 1));
        assert(spec_parse_digits(u) is Some ==> spec_parse_digits(u.drop_last()) is Some);
        lemma_parse_digits_nonneg(u);
    }
}

/// Parse a digit run exactly: values beyond `u64` report overflow.
fn parse_digits_u64(s: &str, from: usize, upto: usize) -> (r: Option<u64>)
    requires
        from <= upto <= s@.len(),
    ensures
        match r {
            Some(v) => spec_parse_digits(s@.subrange(from as int, upto as int)) == Some(v as int),
            None => match spec_parse_digits(s@.subrange(from as int, upto as int)) {
                Some(v) => v > u64::MAX,
                None => true,
            },
        },
{
    if from == upto {
        return None;
    }
    let ghost full = s@.subrange(from as int, upto as int);
    let mut acc: u64 = 0;
    let mut i: usize = from;
    proof {
        assert(full.take(0) =~= Seq::<char>::empty());
    }
    while i < upto
        invariant
            from <= i <= upto <= s@.len(),
            from < upto,
            full == s@.subrange(from as int, upto as int),
            i > from ==> spec_parse_digits(full.take(i - from)) == Some(acc as int),
            i == from ==> acc == 0,
        decreases upto - i,
    {
        let c = s.get_char(i);
        let d = digit_val(c);
        proof {
            assert(full.take(i - from + 1).drop_last() =~= full.take(i - from));
            assert(full.take(i - from + 1).last() == s@[i as int]);
        }
        if d >= 10 {
            proof {
                if spec_parse_digits(full) is Some {
                    lemma_parse_digits_prefix(full, i - from);
                    assert(spec_parse_digits(full.take(i - from + 1)) is Some);
                    if i - from + 1 < full.len() {
                    }
                    assert(spec_digit_val(full.take(i - from + 1).last()) < 10);
                }
            }
            return None;
        }
        if acc > 1844674407370955161u64 || (acc == 1844674407370955161u64 && d > 5) {
            // The next step would exceed u64, so the value is out of range.
            proof {
                if spec_parse_digits(full) is Some {
                    lemma_parse_digits_prefix(full, i - from);
                    lemma_parse_digits_nonneg(full.take(i - from));
                    assert(spec_parse_digits(full.take(i - from + 1)).unwrap() == acc * 10 + d);
                    assert(acc * 10 + d > u64::MAX);
                }
            }
            return None;
        }
        acc = acc * 10 + (d as u64);
        i = i + 1;
    }
    proof {
        assert(full.take(upto - from) =~= full);
    }
    Some(acc)
}

/// Parse JSON text as a request id, mirroring `spec_parse_id_json`.
pub fn parse_id_json(s: &str) -> (r: Option<RequestId>)
    ensures
        match r {
            Some(id) => spec_parse_id_json(s@) == Some(view_request_id(id)),
            None => spec_parse_id_json(s@) is None,
        },
{
    let n = s.unicode_len();
    if n >= 2 && s.get_char(0) == '"' && s.get_char(n - 1) == '"' {
        let ghost inner = s@.subrange(1, n - 1);
        let mut out = String::new();
        let mut i: usize = 1;
        proof {
            assert(inner.skip(0) =~= inner);
        }
        while i < n - 1
            invariant
                n == s@.len(),
                n >= 2,
                s@[0] == '"',
                s@[n as int - 1] == '"',
                inner == s@.subrange(1, n as int - 1),
                1 <= i <= n - 1,
                spec_unescape(inner) == match spec_unescape(inner.skip(i - 1)) {
                    Some(rest) => Some(out@ + rest),
                    None => None::<Seq<char>>,
                },
            decreases n - i,
        {
            let c = s.get_char(i);
            proof {
                assert(inner.skip(i - 1).first() == s@[i as int]);
                assert(inner.skip(i - 1).drop_first() =~= inner.skip(i as int));
                if n - 1 - i >= 2 {
                    assert(inner.skip(i - 1)[1] == s@[i + 1]);
                }
                if n - 1 - i >= 6 {
                    assert(inner.skip(i - 1)[2] == s@[i + 2]);
                    assert(inner.skip(i - 1)[3] == s@[i + 3]);
                    assert(inner.skip(i - 1)[4] == s@[i + 4]);
                    assert(inner.skip(i - 1)[5] == s@[i + 5]);
                }
            }
            if c != '\\' {
                crate::text::push_char(&mut out, c);
                i = i + 1;
            } else {
                if n - 1 - i < 2 {
                    return None;
                }
                let e = s.get_char(i + 1);
                if e == '"' {
                    crate::text::push_char(&mut out, '"');
                    proof {
                        assert(inner.skip(i - 1).skip(2) =~= inner.skip(i + 1));
                    }
                    i = i + 2;
                } else if e == '\\' {
                    crate::text::push_char(&mut out, '\\');
                    proof {
                        assert(inner.skip(i - 1).skip(2) =~= inner.skip(i + 1));
                    }
                    i = i + 2;
                } else if e == 'u' {
                    if n - 1 - i < 6 {
                        return None;
                    }
                    if s.get_char(i + 2) != '0' || s.get_char(i + 3) != '0' {
                        return None;
                    }
                    let h1 = hex_val(s.get_char(i + 4));
                    let h2 = hex_val(s.get_char(i + 5));
                    if h1 >= 16 || h2 >= 16 {
                        return None;
                    }
                    crate::text::push_char(&mut out, ((h1 * 16 + h2) as u8) as char);
                    proof {
                        assert(inner.skip(i - 1).skip(6) =~= inner.skip(i + 5));
                    }
                    i = i + 6;
                } else {
                    return None;
                }
            }
        }
        proof {
            assert(inner.skip(n as int - 1 - 1) =~= Seq::<char>::empty());
            assert(out@ + Seq::<char>::empty() =~= out@);
        }
        return Some(RequestId::Str(out));
    }
    // A decimal number, possibly negative.
    let neg = n >= 1 && s.get_char(0) == '-';
    let from: usize = if neg {
        1
    } else {
        0
    };
    let v = match parse_digits_u64(s, from, n) {
        Some(v) => v,
        None => {
            proof {
                if !neg {
                    assert(s@.subrange(0, n as int) =~= s@);
                } else {
                    assert(s@.subrange(1, n as int) =~= s@.drop_first());
                }
            }
            return None;
        },
    };
    proof {
        if !neg {
            assert(s@.subrange(0, n as int) =~= s@);
        } else {
            assert(s@.subrange(1, n as int) =~= s@.drop_first());
        }
    }
    if neg {
        if v > 9223372036854775808u64 {
            return None;
        }
        if v == 9223372036854775808u64 {
            return Some(RequestId::Num(i64::MIN));
        }
        return Some(RequestId::Num(0i64 - (v as i64)));
    }
    if v > i64::MAX as u64 {
        return None;
    }
    Some(RequestId::Num(v as i64))
}

/// The opaque proxied-id prefix.
pub open spec fn spec_opaque_prefix() -> Seq<char> {
    "unrelated.proxy"@
}

/// The readable proxied-id prefix, a strict extension of the opaque one.
pub open spec fn spec_readable_prefix() -> Seq<char> {
    "unrelated.proxy.r"@
}

/// The base64url text of a string's UTF-8 bytes.
pub open spec fn spec_b64_of_str(s: Seq<char>) -> Seq<char> {
    crate::b64::spec_b64(vstd::utf8::encode_utf8(s))
}

/// An opaque proxied request id:
/// `unrelated.proxy.<b64(upstream)>.<b64(json(id))>`.
pub open spec fn spec_opaque_id(upstream: Seq<char>, id: SpecRequestId) -> Seq<char> {
    spec_opaque_prefix() + seq!['.'] + spec_b64_of_str(upstream) + seq!['.'] + spec_b64_of_str(
        spec_id_json(id),
    )
}

/// A readable proxied request id:
/// `unrelated.proxy.r.<upstream>.<b64(json(id))>`.
pub open spec fn spec_readable_id(upstream: Seq<char>, id: SpecRequestId) -> Seq<char> {
    spec_readable_prefix() + seq!['.'] + upstream + seq!['.'] + spec_b64_of_str(spec_id_json(id))
}

/// A request id whose number fits the signed 64-bit range.
pub open spec fn spec_id_in_range(id: SpecRequestId) -> bool {
    id is Num ==> i64::MIN as int <= id->Num_0 <= i64::MAX as int
}

/// Wrap an upstream id and an original request id into a proxied id.
pub fn make_proxied_request_id(
    ns: crate::config::RequestIdNamespacing,
    upstream_id: &str,
    original: &RequestId,
) -> (r: String)
    ensures
        ns == crate::config::RequestIdNamespacing::Opaque ==> r@ == spec_opaque_id(
            upstream_id@,
            view_request_id(*original),
        ),
        ns == crate::config::RequestIdNamespacing::Readable ==> r@ == spec_readable_id(
            upstream_id@,
            view_request_id(*original),
        ),
{
    let json = id_to_json(original);
    let json_bytes = vstd::string::StrSliceExecFns::as_bytes_vec(json.as_str());
    let json_b64 = crate::b64::b64_encode(&json_bytes);
    match ns {
        crate::config::RequestIdNamespacing::Opaque => {
            let up_bytes = vstd::string::StrSliceExecFns::as_bytes_vec(upstream_id);
            let up_b64 = crate::b64::b64_encode(&up_bytes);
            let mut out = "unrelated.proxy".to_owned();
            crate::text::push_char(&mut out, '.');
            out.append(up_b64.as_str());
            crate::text::push_char(&mut out, '.');
            out.append(json_b64.as_str());
            proof {
                assert(out@ =~= spec_opaque_id(upstream_id@, view_request_id(*original)));
            }
            out
        },
        crate::config::RequestIdNamespacing::Readable => {
            let mut out = "unrelated.proxy.r".to_owned();
            crate::text::push_char(&mut out, '.');
            out.append(upstream_id);
            crate::text::push_char(&mut out, '.');
            out.append(json_b64.as_str());
            proof {
                assert(out@ =~= spec_readable_id(upstream_id@, view_request_id(*original)));
            }
            out
        },
    }
}

/// An encoding contains no `'.'`.
proof fn lemma_b64_dot_free(d: Seq<u8>)
    ensures
        forall|k: int|
            0 <= k < crate::b64::spec_b64(d).len() ==> (#[trigger] crate::b64::spec_b64(d)[k])
                != '.',
{
    crate::b64::lemma_b64_shape(d);
    crate::b64::lemma_b64_val_dot();
    assert forall|k: int| 0 <= k < crate::b64::spec_b64(d).len() implies (
    #[trigger] crate::b64::spec_b64(d)[k]) != '.' by {
        assert(crate::b64::spec_b64_val(crate::b64::spec_b64(d)[k]) < 64);
    }
}

/// A readable id is never an opaque id: at the position after the opaque
/// prefix and its dot, the readable form holds `r` followed by a dot,
/// which no base64url segment can reproduce.
pub proof fn lemma_readable_opaque_disjoint(
    u1: Seq<char>,
    id1: SpecRequestId,
    u2: Seq<char>,
    id2: SpecRequestId,
)
    ensures
        spec_readable_id(u1, id1) != spec_opaque_id(u2, id2),
{
    reveal_strlit("unrelated.proxy");
    reveal_strlit("unrelated.proxy.r");
    let rs = spec_readable_id(u1, id1);
    let os = spec_opaque_id(u2, id2);
    if rs == os {
        let up2 = spec_b64_of_str(u2);
        crate::b64::lemma_b64_len(vstd::utf8::encode_utf8(u2));
        lemma_b64_dot_free(vstd::utf8::encode_utf8(u2));
        assert(rs[15] == '.' && rs[16] == 'r' && rs[17] == '.');
        assert(os[15] == '.');
        if up2.len() == 0 {
            assert(os[16] == '.');
        } else if up2.len() == 1 {
            assert(false);
        } else {
            assert(os[16] == up2[0]);
            assert(os[17] == up2[1]);
            assert(up2[1] != '.');
        }
    }
}

/// Any split of `a + [sep] + b` with a separator-free `b` puts the
/// separator at the last occurrence.
proof fn lemma_sep_last(s: Seq<char>, k: int, sep: char, a: Seq<char>, b: Seq<char>)
    requires
        0 <= k < s.len(),
        s[k] == sep,
        forall|t: int| k < t < s.len() ==> s[t] != sep,
        s == a + seq![sep] + b,
        forall|t: int| 0 <= t < b.len() ==> b[t] != sep,
    ensures
        a.len() == k,
        a == s.subrange(0, k),
        b == s.subrange(k + 1, s.len() as int),
{
    assert(s[a.len() as int] == sep);
    if a.len() < k {
        assert(s[k] == b[k - a.len() - 1]);
    }
    assert(a =~= s.subrange(0, k));
    assert(b =~= s.subrange(k + 1, s.len() as int));
}

/// Any split of `a + [sep] + b` with a separator-free `a` puts the
/// separator at the first occurrence.
proof fn lemma_sep_first(s: Seq<char>, k: int, sep: char, a: Seq<char>, b: Seq<char>)
    requires
        0 <= k < s.len(),
        s[k] == sep,
        forall|t: int| 0 <= t < k ==> s[t] != sep,
        s == a + seq![sep] + b,
        forall|t: int| 0 <= t < a.len() ==> a[t] != sep,
    ensures
        a.len() == k,
        a == s.subrange(0, k),
        b == s.subrange(k + 1, s.len() as int),
{
    assert(s[a.len() as int] == sep);
    if k < a.len() {
        assert(s[k] == a[k]);
    }
    assert(a =~= s.subrange(0, k));
    assert(b =~= s.subrange(k + 1, s.len() as int));
}

/// What a successful readable parse attests about the input: it carries
/// the readable prefix, the returned upstream id is the text between the
/// prefix and the last dot, and the id was decoded from the base64url
/// tail.
pub open spec fn spec_readable_parse_shape(s: Seq<char>, u: Seq<char>, id: SpecRequestId) -> bool {
    &&& s.len() > 18
    &&& s.subrange(0, 18) == "unrelated.proxy.r."@
    &&& exists|k: int|
        {
            &&& 18 <= k < s.len()
            &&& s[k] == '.'
            &&& (forall|t: int| k < t < s.len() ==> s[t] != '.')
            &&& u == s.subrange(18, k)
            &&& (exists|bytes: Seq<u8>|
                s.subrange(k + 1, s.len() as int) == #[trigger] crate::b64::spec_b64(bytes)
                    && spec_parse_id_json(vstd::utf8::decode_utf8(bytes)) == Some(id))
        }
}

/// What a successful opaque parse attests about the input: the opaque
/// prefix, then two base64url segments split at the first dot, decoding
/// to the returned upstream id and original id.
pub open spec fn spec_opaque_parse_shape(s: Seq<char>, u: Seq<char>, id: SpecRequestId) -> bool {
    &&& s.len() > 16
    &&& s.subrange(0, 16) == "unrelated.proxy."@
    &&& exists|k: int|
        {
            &&& 16 <= k < s.len()
            &&& s[k] == '.'
            &&& (forall|t: int| 16 <= t < k ==> s[t] != '.')
            &&& (exists|ub: Seq<u8>|
                s.subrange(16, k) == #[trigger] crate::b64::spec_b64(ub)
                    && vstd::utf8::decode_utf8(ub) == u)
            &&& (exists|bytes: Seq<u8>|
                s.subrange(k + 1, s.len() as int) == #[trigger] crate::b64::spec_b64(bytes)
                    && spec_parse_id_json(vstd::utf8::decode_utf8(bytes)) == Some(id))
        }
}

/// Parse a proxied request id back to `(upstream_id, original_id)`.
///
/// The readable prefix is checked first; it extends the opaque prefix, so
/// the other order would misread every readable id. Together with
/// `make_proxied_request_id` this is exact: whatever `make` produced,
/// parsing returns the original pair, and a readable id never parses as
/// opaque nor an opaque id as readable.
#[verifier::rlimit(100)]
pub fn parse_proxied_request_id(s: &str) -> (r: Option<(String, RequestId)>)
    ensures
        forall|u: Seq<char>, id: SpecRequestId|
            spec_id_in_range(id) && s@ == #[trigger] spec_readable_id(u, id) ==> (match r {
                Some(p) => p.0@ == u && view_request_id(p.1) == id,
                None => false,
            }),
        forall|u: Seq<char>, id: SpecRequestId|
            spec_id_in_range(id) && s@ == #[trigger] spec_opaque_id(u, id) ==> (match r {
                Some(p) => p.0@ == u && view_request_id(p.1) == id,
                None => false,
            }),
        // A parse result never invents content: it attests the input's
        // own structure, so strings of neither shape yield no pair.
        match r {
            Some(p) => spec_readable_parse_shape(s@, p.0@, view_request_id(p.1))
                || spec_opaque_parse_shape(s@, p.0@, view_request_id(p.1)),
            None => true,
        },
{
    proof {
        reveal_strlit("unrelated.proxy");
        reveal_strlit("unrelated.proxy.r");
        reveal_strlit("unrelated.proxy.r.");
        reveal_strlit("unrelated.proxy.");
    }
    let n = s.unicode_len();
    if n >= 18 && crate::text::str_eq(s.substring_char(0, 18), "unrelated.proxy.r.") {
        // Readable: the upstream id runs to the last dot.
        proof {
            assert(s@.subrange(0, 18) =~= "unrelated.proxy.r."@);
            assert forall|u: Seq<char>, id: SpecRequestId|
                s@ != #[trigger] spec_opaque_id(u, id) by {
                if s@ == spec_opaque_id(u, id) {
                    let up2 = spec_b64_of_str(u);
                    crate::b64::lemma_b64_len(vstd::utf8::encode_utf8(u));
                    lemma_b64_dot_free(vstd::utf8::encode_utf8(u));
                    assert(s@[16] == '.' || s@.len() > 16);
                    if up2.len() == 0 {
                        assert(s@[16] == '.');
                        assert("unrelated.proxy.r."@[16] == 'r');
                    } else if up2.len() == 1 {
                        assert(false);
                    } else {
                        assert(s@[16] == up2[0]);
                        assert(s@[17] == up2[1]);
                        assert("unrelated.proxy.r."@[17] == '.');
                        assert(up2[1] != '.');
                    }
                }
            }
        }
        let mut j: usize = n;
        let mut found = false;
        let mut k: usize = 0;
        while j > 18 && !found
            invariant
                n == s@.len(),
                18 <= j <= n,
                found ==> j < n && k == j && s@[k as int] == '.',
                found ==> k >= 18,
                forall|t: int| j <= t < s@.len() && !(found && t == j) ==> s@[t] != '.',
            decreases j + (if found { 0int } else { 1int }),
        {
            if s.get_char(j - 1) == '.' {
                found = true;
                k = j - 1;
            }
            j = j - 1;
        }
        if !found {
            proof {
                assert forall|u: Seq<char>, id: SpecRequestId|
                    spec_id_in_range(id) && s@ == #[trigger] spec_readable_id(u, id) implies false by {
                    let enc = spec_b64_of_str(spec_id_json(id));
                    assert(s@[s@.len() - enc.len() as int - 1] == '.');
                    assert(s@.len() - enc.len() - 1 >= 18 - 1);
                }
            }
            return None;
        }
        let upstream = s.substring_char(18, k).to_owned();
        let id_b64 = s.substring_char(k + 1, n);
        proof {
            assert(upstream@ =~= s@.subrange(18, k as int));
            assert(id_b64@ =~= s@.subrange(k + 1, n as int));
        }
        let decoded = match crate::b64::b64_decode(id_b64) {
            Some(d) => d,
            None => {
                proof {
                    lemma_readable_reject(s@, k as int);
                }
                return None;
            },
        };
        let ghost db = decoded@;
        let text = match crate::text::string_from_utf8(decoded) {
            Some(t) => t,
            None => {
                proof {
                    broadcast use vstd::utf8::encode_utf8_valid_utf8;

                    lemma_readable_reject(s@, k as int);
                    assert forall|u: Seq<char>, id2: SpecRequestId|
                        spec_id_in_range(id2) && s@ == #[trigger] spec_readable_id(
                            u,
                            id2,
                        ) implies false by {
                        crate::b64::lemma_b64_injective(
                            db,
                            vstd::utf8::encode_utf8(spec_id_json(id2)),
                        );
                    }
                }
                return None;
            },
        };
        let id = match parse_id_json(text.as_str()) {
            Some(id) => id,
            None => {
                proof {
                    broadcast use vstd::utf8::encode_utf8_decode_utf8;

                    lemma_readable_reject(s@, k as int);
                    assert forall|u: Seq<char>, id2: SpecRequestId|
                        spec_id_in_range(id2) && s@ == #[trigger] spec_readable_id(
                            u,
                            id2,
                        ) implies false by {
                        crate::b64::lemma_b64_injective(
                            db,
                            vstd::utf8::encode_utf8(spec_id_json(id2)),
                        );
                        assert(vstd::utf8::encode_utf8(text@) == vstd::utf8::encode_utf8(
                            spec_id_json(id2),
                        ));
                        assert(vstd::utf8::decode_utf8(vstd::utf8::encode_utf8(text@))
                            == text@);
                        assert(vstd::utf8::decode_utf8(
                            vstd::utf8::encode_utf8(spec_id_json(id2)),
                        ) == spec_id_json(id2));
                        lemma_parse_id_roundtrip(id2);
                    }
                }
                return None;
            },
        };
        proof {
            broadcast use vstd::utf8::encode_utf8_decode_utf8;

            assert forall|u: Seq<char>, id2: SpecRequestId|
                spec_id_in_range(id2) && s@ == #[trigger] spec_readable_id(u, id2) implies (
            upstream@ == u && view_request_id(id) == id2) by {
                reveal_strlit("unrelated.proxy.r");
                let enc = spec_b64_of_str(spec_id_json(id2));
                lemma_b64_dot_free(vstd::utf8::encode_utf8(spec_id_json(id2)));
                assert(s@.subrange(18, n as int) =~= u + seq!['.'] + enc);
                lemma_sep_last(s@.subrange(18, n as int), k - 18, '.', u, enc);
                assert(s@.subrange(18, n as int).subrange(0, k - 18) =~= s@.subrange(18, k as int));
                assert(s@.subrange(18, n as int).subrange(k - 18 + 1, n - 18) =~= s@.subrange(
                    k + 1,
                    n as int,
                ));
                assert(upstream@ == u);
                assert(id_b64@ == enc);
                crate::b64::lemma_b64_injective(
                    db,
                    vstd::utf8::encode_utf8(spec_id_json(id2)),
                );
                assert(vstd::utf8::encode_utf8(text@) == vstd::utf8::encode_utf8(
                    spec_id_json(id2),
                ));
                assert(vstd::utf8::decode_utf8(vstd::utf8::encode_utf8(text@)) == text@);
                assert(vstd::utf8::decode_utf8(
                    vstd::utf8::encode_utf8(spec_id_json(id2)),
                ) == spec_id_json(id2));
                assert(text@ == spec_id_json(id2));
                lemma_parse_id_roundtrip(id2);
            }
        }
        proof {
            broadcast use vstd::utf8::encode_utf8_decode_utf8;

            assert(spec_readable_parse_shape(s@, upstream@, view_request_id(id))) by {
                assert(s@[k as int] == '.');
                assert(upstream@ == s@.subrange(18, k as int));
                assert(s@.subrange(k + 1, n as int) == crate::b64::spec_b64(db));
                assert(vstd::utf8::decode_utf8(vstd::utf8::encode_utf8(text@)) == text@);
                assert(vstd::utf8::decode_utf8(db) == text@);
                assert(spec_parse_id_json(vstd::utf8::decode_utf8(db)) == Some(
                    view_request_id(id),
                ));
            }
        }
        return Some((upstream, id));
    }
    if n >= 16 && crate::text::str_eq(s.substring_char(0, 16), "unrelated.proxy.") {
        // Opaque: the encoded upstream id runs to the first dot after the
        // prefix.
        proof {
            assert(s@.subrange(0, 16) =~= "unrelated.proxy."@);
            assert forall|u: Seq<char>, id: SpecRequestId|
                s@ != #[trigger] spec_readable_id(u, id) by {
                if s@ == spec_readable_id(u, id) {
                    assert(s@.len() >= 18);
                    assert(s@.subrange(0, 18) =~= "unrelated.proxy.r."@);
                }
            }
        }
        let mut j: usize = 16;
        let mut found = false;
        while j < n && !found
            invariant
                n == s@.len(),
                16 <= j <= n,
                found ==> j < n && s@[j as int] == '.',
                forall|t: int| 16 <= t < j ==> s@[t] != '.',
            decreases n - j + (if found { 0int } else { 1int }),
        {
            if s.get_char(j) == '.' {
                found = true;
            } else {
                j = j + 1;
            }
        }
        if !found {
            proof {
                assert forall|u: Seq<char>, id: SpecRequestId|
                    spec_id_in_range(id) && s@ == #[trigger] spec_opaque_id(u, id) implies false by {
                    let up = spec_b64_of_str(u);
                    assert(s@[16 + up.len() as int] == '.');
                }
            }
            return None;
        }
        let k = j;
        let up_b64 = s.substring_char(16, k);
        let id_b64 = s.substring_char(k + 1, n);
        proof {
            assert(up_b64@ =~= s@.subrange(16, k as int));
            assert(id_b64@ =~= s@.subrange(k + 1, n as int));
        }
        let up_bytes = match crate::b64::b64_decode(up_b64) {
            Some(d) => d,
            None => {
                proof {
                    lemma_opaque_reject(s@, k as int);
                }
                return None;
            },
        };
        let ghost ub = up_bytes@;
        let upstream = match crate::text::string_from_utf8(up_bytes) {
            Some(t) => t,
            None => {
                proof {
                    broadcast use vstd::utf8::encode_utf8_valid_utf8;

                    lemma_opaque_reject(s@, k as int);
                    assert forall|u: Seq<char>, id2: SpecRequestId|
                        spec_id_in_range(id2) && s@ == #[trigger] spec_opaque_id(
                            u,
                            id2,
                        ) implies false by {
                        crate::b64::lemma_b64_injective(ub, vstd::utf8::encode_utf8(u));
                    }
                }
                return None;
            },
        };
        let id_bytes = match crate::b64::b64_decode(id_b64) {
            Some(d) => d,
            None => {
                proof {
                    lemma_opaque_reject(s@, k as int);
                }
                return None;
            },
        };
        let ghost db = id_bytes@;
        let text = match crate::text::string_from_utf8(id_bytes) {
            Some(t) => t,
            None => {
                proof {
                    broadcast use vstd::utf8::encode_utf8_valid_utf8;

                    lemma_opaque_reject(s@, k as int);
                    assert forall|u: Seq<char>, id2: SpecRequestId|
                        spec_id_in_range(id2) && s@ == #[trigger] spec_opaque_id(
                            u,
                            id2,
                        ) implies false by {
                        crate::b64::lemma_b64_injective(
                            db,
                            vstd::utf8::encode_utf8(spec_id_json(id2)),
                        );
                    }
                }
                return None;
            },
        };
        let id = match parse_id_json(text.as_str()) {
            Some(id) => id,
            None => {
                proof {
                    broadcast use vstd::utf8::encode_utf8_decode_utf8;

                    lemma_opaque_reject(s@, k as int);
                    assert forall|u: Seq<char>, id2: SpecRequestId|
                        spec_id_in_range(id2) && s@ == #[trigger] spec_opaque_id(
                            u,
                            id2,
                        ) implies false by {
                        crate::b64::lemma_b64_injective(
                            db,
                            vstd::utf8::encode_utf8(spec_id_json(id2)),
                        );
                        assert(vstd::utf8::encode_utf8(text@) == vstd::utf8::encode_utf8(
                            spec_id_json(id2),
                        ));
                        assert(vstd::utf8::decode_utf8(vstd::utf8::encode_utf8(text@))
                            == text@);
                        assert(vstd::utf8::decode_utf8(
                            vstd::utf8::encode_utf8(spec_id_json(id2)),
                        ) == spec_id_json(id2));
                        lemma_parse_id_roundtrip(id2);
                    }
                }
                return None;
            },
        };
        proof {
            broadcast use vstd::utf8::encode_utf8_decode_utf8;

            assert forall|u: Seq<char>, id2: SpecRequestId|
                spec_id_in_range(id2) && s@ == #[trigger] spec_opaque_id(u, id2) implies (
            upstream@ == u && view_request_id(id) == id2) by {
                reveal_strlit("unrelated.proxy");
                let upe = spec_b64_of_str(u);
                let enc = spec_b64_of_str(spec_id_json(id2));
                lemma_b64_dot_free(vstd::utf8::encode_utf8(u));
                lemma_b64_dot_free(vstd::utf8::encode_utf8(spec_id_json(id2)));
                assert(s@.subrange(16, n as int) =~= upe + seq!['.'] + enc);
                lemma_sep_first(s@.subrange(16, n as int), k - 16, '.', upe, enc);
                assert(s@.subrange(16, n as int).subrange(0, k - 16) =~= s@.subrange(16, k as int));
                assert(s@.subrange(16, n as int).subrange(k - 16 + 1, n - 16) =~= s@.subrange(
                    k + 1,
                    n as int,
                ));
                assert(up_b64@ == upe);
                assert(id_b64@ == enc);
                crate::b64::lemma_b64_injective(ub, vstd::utf8::encode_utf8(u));
                assert(vstd::utf8::decode_utf8(vstd::utf8::encode_utf8(upstream@))
                    == upstream@);
                assert(vstd::utf8::decode_utf8(vstd::utf8::encode_utf8(u)) == u);
                assert(upstream@ == u);
                crate::b64::lemma_b64_injective(
                    db,
                    vstd::utf8::encode_utf8(spec_id_json(id2)),
                );
                assert(vstd::utf8::decode_utf8(vstd::utf8::encode_utf8(text@)) == text@);
                assert(vstd::utf8::decode_utf8(
                    vstd::utf8::encode_utf8(spec_id_json(id2)),
                ) == spec_id_json(id2));
                assert(text@ == spec_id_json(id2));
                lemma_parse_id_roundtrip(id2);
            }
        }
        proof {
            broadcast use vstd::utf8::encode_utf8_decode_utf8;

            assert(spec_opaque_parse_shape(s@, upstream@, view_request_id(id))) by {
                assert(s@[k as int] == '.');
                assert(s@.subrange(16, k as int) == crate::b64::spec_b64(ub));
                assert(vstd::utf8::decode_utf8(vstd::utf8::encode_utf8(upstream@))
                    == upstream@);
                assert(vstd::utf8::decode_utf8(ub) == upstream@);
                assert(s@.subrange(k + 1, n as int) == crate::b64::spec_b64(db));
                assert(vstd::utf8::decode_utf8(vstd::utf8::encode_utf8(text@)) == text@);
                assert(vstd::utf8::decode_utf8(db) == text@);
                assert(spec_parse_id_json(vstd::utf8::decode_utf8(db)) == Some(
                    view_request_id(id),
                ));
            }
        }
        return Some((upstream, id));
    }
    proof {
        reveal_strlit("unrelated.proxy.r.");
        reveal_strlit("unrelated.proxy.");
        assert forall|u: Seq<char>, id: SpecRequestId|
            spec_id_in_range(id) && s@ == #[trigger] spec_readable_id(u, id) implies false by {
            assert(s@.len() >= 18);
            assert(s@.subrange(0, 18) =~= "unrelated.proxy.r."@);
        }
        assert forall|u: Seq<char>, id: SpecRequestId|
            spec_id_in_range(id) && s@ == #[trigger] spec_opaque_id(u, id) implies false by {
            assert(s@.len() >= 16);
            assert(s@.subrange(0, 16) =~= "unrelated.proxy."@);
        }
    }
    None
}

/// A readable id's encoded tail decodes: its text segment after the last
/// dot is an encoding of the id's JSON in UTF-8.
proof fn lemma_readable_reject(s: Seq<char>, k: int)
    requires
        18 <= k < s.len(),
        s[k] == '.',
        forall|t: int| k < t < s.len() ==> s[t] != '.',
        s.len() >= 18,
        s.subrange(0, 18) == "unrelated.proxy.r."@,
    ensures
        forall|u: Seq<char>, id: SpecRequestId|
            spec_id_in_range(id) && s == #[trigger] spec_readable_id(u, id) ==> (s.subrange(
                k + 1,
                s.len() as int,
            ) == spec_b64_of_str(spec_id_json(id)) && s.subrange(18, k) == u),
{
    reveal_strlit("unrelated.proxy.r");
    reveal_strlit("unrelated.proxy.r.");
    assert forall|u: Seq<char>, id: SpecRequestId|
        spec_id_in_range(id) && s == #[trigger] spec_readable_id(u, id) implies (s.subrange(
        k + 1,
        s.len() as int,
    ) == spec_b64_of_str(spec_id_json(id)) && s.subrange(18, k) == u) by {
        let enc = spec_b64_of_str(spec_id_json(id));
        lemma_b64_dot_free(vstd::utf8::encode_utf8(spec_id_json(id)));
        assert(s.subrange(18, s.len() as int) =~= u + seq!['.'] + enc);
        lemma_sep_last(s.subrange(18, s.len() as int), k - 18, '.', u, enc);
        assert(s.subrange(18, s.len() as int).subrange(k - 18 + 1, s.len() - 18) =~= s.subrange(
            k + 1,
            s.len() as int,
        ));
        assert(s.subrange(18, s.len() as int).subrange(0, k - 18) =~= s.subrange(18, k));
    }
}

/// An opaque id's two encoded segments decode: before and after the first
/// dot past the prefix stand the encodings of the upstream id and of the
/// id's JSON.
proof fn lemma_opaque_reject(s: Seq<char>, k: int)
    requires
        16 <= k < s.len(),
        s[k] == '.',
        forall|t: int| 16 <= t < k ==> s[t] != '.',
        s.len() >= 16,
        s.subrange(0, 16) == "unrelated.proxy."@,
    ensures
        forall|u: Seq<char>, id: SpecRequestId|
            spec_id_in_range(id) && s == #[trigger] spec_opaque_id(u, id) ==> (s.subrange(
                k + 1,
                s.len() as int,
            ) == spec_b64_of_str(spec_id_json(id)) && s.subrange(16, k) == spec_b64_of_str(u)),
{
    reveal_strlit("unrelated.proxy");
    reveal_strlit("unrelated.proxy.");
    assert forall|u: Seq<char>, id: SpecRequestId|
        spec_id_in_range(id) && s == #[trigger] spec_opaque_id(u, id) implies (s.subrange(
        k + 1,
        s.len() as int,
    ) == spec_b64_of_str(spec_id_json(id)) && s.subrange(16, k) == spec_b64_of_str(u)) by {
        let upe = spec_b64_of_str(u);
        let enc = spec_b64_of_str(spec_id_json(id));
        lemma_b64_dot_free(vstd::utf8::encode_utf8(u));
        lemma_b64_dot_free(vstd::utf8::encode_utf8(spec_id_json(id)));
        assert(s.subrange(16, s.len() as int) =~= upe + seq!['.'] + enc);
        lemma_sep_first(s.subrange(16, s.len() as int), k - 16, '.', upe, enc);
        assert(s.subrange(16, s.len() as int).subrange(k - 16 + 1, s.len() - 16) =~= s.subrange(
            k + 1,
            s.len() as int,
        ));
        assert(s.subrange(16, s.len() as int).subrange(0, k - 16) =~= s.subrange(16, k));
    }
}

} // verus!
