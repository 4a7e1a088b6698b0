//! Small text utilities shared by the codec, hashing and serialization
//! modules: character-level string building, string equality, decimal
//! rendering of integers.

use vstd::prelude::*;

verus! {

/// Relies on `String::push`: appends exactly one character.
#[verifier::external_body]
pub fn push_char(s: &mut String, c: char)
    ensures
        final(s)@ == old(s)@.push(c),
{
    s.push(c);
}

/// Character-by-character string equality.
pub fn str_eq(a: &str, b: &str) -> (r: bool)
    ensures
        r == (a@ == b@),
{
    let na = a.unicode_len();
    let nb = b.unicode_len();
    if na != nb {
        return false;
    }
    let mut i: usize = 0;
    while i < na
        invariant
            na == a@.len(),
            na == b@.len(),
            i <= na,
            forall|t: int| 0 <= t < i ==> a@[t] == b@[t],
        decreases na - i,
    {
        if a.get_char(i) != b.get_char(i) {
            return false;
        }
        i = i + 1;
    }
    proof {
        assert(a@ =~= b@);
    }
    true
}

/// String equality on owned strings.
pub fn string_eq(a: &String, b: &String) -> (r: bool)
    ensures
        r == (a@ == b@),
{
    str_eq(a.as_str(), b.as_str())
}

/// Whether `needle` occurs inside `hay` as a contiguous run.
pub open spec fn seq_contains_seq(hay: Seq<char>, needle: Seq<char>) -> bool {
    exists|i: int|
        0 <= i && i + needle.len() <= hay.len() && #[trigger] hay.subrange(i, i + needle.len())
            == needle
}

/// Whether a string sequence contains a character.
pub open spec fn seq_contains_char(s: Seq<char>, c: char) -> bool {
    exists|i: int| 0 <= i < s.len() && s[i] == c
}

/// Scan a string for a character.
pub fn str_contains_char(s: &str, c: char) -> (r: bool)
    ensures
        r == seq_contains_char(s@, c),
{
    let n = s.unicode_len();
    let mut i: usize = 0;
    while i < n
        invariant
            n == s@.len(),
            i <= n,
            forall|t: int| 0 <= t < i ==> s@[t] != c,
        decreases n - i,
    {
        if s.get_char(i) == c {
            return true;
        }
        i = i + 1;
    }
    false
}

/// View of a string list as a sequence of character sequences.
pub open spec fn view_strings(s: Seq<String>) -> Seq<Seq<char>> {
    s.map(|i: int, x: String| x@)
}

/// Whether a string list contains a key.
pub fn strings_contain(v: &Vec<String>, key: &str) -> (r: bool)
    ensures
        r == view_strings(v@).contains(key@),
{
    let n = v.len();
    let mut i: usize = 0;
    while i < n
        invariant
            n == v@.len(),
            i <= n,
            forall|t: int| 0 <= t < i ==> view_strings(v@)[t] != key@,
        decreases n - i,
    {
        if str_eq(v[i].as_str(), key) {
            proof {
                assert(view_strings(v@)[i as int] == key@);
            }
            return true;
        }
        proof {
            assert(view_strings(v@)[i as int] == (v@[i as int])@);
        }
        i = i + 1;
    }
    false
}

/// Appending to a string list adds exactly its view to the contained set.
pub proof fn lemma_strings_push(prev: Seq<String>, x: String)
    ensures
        forall|y: Seq<char>|
            #[trigger] view_strings(prev.push(x)).contains(y) <==> (view_strings(prev).contains(y)
                || y == x@),
{
    assert forall|y: Seq<char>|
        #[trigger] view_strings(prev.push(x)).contains(y) <==> (view_strings(prev).contains(y)
            || y == x@) by {
        if view_strings(prev.push(x)).contains(y) {
            let t = choose|t: int|
                0 <= t < prev.push(x).len() && view_strings(prev.push(x))[t] == y;
            if t < prev.len() {
                assert(view_strings(prev)[t] == y);
            } else {
                assert(y == x@);
            }
        }
        if view_strings(prev).contains(y) {
            let t = choose|t: int| 0 <= t < prev.len() && view_strings(prev)[t] == y;
            assert(view_strings(prev.push(x))[t] == y);
        }
        if y == x@ {
            assert(view_strings(prev.push(x))[prev.len() as int] == y);
        }
    }
}

/// The decimal digit character for `d < 10`.
pub open spec fn spec_digit(d: int) -> char {
    if d == 0 {
        '0'
    } else if d == 1 {
        '1'
    } else if d == 2 {
        '2'
    } else if d == 3 {
        '3'
    } else if d == 4 {
        '4'
    } else if d == 5 {
        '5'
    } else if d == 6 {
        '6'
    } else if d == 7 {
        '7'
    } else if d == 8 {
        '8'
    } else {
        '9'
    }
}

/// Decimal representation of a natural number, most significant digit first.
pub open spec fn spec_dec(n: nat) -> Seq<char>
    decreases n,
{
    if n < 10 {
        seq![spec_digit(n as int)]
    } else {
        spec_dec(n / 10) + seq![spec_digit((n % 10) as int)]
    }
}

fn digit_char(d: u64) -> (c: char)
    requires
        d < 10,
    ensures
        c == spec_digit(d as int),
{
    if d == 0 {
        '0'
    } else if d == 1 {
        '1'
    } else if d == 2 {
        '2'
    } else if d == 3 {
        '3'
    } else if d == 4 {
        '4'
    } else if d == 5 {
        '5'
    } else if d == 6 {
        '6'
    } else if d == 7 {
        '7'
    } else if d == 8 {
        '8'
    } else {
        '9'
    }
}

/// Append the decimal rendering of `n` to `out`.
pub fn append_dec_u64(out: &mut String, n: u64)
    ensures
        final(out)@ == old(out)@ + spec_dec(n as nat),
    decreases n,
{
    if n < 10 {
        push_char(out, digit_char(n));
    } else {
        append_dec_u64(out, n / 10);
        push_char(out, digit_char(n % 10));
    }
}

/// The decimal rendering of a `u64`.
pub fn u64_to_string(n: u64) -> (r: String)
    ensures
        r@ == spec_dec(n as nat),
{
    let mut out = String::new();
    append_dec_u64(&mut out, n);
    proof {
        assert(Seq::<char>::empty() + spec_dec(n as nat) =~= spec_dec(n as nat));
    }
    out
}

/// Decimal representation of an `i64`, with a leading minus sign when negative.
pub open spec fn spec_dec_i64(n: int) -> Seq<char> {
    if n >= 0 {
        spec_dec(n as nat)
    } else {
        seq!['-'] + spec_dec((-n) as nat)
    }
}

/// The decimal rendering of an `i64`.
pub fn i64_to_string(n: i64) -> (r: String)
    ensures
        r@ == spec_dec_i64(n as int),
{
    let mut out = String::new();
    if n >= 0 {
        append_dec_u64(&mut out, n as u64);
        proof {
            assert(Seq::<char>::empty() + spec_dec(n as nat) =~= spec_dec(n as nat));
        }
    } else {
        push_char(&mut out, '-');
        let mag: u64 = if n == i64::MIN {
            9223372036854775808u64
        } else {
            (-n) as u64
        };
        append_dec_u64(&mut out, mag);
        proof {
            assert(Seq::<char>::empty().push('-') + spec_dec(mag as nat) =~= seq!['-'] + spec_dec(
                mag as nat,
            ));
        }
    }
    out
}

/// Relies on `String::from_utf8`: returns the string whose UTF-8 bytes
/// are exactly the input, and fails exactly on invalid UTF-8. Borrowing
/// variant of `string_from_utf8`.
#[verifier::external_body]
pub fn string_from_utf8_ref(bytes: &Vec<u8>) -> (r: Option<String>)
    ensures
        match r {
            Some(s) => vstd::utf8::encode_utf8(s@) == bytes@,
            None => !vstd::utf8::valid_utf8(bytes@),
        },
{
    String::from_utf8(bytes.clone()).ok()
}

/// Relies on `String::from_utf8`: returns the string whose UTF-8 bytes
/// are exactly the input, and fails exactly on invalid UTF-8.
#[verifier::external_body]
pub fn string_from_utf8(bytes: Vec<u8>) -> (r: Option<String>)
    ensures
        match r {
            Some(s) => vstd::utf8::encode_utf8(s@) == bytes@,
            None => !vstd::utf8::valid_utf8(bytes@),
        },
{
    String::from_utf8(bytes).ok()
}

} // verus!
