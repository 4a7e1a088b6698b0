//! SHA-256 behind a trusted wrapper, with a verified lower-case hex
//! encoding of digests.

use sha2::Digest;
use vstd::prelude::*;
use vstd::string::StrSliceExecFns;

verus! {

broadcast use vstd::std_specs::vec::group_vec_axioms, vstd::seq::group_seq_axioms;

/// One byte of the SHA-256 digest of a byte sequence; a function of the
/// bytes and the position alone.
pub uninterp spec fn spec_sha256_byte(data: Seq<u8>, i: int) -> u8;

/// The SHA-256 digest of a byte sequence: 32 bytes, each a function of
/// the input alone.
pub open spec fn spec_sha256(data: Seq<u8>) -> Seq<u8> {
    Seq::new(32, |i: int| spec_sha256_byte(data, i))
}

/// Relies on `sha2::Sha256::digest`: the 32-byte SHA-256 digest of the input.
#[verifier::external_body]
pub fn sha256(data: &[u8]) -> (r: Vec<u8>)
    ensures
        r@.len() == 32,
        forall|i: int| 0 <= i < 32 ==> r@[i] == spec_sha256_byte(data@, i),
        r@ == spec_sha256(data@),
{
    sha2::Sha256::digest(data).to_vec()
}

/// The lower-case hex digit for `d < 16`.
pub open spec fn spec_hex_digit(d: int) -> char {
    if d == 0 {
        '0'
    } else if d == 1 {
        '1'
    } else if d == 2 {
        '2'
    } else if d == 3 {
        '3'
    } else if d == 4 {
        '4'
    } else if d == 5 {
        '5'
    } else if d == 6 {
        '6'
    } else if d == 7 {
        '7'
    } else if d == 8 {
        '8'
    } else if d == 9 {
        '9'
    } else if d == 10 {
        'a'
    } else if d == 11 {
        'b'
    } else if d == 12 {
        'c'
    } else if d == 13 {
        'd'
    } else if d == 14 {
        'e'
    } else {
        'f'
    }
}

/// Lower-case hex encoding of a byte sequence, two digits per byte.
pub open spec fn spec_hex(data: Seq<u8>) -> Seq<char>
    decreases data.len(),
{
    if data.len() == 0 {
        Seq::empty()
    } else {
        spec_hex(data.drop_last()) + seq![
            spec_hex_digit(data.last() as int / 16),
            spec_hex_digit((data.last() % 16) as int),
        ]
    }
}

pub(crate) fn hex_digit(d: u8) -> (c: char)
    requires
        d < 16,
    ensures
        c == spec_hex_digit(d as int),
{
    if d == 0 {
        '0'
    } else if d == 1 {
        '1'
    } else if d == 2 {
        '2'
    } else if d == 3 {
        '3'
    } else if d == 4 {
        '4'
    } else if d == 5 {
        '5'
    } else if d == 6 {
        '6'
    } else if d == 7 {
        '7'
    } else if d == 8 {
        '8'
    } else if d == 9 {
        '9'
    } else if d == 10 {
        'a'
    } else if d == 11 {
        'b'
    } else if d == 12 {
        'c'
    } else if d == 13 {
        'd'
    } else if d == 14 {
        'e'
    } else {
        'f'
    }
}

/// Encode bytes as lower-case hex.
pub fn to_hex(data: &Vec<u8>) -> (r: String)
    ensures
        r@ == spec_hex(data@),
{
    let n = data.len();
    let mut out = String::new();
    let mut i: usize = 0;
    while i < n
        invariant
            n == data@.len(),
            i <= n,
            out@ == spec_hex(data@.take(i as int)),
        decreases n - i,
    {
        let b = data[i];
        crate::text::push_char(&mut out, hex_digit(b / 16));
        crate::text::push_char(&mut out, hex_digit(b % 16));
        proof {
            assert(data@.take(i + 1).drop_last() =~= data@.take(i as int));
            assert(data@.take(i + 1).last() == data@[i as int]);
        }
        i = i + 1;
    }
    proof {
        assert(data@.take(n as int) =~= data@);
    }
    out
}

/// The hex-encoded SHA-256 digest of a string's UTF-8 bytes.
pub open spec fn spec_sha256_hex_of_str(s: Seq<char>) -> Seq<char> {
    spec_hex(spec_sha256(vstd::utf8::encode_utf8(s)))
}

/// Hex-encoded SHA-256 of a string.
pub fn sha256_hex_of_str(s: &str) -> (r: String)
    ensures
        r@ == spec_sha256_hex_of_str(s@),
{
    let bytes = s.as_bytes_vec();
    let digest = sha256(bytes.as_slice());
    to_hex(&digest)
}

/// A hex encoding is twice as long as its input.
pub proof fn lemma_hex_len(data: Seq<u8>)
    ensures
        spec_hex(data).len() == 2 * data.len(),
    decreases data.len(),
{
    if data.len() > 0 {
        lemma_hex_len(data.drop_last());
    }
}

/// Hex encodings hold neither `':'` nor `'.'`.
pub proof fn lemma_hex_separator_free(data: Seq<u8>)
    ensures
        forall|k: int|
            0 <= k < spec_hex(data).len() ==> (#[trigger] spec_hex(data)[k]) != ':' && spec_hex(
                data,
            )[k] != '.',
    decreases data.len(),
{
    if data.len() > 0 {
        lemma_hex_separator_free(data.drop_last());
        lemma_hex_len(data.drop_last());
        assert forall|k: int| 0 <= k < spec_hex(data).len() implies (
        #[trigger] spec_hex(data)[k]) != ':' && spec_hex(data)[k] != '.' by {
            if k < spec_hex(data.drop_last()).len() {
                assert(spec_hex(data)[k] == spec_hex(data.drop_last())[k]);
            } else {
                assert(spec_hex(data)[k] == spec_hex_digit(data.last() as int / 16) || spec_hex(
                    data,
                )[k] == spec_hex_digit((data.last() as int % 16) as int));
                lemma_hex_digit_separator_free(data.last() as int / 16);
                lemma_hex_digit_separator_free((data.last() as int % 16) as int);
            }
        }
    }
}

proof fn lemma_hex_digit_separator_free(d: int)
    requires
        0 <= d < 16,
    ensures
        spec_hex_digit(d) != ':',
        spec_hex_digit(d) != '.',
{
}

/// The hex-encoded SHA-256 of a string is 64 separator-free characters.
pub proof fn lemma_sha256_hex_shape(s: Seq<char>)
    ensures
        spec_sha256_hex_of_str(s).len() == 64,
        forall|k: int|
            0 <= k < 64 ==> (#[trigger] spec_sha256_hex_of_str(s)[k]) != ':'
                && spec_sha256_hex_of_str(s)[k] != '.',
{
    lemma_hex_len(spec_sha256(vstd::utf8::encode_utf8(s)));
    lemma_hex_separator_free(spec_sha256(vstd::utf8::encode_utf8(s)));
}

} // verus!
