//! Base64url without padding, verified: the encoding is a spec function
//! of the bytes alone, the encoder and decoder are proved against it, and
//! the encoding is injective, so decoding is exact.

use crate::text::push_char;
use vstd::prelude::*;

verus! {

broadcast use vstd::std_specs::vec::group_vec_axioms, vstd::seq::group_seq_axioms;

/// The base64url alphabet character for `d < 64`.
#[verifier::opaque]
pub open spec fn spec_b64_char(d: int) -> char {
    if d == 0 {
        'A'
    } else if d == 1 {
        'B'
    } else if d == 2 {
        'C'
    } else if d == 3 {
        'D'
    } else if d == 4 {
        'E'
    } else if d == 5 {
        'F'
    } else if d == 6 {
        'G'
    } else if d == 7 {
        'H'
    } else if d == 8 {
        'I'
    } else if d == 9 {
        'J'
    } else if d == 10 {
        'K'
    } else if d == 11 {
        'L'
    } else if d == 12 {
        'M'
    } else if d == 13 {
        'N'
    } else if d == 14 {
        'O'
    } else if d == 15 {
        'P'
    } else if d == 16 {
        'Q'
    } else if d == 17 {
        'R'
    } else if d == 18 {
        'S'
    } else if d == 19 {
        'T'
    } else if d == 20 {
        'U'
    } else if d == 21 {
        'V'
    } else if d == 22 {
        'W'
    } else if d == 23 {
        'X'
    } else if d == 24 {
        'Y'
    } else if d == 25 {
        'Z'
    } else if d == 26 {
        'a'
    } else if d == 27 {
        'b'
    } else if d == 28 {
        'c'
    } else if d == 29 {
        'd'
    } else if d == 30 {
        'e'
    } else if d == 31 {
        'f'
    } else if d == 32 {
        'g'
    } else if d == 33 {
        'h'
    } else if d == 34 {
        'i'
    } else if d == 35 {
        'j'
    } else if d == 36 {
        'k'
    } else if d == 37 {
        'l'
    } else if d == 38 {
        'm'
    } else if d == 39 {
        'n'
    } else if d == 40 {
        'o'
    } else if d == 41 {
        'p'
    } else if d == 42 {
        'q'
    } else if d == 43 {
        'r'
    } else if d == 44 {
        's'
    } else if d == 45 {
        't'
    } else if d == 46 {
        'u'
    } else if d == 47 {
        'v'
    } else if d == 48 {
        'w'
    } else if d == 49 {
        'x'
    } else if d == 50 {
        'y'
    } else if d == 51 {
        'z'
    } else if d == 52 {
        '0'
    } else if d == 53 {
        '1'
    } else if d == 54 {
        '2'
    } else if d == 55 {
        '3'
    } else if d == 56 {
        '4'
    } else if d == 57 {
        '5'
    } else if d == 58 {
        '6'
    } else if d == 59 {
        '7'
    } else if d == 60 {
        '8'
    } else if d == 61 {
        '9'
    } else if d == 62 {
        '-'
    } else {
        '_'
    }
}

fn b64_char(d: u8) -> (c: char)
    requires
        d < 64,
    ensures
        c == spec_b64_char(d as int),
{
    proof {
        reveal(spec_b64_char);
    }
    if d == 0 {
        'A'
    } else if d == 1 {
        'B'
    } else if d == 2 {
        'C'
    } else if d == 3 {
        'D'
    } else if d == 4 {
        'E'
    } else if d == 5 {
        'F'
    } else if d == 6 {
        'G'
    } else if d == 7 {
        'H'
    } else if d == 8 {
        'I'
    } else if d == 9 {
        'J'
    } else if d == 10 {
        'K'
    } else if d == 11 {
        'L'
    } else if d == 12 {
        'M'
    } else if d == 13 {
        'N'
    } else if d == 14 {
        'O'
    } else if d == 15 {
        'P'
    } else if d == 16 {
        'Q'
    } else if d == 17 {
        'R'
    } else if d == 18 {
        'S'
    } else if d == 19 {
        'T'
    } else if d == 20 {
        'U'
    } else if d == 21 {
        'V'
    } else if d == 22 {
        'W'
    } else if d == 23 {
        'X'
    } else if d == 24 {
        'Y'
    } else if d == 25 {
        'Z'
    } else if d == 26 {
        'a'
    } else if d == 27 {
        'b'
    } else if d == 28 {
        'c'
    } else if d == 29 {
        'd'
    } else if d == 30 {
        'e'
    } else if d == 31 {
        'f'
    } else if d == 32 {
        'g'
    } else if d == 33 {
        'h'
    } else if d == 34 {
        'i'
    } else if d == 35 {
        'j'
    } else if d == 36 {
        'k'
    } else if d == 37 {
        'l'
    } else if d == 38 {
        'm'
    } else if d == 39 {
        'n'
    } else if d == 40 {
        'o'
    } else if d == 41 {
        'p'
    } else if d == 42 {
        'q'
    } else if d == 43 {
        'r'
    } else if d == 44 {
        's'
    } else if d == 45 {
        't'
    } else if d == 46 {
        'u'
    } else if d == 47 {
        'v'
    } else if d == 48 {
        'w'
    } else if d == 49 {
        'x'
    } else if d == 50 {
        'y'
    } else if d == 51 {
        'z'
    } else if d == 52 {
        '0'
    } else if d == 53 {
        '1'
    } else if d == 54 {
        '2'
    } else if d == 55 {
        '3'
    } else if d == 56 {
        '4'
    } else if d == 57 {
        '5'
    } else if d == 58 {
        '6'
    } else if d == 59 {
        '7'
    } else if d == 60 {
        '8'
    } else if d == 61 {
        '9'
    } else if d == 62 {
        '-'
    } else {
        '_'
    }
}

/// The value of a base64url character; 64 when outside the alphabet.
#[verifier::opaque]
pub open spec fn spec_b64_val(c: char) -> int {
    if c == 'A' {
        0
    } else if c == 'B' {
        1
    } else if c == 'C' {
        2
    } else if c == 'D' {
        3
    } else if c == 'E' {
        4
    } else if c == 'F' {
        5
    } else if c == 'G' {
        6
    } else if c == 'H' {
        7
    } else if c == 'I' {
        8
    } else if c == 'J' {
        9
    } else if c == 'K' {
        10
    } else if c == 'L' {
        11
    } else if c == 'M' {
        12
    } else if c == 'N' {
        13
    } else if c == 'O' {
        14
    } else if c == 'P' {
        15
    } else if c == 'Q' {
        16
    } else if c == 'R' {
        17
    } else if c == 'S' {
        18
    } else if c == 'T' {
        19
    } else if c == 'U' {
        20
    } else if c == 'V' {
        21
    } else if c == 'W' {
        22
    } else if c == 'X' {
        23
    } else if c == 'Y' {
        24
    } else if c == 'Z' {
        25
    } else if c == 'a' {
        26
    } else if c == 'b' {
        27
    } else if c == 'c' {
        28
    } else if c == 'd' {
        29
    } else if c == 'e' {
        30
    } else if c == 'f' {
        31
    } else if c == 'g' {
        32
    } else if c == 'h' {
        33
    } else if c == 'i' {
        34
    } else if c == 'j' {
        35
    } else if c == 'k' {
        36
    } else if c == 'l' {
        37
    } else if c == 'm' {
        38
    } else if c == 'n' {
        39
    } else if c == 'o' {
        40
    } else if c == 'p' {
        41
    } else if c == 'q' {
        42
    } else if c == 'r' {
        43
    } else if c == 's' {
        44
    } else if c == 't' {
        45
    } else if c == 'u' {
        46
    } else if c == 'v' {
        47
    } else if c == 'w' {
        48
    } else if c == 'x' {
        49
    } else if c == 'y' {
        50
    } else if c == 'z' {
        51
    } else if c == '0' {
        52
    } else if c == '1' {
        53
    } else if c == '2' {
        54
    } else if c == '3' {
        55
    } else if c == '4' {
        56
    } else if c == '5' {
        57
    } else if c == '6' {
        58
    } else if c == '7' {
        59
    } else if c == '8' {
        60
    } else if c == '9' {
        61
    } else if c == '-' {
        62
    } else if c == '_' {
        63
    } else {
        64
    }
}

fn b64_val(c: char) -> (r: u8)
    ensures
        r == spec_b64_val(c),
        r <= 64,
{
    proof {
        reveal(spec_b64_val);
    }
    if c == 'A' {
        0
    } else if c == 'B' {
        1
    } else if c == 'C' {
        2
    } else if c == 'D' {
        3
    } else if c == 'E' {
        4
    } else if c == 'F' {
        5
    } else if c == 'G' {
        6
    } else if c == 'H' {
        7
    } else if c == 'I' {
        8
    } else if c == 'J' {
        9
    } else if c == 'K' {
        10
    } else if c == 'L' {
        11
    } else if c == 'M' {
        12
    } else if c == 'N' {
        13
    } else if c == 'O' {
        14
    } else if c == 'P' {
        15
    } else if c == 'Q' {
        16
    } else if c == 'R' {
        17
    } else if c == 'S' {
        18
    } else if c == 'T' {
        19
    } else if c == 'U' {
        20
    } else if c == 'V' {
        21
    } else if c == 'W' {
        22
    } else if c == 'X' {
        23
    } else if c == 'Y' {
        24
    } else if c == 'Z' {
        25
    } else if c == 'a' {
        26
    } else if c == 'b' {
        27
    } else if c == 'c' {
        28
    } else if c == 'd' {
        29
    } else if c == 'e' {
        30
    } else if c == 'f' {
        31
    } else if c == 'g' {
        32
    } else if c == 'h' {
        33
    } else if c == 'i' {
        34
    } else if c == 'j' {
        35
    } else if c == 'k' {
        36
    } else if c == 'l' {
        37
    } else if c == 'm' {
        38
    } else if c == 'n' {
        39
    } else if c == 'o' {
        40
    } else if c == 'p' {
        41
    } else if c == 'q' {
        42
    } else if c == 'r' {
        43
    } else if c == 's' {
        44
    } else if c == 't' {
        45
    } else if c == 'u' {
        46
    } else if c == 'v' {
        47
    } else if c == 'w' {
        48
    } else if c == 'x' {
        49
    } else if c == 'y' {
        50
    } else if c == 'z' {
        51
    } else if c == '0' {
        52
    } else if c == '1' {
        53
    } else if c == '2' {
        54
    } else if c == '3' {
        55
    } else if c == '4' {
        56
    } else if c == '5' {
        57
    } else if c == '6' {
        58
    } else if c == '7' {
        59
    } else if c == '8' {
        60
    } else if c == '9' {
        61
    } else if c == '-' {
        62
    } else if c == '_' {
        63
    } else {
        64
    }
}

/// Round-trip of the alphabet: the value of the character of `d` is `d`.
#[verifier::rlimit(50)]
proof fn lemma_b64_char_val(d: int)
    requires
        0 <= d < 64,
    ensures
        spec_b64_val(spec_b64_char(d)) == d,
{
    reveal(spec_b64_char);
    reveal(spec_b64_val);
}

/// Round-trip of the alphabet: the character of an in-range value is the
/// original character.
#[verifier::rlimit(50)]
proof fn lemma_b64_val_char(c: char)
    requires
        spec_b64_val(c) < 64,
    ensures
        spec_b64_char(spec_b64_val(c)) == c,
{
    reveal(spec_b64_char);
    reveal(spec_b64_val);
}

/// The alphabet holds neither `'.'` nor `':'`.
#[verifier::rlimit(50)]
proof fn lemma_b64_char_not_separator(d: int)
    requires
        0 <= d < 64,
    ensures
        spec_b64_char(d) != '.',
        spec_b64_char(d) != ':',
{
    reveal(spec_b64_char);
}

/// Neither `'.'` nor `':'` is in the alphabet.
pub proof fn lemma_b64_val_dot()
    ensures
        spec_b64_val('.') == 64,
        spec_b64_val(':') == 64,
{
    reveal(spec_b64_val);
}

/// Base64url (no padding) of a byte sequence, three bytes to four
/// characters, with two or three characters for a trailing group.
pub open spec fn spec_b64(bytes: Seq<u8>) -> Seq<char>
    decreases bytes.len(),
{
    if bytes.len() == 0 {
        Seq::empty()
    } else if bytes.len() == 1 {
        let b0 = bytes[0];
        seq![spec_b64_char(b0 as int / 4), spec_b64_char((b0 as int % 4) * 16)]
    } else if bytes.len() == 2 {
        let b0 = bytes[0];
        let b1 = bytes[1];
        seq![
            spec_b64_char(b0 as int / 4),
            spec_b64_char((b0 as int % 4) * 16 + b1 as int / 16),
            spec_b64_char((b1 as int % 16) * 4),
        ]
    } else {
        let b0 = bytes[0];
        let b1 = bytes[1];
        let b2 = bytes[2];
        seq![
            spec_b64_char(b0 as int / 4),
            spec_b64_char((b0 as int % 4) * 16 + b1 as int / 16),
            spec_b64_char((b1 as int % 16) * 4 + b2 as int / 64),
            spec_b64_char(b2 as int % 64),
        ] + spec_b64(bytes.skip(3))
    }
}

/// The length of an encoding: four characters per full group, two or
/// three for a trailing group. In particular it is never one more than a
/// multiple of four.
pub proof fn lemma_b64_len(bytes: Seq<u8>)
    ensures
        spec_b64(bytes).len() == 4 * (bytes.len() as int / 3) + (if bytes.len() as int % 3 == 0 {
            0int
        } else if bytes.len() as int % 3 == 1 {
            2int
        } else {
            3int
        }),
        spec_b64(bytes).len() % 4 != 1,
    decreases bytes.len(),
{
    if bytes.len() >= 3 {
        lemma_b64_len(bytes.skip(3));
    }
}

/// An encoding splits at any group boundary of the input.
pub proof fn lemma_b64_split(bytes: Seq<u8>, m: int)
    requires
        0 <= m <= bytes.len(),
        m % 3 == 0,
    ensures
        spec_b64(bytes) == spec_b64(bytes.take(m)) + spec_b64(bytes.skip(m)),
    decreases m,
{
    if m == 0 {
        assert(bytes.take(0) =~= Seq::empty());
        assert(bytes.skip(0) =~= bytes);
        assert(spec_b64(bytes.take(0)) + spec_b64(bytes.skip(0)) =~= spec_b64(bytes));
    } else {
        assert(m >= 3);
        assert(bytes.len() >= 3);
        lemma_b64_split(bytes.skip(3), m - 3);
        assert(bytes.skip(3).take(m - 3) =~= bytes.take(m).skip(3));
        assert(bytes.skip(3).skip(m - 3) =~= bytes.skip(m));
        assert(bytes.take(m)[0] == bytes[0]);
        assert(bytes.take(m).len() >= 3);
        assert(spec_b64(bytes.take(m)) == seq![
            spec_b64_char(bytes.take(m)[0] as int / 4),
            spec_b64_char((bytes.take(m)[0] as int % 4) * 16 + bytes.take(m)[1] as int / 16),
            spec_b64_char(
                (bytes.take(m)[1] as int % 16) * 4 + bytes.take(m)[2] as int / 64,
            ),
            spec_b64_char(bytes.take(m)[2] as int % 64),
        ] + spec_b64(bytes.take(m).skip(3)));
        assert(bytes.take(m)[1] == bytes[1]);
        assert(bytes.take(m)[2] == bytes[2]);
        assert(spec_b64(bytes) =~= spec_b64(bytes.take(m)) + spec_b64(bytes.skip(m)));
    }
}

/// Every character of an encoding is in the alphabet, and a trailing
/// group leaves its padding bits zero.
pub proof fn lemma_b64_shape(bytes: Seq<u8>)
    ensures
        forall|k: int|
            0 <= k < spec_b64(bytes).len() ==> spec_b64_val(#[trigger] spec_b64(bytes)[k]) < 64,
        bytes.len() % 3 == 1 ==> spec_b64_val(spec_b64(bytes).last()) % 16 == 0,
        bytes.len() % 3 == 2 ==> spec_b64_val(spec_b64(bytes).last()) % 4 == 0,
    decreases bytes.len(),
{
    if bytes.len() == 0 {
    } else if bytes.len() == 1 {
        let b0 = bytes[0];
        lemma_b64_char_val(b0 as int / 4);
        lemma_b64_char_val((b0 as int % 4) * 16);
    } else if bytes.len() == 2 {
        let b0 = bytes[0];
        let b1 = bytes[1];
        lemma_b64_char_val(b0 as int / 4);
        lemma_b64_char_val((b0 as int % 4) * 16 + b1 as int / 16);
        lemma_b64_char_val((b1 as int % 16) * 4);
    } else {
        let b0 = bytes[0];
        let b1 = bytes[1];
        let b2 = bytes[2];
        lemma_b64_shape(bytes.skip(3));
        lemma_b64_char_val(b0 as int / 4);
        lemma_b64_char_val((b0 as int % 4) * 16 + b1 as int / 16);
        lemma_b64_char_val((b1 as int % 16) * 4 + b2 as int / 64);
        lemma_b64_char_val(b2 as int % 64);
        lemma_b64_len(bytes.skip(3));
        assert forall|k: int| 0 <= k < spec_b64(bytes).len() implies spec_b64_val(
            #[trigger] spec_b64(bytes)[k],
        ) < 64 by {
            if k >= 4 {
                assert(spec_b64(bytes)[k] == spec_b64(bytes.skip(3))[k - 4]);
            }
        }
        if bytes.len() % 3 != 0 {
            assert(bytes.skip(3).len() > 0);
            assert(spec_b64(bytes).last() == spec_b64(bytes.skip(3)).last());
        }
    }
}

/// The encoding is injective: equal encodings come from equal bytes.
pub proof fn lemma_b64_injective(a: Seq<u8>, b: Seq<u8>)
    requires
        spec_b64(a) == spec_b64(b),
    ensures
        a == b,
    decreases a.len(),
{
    lemma_b64_len(a);
    lemma_b64_len(b);
    assert(a.len() == b.len()) by {
        let la = a.len() as int;
        let lb = b.len() as int;
        assert(la == 3 * (la / 3) + la % 3);
        assert(lb == 3 * (lb / 3) + lb % 3);
    }
    if a.len() == 0 {
        assert(a =~= b);
    } else if a.len() == 1 {
        assert(spec_b64(a)[0] == spec_b64_char(a[0] as int / 4));
        assert(spec_b64(a)[1] == spec_b64_char((a[0] as int % 4) * 16));
        assert(spec_b64(b)[0] == spec_b64_char(b[0] as int / 4));
        assert(spec_b64(b)[1] == spec_b64_char((b[0] as int % 4) * 16));
        lemma_b64_char_inj(a[0] as int / 4, b[0] as int / 4);
        lemma_b64_char_inj((a[0] as int % 4) * 16, (b[0] as int % 4) * 16);
        assert(a =~= b);
    } else if a.len() == 2 {
        assert(spec_b64(a)[0] == spec_b64_char(a[0] as int / 4));
        assert(spec_b64(a)[1] == spec_b64_char((a[0] as int % 4) * 16 + a[1] as int / 16));
        assert(spec_b64(a)[2] == spec_b64_char((a[1] as int % 16) * 4));
        assert(spec_b64(b)[0] == spec_b64_char(b[0] as int / 4));
        assert(spec_b64(b)[1] == spec_b64_char((b[0] as int % 4) * 16 + b[1] as int / 16));
        assert(spec_b64(b)[2] == spec_b64_char((b[1] as int % 16) * 4));
        lemma_b64_char_inj(a[0] as int / 4, b[0] as int / 4);
        lemma_b64_char_inj(
            (a[0] as int % 4) * 16 + a[1] as int / 16,
            (b[0] as int % 4) * 16 + b[1] as int / 16,
        );
        lemma_b64_char_inj((a[1] as int % 16) * 4, (b[1] as int % 16) * 4);
        assert(a[0] == b[0] && a[1] == b[1]);
        assert(a =~= b);
    } else {
        assert(spec_b64(a)[0] == spec_b64_char(a[0] as int / 4));
        assert(spec_b64(a)[1] == spec_b64_char((a[0] as int % 4) * 16 + a[1] as int / 16));
        assert(spec_b64(a)[2] == spec_b64_char((a[1] as int % 16) * 4 + a[2] as int / 64));
        assert(spec_b64(a)[3] == spec_b64_char(a[2] as int % 64));
        assert(spec_b64(b)[0] == spec_b64_char(b[0] as int / 4));
        assert(spec_b64(b)[1] == spec_b64_char((b[0] as int % 4) * 16 + b[1] as int / 16));
        assert(spec_b64(b)[2] == spec_b64_char((b[1] as int % 16) * 4 + b[2] as int / 64));
        assert(spec_b64(b)[3] == spec_b64_char(b[2] as int % 64));
        lemma_b64_char_inj(a[0] as int / 4, b[0] as int / 4);
        lemma_b64_char_inj(
            (a[0] as int % 4) * 16 + a[1] as int / 16,
            (b[0] as int % 4) * 16 + b[1] as int / 16,
        );
        lemma_b64_char_inj(
            (a[1] as int % 16) * 4 + a[2] as int / 64,
            (b[1] as int % 16) * 4 + b[2] as int / 64,
        );
        lemma_b64_char_inj(a[2] as int % 64, b[2] as int % 64);
        assert(a[0] == b[0] && a[1] == b[1] && a[2] == b[2]);
        assert(spec_b64(a.skip(3)) =~= spec_b64(b.skip(3))) by {
            assert forall|k: int| 0 <= k < spec_b64(a.skip(3)).len() implies spec_b64(
                a.skip(3),
            )[k] == spec_b64(b.skip(3))[k] by {
                assert(spec_b64(a)[k + 4] == spec_b64(a.skip(3))[k]);
                assert(spec_b64(b)[k + 4] == spec_b64(b.skip(3))[k]);
            }
            lemma_b64_len(a.skip(3));
            lemma_b64_len(b.skip(3));
        }
        lemma_b64_injective(a.skip(3), b.skip(3));
        assert forall|k: int| 0 <= k < a.len() implies a[k] == b[k] by {
            if k >= 3 {
                assert(a.skip(3)[k - 3] == a[k]);
                assert(b.skip(3)[k - 3] == b[k]);
            }
        }
        assert(a =~= b);
    }
}

/// Characters of distinct values differ.
proof fn lemma_b64_char_inj(x: int, y: int)
    requires
        0 <= x < 64,
        0 <= y < 64,
        spec_b64_char(x) == spec_b64_char(y),
    ensures
        x == y,
{
    lemma_b64_char_val(x);
    lemma_b64_char_val(y);
}

/// Encode bytes as base64url without padding.
pub fn b64_encode(bytes: &Vec<u8>) -> (r: String)
    ensures
        r@ == spec_b64(bytes@),
{
    let n = bytes.len();
    let mut out = String::new();
    let mut i: usize = 0;
    proof {
        assert(bytes@.skip(0) =~= bytes@);
        assert(out@ + spec_b64(bytes@) =~= spec_b64(bytes@));
    }
    while n - i >= 3
        invariant
            n == bytes@.len(),
            i <= n,
            i % 3 == 0,
            out@ + spec_b64(bytes@.skip(i as int)) == spec_b64(bytes@),
        decreases n - i,
    {
        let b0 = bytes[i];
        let b1 = bytes[i + 1];
        let b2 = bytes[i + 2];
        proof {
            assert(bytes@.skip(i as int)[0] == bytes@[i as int]);
            assert(bytes@.skip(i as int)[1] == bytes@[i + 1]);
            assert(bytes@.skip(i as int)[2] == bytes@[i + 2]);
            assert(bytes@.skip(i as int).skip(3) =~= bytes@.skip(i + 3));
        }
        push_char(&mut out, b64_char(b0 / 4));
        push_char(&mut out, b64_char((b0 % 4) * 16 + b1 / 16));
        push_char(&mut out, b64_char((b1 % 16) * 4 + b2 / 64));
        push_char(&mut out, b64_char(b2 % 64));
        proof {
            assert(out@ + spec_b64(bytes@.skip(i + 3)) =~= spec_b64(bytes@));
        }
        i = i + 3;
    }
    let rem = n - i;
    if rem == 1 {
        let b0 = bytes[i];
        proof {
            assert(bytes@.skip(i as int)[0] == bytes@[i as int]);
            assert(bytes@.skip(i as int).len() == 1);
        }
        push_char(&mut out, b64_char(b0 / 4));
        push_char(&mut out, b64_char((b0 % 4) * 16));
        proof {
            assert(out@ =~= spec_b64(bytes@));
        }
    } else if rem == 2 {
        let b0 = bytes[i];
        let b1 = bytes[i + 1];
        proof {
            assert(bytes@.skip(i as int)[0] == bytes@[i as int]);
            assert(bytes@.skip(i as int)[1] == bytes@[i + 1]);
            assert(bytes@.skip(i as int).len() == 2);
        }
        push_char(&mut out, b64_char(b0 / 4));
        push_char(&mut out, b64_char((b0 % 4) * 16 + b1 / 16));
        push_char(&mut out, b64_char((b1 % 16) * 4));
        proof {
            assert(out@ =~= spec_b64(bytes@));
        }
    } else {
        proof {
            assert(bytes@.skip(i as int).len() == 0);
            assert(out@ + Seq::<char>::empty() =~= out@);
            assert(out@ =~= spec_b64(bytes@));
        }
    }
    out
}

/// Decode base64url without padding; `None` exactly when the input is no
/// encoding (wrong length, a character outside the alphabet, or nonzero
/// padding bits in a trailing group).
#[verifier::rlimit(100)]
pub fn b64_decode(s: &str) -> (r: Option<Vec<u8>>)
    ensures
        match r {
            Some(bytes) => s@ == spec_b64(bytes@),
            None => forall|d: Seq<u8>| s@ != spec_b64(d),
        },
{
    let n = s.unicode_len();
    if n % 4 == 1 {
        proof {
            assert forall|d: Seq<u8>| s@ != spec_b64(d) by {
                if s@ == spec_b64(d) {
                    lemma_b64_len(d);
                }
            }
        }
        return None;
    }
    let mut out: Vec<u8> = Vec::new();
    let mut i: usize = 0;
    proof {
        assert(spec_b64(out@) =~= s@.take(0));
    }
    while n - i >= 4
        invariant
            n == s@.len(),
            n % 4 != 1,
            i <= n,
            i % 4 == 0,
            out@.len() == 3 * (i / 4),
            spec_b64(out@) == s@.take(i as int),
        decreases n - i,
    {
        let c1 = s.get_char(i);
        let c2 = s.get_char(i + 1);
        let c3 = s.get_char(i + 2);
        let c4 = s.get_char(i + 3);
        let v1 = b64_val(c1);
        let v2 = b64_val(c2);
        let v3 = b64_val(c3);
        let v4 = b64_val(c4);
        if v1 == 64 || v2 == 64 || v3 == 64 || v4 == 64 {
            proof {
                lemma_b64_reject_bad_char(s@, out@, i as int);
            }
            return None;
        }
        let b0: u8 = v1 * 4 + v2 / 16;
        let b1: u8 = (v2 % 16) * 16 + v3 / 4;
        let b2: u8 = (v3 % 4) * 64 + v4;
        let ghost prev = out@;
        out.push(b0);
        out.push(b1);
        out.push(b2);
        proof {
            lemma_b64_split(out@, prev.len() as int);
            assert(out@.take(prev.len() as int) =~= prev);
            let tail = out@.skip(prev.len() as int);
            assert(tail.len() == 3);
            assert(tail[0] == b0 && tail[1] == b1 && tail[2] == b2);
            lemma_b64_val_char(c1);
            lemma_b64_val_char(c2);
            lemma_b64_val_char(c3);
            lemma_b64_val_char(c4);
            assert(b0 as int / 4 == v1 as int);
            assert((b0 as int % 4) * 16 + b1 as int / 16 == v2 as int);
            assert((b1 as int % 16) * 4 + b2 as int / 64 == v3 as int);
            assert(b2 as int % 64 == v4 as int);
            assert(tail.skip(3) =~= Seq::<u8>::empty());
            lemma_b64_len(tail.skip(3));
            assert(spec_b64(tail.skip(3)) =~= Seq::<char>::empty());
            assert(spec_b64(tail) =~= seq![c1, c2, c3, c4]);
            assert(spec_b64(out@) =~= s@.take(i + 4));
        }
        i = i + 4;
    }
    let rem = n - i;
    if rem == 0 {
        proof {
            assert(s@.take(n as int) =~= s@);
        }
        return Some(out);
    }
    if rem == 2 {
        let c1 = s.get_char(i);
        let c2 = s.get_char(i + 1);
        let v1 = b64_val(c1);
        let v2 = b64_val(c2);
        if v1 == 64 || v2 == 64 {
            proof {
                lemma_b64_reject_bad_char(s@, out@, i as int);
            }
            return None;
        }
        if v2 % 16 != 0 {
            proof {
                lemma_b64_reject_tail(s@, out@, i as int);
            }
            return None;
        }
        let b0: u8 = v1 * 4 + v2 / 16;
        let ghost prev = out@;
        out.push(b0);
        proof {
            lemma_b64_split(out@, prev.len() as int);
            assert(out@.take(prev.len() as int) =~= prev);
            let tail = out@.skip(prev.len() as int);
            assert(tail.len() == 1);
            assert(tail[0] == b0);
            lemma_b64_val_char(c1);
            lemma_b64_val_char(c2);
            assert(b0 as int / 4 == v1 as int);
            assert((b0 as int % 4) * 16 == v2 as int);
            assert(spec_b64(tail) =~= seq![c1, c2]);
            assert(spec_b64(out@) =~= s@);
        }
        return Some(out);
    }
    // rem == 3
    let c1 = s.get_char(i);
    let c2 = s.get_char(i + 1);
    let c3 = s.get_char(i + 2);
    let v1 = b64_val(c1);
    let v2 = b64_val(c2);
    let v3 = b64_val(c3);
    if v1 == 64 || v2 == 64 || v3 == 64 {
        proof {
            lemma_b64_reject_bad_char(s@, out@, i as int);
        }
        return None;
    }
    if v3 % 4 != 0 {
        proof {
            lemma_b64_reject_tail(s@, out@, i as int);
        }
        return None;
    }
    let b0: u8 = v1 * 4 + v2 / 16;
    let b1: u8 = (v2 % 16) * 16 + v3 / 4;
    let ghost prev = out@;
    out.push(b0);
    out.push(b1);
    proof {
        lemma_b64_split(out@, prev.len() as int);
        assert(out@.take(prev.len() as int) =~= prev);
        let tail = out@.skip(prev.len() as int);
        assert(tail.len() == 2);
        assert(tail[0] == b0 && tail[1] == b1);
        lemma_b64_val_char(c1);
        lemma_b64_val_char(c2);
        lemma_b64_val_char(c3);
        assert(b0 as int / 4 == v1 as int);
        assert((b0 as int % 4) * 16 + b1 as int / 16 == v2 as int);
        assert((b1 as int % 16) * 4 == v3 as int);
        assert(spec_b64(tail) =~= seq![c1, c2, c3]);
        assert(spec_b64(out@) =~= s@);
    }
    Some(out)
}

/// At a group boundary where the input continues with a character outside
/// the alphabet, no byte sequence encodes to the input.
proof fn lemma_b64_reject_bad_char(s: Seq<char>, out: Seq<u8>, i: int)
    requires
        0 <= i <= s.len(),
        out.len() % 3 == 0,
        spec_b64(out) == s.take(i),
        s.len() - i >= 2,
        exists|k: int| i <= k < s.len() && spec_b64_val(#[trigger] s[k]) >= 64,
    ensures
        forall|d: Seq<u8>| s != spec_b64(d),
{
    assert forall|d: Seq<u8>| s != spec_b64(d) by {
        if s == spec_b64(d) {
            lemma_b64_shape(d);
            let k = choose|k: int| i <= k < s.len() && spec_b64_val(#[trigger] s[k]) >= 64;
            assert(spec_b64_val(spec_b64(d)[k]) < 64);
        }
    }
}

/// At the final partial group, nonzero padding bits rule out every
/// encoding.
proof fn lemma_b64_reject_tail(s: Seq<char>, out: Seq<u8>, i: int)
    requires
        0 <= i <= s.len(),
        i % 4 == 0,
        out.len() == 3 * (i / 4),
        spec_b64(out) == s.take(i),
        s.len() - i == 2 || s.len() - i == 3,
        s.len() - i == 2 ==> spec_b64_val(s.last()) % 16 != 0,
        s.len() - i == 3 ==> spec_b64_val(s.last()) % 4 != 0,
    ensures
        forall|d: Seq<u8>| s != spec_b64(d),
{
    assert forall|d: Seq<u8>| s != spec_b64(d) by {
        if s == spec_b64(d) {
            lemma_b64_len(d);
            let m = 3 * (i / 4);
            assert(m % 3 == 0);
            assert(m <= d.len()) by {
                assert(d.len() == 3 * (d.len() as int / 3) + d.len() as int % 3);
            }
            lemma_b64_split(d, m);
            lemma_b64_len(d.take(m));
            lemma_b64_len(d.skip(m));
            assert(d.take(m).len() == m);
            assert(spec_b64(d.take(m)).len() == i);
            let tail = d.skip(m);
            assert(spec_b64(tail).len() == s.len() - i);
            if s.len() - i == 2 {
                assert(tail.len() == 1) by {
                    assert(tail.len() == 3 * (tail.len() as int / 3) + tail.len() as int % 3);
                }
                lemma_b64_shape(tail);
                assert(spec_b64(tail).last() == s.last()) by {
                    assert(s[s.len() - 1] == spec_b64(d)[s.len() - 1]);
                    assert(spec_b64(d)[s.len() - 1] == spec_b64(tail)[s.len() - 1 - i]);
                }
            } else {
                assert(tail.len() == 2) by {
                    assert(tail.len() == 3 * (tail.len() as int / 3) + tail.len() as int % 3);
                }
                lemma_b64_shape(tail);
                assert(spec_b64(tail).last() == s.last()) by {
                    assert(s[s.len() - 1] == spec_b64(d)[s.len() - 1]);
                    assert(spec_b64(d)[s.len() - 1] == spec_b64(tail)[s.len() - 1 - i]);
                }
            }
        }
    }
}

/// The standard-alphabet rendering of a URL-safe character: identical but
/// for `+` and `/` in place of `-` and `_`.
pub open spec fn spec_std_of_url(c: char) -> char {
    if c == '-' {
        '+'
    } else if c == '_' {
        '/'
    } else {
        c
    }
}

/// The `=` padding that standard base64 appends to an encoding of `n`
/// characters.
pub open spec fn spec_b64_pad(n: int) -> Seq<char> {
    if n % 4 == 2 {
        seq!['=', '=']
    } else if n % 4 == 3 {
        seq!['=']
    } else {
        Seq::empty()
    }
}

/// Standard base64 with padding, as `Basic` authorization carries it: the
/// URL-safe encoding with the two alternate characters and `=` padding.
pub open spec fn spec_b64_std(bytes: Seq<u8>) -> Seq<char> {
    let raw = spec_b64(bytes).map(|i: int, c: char| spec_std_of_url(c));
    raw + spec_b64_pad(raw.len() as int)
}

/// Encode in standard base64 with padding.
pub fn b64_std_encode(bytes: &Vec<u8>) -> (r: String)
    ensures
        r@ == spec_b64_std(bytes@),
{
    let e = b64_encode(bytes);
    let ghost raw = spec_b64(bytes@).map(|i: int, c: char| spec_std_of_url(c));
    let n = e.unicode_len();
    let mut out = String::new();
    let mut i: usize = 0;
    while i < n
        invariant
            n == e@.len(),
            e@ == spec_b64(bytes@),
            i <= n,
            raw == spec_b64(bytes@).map(|t: int, c: char| spec_std_of_url(c)),
            out@ =~= raw.take(i as int),
        decreases n - i,
    {
        let c = e.get_char(i);
        let t = if c == '-' {
            '+'
        } else if c == '_' {
            '/'
        } else {
            c
        };
        proof {
            assert(t == spec_std_of_url(e@[i as int]));
            assert(raw[i as int] == spec_std_of_url(e@[i as int]));
            assert(out@.push(t) =~= raw.take(i + 1));
        }
        crate::text::push_char(&mut out, t);
        i = i + 1;
    }
    proof {
        assert(out@ =~= raw);
    }
    if n % 4 == 2 {
        crate::text::push_char(&mut out, '=');
        crate::text::push_char(&mut out, '=');
        proof {
            assert(out@ =~= raw + spec_b64_pad(raw.len() as int));
        }
    } else if n % 4 == 3 {
        crate::text::push_char(&mut out, '=');
        proof {
            assert(out@ =~= raw + spec_b64_pad(raw.len() as int));
        }
    } else {
        proof {
            assert(out@ =~= raw + spec_b64_pad(raw.len() as int));
        }
    }
    out
}

} // verus!
