//! Identifier codec: a 32-bit identifier is encoded as eight characters
//! drawn from a URL-safe alphabet of sixteen lower-case alphanumerics, most
//! significant group first. Encoding and decoding form a bijection between
//! identifiers and well-formed encodings.
use vstd::prelude::*;

use crate::errors::DecodeError;

verus! {

/// Number of characters in an encoded identifier.
pub const ENCODED_LEN: usize = 8;

/// The value of one identifier character, or -1 where the character is
/// outside the alphabet.
pub open spec fn char_digit(c: char) -> int {
    if c == '0' {
        0
    } else if c == '1' {
        1
    } else if c == '2' {
        2
    } else if c == '3' {
        3
    } else if c == '4' {
        4
    } else if c == '5' {
        5
    } else if c == '6' {
        6
    } else if c == '7' {
        7
    } else if c == '8' {
        8
    } else if c == '9' {
        9
    } else if c == 'a' {
        10
    } else if c == 'b' {
        11
    } else if c == 'c' {
        12
    } else if c == 'd' {
        13
    } else if c == 'e' {
        14
    } else if c == 'f' {
        15
    } else {
        -1
    }
}

/// Whether a character belongs to the identifier alphabet.
pub open spec fn is_id_char(c: char) -> bool {
    char_digit(c) != -1
}

/// The character that encodes one value of the alphabet.
pub open spec fn digit_char(d: int) -> char {
    if d == 0 {
        '0'
    } else if d == 1 {
        '1'
    } else if d == 2 {
        '2'
    } else if d == 3 {
        '3'
    } else if d == 4 {
        '4'
    } else if d == 5 {
        '5'
    } else if d == 6 {
        '6'
    } else if d == 7 {
        '7'
    } else if d == 8 {
        '8'
    } else if d == 9 {
        '9'
    } else if d == 10 {
        'a'
    } else if d == 11 {
        'b'
    } else if d == 12 {
        'c'
    } else if d == 13 {
        'd'
    } else if d == 14 {
        'e'
    } else {
        'f'
    }
}

/// The value of the four-bit group of `id` at position `i` of the encoding,
/// most significant group first.
pub open spec fn nibble(id: u32, i: int) -> int {
    if i == 0 {
        (id as int / 0x10000000) % 16
    } else if i == 1 {
        (id as int / 0x1000000) % 16
    } else if i == 2 {
        (id as int / 0x100000) % 16
    } else if i == 3 {
        (id as int / 0x10000) % 16
    } else if i == 4 {
        (id as int / 0x1000) % 16
    } else if i == 5 {
        (id as int / 0x100) % 16
    } else if i == 6 {
        (id as int / 0x10) % 16
    } else {
        id as int % 16
    }
}

/// The textual encoding of an identifier.
pub open spec fn spec_encode(id: u32) -> Seq<char> {
    Seq::new(8, |i: int| digit_char(nibble(id, i)))
}

/// Whether a character sequence is a well-formed encoded identifier.
pub open spec fn valid_encoding(s: Seq<char>) -> bool {
    &&& s.len() == 8
    &&& forall|i: int| 0 <= i < 8 ==> is_id_char(#[trigger] s[i])
}

/// The numeric value read back from an encoding, most significant
/// character first.
pub open spec fn decoded_val(s: Seq<char>) -> int
    decreases s.len(),
{
    if s.len() == 0 {
        0
    } else {
        decoded_val(s.drop_last()) * 16 + char_digit(s.last())
    }
}

/// 16 raised to the power `k`.
pub open spec fn pow16(k: nat) -> int
    decreases k,
{
    if k == 0 {
        1
    } else {
        16 * pow16((k - 1) as nat)
    }
}

proof fn lemma_pow16_pos(k: nat)
    ensures
        pow16(k) >= 1,
    decreases k,
{
    if k > 0 {
        lemma_pow16_pos((k - 1) as nat);
    }
}

proof fn lemma_pow16_mono(a: nat, b: nat)
    requires
        a <= b,
    ensures
        pow16(a) <= pow16(b),
    decreases b,
{
    if a < b {
        lemma_pow16_mono(a, (b - 1) as nat);
        lemma_pow16_pos((b - 1) as nat);
    }
}

/// A well-formed encoding reads back to a value below 16^len.
proof fn lemma_decoded_bound(s: Seq<char>)
    requires
        forall|i: int| 0 <= i < s.len() ==> is_id_char(#[trigger] s[i]),
    ensures
        0 <= decoded_val(s) < pow16(s.len()),
    decreases s.len(),
{
    if s.len() > 0 {
        assert(forall|i: int|
            0 <= i < s.drop_last().len() ==> is_id_char(#[trigger] s.drop_last()[i]));
        lemma_decoded_bound(s.drop_last());
        assert(is_id_char(s.last()));
        assert(0 <= char_digit(s.last()) < 16);
    }
}

/// The single-character string that encodes one value of the alphabet.
fn digit_str(d: u32) -> (r: &'static str)
    requires
        d < 16,
    ensures
        r@ =~= seq![digit_char(d as int)],
{
    proof {
        reveal_strlit("0");
        reveal_strlit("1");
        reveal_strlit("2");
        reveal_strlit("3");
        reveal_strlit("4");
        reveal_strlit("5");
        reveal_strlit("6");
        reveal_strlit("7");
        reveal_strlit("8");
        reveal_strlit("9");
        reveal_strlit("a");
        reveal_strlit("b");
        reveal_strlit("c");
        reveal_strlit("d");
        reveal_strlit("e");
        reveal_strlit("f");
    }
    match d {
        0 => "0",
        1 => "1",
        2 => "2",
        3 => "3",
        4 => "4",
        5 => "5",
        6 => "6",
        7 => "7",
        8 => "8",
        9 => "9",
        10 => "a",
        11 => "b",
        12 => "c",
        13 => "d",
        14 => "e",
        _ => "f",
    }
}

/// Encodes an identifier as its eight-character URL-safe path segment.
pub fn encode(id: u32) -> (r: String)
    ensures
        r@ == spec_encode(id),
        valid_encoding(r@),
{
    let d0 = id / 0x10000000;
    let d1 = (id / 0x1000000) % 16;
    let d2 = (id / 0x100000) % 16;
    let d3 = (id / 0x10000) % 16;
    let d4 = (id / 0x1000) % 16;
    let d5 = (id / 0x100) % 16;
    let d6 = (id / 0x10) % 16;
    let d7 = id % 16;
    let mut r = String::new();
    r.append(digit_str(d0));
    r.append(digit_str(d1));
    r.append(digit_str(d2));
    r.append(digit_str(d3));
    r.append(digit_str(d4));
    r.append(digit_str(d5));
    r.append(digit_str(d6));
    r.append(digit_str(d7));
    proof {
        assert(d0 as int == nibble(id, 0));
        assert(r@ =~= spec_encode(id));
        assert(forall|i: int| 0 <= i < 8 ==> is_id_char(#[trigger] spec_encode(id)[i]));
    }
    r
}

/// The value of one identifier character, if it belongs to the alphabet.
fn char_value(c: char) -> (r: Option<u32>)
    ensures
        match r {
            Some(d) => d < 16 && char_digit(c) == d as int,
            None => char_digit(c) == -1,
        },
{
    match c {
        '0' => Some(0),
        '1' => Some(1),
        '2' => Some(2),
        '3' => Some(3),
        '4' => Some(4),
        '5' => Some(5),
        '6' => Some(6),
        '7' => Some(7),
        '8' => Some(8),
        '9' => Some(9),
        'a' => Some(10),
        'b' => Some(11),
        'c' => Some(12),
        'd' => Some(13),
        'e' => Some(14),
        'f' => Some(15),
        _ => None,
    }
}

/// Decodes an eight-character path segment back into its identifier.
/// Fails with `Malformed` exactly on inputs of the wrong length or with a
/// character outside the alphabet.
pub fn decode(s: &str) -> (r: Result<u32, DecodeError>)
    ensures
        match r {
            Ok(v) => valid_encoding(s@) && v as int == decoded_val(s@),
            Err(e) => e == DecodeError::Malformed && !valid_encoding(s@),
        },
{
    let n = s.unicode_len();
    if n != ENCODED_LEN {
        return Err(DecodeError::Malformed);
    }
    let mut v: u32 = 0;
    let mut i: usize = 0;
    while i < ENCODED_LEN
        invariant
            n == 8,
            s@.len() == 8,
            0 <= i <= 8,
            forall|j: int| 0 <= j < i ==> is_id_char(#[trigger] s@[j]),
            v as int == decoded_val(s@.subrange(0, i as int)),
            (v as int) < pow16(i as nat),
        decreases 8 - i,
    {
        let c = s.get_char(i);
        let d = match char_value(c) {
            Some(d) => d,
            None => {
                return Err(DecodeError::Malformed);
            },
        };
        proof {
            lemma_pow16_mono((i + 1) as nat, 8);
            assert(pow16(8) == 0x100000000) by {
                assert(pow16(0) == 1);
                assert(pow16(1) == 16);
                assert(pow16(2) == 0x100);
                assert(pow16(3) == 0x1000);
                assert(pow16(4) == 0x10000);
                assert(pow16(5) == 0x100000);
                assert(pow16(6) == 0x1000000);
                assert(pow16(7) == 0x10000000);
            }
            assert(pow16((i + 1) as nat) == 16 * pow16(i as nat));
            assert(s@.subrange(0, i + 1).drop_last() =~= s@.subrange(0, i as int));
            assert(s@.subrange(0, i + 1).last() == s@[i as int]);
        }
        v = v * 16 + d;
        i = i + 1;
    }
    proof {
        assert(s@.subrange(0, 8) =~= s@);
    }
    Ok(v)
}

/// Relies on rand::random: a fresh value from thread-local randomness;
/// nothing is promised of its distribution.
#[verifier::external_body]
pub(crate) fn random_u64() -> u64 {
    rand::random::<u64>()
}

/// A fresh identifier, drawn at random: an opaque handle, not derived from
/// content and not sequential.
pub fn generate() -> u32 {
    let v = random_u64();
    #[verifier::truncate] (v as u32)
}

/// The encoding of every identifier is well formed and reads back to the
/// identifier itself: the codec is a bijection onto well-formed encodings.
pub proof fn lemma_codec_round_trip(id: u32)
    ensures
        valid_encoding(spec_encode(id)),
        decoded_val(spec_encode(id)) == id,
{
    let s = spec_encode(id);
    assert forall|i: int| 0 <= i < 8 implies is_id_char(#[trigger] s[i]) by {
        assert(0 <= nibble(id, i) < 16);
    }
    let s7 = s.drop_last();
    let s6 = s7.drop_last();
    let s5 = s6.drop_last();
    let s4 = s5.drop_last();
    let s3 = s4.drop_last();
    let s2 = s3.drop_last();
    let s1 = s2.drop_last();
    let s0 = s1.drop_last();
    assert(s0.len() == 0);
    assert(decoded_val(s) == decoded_val(s7) * 16 + char_digit(s[7]));
    assert(decoded_val(s7) == decoded_val(s6) * 16 + char_digit(s[6]));
    assert(decoded_val(s6) == decoded_val(s5) * 16 + char_digit(s[5]));
    assert(decoded_val(s5) == decoded_val(s4) * 16 + char_digit(s[4]));
    assert(decoded_val(s4) == decoded_val(s3) * 16 + char_digit(s[3]));
    assert(decoded_val(s3) == decoded_val(s2) * 16 + char_digit(s[2]));
    assert(decoded_val(s2) == decoded_val(s1) * 16 + char_digit(s[1]));
    assert(decoded_val(s1) == decoded_val(s0) * 16 + char_digit(s[0]));
    assert(decoded_val(s0) == 0);
    assert(char_digit(s[0]) == nibble(id, 0));
    assert(char_digit(s[1]) == nibble(id, 1));
    assert(char_digit(s[2]) == nibble(id, 2));
    assert(char_digit(s[3]) == nibble(id, 3));
    assert(char_digit(s[4]) == nibble(id, 4));
    assert(char_digit(s[5]) == nibble(id, 5));
    assert(char_digit(s[6]) == nibble(id, 6));
    assert(char_digit(s[7]) == nibble(id, 7));
    let x = id as int;
    vstd::arithmetic::div_mod::lemma_div_denominator(x, 0x10, 16);
    vstd::arithmetic::div_mod::lemma_div_denominator(x, 0x100, 16);
    vstd::arithmetic::div_mod::lemma_div_denominator(x, 0x1000, 16);
    vstd::arithmetic::div_mod::lemma_div_denominator(x, 0x10000, 16);
    vstd::arithmetic::div_mod::lemma_div_denominator(x, 0x100000, 16);
    vstd::arithmetic::div_mod::lemma_div_denominator(x, 0x1000000, 16);
    vstd::arithmetic::div_mod::lemma_div_denominator(x, 0x10000000, 16);
    assert(x / 0x10000000 == (x / 0x10000000) % 16);
    assert(x / 0x1000000 == (x / 0x10000000) * 16 + (x / 0x1000000) % 16);
    assert(x / 0x100000 == (x / 0x1000000) * 16 + (x / 0x100000) % 16);
    assert(x / 0x10000 == (x / 0x100000) * 16 + (x / 0x10000) % 16);
    assert(x / 0x1000 == (x / 0x10000) * 16 + (x / 0x1000) % 16);
    assert(x / 0x100 == (x / 0x1000) * 16 + (x / 0x100) % 16);
    assert(x / 0x10 == (x / 0x100) * 16 + (x / 0x10) % 16);
    assert(x == (x / 0x10) * 16 + x % 16);
}

} // verus!
