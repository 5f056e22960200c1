//! Hexadecimal digits and byte/hex conversions shared by the key and
//! the header protocol.

use vstd::prelude::*;

verus! {

/// True when `c` is an ASCII hexadecimal digit.
pub open spec fn is_hex_digit(c: char) -> bool {
    (48 <= c as u32 && c as u32 <= 57)  // '0'..='9'
    || (97 <= c as u32 && c as u32 <= 102)  // 'a'..='f'
    || (65 <= c as u32 && c as u32 <= 70)  // 'A'..='F'
}

/// The numeric value of a hexadecimal digit.
pub open spec fn hex_digit_value(c: char) -> u8 {
    if 48 <= c as u32 && c as u32 <= 57 {
        (c as u32 - 48) as u8
    } else if 97 <= c as u32 && c as u32 <= 102 {
        (c as u32 - 87) as u8
    } else {
        (c as u32 - 55) as u8
    }
}

/// The byte written by a pair of hexadecimal digits, high digit first.
pub open spec fn hex_pair_value(hi: char, lo: char) -> u8 {
    (hex_digit_value(hi) * 16 + hex_digit_value(lo)) as u8
}

/// The byte at pair position `i` of the hex text `s`, with the engine's
/// fallback: a pair that is not two hexadecimal digits (or that runs past
/// the end of the text) stands for byte 0.
pub open spec fn hex_pair_or_zero(s: Seq<char>, i: int) -> u8 {
    if 0 <= i && 2 * i + 1 < s.len() && is_hex_digit(s[2 * i]) && is_hex_digit(s[2 * i + 1]) {
        hex_pair_value(s[2 * i], s[2 * i + 1])
    } else {
        0
    }
}

/// True when `s` is a well-formed hex key: even length, every character
/// a hexadecimal digit.
pub open spec fn valid_hex_key(s: Seq<char>) -> bool {
    s.len() % 2 == 0 && forall|i: int| 0 <= i < s.len() ==> is_hex_digit(#[trigger] s[i])
}

/// The bytes decoded from a well-formed hex key, one byte per digit pair.
pub open spec fn decode_hex_pairs(s: Seq<char>) -> Seq<u8> {
    Seq::new((s.len() / 2) as nat, |i: int| hex_pair_value(s[2 * i], s[2 * i + 1]))
}

/// The lowercase hexadecimal digit with value `v` (`v < 16`).
pub open spec fn hex_char_of(v: u8) -> char {
    match v {
        0 => '0',
        1 => '1',
        2 => '2',
        3 => '3',
        4 => '4',
        5 => '5',
        6 => '6',
        7 => '7',
        8 => '8',
        9 => '9',
        10 => 'a',
        11 => 'b',
        12 => 'c',
        13 => 'd',
        14 => 'e',
        15 => 'f',
        _ => '0',
    }
}

/// The two lowercase hexadecimal digits that write the byte `b`.
pub open spec fn byte_hex_chars(b: u8) -> Seq<char> {
    seq![hex_char_of(b / 16), hex_char_of(b % 16)]
}

/// The lowercase hex text for a whole byte sequence, two digits per byte.
pub open spec fn bytes_hex_chars(bs: Seq<u8>) -> Seq<char>
    decreases bs.len(),
{
    if bs.len() == 0 {
        Seq::empty()
    } else {
        byte_hex_chars(bs[0]) + bytes_hex_chars(bs.skip(1))
    }
}

/// `hex_char_of` writes a hexadecimal digit of the given value.
pub proof fn lemma_hex_char_value(v: u8)
    requires
        v < 16,
    ensures
        is_hex_digit(hex_char_of(v)),
        hex_digit_value(hex_char_of(v)) == v,
{
}

/// The digit pair written for a byte decodes back to that byte.
pub proof fn lemma_byte_hex_chars(b: u8)
    ensures
        byte_hex_chars(b).len() == 2,
        is_hex_digit(byte_hex_chars(b)[0]),
        is_hex_digit(byte_hex_chars(b)[1]),
        hex_pair_value(byte_hex_chars(b)[0], byte_hex_chars(b)[1]) == b,
{
    lemma_hex_char_value(b / 16);
    lemma_hex_char_value(b % 16);
}

/// Appending one byte appends its digit pair to the hex text.
pub proof fn lemma_bytes_hex_chars_push(bs: Seq<u8>, b: u8)
    ensures
        bytes_hex_chars(bs.push(b)) == bytes_hex_chars(bs) + byte_hex_chars(b),
    decreases bs.len(),
{
    if bs.len() == 0 {
        assert(bs.push(b)[0] == b);
        assert(bs.push(b).skip(1) =~= Seq::<u8>::empty());
        assert(bytes_hex_chars(Seq::<u8>::empty()) == Seq::<char>::empty());
        assert(bytes_hex_chars(bs.push(b)) == byte_hex_chars(b) + Seq::<char>::empty());
        assert(bytes_hex_chars(bs.push(b)) =~= bytes_hex_chars(bs) + byte_hex_chars(b));
    } else {
        assert(bs.push(b)[0] == bs[0]);
        assert(bs.push(b).skip(1) =~= bs.skip(1).push(b));
        lemma_bytes_hex_chars_push(bs.skip(1), b);
        assert(byte_hex_chars(bs[0]) + (bytes_hex_chars(bs.skip(1)) + byte_hex_chars(b)) =~= (
        byte_hex_chars(bs[0]) + bytes_hex_chars(bs.skip(1))) + byte_hex_chars(b));
    }
}

/// The hex text of a byte sequence is a well-formed hex key and decodes
/// back to the same bytes.
pub proof fn lemma_bytes_hex_chars_valid(bs: Seq<u8>)
    ensures
        bytes_hex_chars(bs).len() == 2 * bs.len(),
        valid_hex_key(bytes_hex_chars(bs)),
        decode_hex_pairs(bytes_hex_chars(bs)) == bs,
    decreases bs.len(),
{
    if bs.len() == 0 {
        assert(decode_hex_pairs(bytes_hex_chars(bs)) =~= bs);
    } else {
        let s = bytes_hex_chars(bs);
        let tail = bytes_hex_chars(bs.skip(1));
        lemma_byte_hex_chars(bs[0]);
        lemma_bytes_hex_chars_valid(bs.skip(1));
        assert(s == byte_hex_chars(bs[0]) + tail);
        assert forall|i: int| 0 <= i < s.len() implies is_hex_digit(#[trigger] s[i]) by {
            if i >= 2 {
                assert(s[i] == tail[i - 2]);
                assert(is_hex_digit(tail[i - 2]));
            }
        }
        assert forall|i: int| 0 <= i < bs.len() implies decode_hex_pairs(s)[i] == bs[i] by {
            if i == 0 {
                assert(s[0] == byte_hex_chars(bs[0])[0]);
                assert(s[1] == byte_hex_chars(bs[0])[1]);
            } else {
                assert(s[2 * i] == tail[2 * (i - 1)]);
                assert(s[2 * i + 1] == tail[2 * (i - 1) + 1]);
                assert(decode_hex_pairs(tail)[i - 1] == bs.skip(1)[i - 1]);
            }
        }
        assert(decode_hex_pairs(s) =~= bs);
    }
}

/// The binary digit at position `i` (most significant first) of the
/// byte `b`.
pub open spec fn bit_char(b: u8, i: int) -> char {
    if (b >> ((7 - i) as u8)) & 1 == 1 {
        '1'
    } else {
        '0'
    }
}

/// The eight binary digits of the byte `b`, most significant first.
pub open spec fn bits_chars(b: u8) -> Seq<char> {
    Seq::new(8, |i: int| bit_char(b, i))
}

/// Decides `is_hex_digit`.
pub fn is_hex_digit_char(c: char) -> (r: bool)
    ensures
        r == is_hex_digit(c),
{
    let u = c as u32;
    (48 <= u && u <= 57) || (97 <= u && u <= 102) || (65 <= u && u <= 70)
}

/// Computes `hex_digit_value`.
pub fn hex_digit_value_of(c: char) -> (r: u8)
    requires
        is_hex_digit(c),
    ensures
        r == hex_digit_value(c),
{
    let u = c as u32;
    if 48 <= u && u <= 57 {
        (u - 48) as u8
    } else if 97 <= u && u <= 102 {
        (u - 87) as u8
    } else {
        (u - 55) as u8
    }
}

/// True when every character of `v` is a hexadecimal digit.
pub fn all_hex_digits(v: &Vec<char>) -> (r: bool)
    ensures
        r == (forall|i: int| 0 <= i < v@.len() ==> is_hex_digit(#[trigger] v@[i])),
{
    let mut i: usize = 0;
    while i < v.len()
        invariant
            0 <= i <= v@.len(),
            forall|j: int| 0 <= j < i ==> is_hex_digit(#[trigger] v@[j]),
        decreases v@.len() - i,
    {
        if !is_hex_digit_char(v[i]) {
            return false;
        }
        i += 1;
    }
    true
}

/// Decodes a validated vector of hex digits, one byte per pair.
pub fn decode_pairs(v: &Vec<char>) -> (r: Vec<u8>)
    requires
        valid_hex_key(v@),
    ensures
        r@ == decode_hex_pairs(v@),
{
    let mut out: Vec<u8> = Vec::new();
    let n = v.len() / 2;
    let mut i: usize = 0;
    while i < n
        invariant
            0 <= i <= n,
            n == v@.len() / 2,
            n <= usize::MAX / 2,
            valid_hex_key(v@),
            out@ == decode_hex_pairs(v@).take(i as int),
        decreases n - i,
    {
        proof {
            assert(v@.len() == 2 * n);
        }
        let hi = v[2 * i];
        let lo = v[2 * i + 1];
        let b = 16 * hex_digit_value_of(hi) + hex_digit_value_of(lo);
        out.push(b);
        proof {
            assert(out@ =~= decode_hex_pairs(v@).take(i + 1));
        }
        i += 1;
    }
    proof {
        assert(out@ =~= decode_hex_pairs(v@));
    }
    out
}

/// The one-character text holding the lowercase hexadecimal digit of
/// value `v`.
fn hex_digit_str(v: u8) -> (r: &'static str)
    requires
        v < 16,
    ensures
        r@ == seq![hex_char_of(v)],
{
    let table = "0123456789abcdef";
    proof {
        reveal_strlit("0123456789abcdef");
        assert(table.is_ascii());
    }
    let r = table.substring_ascii(v as usize, v as usize + 1);
    proof {
        assert(r@ =~= seq![hex_char_of(v)]);
    }
    r
}

/// The two-digit lowercase hex text of the byte `b`.
pub fn byte_hex_string(b: u8) -> (r: String)
    ensures
        r@ == byte_hex_chars(b),
{
    let mut s = String::new();
    s.append(hex_digit_str(b / 16));
    s.append(hex_digit_str(b % 16));
    proof {
        assert(s@ =~= byte_hex_chars(b));
    }
    s
}

} // verus!
