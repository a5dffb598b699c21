//! Hexadecimal text form of binary hashes: the spec-level encoding and
//! decoding functions, their executable counterparts, and the round-trip
//! lemmas that connect them.
use vstd::prelude::*;

use crate::errors::HexError;

verus! {

/// The numeric value of a hexadecimal digit, or `None` for any other character.
pub open spec fn hex_char_value(c: char) -> Option<u8> {
    match c {
        '0' => Some(0u8),
        '1' => Some(1u8),
        '2' => Some(2u8),
        '3' => Some(3u8),
        '4' => Some(4u8),
        '5' => Some(5u8),
        '6' => Some(6u8),
        '7' => Some(7u8),
        '8' => Some(8u8),
        '9' => Some(9u8),
        'a' => Some(10u8),
        'b' => Some(11u8),
        'c' => Some(12u8),
        'd' => Some(13u8),
        'e' => Some(14u8),
        'f' => Some(15u8),
        'A' => Some(10u8),
        'B' => Some(11u8),
        'C' => Some(12u8),
        'D' => Some(13u8),
        'E' => Some(14u8),
        'F' => Some(15u8),
        _ => None,
    }
}

pub open spec fn is_hex_digit(c: char) -> bool {
    hex_char_value(c) is Some
}

/// The canonical lowercase digit for a nibble value below 16.
pub open spec fn lower_hex_char(v: u8) -> char {
    match v {
        0u8 => '0',
        1u8 => '1',
        2u8 => '2',
        3u8 => '3',
        4u8 => '4',
        5u8 => '5',
        6u8 => '6',
        7u8 => '7',
        8u8 => '8',
        9u8 => '9',
        10u8 => 'a',
        11u8 => 'b',
        12u8 => 'c',
        13u8 => 'd',
        14u8 => 'e',
        15u8 => 'f',
        _ => '0',
    }
}

pub open spec fn is_lower_hex_digit(c: char) -> bool {
    is_hex_digit(c) && lower_hex_char(hex_char_value(c)->0) == c
}

/// The lowercase hexadecimal text of a byte sequence: two digits per byte,
/// high nibble first.
pub open spec fn hex_encode(bytes: Seq<u8>) -> Seq<char> {
    Seq::new(
        bytes.len() * 2,
        |i: int|
            if i % 2 == 0 {
                lower_hex_char((bytes[i / 2] / 16) as u8)
            } else {
                lower_hex_char((bytes[i / 2] % 16) as u8)
            },
    )
}

/// Whether a character sequence is well-formed hexadecimal text: an even
/// number of characters, all of them hexadecimal digits.
pub open spec fn is_hex_text(s: Seq<char>) -> bool {
    &&& s.len() % 2 == 0
    &&& forall|i: int| 0 <= i < s.len() ==> is_hex_digit(#[trigger] s[i])
}

/// The byte sequence denoted by hexadecimal text; meaningful when
/// `is_hex_text(s)` holds.
pub open spec fn hex_decode(s: Seq<char>) -> Seq<u8> {
    Seq::new(
        s.len() / 2,
        |i: int| ((hex_char_value(s[2 * i])->0 * 16 + hex_char_value(s[2 * i + 1])->0)) as u8,
    )
}

/// Decoding undoes encoding: every byte sequence is recovered from its
/// hexadecimal text.
pub proof fn lemma_hex_decode_encode(bytes: Seq<u8>)
    ensures
        hex_decode(hex_encode(bytes)) == bytes,
{
    let enc = hex_encode(bytes);
    assert forall|i: int| 0 <= i < bytes.len() implies hex_decode(enc)[i] == bytes[i] by {
        let b = bytes[i];
        assert(enc[2 * i] == lower_hex_char((b / 16) as u8));
        assert(enc[2 * i + 1] == lower_hex_char((b % 16) as u8));
        assert(hex_char_value(lower_hex_char((b / 16) as u8)) == Some((b / 16) as u8));
        assert(hex_char_value(lower_hex_char((b % 16) as u8)) == Some((b % 16) as u8));
        assert(b / 16 * 16 + b % 16 == b);
    }
    assert(hex_decode(enc) =~= bytes);
}

/// Encoding undoes decoding on lowercase hexadecimal text.
pub proof fn lemma_hex_encode_decode(s: Seq<char>)
    requires
        s.len() % 2 == 0,
        forall|i: int| 0 <= i < s.len() ==> is_lower_hex_digit(#[trigger] s[i]),
    ensures
        hex_encode(hex_decode(s)) == s,
{
    let dec = hex_decode(s);
    assert forall|i: int| 0 <= i < s.len() implies hex_encode(dec)[i] == s[i] by {
        let j = i / 2;
        let hi = hex_char_value(s[2 * j])->0;
        let lo = hex_char_value(s[2 * j + 1])->0;
        assert(hi < 16 && lo < 16);
        assert(dec[j] == (hi * 16 + lo) as u8);
        assert(dec[j] / 16 == hi && dec[j] % 16 == lo);
        if i % 2 == 0 {
            assert(i == 2 * j);
            assert(hex_encode(dec)[i] == lower_hex_char(hi));
        } else {
            assert(i == 2 * j + 1);
            assert(hex_encode(dec)[i] == lower_hex_char(lo));
        }
    }
    assert(hex_encode(dec) =~= s);
}

/// Every encoding consists of lowercase hexadecimal digits.
pub proof fn lemma_hex_encode_is_lower(bytes: Seq<u8>)
    ensures
        hex_encode(bytes).len() == bytes.len() * 2,
        forall|i: int|
            0 <= i < hex_encode(bytes).len() ==> is_lower_hex_digit(#[trigger] hex_encode(bytes)[i]),
{
}

/// The executable form of `hex_char_value`.
pub fn hex_digit_value(c: char) -> (r: Option<u8>)
    ensures
        r == hex_char_value(c),
{
    match c {
        '0' => Some(0u8),
        '1' => Some(1u8),
        '2' => Some(2u8),
        '3' => Some(3u8),
        '4' => Some(4u8),
        '5' => Some(5u8),
        '6' => Some(6u8),
        '7' => Some(7u8),
        '8' => Some(8u8),
        '9' => Some(9u8),
        'a' => Some(10u8),
        'b' => Some(11u8),
        'c' => Some(12u8),
        'd' => Some(13u8),
        'e' => Some(14u8),
        'f' => Some(15u8),
        'A' => Some(10u8),
        'B' => Some(11u8),
        'C' => Some(12u8),
        'D' => Some(13u8),
        'E' => Some(14u8),
        'F' => Some(15u8),
        _ => None,
    }
}

/// The executable form of `lower_hex_char`.
pub fn nibble_to_lower_hex(v: u8) -> (r: char)
    ensures
        r == lower_hex_char(v),
{
    match v {
        0u8 => '0',
        1u8 => '1',
        2u8 => '2',
        3u8 => '3',
        4u8 => '4',
        5u8 => '5',
        6u8 => '6',
        7u8 => '7',
        8u8 => '8',
        9u8 => '9',
        10u8 => 'a',
        11u8 => 'b',
        12u8 => 'c',
        13u8 => 'd',
        14u8 => 'e',
        15u8 => 'f',
        _ => '0',
    }
}

/// Relies on std's `String::push`: appends the character to the string.
#[verifier::external_body]
pub(crate) fn string_push(s: &mut String, c: char)
    ensures
        final(s)@ == old(s)@.push(c),
{
    s.push(c);
}

/// The lowercase hexadecimal text of `bytes`.
pub fn encode_hex(bytes: &Vec<u8>) -> (r: String)
    ensures
        r@ == hex_encode(bytes@),
{
    let mut out = String::new();
    let mut i: usize = 0;
    while i < bytes.len()
        invariant
            i <= bytes@.len(),
            out@ =~= hex_encode(bytes@).subrange(0, 2 * i as int),
        decreases bytes@.len() - i,
    {
        let b = bytes[i];
        string_push(&mut out, nibble_to_lower_hex(b / 16));
        string_push(&mut out, nibble_to_lower_hex(b % 16));
        i = i + 1;
        assert(out@ =~= hex_encode(bytes@).subrange(0, 2 * i as int));
    }
    assert(out@ =~= hex_encode(bytes@));
    out
}

/// Decodes hexadecimal text that must denote exactly `out_len` bytes. The
/// checks and the error precedence are those of a fixed-width container:
/// an odd character count first, then a wrong width, then the leftmost
/// character that is no hexadecimal digit.
pub fn decode_hex_exact(s: &str, out_len: usize) -> (r: Result<Vec<u8>, HexError>)
    requires
        out_len <= usize::MAX / 2,
    ensures
        match r {
            Ok(v) => {
                &&& is_hex_text(s@)
                &&& s@.len() == 2 * out_len
                &&& v@ == hex_decode(s@)
            },
            Err(HexError::OddLength) => s@.len() % 2 != 0,
            Err(HexError::InvalidStringLength) => s@.len() % 2 == 0 && s@.len() != 2 * out_len,
            Err(HexError::InvalidHexCharacter(c, idx)) => {
                &&& s@.len() == 2 * out_len
                &&& idx < s@.len()
                &&& s@[idx as int] == c
                &&& !is_hex_digit(c)
                &&& forall|j: int| 0 <= j < idx ==> is_hex_digit(#[trigger] s@[j])
            },
        },
{
    let n = s.unicode_len();
    if n % 2 != 0 {
        return Err(HexError::OddLength);
    }
    if n / 2 != out_len {
        return Err(HexError::InvalidStringLength);
    }
    let mut out: Vec<u8> = Vec::new();
    let mut i: usize = 0;
    while i < n
        invariant
            s@.len() == n,
            n == 2 * out_len,
            i <= n,
            i % 2 == 0,
            out@ =~= hex_decode(s@).subrange(0, i as int / 2),
            forall|j: int| 0 <= j < i ==> is_hex_digit(#[trigger] s@[j]),
        decreases n - i,
    {
        let hi = match hex_digit_value(s.get_char(i)) {
            Some(v) => v,
            None => {
                return Err(HexError::InvalidHexCharacter(s.get_char(i), i));
            },
        };
        let lo = match hex_digit_value(s.get_char(i + 1)) {
            Some(v) => v,
            None => {
                return Err(HexError::InvalidHexCharacter(s.get_char(i + 1), i + 1));
            },
        };
        out.push(hi * 16 + lo);
        i = i + 2;
        assert(out@ =~= hex_decode(s@).subrange(0, i as int / 2));
    }
    assert(out@ =~= hex_decode(s@));
    Ok(out)
}

} // verus!
