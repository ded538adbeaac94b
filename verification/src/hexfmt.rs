//! Hex encoding of output fields and decoding of hex input lines.

use vstd::prelude::*;
use crate::GenError;

verus! {

/// The lowercase hex digit for a value below sixteen.
pub open spec fn hex_char_of(n: u8) -> char
    recommends
        n < 16,
{
    if n == 0 {
        '0'
    } else if n == 1 {
        '1'
    } else if n == 2 {
        '2'
    } else if n == 3 {
        '3'
    } else if n == 4 {
        '4'
    } else if n == 5 {
        '5'
    } else if n == 6 {
        '6'
    } else if n == 7 {
        '7'
    } else if n == 8 {
        '8'
    } else if n == 9 {
        '9'
    } else if n == 10 {
        'a'
    } else if n == 11 {
        'b'
    } else if n == 12 {
        'c'
    } else if n == 13 {
        'd'
    } else if n == 14 {
        'e'
    } else {
        'f'
    }
}

/// The lowercase hex text of a byte string, two digits per byte, in order.
pub open spec fn hex_str_of(b: Seq<u8>) -> Seq<char>
    decreases b.len(),
{
    if b.len() == 0 {
        Seq::empty()
    } else {
        hex_str_of(b.drop_last()) + seq![
            hex_char_of((b.last() / 16) as u8),
            hex_char_of((b.last() % 16) as u8),
        ]
    }
}

/// Relies on faster_hex::hex_string: two lowercase hex digits for each input
/// byte, in input order, high nibble first.
#[verifier::external_body]
pub(crate) fn hex_string(b: &Vec<u8>) -> (r: String)
    ensures
        r@.len() == 2 * b@.len(),
        forall|i: int|
            0 <= i < b@.len() ==> r@[2 * i] == hex_char_of((b@[i] / 16) as u8) && r@[2 * i + 1]
                == hex_char_of((b@[i] % 16) as u8),
{
    faster_hex::hex_string(b.as_slice())
}

proof fn lemma_hex_digit_pairs(b: Seq<u8>, s: Seq<char>)
    requires
        s.len() == 2 * b.len(),
        forall|i: int|
            0 <= i < b.len() ==> s[2 * i] == hex_char_of((b[i] / 16) as u8) && s[2 * i + 1]
                == hex_char_of((b[i] % 16) as u8),
    ensures
        s == hex_str_of(b),
    decreases b.len(),
{
    if b.len() == 0 {
        assert(s =~= hex_str_of(b));
    } else {
        let bp = b.drop_last();
        let sp = s.take(2 * bp.len() as int);
        assert(forall|i: int| 0 <= i < bp.len() ==> bp[i] == b[i]);
        lemma_hex_digit_pairs(bp, sp);
        assert(s =~= sp + seq![
            hex_char_of((b.last() / 16) as u8),
            hex_char_of((b.last() % 16) as u8),
        ]);
    }
}

/// The lowercase hex text of a byte buffer.
pub fn hex_of_bytes(b: &Vec<u8>) -> (r: String)
    ensures
        r@ == hex_str_of(b@),
{
    let r = hex_string(b);
    proof {
        lemma_hex_digit_pairs(b@, r@);
    }
    r
}

/// Whether a byte is the ASCII code of a hex digit.
pub open spec fn is_hex_digit(c: u8) -> bool {
    (0x30 <= c <= 0x39) || (0x41 <= c <= 0x46) || (0x61 <= c <= 0x66)
}

/// The value of an ASCII hex digit.
pub open spec fn hex_val(c: u8) -> u8
    recommends
        is_hex_digit(c),
{
    if 0x30 <= c <= 0x39 {
        (c - 0x30) as u8
    } else if 0x41 <= c <= 0x46 {
        (c - 0x41 + 10) as u8
    } else if 0x61 <= c <= 0x66 {
        (c - 0x61 + 10) as u8
    } else {
        0
    }
}

/// The bytes spelled by an even-length string of ASCII hex digits.
pub open spec fn hex_decoded(l: Seq<u8>) -> Seq<u8> {
    Seq::new((l.len() / 2) as nat, |i: int| (hex_val(l[2 * i]) * 16 + hex_val(l[2 * i + 1])) as u8)
}

/// Whether a line of input is well-formed hex text.
pub open spec fn is_hex_line(l: Seq<u8>) -> bool {
    l.len() % 2 == 0 && forall|i: int| 0 <= i < l.len() ==> is_hex_digit(#[trigger] l[i])
}

#[verifier::external_type_specification]
#[verifier::external_body]
pub struct ExFromHexError(hex::FromHexError);

/// Relies on hex::decode: succeeds exactly on even-length ASCII hex input,
/// pairing digits into bytes with the high nibble first.
#[verifier::external_body]
pub(crate) fn hex_decode(s: &Vec<u8>) -> (r: Result<Vec<u8>, hex::FromHexError>)
    ensures
        (r is Ok) <==> is_hex_line(s@),
        r matches Ok(v) ==> v@ == hex_decoded(s@),
{
    hex::decode(s.as_slice())
}

/// Decode one hex input line, making a malformed line an explicit error.
pub fn decode_hex_line(s: &Vec<u8>) -> (r: Result<Vec<u8>, GenError>)
    ensures
        (r is Ok) <==> is_hex_line(s@),
        r matches Ok(v) ==> v@ == hex_decoded(s@),
        r matches Err(e) ==> e == GenError::DecodeError,
{
    match hex_decode(s) {
        Ok(v) => Ok(v),
        Err(_) => Err(GenError::DecodeError),
    }
}

} // verus!
