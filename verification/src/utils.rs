//! Hexadecimal text.

use vstd::prelude::*;
use vstd::string::StringSliceAdditionalSpecFns;
use vstd::utf8::encode_utf8;

verus! {

/// Why a text could not be read as hexadecimal.
#[derive(Debug, Clone, Copy, PartialEq, Eq, Structural)]
pub enum UnhexError {
    /// The text has an odd number of bytes.
    OddLength,
    /// A byte of the text is no hexadecimal digit.
    InvalidDigit,
}

/// The value of an ASCII hexadecimal digit, if `b` is one.
pub open spec fn hex_digit_value(b: u8) -> Option<u8> {
    if 0x30 <= b <= 0x39 {
        Some((b - 0x30) as u8)
    } else if 0x61 <= b <= 0x66 {
        Some((b - 0x61 + 10) as u8)
    } else if 0x41 <= b <= 0x46 {
        Some((b - 0x41 + 10) as u8)
    } else {
        None
    }
}

/// Every byte of `b` is a hexadecimal digit.
pub open spec fn all_hex(b: Seq<u8>) -> bool {
    forall|i: int| 0 <= i < b.len() ==> hex_digit_value(#[trigger] b[i]) is Some
}

/// The byte that two hexadecimal digits denote, the high one first.
pub open spec fn hex_pair(high: u8, low: u8) -> u8 {
    (hex_digit_value(high)->0 * 16 + hex_digit_value(low)->0) as u8
}

/// The bytes that the hexadecimal digits `b` denote, two digits to a byte.
pub open spec fn hex_pairs(b: Seq<u8>) -> Seq<u8> {
    Seq::new(b.len() / 2, |i: int| hex_pair(b[2 * i], b[2 * i + 1]))
}

/// The bytes that a hexadecimal text denotes.
pub open spec fn hex_bytes(s: Seq<char>) -> Seq<u8> {
    hex_pairs(encode_utf8(s))
}

/// The value of a hexadecimal digit.
pub fn hex_digit(b: u8) -> (r: Option<u8>)
    ensures
        r == hex_digit_value(b),
{
    if 0x30 <= b && b <= 0x39 {
        Some(b - 0x30)
    } else if 0x61 <= b && b <= 0x66 {
        Some(b - 0x61 + 10)
    } else if 0x41 <= b && b <= 0x46 {
        Some(b - 0x41 + 10)
    } else {
        None
    }
}

/// Reads a hexadecimal text, two digits to a byte.
pub fn unhex(s: &str) -> (r: Result<Vec<u8>, UnhexError>)
    ensures
        match r {
            Ok(bytes) => s.spec_bytes().len() % 2 == 0 && all_hex(s.spec_bytes()) && bytes@
                == hex_bytes(s@),
            Err(UnhexError::OddLength) => s.spec_bytes().len() % 2 != 0,
            Err(UnhexError::InvalidDigit) => s.spec_bytes().len() % 2 == 0 && !all_hex(
                s.spec_bytes(),
            ),
        },
{
    let digits = s.as_bytes();
    let n = digits.len();
    if n % 2 != 0 {
        return Err(UnhexError::OddLength);
    }
    let mut bytes: Vec<u8> = Vec::new();
    let mut i: usize = 0;
    while i < n / 2
        invariant
            i <= n / 2,
            n == digits@.len(),
            digits@ == s.spec_bytes(),
            n % 2 == 0,
            bytes@.len() == i,
            forall|j: int| 0 <= j < 2 * i ==> hex_digit_value(#[trigger] digits@[j]) is Some,
            forall|j: int|
                0 <= j < i ==> (#[trigger] bytes@[j]) == hex_pair(digits@[2 * j], digits@[2 * j + 1]),
        decreases n / 2 - i,
    {
        let high = match hex_digit(digits[2 * i]) {
            Some(v) => v,
            None => {
                return Err(UnhexError::InvalidDigit);
            },
        };
        let low = match hex_digit(digits[2 * i + 1]) {
            Some(v) => v,
            None => {
                return Err(UnhexError::InvalidDigit);
            },
        };
        bytes.push(high * 16 + low);
        i = i + 1;
    }
    assert(bytes@ =~= hex_pairs(digits@));
    Ok(bytes)
}

} // verus!
