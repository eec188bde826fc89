//! Text helpers: the operations on `str` that the protocol logic relies on.

use vstd::prelude::*;
use vstd::string::StringExecFns;
use vstd::utf8::{decode_utf8, encode_utf8, encode_utf8_decode_utf8, valid_utf8};

use crate::decimal::{all_digits, digits_of, is_digit, lemma_digits_of_shape, push_digits};

verus! {

/// The upper-case form of a text, as `str::to_uppercase` computes it.
pub uninterp spec fn uppercase_of(s: Seq<char>) -> Seq<char>;

/// The lower-case form of a text, as `str::to_lowercase` computes it.
pub uninterp spec fn lowercase_of(s: Seq<char>) -> Seq<char>;

/// `str::to_uppercase`. Trusted: the result is the Unicode upper-case mapping of the
/// argument, a function of the text alone, which is only given a name here.
#[verifier::external_body]
pub(crate) fn to_uppercase(s: &str) -> (r: String)
    ensures
        r@ == uppercase_of(s@),
{
    s.to_uppercase()
}

/// `str::to_lowercase`. Trusted: the result is the Unicode lower-case mapping of the
/// argument, a function of the text alone, which is only given a name here.
#[verifier::external_body]
pub(crate) fn to_lowercase(s: &str) -> (r: String)
    ensures
        r@ == lowercase_of(s@),
{
    s.to_lowercase()
}

/// `String::from_utf8`. Trusted: it succeeds exactly on well-formed UTF-8, and the
/// string it returns holds the characters that the bytes encode.
#[verifier::external_body]
pub(crate) fn string_from_utf8(bytes: Vec<u8>) -> (r: Option<String>)
    ensures
        r is Some <==> valid_utf8(bytes@),
        r matches Some(s) ==> s@ == decode_utf8(bytes@),
{
    String::from_utf8(bytes).ok()
}

/// `prefix` is an initial segment of `s`.
pub open spec fn is_prefix(prefix: Seq<char>, s: Seq<char>) -> bool {
    prefix.len() <= s.len() && s.subrange(0, prefix.len() as int) == prefix
}

/// `str::starts_with` on a string pattern. Trusted: it tells whether the pattern is an
/// initial segment of the text.
#[verifier::external_body]
pub(crate) fn starts_with(s: &str, prefix: &str) -> (r: bool)
    ensures
        r == is_prefix(prefix@, s@),
{
    s.starts_with(prefix)
}

/// Whether two texts hold the same characters.
pub fn same_text(a: &str, b: &str) -> (r: bool)
    ensures
        r == (a@ == b@),
{
    let x = a.as_bytes();
    let y = b.as_bytes();
    proof {
        encode_utf8_decode_utf8(a@);
        encode_utf8_decode_utf8(b@);
    }
    if x.len() != y.len() {
        return false;
    }
    let mut i: usize = 0;
    while i < x.len()
        invariant
            i <= x@.len() == y@.len(),
            x@ == encode_utf8(a@),
            y@ == encode_utf8(b@),
            forall|j: int| 0 <= j < i ==> x@[j] == y@[j],
        decreases x@.len() - i,
    {
        if x[i] != y[i] {
            return false;
        }
        i = i + 1;
    }
    assert(x@ =~= y@);
    true
}

/// The text whose characters are the given ASCII bytes.
pub open spec fn ascii_text(bytes: Seq<u8>) -> Seq<char> {
    Seq::new(bytes.len(), |i: int| bytes[i] as char)
}

/// The decimal text of a natural number.
pub open spec fn decimal_text(n: nat) -> Seq<char> {
    ascii_text(digits_of(n))
}

/// The one-character text of an ASCII digit.
fn digit_str(b: u8) -> (r: &'static str)
    requires
        is_digit(b),
    ensures
        r@ == seq![b as char],
{
    proof {
        reveal_strlit("0");
        reveal_strlit("1");
        reveal_strlit("2");
        reveal_strlit("3");
        reveal_strlit("4");
        reveal_strlit("5");
        reveal_strlit("6");
        reveal_strlit("7");
        reveal_strlit("8");
        reveal_strlit("9");
    }
    let r = if b == 0x30 {
        "0"
    } else if b == 0x31 {
        "1"
    } else if b == 0x32 {
        "2"
    } else if b == 0x33 {
        "3"
    } else if b == 0x34 {
        "4"
    } else if b == 0x35 {
        "5"
    } else if b == 0x36 {
        "6"
    } else if b == 0x37 {
        "7"
    } else if b == 0x38 {
        "8"
    } else {
        "9"
    };
    assert(r@ =~= seq![b as char]);
    r
}

/// Writes a number as decimal text.
pub fn decimal_string(n: u64) -> (r: String)
    ensures
        r@ == decimal_text(n as nat),
{
    let mut digits: Vec<u8> = Vec::new();
    push_digits(&mut digits, n);
    proof {
        lemma_digits_of_shape(n as nat);
        assert(digits@ =~= digits_of(n as nat));
    }
    let mut r = String::new();
    let mut i: usize = 0;
    while i < digits.len()
        invariant
            i <= digits@.len(),
            all_digits(digits@),
            r@ == ascii_text(digits@.take(i as int)),
        decreases digits@.len() - i,
    {
        r.append(digit_str(digits[i]));
        assert(r@ =~= ascii_text(digits@.take(i + 1)));
        i = i + 1;
    }
    assert(digits@.take(i as int) =~= digits@);
    r
}

} // verus!
