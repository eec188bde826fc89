//! Decimal numbers as ASCII bytes: what a digit string denotes, how a number is
//! written, and the executable reading and writing of both.

use vstd::prelude::*;

verus! {

/// The digit `0`.
pub const ASCII_ZERO: u8 = 0x30;

/// The sign `+`.
pub const ASCII_PLUS: u8 = 0x2b;

/// The sign `-`.
pub const ASCII_MINUS: u8 = 0x2d;

/// `b` is one of the ASCII digits `0` to `9`.
pub open spec fn is_digit(b: u8) -> bool {
    0x30 <= b <= 0x39
}

/// Every byte of `s` is an ASCII digit.
pub open spec fn all_digits(s: Seq<u8>) -> bool {
    forall|i: int| 0 <= i < s.len() ==> is_digit(#[trigger] s[i])
}

/// The number that a string of digits denotes, most significant digit first.
pub open spec fn digits_value(s: Seq<u8>) -> nat
    decreases s.len(),
{
    if s.len() == 0 {
        0
    } else {
        digits_value(s.drop_last()) * 10 + (s.last() - 0x30) as nat
    }
}

/// The number that `s` denotes when it is one or more digits.
pub open spec fn unsigned_digits(s: Seq<u8>) -> Option<nat> {
    if s.len() > 0 && all_digits(s) {
        Some(digits_value(s))
    } else {
        None
    }
}

/// The integer that `s` denotes: an optional `+` or `-`, then one or more digits.
pub open spec fn signed_value(s: Seq<u8>) -> Option<int> {
    if s.len() > 0 && s[0] == 0x2d {
        match unsigned_digits(s.subrange(1, s.len() as int)) {
            Some(m) => Some(-(m as int)),
            None => None,
        }
    } else if s.len() > 0 && s[0] == 0x2b {
        match unsigned_digits(s.subrange(1, s.len() as int)) {
            Some(m) => Some(m as int),
            None => None,
        }
    } else {
        match unsigned_digits(s) {
            Some(m) => Some(m as int),
            None => None,
        }
    }
}

/// The natural number that `s` denotes: an optional `+`, then one or more digits.
pub open spec fn unsigned_value(s: Seq<u8>) -> Option<nat> {
    if s.len() > 0 && s[0] == 0x2b {
        unsigned_digits(s.subrange(1, s.len() as int))
    } else {
        unsigned_digits(s)
    }
}

/// The digits of `n` without leading zeros.
pub open spec fn digits_of(n: nat) -> Seq<u8>
    decreases n,
{
    if n < 10 {
        seq![(0x30 + n) as u8]
    } else {
        digits_of(n / 10).push((0x30 + n % 10) as u8)
    }
}

/// The decimal text of `n`: a `-` for a negative number, then its digits.
pub open spec fn decimal_of(n: int) -> Seq<u8> {
    if n < 0 {
        seq![0x2du8] + digits_of((-n) as nat)
    } else {
        digits_of(n as nat)
    }
}

/// The digits of a number are digits, and there is at least one.
pub proof fn lemma_digits_of_shape(n: nat)
    ensures
        digits_of(n).len() > 0,
        all_digits(digits_of(n)),
    decreases n,
{
    if n >= 10 {
        lemma_digits_of_shape(n / 10);
    }
}

/// Reading the digits of a number gives the number back.
pub proof fn lemma_digits_value_of(n: nat)
    ensures
        digits_value(digits_of(n)) == n,
    decreases n,
{
    if n < 10 {
        let s = digits_of(n);
        assert(s.drop_last() =~= Seq::<u8>::empty());
        assert(digits_value(s.drop_last()) == 0);
    } else {
        lemma_digits_value_of(n / 10);
        let s = digits_of(n);
        assert(s.drop_last() =~= digits_of(n / 10));
    }
}

/// Reading the written form of a natural number gives the number back.
pub proof fn lemma_unsigned_value_of(n: nat)
    ensures
        unsigned_digits(digits_of(n)) == Some(n),
        unsigned_value(digits_of(n)) == Some(n),
        signed_value(digits_of(n)) == Some(n as int),
{
    lemma_digits_of_shape(n);
    lemma_digits_value_of(n);
    assert(is_digit(digits_of(n)[0]));
}

/// Reading the written form of an integer gives the integer back.
pub proof fn lemma_signed_value_of(n: int)
    ensures
        signed_value(decimal_of(n)) == Some(n),
{
    if n < 0 {
        let m = (-n) as nat;
        lemma_unsigned_value_of(m);
        let s = decimal_of(n);
        assert(s.subrange(1, s.len() as int) =~= digits_of(m));
    } else {
        lemma_unsigned_value_of(n as nat);
    }
}

/// A string of digits denotes at least what any of its prefixes denotes.
pub proof fn lemma_digits_value_prefix(s: Seq<u8>, k: int)
    requires
        all_digits(s),
        0 <= k <= s.len(),
    ensures
        digits_value(s.take(k)) <= digits_value(s),
    decreases s.len() - k,
{
    if k == s.len() {
        assert(s.take(k) =~= s);
    } else {
        let t = s.drop_last();
        assert(all_digits(t));
        lemma_digits_value_prefix(t, k);
        assert(t.take(k) =~= s.take(k));
        assert(is_digit(s.last()));
    }
}

/// What [`read_digits`] returns: the value of a nonempty digit string that fits 128 bits.
pub open spec fn digits_u128(s: Seq<u8>) -> Option<u128> {
    match unsigned_digits(s) {
        Some(m) => if m <= u128::MAX {
            Some(m as u128)
        } else {
            None
        },
        None => None,
    }
}

/// Reads `input[start..end]` as a string of digits.
pub fn read_digits(input: &[u8], start: usize, end: usize) -> (r: Option<u128>)
    requires
        start <= end <= input@.len(),
    ensures
        r == digits_u128(input@.subrange(start as int, end as int)),
{
    let ghost s = input@.subrange(start as int, end as int);
    if start == end {
        return None;
    }
    let mut acc: u128 = 0;
    let mut i: usize = start;
    while i < end
        invariant
            start <= i <= end <= input@.len(),
            s == input@.subrange(start as int, end as int),
            all_digits(s.take(i - start)),
            acc == digits_value(s.take(i - start)),
        decreases end - i,
    {
        let b: u8 = input[i];
        if b < 0x30 || b > 0x39 {
            assert(!is_digit(s[i - start]));
            return None;
        }
        let d: u128 = (b - 0x30) as u128;
        proof {
            let t = s.take(i - start + 1);
            assert(t.drop_last() =~= s.take(i - start));
            assert(t.last() == b);
            assert forall|j: int| 0 <= j < t.len() implies is_digit(#[trigger] t[j]) by {
                if j < i - start {
                    assert(t[j] == s.take(i - start)[j]);
                }
            }
            assert(digits_value(t) == acc * 10 + d);
            if all_digits(s) {
                lemma_digits_value_prefix(s, i - start + 1);
            }
        }
        if acc > (u128::MAX - d) / 10 {
            assert(acc * 10 + d > u128::MAX);
            return None;
        }
        acc = acc * 10 + d;
        i = i + 1;
    }
    assert(s.take(i - start) =~= s);
    Some(acc)
}

/// What [`read_signed`] returns: the integer that `s` denotes, when it fits 128 bits.
pub open spec fn signed_i128(s: Seq<u8>) -> Option<i128> {
    match signed_value(s) {
        Some(v) => if i128::MIN <= v <= i128::MAX {
            Some(v as i128)
        } else {
            None
        },
        None => None,
    }
}

/// Reads `input[start..end]` as a signed decimal integer.
pub fn read_signed(input: &[u8], start: usize, end: usize) -> (r: Option<i128>)
    requires
        start <= end <= input@.len(),
    ensures
        r == signed_i128(input@.subrange(start as int, end as int)),
{
    let ghost s = input@.subrange(start as int, end as int);
    if start == end {
        return None;
    }
    let first: u8 = input[start];
    assert(first == s[0]);
    if first == ASCII_MINUS || first == ASCII_PLUS {
        assert(s.subrange(1, s.len() as int) =~= input@.subrange(start + 1, end as int));
        match read_digits(input, start + 1, end) {
            None => None,
            Some(m) => {
                if first == ASCII_PLUS {
                    if m <= 0x7fff_ffff_ffff_ffff_ffff_ffff_ffff_ffffu128 {
                        Some(m as i128)
                    } else {
                        None
                    }
                } else if m <= 0x7fff_ffff_ffff_ffff_ffff_ffff_ffff_ffffu128 {
                    Some(-(m as i128))
                } else if m == 0x8000_0000_0000_0000_0000_0000_0000_0000u128 {
                    Some(i128::MIN)
                } else {
                    None
                }
            },
        }
    } else {
        match read_digits(input, start, end) {
            None => None,
            Some(m) => {
                if m <= 0x7fff_ffff_ffff_ffff_ffff_ffff_ffff_ffffu128 {
                    Some(m as i128)
                } else {
                    None
                }
            },
        }
    }
}

/// What [`read_unsigned`] returns: the natural number that `s` denotes, when it fits 128 bits.
pub open spec fn unsigned_u128(s: Seq<u8>) -> Option<u128> {
    match unsigned_value(s) {
        Some(m) => if m <= u128::MAX {
            Some(m as u128)
        } else {
            None
        },
        None => None,
    }
}

/// Reads `input[start..end]` as an unsigned decimal integer.
pub fn read_unsigned(input: &[u8], start: usize, end: usize) -> (r: Option<u128>)
    requires
        start <= end <= input@.len(),
    ensures
        r == unsigned_u128(input@.subrange(start as int, end as int)),
{
    let ghost s = input@.subrange(start as int, end as int);
    if start == end {
        return None;
    }
    let first: u8 = input[start];
    assert(first == s[0]);
    if first == ASCII_PLUS {
        assert(s.subrange(1, s.len() as int) =~= input@.subrange(start + 1, end as int));
        read_digits(input, start + 1, end)
    } else {
        read_digits(input, start, end)
    }
}

/// Appends the digits of `n` to `out`.
pub fn push_digits(out: &mut Vec<u8>, n: u64)
    ensures
        final(out)@ == old(out)@ + digits_of(n as nat),
    decreases n,
{
    if n >= 10 {
        push_digits(out, n / 10);
    }
    let d: u8 = (n % 10) as u8;
    out.push(ASCII_ZERO + d);
    assert(final(out)@ =~= old(out)@ + digits_of(n as nat));
}

/// Appends the decimal text of `n` to `out`.
pub fn push_decimal(out: &mut Vec<u8>, n: i64)
    ensures
        final(out)@ == old(out)@ + decimal_of(n as int),
{
    if n < 0 {
        out.push(ASCII_MINUS);
        let m: u64 = if n == i64::MIN {
            0x8000_0000_0000_0000u64
        } else {
            (-n) as u64
        };
        push_digits(out, m);
        assert(final(out)@ =~= old(out)@ + decimal_of(n as int));
    } else {
        push_digits(out, n as u64);
    }
}

} // verus!
