//! The parser: how bytes from the wire are read back as a protocol value.

use vstd::prelude::*;
use vstd::slice::{slice_subrange, slice_to_vec};
use vstd::utf8::{decode_utf8, valid_utf8};

use crate::decimal::{read_signed, read_unsigned, signed_i128, unsigned_u128};
use crate::resp::wire::{CR, LF, TAG_ARRAY, TAG_BULK_STRING, TAG_INTEGER, TAG_SIMPLE_STRING};
use crate::resp::{lemma_values_of, values_of, Array, BulkString, Integer, Resp, SimpleString, Value};
use crate::text::string_from_utf8;

verus! {

/// Why a value could not be read.
#[derive(Debug, Clone, Copy, PartialEq, Eq, Structural)]
pub enum ParseError {
    /// The input ends before the value does.
    Incomplete,
    /// The first byte is none of the four type tags.
    UnknownTag,
    /// A length, a count or an integer is not a decimal number in range.
    InvalidNumber,
    /// Text that is not well-formed UTF-8.
    InvalidText,
    /// The body of a bulk string is not followed by a line terminator.
    MissingTerminator,
}

/// A value read from the wire, with the number of bytes it took.
pub type Parsed = Result<(Value, nat), ParseError>;

/// A list of values read from the wire, with the number of bytes they took.
pub type ParsedItems = Result<(Seq<Value>, nat), ParseError>;

/// A line terminator stands at index `i` of `b`.
pub open spec fn crlf_at(b: Seq<u8>, i: int) -> bool {
    0 <= i && i + 1 < b.len() && b[i] == 0x0d && b[i + 1] == 0x0a
}

/// The length of the line that starts at `from`: the number of bytes before the first
/// line terminator at or after `from`, if there is one.
pub open spec fn line_len(b: Seq<u8>, from: int) -> Option<nat>
    decreases b.len() - from,
{
    if from < 0 || from + 1 >= b.len() {
        None
    } else if b[from] == 0x0d && b[from + 1] == 0x0a {
        Some(0)
    } else {
        match line_len(b, from + 1) {
            Some(k) => Some(k + 1),
            None => None,
        }
    }
}

/// The number of bytes of `b` from `pos` on.
pub open spec fn remaining(b: Seq<u8>, pos: int) -> nat {
    if pos <= b.len() {
        (b.len() - pos) as nat
    } else {
        0
    }
}

/// `b` is one of the four type tags.
pub open spec fn is_tag(b: u8) -> bool {
    b == 0x2b || b == 0x24 || b == 0x2a || b == 0x3a
}

/// A simple string from its line.
pub open spec fn parse_simple_string(text: Seq<u8>, taken: nat) -> Parsed {
    if valid_utf8(text) {
        Ok((Value::SimpleString(decode_utf8(text)), taken))
    } else {
        Err(ParseError::InvalidText)
    }
}

/// An integer from its line.
pub open spec fn parse_integer(text: Seq<u8>, taken: nat) -> Parsed {
    match signed_i128(text) {
        Some(n) => if i64::MIN <= n <= i64::MAX {
            Ok((Value::Integer(n as int), taken))
        } else {
            Err(ParseError::InvalidNumber)
        },
        None => Err(ParseError::InvalidNumber),
    }
}

/// A bulk string from its length line `text` and the bytes of `b` from `body` on:
/// a negative length is the null value; otherwise that many bytes and a line
/// terminator follow.
pub open spec fn parse_bulk_string(b: Seq<u8>, text: Seq<u8>, body: int, taken: nat) -> Parsed {
    match signed_i128(text) {
        None => Err(ParseError::InvalidNumber),
        Some(n) => if n < 0 {
            Ok((Value::BulkString(None), taken))
        } else if n > u64::MAX {
            Err(ParseError::InvalidNumber)
        } else if body + n + 2 > b.len() {
            Err(ParseError::Incomplete)
        } else if !crlf_at(b, body + n) {
            Err(ParseError::MissingTerminator)
        } else if !valid_utf8(b.subrange(body, body + n)) {
            Err(ParseError::InvalidText)
        } else {
            Ok(
                (
                    Value::BulkString(Some(decode_utf8(b.subrange(body, body + n)))),
                    (taken + n + 2) as nat,
                ),
            )
        },
    }
}

/// The value that starts at index `pos` of `b`: a tag byte, a header line, and what the
/// tag asks for after it.
pub open spec fn parse_value(b: Seq<u8>, pos: int) -> Parsed
    decreases remaining(b, pos), 0nat,
{
    if pos < 0 || pos >= b.len() {
        Err(ParseError::Incomplete)
    } else if !is_tag(b[pos]) {
        Err(ParseError::UnknownTag)
    } else {
        match line_len(b, pos + 1) {
            None => Err(ParseError::Incomplete),
            Some(k) => {
                let text = b.subrange(pos + 1, pos + 1 + k);
                let taken = (k + 3) as nat;
                if b[pos] == 0x2b {
                    parse_simple_string(text, taken)
                } else if b[pos] == 0x3a {
                    parse_integer(text, taken)
                } else if b[pos] == 0x24 {
                    parse_bulk_string(b, text, pos + taken, taken)
                } else {
                    match unsigned_u128(text) {
                        Some(n) => if n <= usize::MAX {
                            match parse_items(b, pos + taken, n as nat) {
                                Ok((items, m)) => Ok((Value::Array(items), taken + m)),
                                Err(e) => Err(e),
                            }
                        } else {
                            Err(ParseError::InvalidNumber)
                        },
                        None => Err(ParseError::InvalidNumber),
                    }
                }
            },
        }
    }
}

/// The `n` values that follow one another from index `pos` of `b` on.
pub open spec fn parse_items(b: Seq<u8>, pos: int, n: nat) -> ParsedItems
    decreases remaining(b, pos), n + 1,
{
    if n == 0 {
        Ok((Seq::empty(), 0))
    } else {
        match parse_value(b, pos) {
            Err(e) => Err(e),
            Ok((v, k)) => after_items(seq![v], k, parse_items(b, pos + k, (n - 1) as nat)),
        }
    }
}

/// The values `done`, read from `taken` bytes, followed by what `rest` read.
pub open spec fn after_items(done: Seq<Value>, taken: nat, rest: ParsedItems) -> ParsedItems {
    match rest {
        Ok((items, m)) => Ok((done + items, taken + m)),
        Err(e) => Err(e),
    }
}

/// Where no line terminator stands between `from` and `to`, the line that starts at
/// `from` ends where the line that starts at `to` ends.
pub proof fn lemma_line_len_skip(b: Seq<u8>, from: int, to: int)
    requires
        0 <= from <= to,
        forall|j: int| from <= j < to ==> !crlf_at(b, j),
    ensures
        line_len(b, from) == match line_len(b, to) {
            Some(k) => Some((k + (to - from)) as nat),
            None => None,
        },
    decreases to - from,
{
    if from < to {
        assert(!crlf_at(b, from));
        lemma_line_len_skip(b, from + 1, to);
        if from + 1 >= b.len() {
            lemma_line_len_none(b, to);
        }
    }
}

/// No line starts in the last byte of `b` or after it.
pub proof fn lemma_line_len_none(b: Seq<u8>, from: int)
    requires
        from + 1 >= b.len(),
    ensures
        line_len(b, from) is None,
{
}

/// A line and its terminator lie within `b`, and no terminator stands inside the line.
pub proof fn lemma_line_len_bounds(b: Seq<u8>, from: int)
    ensures
        line_len(b, from) matches Some(k) ==> 0 <= from && from + k + 2 <= b.len() && crlf_at(
            b,
            from + k,
        ) && forall|j: int| from <= j < from + k ==> !crlf_at(b, j),
    decreases b.len() - from,
{
    if from < 0 || from + 1 >= b.len() {
    } else if b[from] == 0x0d && b[from + 1] == 0x0a {
    } else {
        lemma_line_len_bounds(b, from + 1);
    }
}

/// A value that is read takes at least one byte and no more than `b` holds from `pos` on.
pub proof fn lemma_parse_value_bounds(b: Seq<u8>, pos: int)
    ensures
        parse_value(b, pos) matches Ok((_, k)) ==> 0 <= pos && 0 < k && pos + k <= b.len(),
    decreases remaining(b, pos), 0nat,
{
    if pos < 0 || pos >= b.len() || !is_tag(b[pos]) {
    } else {
        lemma_line_len_bounds(b, pos + 1);
        match line_len(b, pos + 1) {
            None => {},
            Some(k) => {
                let text = b.subrange(pos + 1, pos + 1 + k);
                let taken = (k + 3) as nat;
                if b[pos] == 0x2a {
                    match unsigned_u128(text) {
                        Some(n) => {
                            if n <= usize::MAX {
                                lemma_parse_items_bounds(b, pos + taken, n as nat);
                            }
                        },
                        None => {},
                    }
                }
            },
        }
    }
}

/// The values that are read are as many as asked for, and lie within `b`.
pub proof fn lemma_parse_items_bounds(b: Seq<u8>, pos: int, n: nat)
    requires
        0 <= pos <= b.len(),
    ensures
        parse_items(b, pos, n) matches Ok((items, k)) ==> items.len() == n && pos + k <= b.len(),
    decreases remaining(b, pos), n + 1,
{
    if n > 0 {
        lemma_parse_value_bounds(b, pos);
        match parse_value(b, pos) {
            Err(_) => {},
            Ok((v, k)) => {
                lemma_parse_items_bounds(b, pos + k, (n - 1) as nat);
            },
        }
    }
}

/// Finds the end of the line that starts at `from`.
pub fn find_line(input: &[u8], from: usize) -> (r: Option<usize>)
    requires
        from <= input@.len(),
    ensures
        match r {
            Some(k) => line_len(input@, from as int) == Some(k as nat) && from + k + 2
                <= input@.len(),
            None => line_len(input@, from as int) is None,
        },
{
    let n = input.len();
    let mut i: usize = from;
    while i < n && i + 1 < n
        invariant
            from <= i <= n,
            n == input@.len(),
            forall|j: int| from <= j < i ==> !crlf_at(input@, j),
        decreases n - i,
    {
        if input[i] == CR && input[i + 1] == LF {
            proof {
                lemma_line_len_skip(input@, from as int, i as int);
            }
            return Some(i - from);
        }
        i = i + 1;
    }
    proof {
        lemma_line_len_skip(input@, from as int, i as int);
        lemma_line_len_none(input@, i as int);
    }
    None
}

/// Reads the value that starts at index `pos` of `input`; with the value comes the
/// index of the first byte after it.
pub fn parse_at(input: &[u8], pos: usize) -> (r: Result<(Resp, usize), ParseError>)
    requires
        pos <= input@.len(),
    ensures
        match r {
            Ok((v, next)) => pos < next <= input@.len() && parse_value(input@, pos as int) == Ok::<
                (Value, nat),
                ParseError,
            >((v@, (next - pos) as nat)),
            Err(e) => parse_value(input@, pos as int) == Err::<(Value, nat), ParseError>(e),
        },
    decreases input@.len() - pos,
{
    let n = input.len();
    if pos >= n {
        return Err(ParseError::Incomplete);
    }
    let tag: u8 = input[pos];
    if tag != TAG_SIMPLE_STRING && tag != TAG_BULK_STRING && tag != TAG_ARRAY && tag
        != TAG_INTEGER {
        return Err(ParseError::UnknownTag);
    }
    let k = match find_line(input, pos + 1) {
        None => {
            return Err(ParseError::Incomplete);
        },
        Some(k) => k,
    };
    let line_end: usize = pos + 1 + k;
    let body: usize = line_end + 2;
    let ghost text = input@.subrange(pos + 1, pos + 1 + k);
    if tag == TAG_SIMPLE_STRING {
        let bytes = slice_to_vec(slice_subrange(input, pos + 1, line_end));
        match string_from_utf8(bytes) {
            Some(s) => Ok((Resp::SimpleString(SimpleString(s)), body)),
            None => Err(ParseError::InvalidText),
        }
    } else if tag == TAG_INTEGER {
        match read_signed(input, pos + 1, line_end) {
            Some(v) => {
                if v < -0x8000_0000_0000_0000i128 || v > 0x7fff_ffff_ffff_ffffi128 {
                    Err(ParseError::InvalidNumber)
                } else {
                    Ok((Resp::Integer(Integer(v as i64)), body))
                }
            },
            None => Err(ParseError::InvalidNumber),
        }
    } else if tag == TAG_BULK_STRING {
        match read_signed(input, pos + 1, line_end) {
            None => Err(ParseError::InvalidNumber),
            Some(v) => {
                if v < 0 {
                    Ok((Resp::BulkString(BulkString(None)), body))
                } else if v > 0xffff_ffff_ffff_ffffi128 {
                    Err(ParseError::InvalidNumber)
                } else if v > (n - body) as i128 || (n - body) as i128 - v < 2 {
                    Err(ParseError::Incomplete)
                } else {
                    let len: usize = v as usize;
                    let end: usize = body + len;
                    if input[end] != CR || input[end + 1] != LF {
                        Err(ParseError::MissingTerminator)
                    } else {
                        let bytes = slice_to_vec(slice_subrange(input, body, end));
                        match string_from_utf8(bytes) {
                            Some(s) => Ok((Resp::BulkString(BulkString(Some(s))), end + 2)),
                            None => Err(ParseError::InvalidText),
                        }
                    }
                }
            },
        }
    } else {
        let count: usize = match read_unsigned(input, pos + 1, line_end) {
            None => {
                return Err(ParseError::InvalidNumber);
            },
            Some(c) => {
                if c > usize::MAX as u128 {
                    return Err(ParseError::InvalidNumber);
                }
                c as usize
            },
        };
        let mut items: Vec<Resp> = Vec::new();
        let mut at: usize = body;
        let mut i: usize = 0;
        proof {
            assert(values_of(items@) =~= Seq::<Value>::empty());
            let rest = parse_items(input@, body as int, count as nat);
            match rest {
                Ok((vs, m)) => {
                    assert(Seq::<Value>::empty() + vs =~= vs);
                },
                Err(_) => {},
            }
        }
        while i < count
            invariant
                i <= count,
                items@.len() == i,
                pos < body <= at <= n,
                n == input@.len(),
                body == pos + k + 3,
                input@[pos as int] == 0x2a,
                line_len(input@, pos + 1) == Some(k as nat),
                unsigned_u128(input@.subrange(pos + 1, pos + 1 + k)) == Some(count as u128),
                parse_items(input@, body as int, count as nat) == after_items(
                    values_of(items@),
                    (at - body) as nat,
                    parse_items(input@, at as int, (count - i) as nat),
                ),
            decreases count - i,
        {
            let ghost done = values_of(items@);
            match parse_at(input, at) {
                Err(e) => {
                    return Err(e);
                },
                Ok((item, next)) => {
                    proof {
                        let v = item@;
                        let rest = parse_items(input@, next as int, (count - i - 1) as nat);
                        lemma_values_of(items@);
                        lemma_values_of(items@.push(item));
                        assert(values_of(items@.push(item)) =~= done.push(v));
                        match rest {
                            Ok((vs, m)) => {
                                assert(done + (seq![v] + vs) =~= done.push(v) + vs);
                            },
                            Err(_) => {},
                        }
                    }
                    items.push(item);
                    at = next;
                    i = i + 1;
                },
            }
        }
        proof {
            assert(values_of(items@) + Seq::<Value>::empty() =~= values_of(items@));
        }
        Ok((Resp::Array(Array(items)), at))
    }
}

impl Resp {
    /// Reads one value from the front of `input`; with the value comes the number of
    /// bytes it took.
    pub fn parse(input: &[u8]) -> (r: Result<(Resp, usize), ParseError>)
        ensures
            match r {
                Ok((v, taken)) => 0 < taken <= input@.len() && parse_value(input@, 0) == Ok::<
                    (Value, nat),
                    ParseError,
                >((v@, taken as nat)),
                Err(e) => parse_value(input@, 0) == Err::<(Value, nat), ParseError>(e),
            },
    {
        parse_at(input, 0)
    }
}

} // verus!
