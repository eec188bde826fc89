//! The wire format: how a protocol value is written as bytes.

use vstd::pervasive::unreached;
use vstd::prelude::*;
use vstd::utf8::{
    decode_utf8_encode_utf8, encode_utf8, encode_utf8_valid_utf8, is_ascii_chars,
    is_ascii_chars_encode_utf8, valid_utf8, valid_utf8_concat,
};

use crate::decimal::{
    decimal_of, digits_of, is_digit, lemma_digits_of_shape, push_decimal, push_digits,
};
use crate::resp::{lemma_values_of, values_of, Resp, Value};
use crate::text::{ascii_text, string_from_utf8};

verus! {

/// The tag of a simple string, `+`.
pub const TAG_SIMPLE_STRING: u8 = 0x2b;

/// The tag of a bulk string, `$`.
pub const TAG_BULK_STRING: u8 = 0x24;

/// The tag of an array, `*`.
pub const TAG_ARRAY: u8 = 0x2a;

/// The tag of an integer, `:`.
pub const TAG_INTEGER: u8 = 0x3a;

/// The carriage return.
pub const CR: u8 = 0x0d;

/// The line feed.
pub const LF: u8 = 0x0a;

/// The line terminator: a carriage return and a line feed.
pub open spec fn crlf() -> Seq<u8> {
    seq![0x0du8, 0x0au8]
}

/// The bytes of a value on the wire: `+text\r\n`, `$len\r\ntext\r\n` or `$-1\r\n`,
/// `*count\r\n` and the elements, `:number\r\n`.
pub open spec fn wire(v: Value) -> Seq<u8>
    decreases v,
{
    match v {
        Value::SimpleString(s) => seq![0x2bu8] + encode_utf8(s) + crlf(),
        Value::BulkString(None) => seq![0x24u8] + decimal_of(-1) + crlf(),
        Value::BulkString(Some(s)) => seq![0x24u8] + digits_of(encode_utf8(s).len()) + crlf()
            + encode_utf8(s) + crlf(),
        Value::Array(items) => seq![0x2au8] + digits_of(items.len()) + crlf() + wire_all(items),
        Value::Integer(n) => seq![0x3au8] + decimal_of(n) + crlf(),
    }
}

/// The bytes of a list of values, one after the other.
pub open spec fn wire_all(items: Seq<Value>) -> Seq<u8>
    decreases items,
{
    if items.len() == 0 {
        Seq::empty()
    } else {
        wire_all(items.drop_last()) + wire(items.last())
    }
}

/// Every byte of `b` is an ASCII character.
pub open spec fn all_ascii(b: Seq<u8>) -> bool {
    forall|i: int| 0 <= i < b.len() ==> (#[trigger] b[i]) < 0x80
}

/// ASCII bytes are well-formed UTF-8.
pub proof fn lemma_ascii_valid_utf8(b: Seq<u8>)
    requires
        all_ascii(b),
    ensures
        valid_utf8(b),
{
    let chars = ascii_text(b);
    assert(is_ascii_chars(chars)) by {
        assert forall|i: int| 0 <= i < chars.len() implies '\0' <= #[trigger] chars[i]
            <= '\u{7f}' by {
            assert(b[i] < 0x80);
        }
    }
    is_ascii_chars_encode_utf8(chars);
    assert(encode_utf8(chars) =~= b) by {
        assert forall|i: int| 0 <= i < b.len() implies encode_utf8(chars)[i] == b[i] by {
            assert(b[i] < 0x80);
            assert(chars[i] as u8 == b[i]);
        }
    }
    encode_utf8_valid_utf8(chars);
}

/// The decimal text of an integer is ASCII.
pub proof fn lemma_decimal_ascii(n: int)
    ensures
        all_ascii(decimal_of(n)),
        n >= 0 ==> all_ascii(digits_of(n as nat)),
{
    if n < 0 {
        let d = digits_of((-n) as nat);
        lemma_digits_of_shape((-n) as nat);
        let s = decimal_of(n);
        assert forall|i: int| 0 <= i < s.len() implies (#[trigger] s[i]) < 0x80 by {
            if i > 0 {
                assert(s[i] == d[i - 1]);
                assert(is_digit(d[i - 1]));
            }
        }
    } else {
        let d = digits_of(n as nat);
        lemma_digits_of_shape(n as nat);
        assert forall|i: int| 0 <= i < d.len() implies (#[trigger] d[i]) < 0x80 by {
            assert(is_digit(d[i]));
        }
    }
}

/// The wire form of a value is well-formed UTF-8.
pub proof fn lemma_wire_valid_utf8(v: Value)
    ensures
        valid_utf8(wire(v)),
    decreases v,
{
    lemma_ascii_valid_utf8(crlf());
    match v {
        Value::SimpleString(s) => {
            lemma_ascii_valid_utf8(seq![0x2bu8]);
            encode_utf8_valid_utf8(s);
            valid_utf8_concat(seq![0x2bu8], encode_utf8(s));
            valid_utf8_concat(seq![0x2bu8] + encode_utf8(s), crlf());
        },
        Value::BulkString(None) => {
            lemma_ascii_valid_utf8(seq![0x24u8]);
            lemma_decimal_ascii(-1);
            lemma_ascii_valid_utf8(decimal_of(-1));
            valid_utf8_concat(seq![0x24u8], decimal_of(-1));
            valid_utf8_concat(seq![0x24u8] + decimal_of(-1), crlf());
        },
        Value::BulkString(Some(s)) => {
            let n = digits_of(encode_utf8(s).len());
            lemma_ascii_valid_utf8(seq![0x24u8]);
            lemma_decimal_ascii(encode_utf8(s).len() as int);
            lemma_ascii_valid_utf8(n);
            encode_utf8_valid_utf8(s);
            valid_utf8_concat(seq![0x24u8], n);
            valid_utf8_concat(seq![0x24u8] + n, crlf());
            valid_utf8_concat(seq![0x24u8] + n + crlf(), encode_utf8(s));
            valid_utf8_concat(seq![0x24u8] + n + crlf() + encode_utf8(s), crlf());
        },
        Value::Array(items) => {
            let n = digits_of(items.len());
            lemma_ascii_valid_utf8(seq![0x2au8]);
            lemma_decimal_ascii(items.len() as int);
            lemma_ascii_valid_utf8(n);
            lemma_wire_all_valid_utf8(items);
            valid_utf8_concat(seq![0x2au8], n);
            valid_utf8_concat(seq![0x2au8] + n, crlf());
            valid_utf8_concat(seq![0x2au8] + n + crlf(), wire_all(items));
        },
        Value::Integer(n) => {
            lemma_ascii_valid_utf8(seq![0x3au8]);
            lemma_decimal_ascii(n);
            lemma_ascii_valid_utf8(decimal_of(n));
            valid_utf8_concat(seq![0x3au8], decimal_of(n));
            valid_utf8_concat(seq![0x3au8] + decimal_of(n), crlf());
        },
    }
}

/// The wire form of a list of values is well-formed UTF-8.
pub proof fn lemma_wire_all_valid_utf8(items: Seq<Value>)
    ensures
        valid_utf8(wire_all(items)),
    decreases items,
{
    if items.len() > 0 {
        lemma_wire_all_valid_utf8(items.drop_last());
        lemma_wire_valid_utf8(items.last());
        valid_utf8_concat(wire_all(items.drop_last()), wire(items.last()));
    }
}

impl Resp {
    /// The wire form of the value as text: the string whose bytes are the wire form.
    pub fn to_string(&self) -> (r: String)
        ensures
            encode_utf8(r@) == wire(self@),
    {
        let bytes = self.serialize();
        proof {
            lemma_wire_valid_utf8(self@);
            decode_utf8_encode_utf8(wire(self@));
        }
        match string_from_utf8(bytes) {
            Some(s) => s,
            None => unreached(),
        }
    }

    /// Appends the wire form of the value to `out`.
    pub fn write_to(&self, out: &mut Vec<u8>)
        ensures
            final(out)@ == old(out)@ + wire(self@),
        decreases self,
    {
        match self {
            Resp::SimpleString(s) => {
                out.push(TAG_SIMPLE_STRING);
                out.extend_from_slice(s.0.as_str().as_bytes());
                out.push(CR);
                out.push(LF);
                assert(final(out)@ =~= old(out)@ + wire(self@));
            },
            Resp::BulkString(b) => match &b.0 {
                None => {
                    out.push(TAG_BULK_STRING);
                    push_decimal(out, -1);
                    out.push(CR);
                    out.push(LF);
                    assert(final(out)@ =~= old(out)@ + wire(self@));
                },
                Some(s) => {
                    let bytes = s.as_str().as_bytes();
                    out.push(TAG_BULK_STRING);
                    push_digits(out, bytes.len() as u64);
                    out.push(CR);
                    out.push(LF);
                    out.extend_from_slice(bytes);
                    out.push(CR);
                    out.push(LF);
                    assert(final(out)@ =~= old(out)@ + wire(self@));
                },
            },
            Resp::Integer(n) => {
                out.push(TAG_INTEGER);
                push_decimal(out, n.0);
                out.push(CR);
                out.push(LF);
                assert(final(out)@ =~= old(out)@ + wire(self@));
            },
            Resp::Array(a) => {
                out.push(TAG_ARRAY);
                push_digits(out, a.0.len() as u64);
                out.push(CR);
                out.push(LF);
                let ghost head = out@;
                let ghost items = values_of(a.0@);
                proof {
                    lemma_values_of(a.0@);
                    assert(items.take(0) =~= Seq::<Value>::empty());
                    assert(head =~= old(out)@ + (seq![0x2au8] + digits_of(items.len()) + crlf()));
                }
                let mut i: usize = 0;
                while i < a.0.len()
                    invariant
                        i <= a.0@.len(),
                        self matches Resp::Array(sa) && sa == a,
                        items == values_of(a.0@),
                        items.len() == a.0@.len(),
                        forall|j: int| 0 <= j < items.len() ==> (#[trigger] items[j]) == a.0@[j]@,
                        out@ == head + wire_all(items.take(i as int)),
                    decreases a.0@.len() - i,
                {
                    let ghost before = out@;
                    a.0[i].write_to(out);
                    proof {
                        let next = items.take(i + 1);
                        assert(next.drop_last() =~= items.take(i as int));
                        assert(next.last() == a.0@[i as int]@);
                        assert(out@ =~= head + wire_all(next));
                    }
                    i = i + 1;
                }
                proof {
                    assert(items.take(i as int) =~= items);
                    assert(final(out)@ =~= old(out)@ + wire(self@));
                }
            },
        }
    }

    /// The wire form of the value.
    pub fn serialize(&self) -> (r: Vec<u8>)
        ensures
            r@ == wire(self@),
    {
        let mut out: Vec<u8> = Vec::new();
        self.write_to(&mut out);
        assert(out@ =~= wire(self@));
        out
    }
}

} // verus!
