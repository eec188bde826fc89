//! The law of the wire format: reading what was written gives the value back.

use vstd::prelude::*;
use vstd::utf8::{
    char_u32_cast, decode_utf8, decode_utf8_encode_utf8, encode_scalar, encode_utf8,
    encode_utf8_decode_utf8, encode_utf8_valid_utf8, valid_utf8,
};

use crate::decimal::{
    all_digits, decimal_of, digits_of, is_digit, lemma_digits_of_shape, lemma_signed_value_of,
    lemma_unsigned_value_of, signed_i128, unsigned_u128,
};

use crate::resp::parse::{
    crlf_at, find_line, is_tag, lemma_line_len_bounds, lemma_line_len_skip,
    lemma_parse_items_bounds, line_len, parse_items, parse_value, remaining, ParseError,
};
use crate::resp::wire::{crlf, wire, wire_all};
use crate::resp::{lemma_values_of, values_of, Resp, Value};

verus! {

/// No line terminator stands inside `bytes`.
pub open spec fn one_line(bytes: Seq<u8>) -> bool {
    forall|j: int| !crlf_at(bytes, j)
}

/// In the text `s` no carriage return is followed by a line feed.
pub open spec fn single_line(s: Seq<char>) -> bool {
    forall|i: int| 0 <= i && i + 1 < s.len() ==> !(#[trigger] s[i] == '\r' && s[i + 1] == '\n')
}

/// The values that can be written and read back: a simple string is a single line, and
/// lengths, counts and integers are within the machine's ranges.
pub open spec fn representable(v: Value) -> bool
    decreases v,
{
    match v {
        Value::SimpleString(s) => single_line(s),
        Value::BulkString(None) => true,
        Value::BulkString(Some(s)) => encode_utf8(s).len() <= u64::MAX,
        Value::Array(items) => items.len() <= usize::MAX && forall|i: int|
            0 <= i < items.len() ==> representable(#[trigger] items[i]),
        Value::Integer(n) => i64::MIN <= n <= i64::MAX,
    }
}

/// The encoding of a character is one byte, the character itself, where the character
/// is ASCII, and holds no ASCII byte otherwise.
pub proof fn lemma_encode_scalar_bytes(c: char)
    ensures
        encode_scalar(c as u32).len() >= 1,
        (c as u32) < 0x80 ==> encode_scalar(c as u32) == seq![(c as u32) as u8],
        (c as u32) >= 0x80 ==> forall|k: int|
            0 <= k < encode_scalar(c as u32).len() ==> (#[trigger] encode_scalar(c as u32)[k])
                >= 0x80,
{
    let u = c as u32;
    if u < 0x80 {
        assert((u & 0x7F) as u8 == u as u8) by (bit_vector)
            requires
                u < 0x80,
        ;
        assert(encode_scalar(u) =~= seq![u as u8]);
    } else {
        let a: u8 = ((u >> 6) & 0x1F) as u8;
        let b: u8 = ((u >> 12) & 0x0F) as u8;
        let d: u8 = ((u >> 18) & 0x7) as u8;
        let x: u8 = (u & 0x3F) as u8;
        let y: u8 = ((u >> 6) & 0x3F) as u8;
        let z: u8 = ((u >> 12) & 0x3F) as u8;
        assert(0xC0u8 | a >= 0x80) by (bit_vector);
        assert(0xE0u8 | b >= 0x80) by (bit_vector);
        assert(0xF0u8 | d >= 0x80) by (bit_vector);
        assert(0x80u8 | x >= 0x80) by (bit_vector);
        assert(0x80u8 | y >= 0x80) by (bit_vector);
        assert(0x80u8 | z >= 0x80) by (bit_vector);
    }
}

/// A line terminator stands in `a + b` where one stands in `a` or in `b`, or where `a`
/// ends with a carriage return and `b` begins with a line feed.
pub proof fn lemma_one_line_concat(a: Seq<u8>, b: Seq<u8>)
    ensures
        one_line(a + b) <==> one_line(a) && one_line(b) && !(a.len() > 0 && b.len() > 0
            && a.last() == 0x0d && b[0] == 0x0a),
{
    let w = a + b;
    if one_line(w) {
        assert forall|j: int| !crlf_at(a, j) by {
            if crlf_at(a, j) {
                assert(crlf_at(w, j));
            }
        }
        assert forall|j: int| !crlf_at(b, j) by {
            if crlf_at(b, j) {
                assert(w[a.len() + j] == b[j]);
                assert(w[a.len() + j + 1] == b[j + 1]);
                assert(crlf_at(w, a.len() + j));
            }
        }
        if a.len() > 0 && b.len() > 0 && a.last() == 0x0d && b[0] == 0x0a {
            assert(w[a.len() - 1] == a.last());
            assert(w[a.len() as int] == b[0]);
            assert(crlf_at(w, a.len() - 1));
        }
    } else {
        let j = choose|j: int| crlf_at(w, j);
        if j + 1 < a.len() {
            assert(crlf_at(a, j));
        } else if j >= a.len() {
            assert(crlf_at(b, j - a.len()));
        } else {
            assert(a.last() == w[j]);
            assert(b[0] == w[j + 1]);
        }
    }
}

/// The encoded text holds a line terminator exactly where the text holds a carriage
/// return followed by a line feed; and it begins with a line feed exactly where the
/// text does.
pub proof fn lemma_one_line_text(s: Seq<char>)
    ensures
        one_line(encode_utf8(s)) <==> single_line(s),
        s.len() > 0 ==> encode_utf8(s).len() > 0 && (encode_utf8(s)[0] == 0x0a <==> s[0] == '\n'),
        s.len() == 0 ==> encode_utf8(s).len() == 0,
    decreases s.len(),
{
    if s.len() > 0 {
        let c = s[0];
        let t = s.drop_first();
        let e = encode_scalar(c as u32);
        let rest = encode_utf8(t);
        lemma_encode_scalar_bytes(c);
        lemma_one_line_text(t);
        lemma_one_line_concat(e, rest);
        char_u32_cast(c, c as u32);
        char_u32_cast('\n', 0x0a);
        char_u32_cast('\r', 0x0d);
        assert(encode_utf8(s) == e + rest);
        assert(one_line(e)) by {
            assert forall|j: int| !crlf_at(e, j) by {
                if crlf_at(e, j) {
                    assert(e[j] >= 0x80);
                }
            }
        }
        assert(e.last() == 0x0d <==> c == '\r') by {
            if (c as u32) >= 0x80 {
                assert(e[e.len() - 1] >= 0x80);
            }
        }
        assert((e + rest)[0] == e[0]);
        assert(e[0] == 0x0a <==> c == '\n') by {
            if (c as u32) >= 0x80 {
                assert(e[0] >= 0x80);
            }
        }
        if single_line(s) {
            assert forall|i: int| 0 <= i && i + 1 < t.len() implies !(#[trigger] t[i] == '\r'
                && t[i + 1] == '\n') by {
                assert(t[i] == s[i + 1]);
                assert(!(s[i + 1] == '\r' && s[i + 2] == '\n'));
            }
            if t.len() > 0 {
                assert(!(s[0] == '\r' && s[1] == '\n'));
                assert(t[0] == s[1]);
            }
        } else {
            let i = choose|i: int|
                0 <= i && i + 1 < s.len() && #[trigger] s[i] == '\r' && s[i + 1] == '\n';
            if i > 0 {
                assert(t[i - 1] == s[i]);
                assert(t[i] == s[i + 1]);
                assert(!single_line(t));
            } else {
                assert(t[0] == s[1]);
            }
        }
    } else {
        assert(one_line(encode_utf8(s))) by {
            assert forall|j: int| !crlf_at(encode_utf8(s), j) by {}
        }
    }
}

/// The bytes `w` stand in `b` from index `pos` on.
pub open spec fn holds_at(b: Seq<u8>, pos: int, w: Seq<u8>) -> bool {
    0 <= pos && pos + w.len() <= b.len() && b.subrange(pos, pos + w.len()) == w
}

/// Where `x + y` stands, `x` stands, and `y` right after it.
pub proof fn lemma_holds_at_split(b: Seq<u8>, pos: int, x: Seq<u8>, y: Seq<u8>)
    requires
        holds_at(b, pos, x + y),
    ensures
        holds_at(b, pos, x),
        holds_at(b, pos + x.len(), y),
{
    let w = x + y;
    let s = b.subrange(pos, pos + w.len());
    assert(b.subrange(pos, pos + x.len()) =~= s.subrange(0, x.len() as int));
    assert(s.subrange(0, x.len() as int) =~= x);
    assert(b.subrange(pos + x.len(), pos + x.len() + y.len()) =~= s.subrange(
        x.len() as int,
        w.len() as int,
    ));
    assert(s.subrange(x.len() as int, w.len() as int) =~= y);
}

/// The bytes that stand in `b` are its bytes, one for one.
pub proof fn lemma_holds_at_index(b: Seq<u8>, pos: int, w: Seq<u8>, i: int)
    requires
        holds_at(b, pos, w),
        0 <= i < w.len(),
    ensures
        b[pos + i] == w[i],
{
    assert(b.subrange(pos, pos + w.len())[i] == b[pos + i]);
}

/// A line of one piece, followed by a terminator, is the line that the parser finds.
pub proof fn lemma_line_found(b: Seq<u8>, from: int, text: Seq<u8>)
    requires
        holds_at(b, from, text + crlf()),
        one_line(text),
    ensures
        line_len(b, from) == Some(text.len()),
        b.subrange(from, from + text.len()) == text,
{
    lemma_holds_at_split(b, from, text, crlf());
    let end = from + text.len();
    lemma_holds_at_index(b, end, crlf(), 0);
    lemma_holds_at_index(b, end, crlf(), 1);
    assert forall|j: int| from <= j < end implies !crlf_at(b, j) by {
        lemma_holds_at_index(b, from, text, j - from);
        if j + 1 < end {
            lemma_holds_at_index(b, from, text, j + 1 - from);
            assert(!crlf_at(text, j - from));
        }
    }
    lemma_line_len_skip(b, from, end);
    assert(line_len(b, end) == Some(0nat));
}

/// Digits hold no line terminator.
pub proof fn lemma_digits_one_line(s: Seq<u8>)
    requires
        all_digits(s),
    ensures
        one_line(s),
{
    assert forall|j: int| !crlf_at(s, j) by {
        if 0 <= j && j + 1 < s.len() {
            assert(is_digit(s[j]));
        }
    }
}

/// The decimal text of an integer holds no line terminator.
pub proof fn lemma_decimal_one_line(n: int)
    ensures
        one_line(decimal_of(n)),
{
    let s = decimal_of(n);
    if n < 0 {
        let d = digits_of((-n) as nat);
        lemma_digits_of_shape((-n) as nat);
        assert forall|j: int| !crlf_at(s, j) by {
            if 0 <= j && j + 1 < s.len() {
                if j > 0 {
                    assert(s[j] == d[j - 1]);
                    assert(is_digit(d[j - 1]));
                }
            }
        }
    } else {
        lemma_digits_of_shape(n as nat);
        lemma_digits_one_line(s);
    }
}

/// The bytes of a list are those of its first value, then those of the others.
pub proof fn lemma_wire_all_first(items: Seq<Value>)
    requires
        items.len() > 0,
    ensures
        wire_all(items) == wire(items[0]) + wire_all(items.drop_first()),
    decreases items.len(),
{
    let front = items.drop_last();
    if items.len() == 1 {
        assert(front =~= Seq::<Value>::empty());
        assert(items.drop_first() =~= Seq::<Value>::empty());
        assert(wire_all(items) =~= wire(items[0]) + wire_all(items.drop_first()));
    } else {
        lemma_wire_all_first(front);
        let rest = items.drop_first();
        assert(rest.drop_last() =~= front.drop_first());
        assert(rest.last() == items.last());
        assert(front[0] == items[0]);
        assert(wire_all(items) =~= wire(items[0]) + wire_all(rest));
    }
}

/// Where the written form of a representable value stands in `b`, the parser reads
/// that value there, and takes exactly the bytes of the written form.
pub proof fn lemma_parse_wire_at(v: Value, b: Seq<u8>, pos: int)
    requires
        representable(v),
        holds_at(b, pos, wire(v)),
    ensures
        parse_value(b, pos) == Ok::<(Value, nat), ParseError>((v, wire(v).len())),
    decreases v,
{
    let w = wire(v);
    match v {
        Value::SimpleString(s) => {
            let text = encode_utf8(s);
            assert(w =~= seq![0x2bu8] + (text + crlf()));
            lemma_holds_at_split(b, pos, seq![0x2bu8], text + crlf());
            lemma_holds_at_index(b, pos, seq![0x2bu8], 0);
            lemma_one_line_text(s);
            lemma_line_found(b, pos + 1, text);
            encode_utf8_valid_utf8(s);
            encode_utf8_decode_utf8(s);
        },
        Value::Integer(n) => {
            let text = decimal_of(n);
            assert(w =~= seq![0x3au8] + (text + crlf()));
            lemma_holds_at_split(b, pos, seq![0x3au8], text + crlf());
            lemma_holds_at_index(b, pos, seq![0x3au8], 0);
            lemma_decimal_one_line(n);
            lemma_line_found(b, pos + 1, text);
            lemma_signed_value_of(n);
        },
        Value::BulkString(None) => {
            let text = decimal_of(-1);
            assert(w =~= seq![0x24u8] + (text + crlf()));
            lemma_holds_at_split(b, pos, seq![0x24u8], text + crlf());
            lemma_holds_at_index(b, pos, seq![0x24u8], 0);
            lemma_decimal_one_line(-1);
            lemma_line_found(b, pos + 1, text);
            lemma_signed_value_of(-1);
        },
        Value::BulkString(Some(s)) => {
            let body = encode_utf8(s);
            let text = digits_of(body.len());
            assert(w =~= seq![0x24u8] + ((text + crlf()) + (body + crlf())));
            lemma_holds_at_split(b, pos, seq![0x24u8], (text + crlf()) + (body + crlf()));
            lemma_holds_at_index(b, pos, seq![0x24u8], 0);
            lemma_holds_at_split(b, pos + 1, text + crlf(), body + crlf());
            lemma_digits_of_shape(body.len());
            lemma_digits_one_line(text);
            lemma_line_found(b, pos + 1, text);
            lemma_unsigned_value_of(body.len());
            let start = pos + 1 + text.len() + 2;
            lemma_holds_at_split(b, start, body, crlf());
            lemma_holds_at_index(b, start + body.len(), crlf(), 0);
            lemma_holds_at_index(b, start + body.len(), crlf(), 1);
            encode_utf8_valid_utf8(s);
            encode_utf8_decode_utf8(s);
        },
        Value::Array(items) => {
            let text = digits_of(items.len());
            let tail = wire_all(items);
            assert(w =~= seq![0x2au8] + ((text + crlf()) + tail));
            lemma_holds_at_split(b, pos, seq![0x2au8], (text + crlf()) + tail);
            lemma_holds_at_index(b, pos, seq![0x2au8], 0);
            lemma_holds_at_split(b, pos + 1, text + crlf(), tail);
            lemma_digits_of_shape(items.len());
            lemma_digits_one_line(text);
            lemma_line_found(b, pos + 1, text);
            lemma_unsigned_value_of(items.len());
            lemma_parse_wire_all_at(items, b, pos + 1 + text.len() + 2);
        },
    }
}

/// Where the written forms of representable values stand one after the other in `b`,
/// the parser reads those values there.
pub proof fn lemma_parse_wire_all_at(items: Seq<Value>, b: Seq<u8>, pos: int)
    requires
        forall|i: int| 0 <= i < items.len() ==> representable(#[trigger] items[i]),
        holds_at(b, pos, wire_all(items)),
    ensures
        parse_items(b, pos, items.len()) == Ok::<(Seq<Value>, nat), ParseError>(
            (items, wire_all(items).len()),
        ),
    decreases items,
{
    if items.len() == 0 {
        assert(items =~= Seq::<Value>::empty());
    } else {
        let first = items[0];
        let rest = items.drop_first();
        lemma_wire_all_first(items);
        lemma_holds_at_split(b, pos, wire(first), wire_all(rest));
        lemma_parse_wire_at(first, b, pos);
        assert forall|i: int| 0 <= i < rest.len() implies representable(#[trigger] rest[i]) by {
            assert(rest[i] == items[i + 1]);
        }
        lemma_parse_wire_all_at(rest, b, pos + wire(first).len());
        assert(seq![first] + rest =~= items);
    }
}

/// Whatever the parser reads is representable: written again, it is read as the same
/// value.
pub proof fn lemma_parsed_is_representable(b: Seq<u8>, pos: int)
    ensures
        parse_value(b, pos) matches Ok((v, _)) ==> representable(v),
    decreases remaining(b, pos), 0nat,
{
    if pos < 0 || pos >= b.len() || !is_tag(b[pos]) {
    } else {
        lemma_line_len_bounds(b, pos + 1);
        match line_len(b, pos + 1) {
            None => {},
            Some(k) => {
                let text = b.subrange(pos + 1, pos + 1 + k);
                let taken = (k + 3) as nat;
                if b[pos] == 0x2b {
                    if valid_utf8(text) {
                        let s = decode_utf8(text);
                        decode_utf8_encode_utf8(text);
                        assert forall|j: int| !crlf_at(text, j) by {
                            if crlf_at(text, j) {
                                assert(text[j] == b[pos + 1 + j]);
                                assert(text[j + 1] == b[pos + 1 + j + 1]);
                                assert(crlf_at(b, pos + 1 + j));
                            }
                        }
                        lemma_one_line_text(s);
                    }
                } else if b[pos] == 0x24 {
                    match signed_i128(text) {
                        Some(n) => {
                            let body = b.subrange(pos + taken, pos + taken + n);
                            if 0 <= n && pos + taken + n + 2 <= b.len() && valid_utf8(body) {
                                decode_utf8_encode_utf8(body);
                            }
                        },
                        None => {},
                    }
                } else if b[pos] == 0x2a {
                    match unsigned_u128(text) {
                        Some(n) => {
                            if n <= usize::MAX {
                                lemma_parse_items_bounds(b, pos + taken, n as nat);
                                lemma_parsed_items_are_representable(b, pos + taken, n as nat);
                            }
                        },
                        None => {},
                    }
                }
            },
        }
    }
}

/// Whatever values the parser reads one after the other are representable.
pub proof fn lemma_parsed_items_are_representable(b: Seq<u8>, pos: int, n: nat)
    ensures
        parse_items(b, pos, n) matches Ok((items, _)) ==> forall|i: int|
            0 <= i < items.len() ==> representable(#[trigger] items[i]),
    decreases remaining(b, pos), n + 1,
{
    if n > 0 {
        lemma_parsed_is_representable(b, pos);
        match parse_value(b, pos) {
            Err(_) => {},
            Ok((v, k)) => {
                lemma_parsed_items_are_representable(b, pos + k, (n - 1) as nat);
                match parse_items(b, pos + k, (n - 1) as nat) {
                    Ok((rest, _)) => {
                        let items = seq![v] + rest;
                        assert forall|i: int| 0 <= i < items.len() implies representable(
                            #[trigger] items[i],
                        ) by {
                            if i > 0 {
                                assert(items[i] == rest[i - 1]);
                            }
                        }
                    },
                    Err(_) => {},
                }
            },
        }
    }
}

/// Reading, writing and reading again gives what the first reading gave: the written
/// form of a value that was read is read as that value.
pub proof fn lemma_read_write_read(b: Seq<u8>)
    ensures
        parse_value(b, 0) matches Ok((v, _)) ==> parse_value(wire(v), 0) == Ok::<
            (Value, nat),
            ParseError,
        >((v, wire(v).len())),
{
    lemma_parsed_is_representable(b, 0);
    match parse_value(b, 0) {
        Ok((v, _)) => {
            lemma_round_trip(v);
        },
        Err(_) => {},
    }
}

/// A line ends wherever a terminator stands at or after its start.
pub proof fn lemma_line_len_some(b: Seq<u8>, from: int, at: int)
    requires
        0 <= from <= at,
        crlf_at(b, at),
    ensures
        line_len(b, from) is Some,
    decreases at - from,
{
    if from < at && !crlf_at(b, from) {
        lemma_line_len_some(b, from + 1, at);
    }
}

impl Resp {
    /// Whether the value can be written and read back: whether no line terminator
    /// stands in any of its simple strings.
    pub fn is_representable(&self) -> (r: bool)
        ensures
            r == representable(self@),
        decreases self,
    {
        match self {
            Resp::SimpleString(s) => {
                let bytes = s.0.as_str().as_bytes();
                let found = find_line(bytes, 0);
                proof {
                    assert(bytes@ == encode_utf8(s.0@));
                    lemma_one_line_text(s.0@);
                    if found is Some {
                        lemma_line_len_bounds(bytes@, 0);
                        assert(crlf_at(bytes@, found->0 as int));
                        assert(!one_line(bytes@));
                    } else {
                        assert forall|j: int| !crlf_at(bytes@, j) by {
                            if crlf_at(bytes@, j) {
                                lemma_line_len_some(bytes@, 0, j);
                            }
                        }
                        assert(one_line(bytes@));
                    }
                }
                found.is_none()
            },
            Resp::BulkString(b) => match &b.0 {
                Some(s) => {
                    let n = s.as_str().as_bytes().len();
                    assert(encode_utf8(s@).len() == n);
                    true
                },
                None => true,
            },
            Resp::Integer(_) => true,
            Resp::Array(a) => {
                proof {
                    lemma_values_of(a.0@);
                }
                let mut i: usize = 0;
                while i < a.0.len()
                    invariant
                        i <= a.0@.len(),
                        self matches Resp::Array(sa) && sa == a,
                        self@ == Value::Array(values_of(a.0@)),
                        values_of(a.0@).len() == a.0@.len(),
                        forall|j: int|
                            0 <= j < a.0@.len() ==> (#[trigger] values_of(a.0@)[j]) == a.0@[j]@,
                        forall|j: int| 0 <= j < i ==> representable(#[trigger] values_of(a.0@)[j]),
                    decreases a.0@.len() - i,
                {
                    if !a.0[i].is_representable() {
                        assert(!representable(values_of(a.0@)[i as int]));
                        return false;
                    }
                    i = i + 1;
                }
                true
            },
        }
    }
}

/// Round trip: reading the written form of a representable value gives the value
/// back, and takes all of its bytes.
pub proof fn lemma_round_trip(v: Value)
    requires
        representable(v),
    ensures
        parse_value(wire(v), 0) == Ok::<(Value, nat), ParseError>((v, wire(v).len())),
{
    let w = wire(v);
    assert(w.subrange(0, w.len() as int) =~= w);
    lemma_parse_wire_at(v, w, 0);
}

/// Round trip with more input behind the value: what follows the written form does
/// not change what is read.
pub proof fn lemma_round_trip_framed(v: Value, rest: Seq<u8>)
    requires
        representable(v),
    ensures
        parse_value(wire(v) + rest, 0) == Ok::<(Value, nat), ParseError>((v, wire(v).len())),
{
    let w = wire(v);
    let b = w + rest;
    assert(b.subrange(0, w.len() as int) =~= w);
    lemma_parse_wire_at(v, b, 0);
}

} // verus!
