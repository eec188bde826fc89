//! Protocol values: the closed sum type used as message, storage key and payload.

use vstd::prelude::*;
use vstd::std_specs::cmp::PartialEqSpecImpl;

pub mod parse;
pub mod resp_effect;
pub mod roundtrip;
pub mod run;
pub mod wire;

verus! {

/// A simple string: one line of text.
#[derive(Debug, Clone, PartialEq, Eq, Hash)]
pub struct SimpleString(pub String);

/// A bulk string; `BulkString(None)` is the protocol's null value.
#[derive(Debug, Clone, PartialEq, Eq, Hash)]
pub struct BulkString(pub Option<String>);

/// A signed 64-bit integer.
#[derive(Debug, Clone, PartialEq, Eq, Hash)]
pub struct Integer(pub i64);

/// An ordered list of values.
#[derive(Debug, Clone, PartialEq, Eq, Hash)]
pub struct Array(pub Vec<Resp>);

/// A protocol value.
#[derive(Debug, Eq, Hash)]
pub enum Resp {
    SimpleString(SimpleString),
    BulkString(BulkString),
    Array(Array),
    Integer(Integer),
}

/// The mathematical model of a protocol value.
#[verifier::ext_equal]
pub ghost enum Value {
    SimpleString(Seq<char>),
    BulkString(Option<Seq<char>>),
    Array(Seq<Value>),
    Integer(int),
}

/// The models of a list of values, in order.
pub open spec fn values_of(items: Seq<Resp>) -> Seq<Value>
    decreases items,
{
    if items.len() == 0 {
        Seq::empty()
    } else {
        values_of(items.drop_last()).push(items.last()@)
    }
}

impl View for Resp {
    type V = Value;

    open spec fn view(&self) -> Value
        decreases self,
    {
        match self {
            Resp::SimpleString(s) => Value::SimpleString(s.0@),
            Resp::BulkString(b) => Value::BulkString(
                match b.0 {
                    Some(s) => Some(s@),
                    None => None,
                },
            ),
            Resp::Array(a) => Value::Array(values_of(a.0@)),
            Resp::Integer(n) => Value::Integer(n.0 as int),
        }
    }
}

/// The text of a value that is read as plain text: the content of a simple or bulk
/// string, the null bulk string counting as empty text.
pub open spec fn plain_text(v: Value) -> Option<Seq<char>> {
    match v {
        Value::SimpleString(s) => Some(s),
        Value::BulkString(Some(s)) => Some(s),
        Value::BulkString(None) => Some(Seq::empty()),
        _ => None,
    }
}

/// The failure of [`Resp::plain_string`]: the value is an array or an integer.
#[derive(Debug, Clone, Copy, PartialEq, Eq)]
pub struct NotText;

/// The models of a list of values are the models of its members, one for one.
pub proof fn lemma_values_of(items: Seq<Resp>)
    ensures
        values_of(items).len() == items.len(),
        forall|i: int| 0 <= i < items.len() ==> (#[trigger] values_of(items)[i]) == items[i]@,
    decreases items.len(),
{
    if items.len() > 0 {
        let front = items.drop_last();
        lemma_values_of(front);
        assert(values_of(items) == values_of(front).push(items.last()@));
        assert forall|i: int| 0 <= i < items.len() implies (#[trigger] values_of(items)[i])
            == items[i]@ by {
            if i < front.len() {
                assert(values_of(front)[i] == front[i]@);
            }
        }
    }
}

impl Resp {
    /// Reads the value as plain text.
    pub fn plain_string(&self) -> (r: Result<&str, NotText>)
        ensures
            match r {
                Ok(s) => plain_text(self@) == Some(s@),
                Err(_) => plain_text(self@) is None,
            },
    {
        match self {
            Resp::SimpleString(s) => Ok(s.0.as_str()),
            Resp::BulkString(b) => match &b.0 {
                Some(s) => Ok(s.as_str()),
                None => {
                    proof {
                        reveal_strlit("");
                    }
                    assert(""@ =~= Seq::<char>::empty());
                    Ok("")
                },
            },
            _ => Err(NotText),
        }
    }

    /// Whether two values are structurally equal.
    pub fn same(&self, other: &Resp) -> (r: bool)
        ensures
            r == (self@ == other@),
        decreases self,
    {
        match (self, other) {
            (Resp::SimpleString(a), Resp::SimpleString(b)) => a.0 == b.0,
            (Resp::BulkString(a), Resp::BulkString(b)) => match (&a.0, &b.0) {
                (Some(x), Some(y)) => *x == *y,
                (None, None) => true,
                _ => false,
            },
            (Resp::Integer(a), Resp::Integer(b)) => a.0 == b.0,
            (Resp::Array(a), Resp::Array(b)) => {
                proof {
                    lemma_values_of(a.0@);
                    lemma_values_of(b.0@);
                }
                if a.0.len() != b.0.len() {
                    return false;
                }
                let mut i: usize = 0;
                while i < a.0.len()
                    invariant
                        i <= a.0@.len(),
                        a.0@.len() == b.0@.len(),
                        self matches Resp::Array(sa) && sa == a,
                        self@ == Value::Array(values_of(a.0@)),
                        other@ == Value::Array(values_of(b.0@)),
                        values_of(a.0@).len() == a.0@.len(),
                        values_of(b.0@).len() == b.0@.len(),
                        forall|j: int|
                            0 <= j < a.0@.len() ==> (#[trigger] values_of(a.0@)[j]) == a.0@[j]@,
                        forall|j: int|
                            0 <= j < b.0@.len() ==> (#[trigger] values_of(b.0@)[j]) == b.0@[j]@,
                        forall|j: int| 0 <= j < i ==> (#[trigger] a.0@[j])@ == b.0@[j]@,
                    decreases a.0@.len() - i,
                {
                    if !a.0[i].same(&b.0[i]) {
                        assert(values_of(a.0@)[i as int] == a.0@[i as int]@);
                        assert(values_of(b.0@)[i as int] == b.0@[i as int]@);
                        return false;
                    }
                    i = i + 1;
                }
                assert(values_of(a.0@) =~= values_of(b.0@));
                true
            },
            _ => false,
        }
    }

    /// A copy of the value.
    pub fn duplicate(&self) -> (r: Resp)
        ensures
            r@ == self@,
        decreases self,
    {
        match self {
            Resp::SimpleString(s) => Resp::SimpleString(SimpleString(s.0.clone())),
            Resp::BulkString(b) => match &b.0 {
                Some(s) => Resp::BulkString(BulkString(Some(s.clone()))),
                None => Resp::BulkString(BulkString(None)),
            },
            Resp::Integer(n) => Resp::Integer(Integer(n.0)),
            Resp::Array(a) => {
                let mut items: Vec<Resp> = Vec::new();
                let mut i: usize = 0;
                while i < a.0.len()
                    invariant
                        i <= a.0@.len(),
                        items@.len() == i,
                        self matches Resp::Array(sa) && sa == a,
                        forall|j: int| 0 <= j < i ==> (#[trigger] items@[j])@ == a.0@[j]@,
                    decreases a.0@.len() - i,
                {
                    let item = a.0[i].duplicate();
                    items.push(item);
                    i = i + 1;
                }
                let r = Resp::Array(Array(items));
                proof {
                    lemma_values_of(items@);
                    lemma_values_of(a.0@);
                    assert(values_of(items@) =~= values_of(a.0@));
                }
                r
            },
        }
    }
}

impl Clone for Resp {
    fn clone(&self) -> (r: Self)
        ensures
            r@ == self@,
    {
        self.duplicate()
    }
}

impl PartialEq for Resp {
    fn eq(&self, other: &Self) -> (r: bool) {
        self.same(other)
    }
}

impl PartialEqSpecImpl for Resp {
    open spec fn obeys_eq_spec() -> bool {
        true
    }

    open spec fn eq_spec(&self, other: &Self) -> bool {
        self@ == other@
    }
}

} // verus!
