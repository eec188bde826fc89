//! The replica's side of the replication handshake: what is sent at each step, and
//! which reply lets the handshake go on.

use vstd::prelude::*;

use crate::resp::{lemma_values_of, plain_text, values_of, Array, Resp, SimpleString, Value};
use crate::text::{decimal_string, decimal_text, is_prefix, same_text, starts_with};

verus! {

/// The steps of the handshake, each named by the reply that it waits for.
#[derive(Debug, Clone, Copy, PartialEq, Eq, Structural)]
pub enum Handshake {
    /// `PING` was sent.
    Pong,
    /// `REPLCONF listening-port` was sent.
    ListeningPortAck,
    /// `REPLCONF capa` was sent.
    CapabilitiesAck,
    /// `PSYNC` was sent.
    FullResync,
    /// The master granted the resynchronisation.
    Done,
}

/// The handshake was broken off: the reply at the given step was not the expected one.
#[derive(Debug, Clone, Copy, PartialEq, Eq, Structural)]
pub struct ProtocolError {
    pub step: Handshake,
}

/// An array of simple strings with the given texts.
pub open spec fn words(texts: Seq<Seq<char>>) -> Value {
    Value::Array(Seq::new(texts.len(), |i: int| Value::SimpleString(texts[i])))
}

/// What the replica sends at a step, where `port` is the port it listens on.
pub open spec fn message_of(step: Handshake, port: u16) -> Option<Value> {
    match step {
        Handshake::Pong => Some(words(seq!["PING"@])),
        Handshake::ListeningPortAck => Some(
            words(seq!["REPLCONF"@, "listening-port"@, decimal_text(port as nat)]),
        ),
        Handshake::CapabilitiesAck => Some(words(seq!["REPLCONF"@, "capa"@, "psync2"@])),
        Handshake::FullResync => Some(words(seq!["PSYNC"@, "?"@, "-1"@])),
        Handshake::Done => None,
    }
}

/// The reply that a step waits for: `PONG`, `OK`, `OK`, and a text that begins with
/// `FULLRESYNC`. Nothing is waited for once the handshake is done.
pub open spec fn accepts(step: Handshake, reply: Value) -> bool {
    match plain_text(reply) {
        None => false,
        Some(text) => match step {
            Handshake::Pong => text == "PONG"@,
            Handshake::ListeningPortAck => text == "OK"@,
            Handshake::CapabilitiesAck => text == "OK"@,
            Handshake::FullResync => is_prefix("FULLRESYNC"@, text),
            Handshake::Done => false,
        },
    }
}

/// The step that follows a step.
pub open spec fn step_after(step: Handshake) -> Handshake {
    match step {
        Handshake::Pong => Handshake::ListeningPortAck,
        Handshake::ListeningPortAck => Handshake::CapabilitiesAck,
        Handshake::CapabilitiesAck => Handshake::FullResync,
        Handshake::FullResync => Handshake::Done,
        Handshake::Done => Handshake::Done,
    }
}

/// The step that a reply leads to, or the error that breaks the handshake off.
pub open spec fn received(step: Handshake, reply: Value) -> Result<Handshake, ProtocolError> {
    if accepts(step, reply) {
        Ok(step_after(step))
    } else {
        Err(ProtocolError { step })
    }
}

/// Where the handshake stands after the given replies came in, one after the other.
pub open spec fn handshake_after(replies: Seq<Value>) -> Result<Handshake, ProtocolError>
    decreases replies.len(),
{
    if replies.len() == 0 {
        Ok(Handshake::Pong)
    } else {
        match handshake_after(replies.drop_last()) {
            Ok(step) => received(step, replies.last()),
            Err(e) => Err(e),
        }
    }
}

/// The handshake is done after four replies exactly when each is the one that its
/// step waits for; a single other reply breaks it off with a protocol error that
/// names the step.
pub proof fn lemma_handshake(r1: Value, r2: Value, r3: Value, r4: Value)
    ensures
        handshake_after(seq![r1, r2, r3, r4]) == Ok::<Handshake, ProtocolError>(Handshake::Done)
            <==> accepts(Handshake::Pong, r1) && accepts(Handshake::ListeningPortAck, r2)
            && accepts(Handshake::CapabilitiesAck, r3) && accepts(Handshake::FullResync, r4),
        !accepts(Handshake::Pong, r1) ==> handshake_after(seq![r1, r2, r3, r4]) == Err::<
            Handshake,
            ProtocolError,
        >(ProtocolError { step: Handshake::Pong }),
        accepts(Handshake::Pong, r1) && !accepts(Handshake::ListeningPortAck, r2)
            ==> handshake_after(seq![r1, r2, r3, r4]) == Err::<Handshake, ProtocolError>(
            ProtocolError { step: Handshake::ListeningPortAck },
        ),
        accepts(Handshake::Pong, r1) && accepts(Handshake::ListeningPortAck, r2) && !accepts(
            Handshake::CapabilitiesAck,
            r3,
        ) ==> handshake_after(seq![r1, r2, r3, r4]) == Err::<Handshake, ProtocolError>(
            ProtocolError { step: Handshake::CapabilitiesAck },
        ),
        accepts(Handshake::Pong, r1) && accepts(Handshake::ListeningPortAck, r2) && accepts(
            Handshake::CapabilitiesAck,
            r3,
        ) && !accepts(Handshake::FullResync, r4) ==> handshake_after(seq![r1, r2, r3, r4]) == Err::<
            Handshake,
            ProtocolError,
        >(ProtocolError { step: Handshake::FullResync }),
{
    let s4 = seq![r1, r2, r3, r4];
    let s3 = seq![r1, r2, r3];
    let s2 = seq![r1, r2];
    let s1 = seq![r1];
    assert(s4.drop_last() =~= s3);
    assert(s3.drop_last() =~= s2);
    assert(s2.drop_last() =~= s1);
    assert(s1.drop_last() =~= Seq::<Value>::empty());
    assert(handshake_after(Seq::<Value>::empty()) == Ok::<Handshake, ProtocolError>(
        Handshake::Pong,
    ));
    assert(handshake_after(s1) == received(Handshake::Pong, r1));
    assert(handshake_after(s2) == match handshake_after(s1) {
        Ok(step) => received(step, r2),
        Err(e) => Err(e),
    });
    assert(handshake_after(s3) == match handshake_after(s2) {
        Ok(step) => received(step, r3),
        Err(e) => Err(e),
    });
    assert(handshake_after(s4) == match handshake_after(s3) {
        Ok(step) => received(step, r4),
        Err(e) => Err(e),
    });
}

fn word(text: &str) -> (r: Resp)
    ensures
        r@ == Value::SimpleString(text@),
{
    Resp::SimpleString(SimpleString(text.to_owned()))
}

fn message(items: Vec<Resp>) -> (r: Resp)
    ensures
        forall|texts: Seq<Seq<char>>|
            items@.len() == texts.len() && (forall|i: int|
                0 <= i < texts.len() ==> (#[trigger] items@[i])@ == Value::SimpleString(texts[i]))
                ==> r@ == #[trigger] words(texts),
{
    let r = Resp::Array(Array(items));
    assert forall|texts: Seq<Seq<char>>|
        items@.len() == texts.len() && (forall|i: int|
            0 <= i < texts.len() ==> (#[trigger] items@[i])@ == Value::SimpleString(
                texts[i],
            )) implies r@ == #[trigger] words(texts) by {
        lemma_values_of(items@);
        assert(values_of(items@) =~= words(texts)->Array_0);
    }
    r
}

impl Handshake {
    /// The first step: `PING` is sent, and `PONG` waited for.
    pub fn start() -> (r: Handshake)
        ensures
            r == Handshake::Pong,
    {
        Handshake::Pong
    }

    /// Whether the handshake is done.
    pub fn is_done(&self) -> (r: bool)
        ensures
            r == (*self == Handshake::Done),
    {
        match self {
            Handshake::Done => true,
            _ => false,
        }
    }

    /// What is to be sent at this step by a replica that listens on `port`.
    pub fn message(&self, port: u16) -> (r: Option<Resp>)
        ensures
            match r {
                Some(m) => message_of(*self, port) == Some(m@),
                None => message_of(*self, port) is None,
            },
    {
        match self {
            Handshake::Pong => {
                let mut items: Vec<Resp> = Vec::new();
                items.push(word("PING"));
                Some(message(items))
            },
            Handshake::ListeningPortAck => {
                let mut items: Vec<Resp> = Vec::new();
                items.push(word("REPLCONF"));
                items.push(word("listening-port"));
                items.push(Resp::SimpleString(SimpleString(decimal_string(port as u64))));
                Some(message(items))
            },
            Handshake::CapabilitiesAck => {
                let mut items: Vec<Resp> = Vec::new();
                items.push(word("REPLCONF"));
                items.push(word("capa"));
                items.push(word("psync2"));
                Some(message(items))
            },
            Handshake::FullResync => {
                let mut items: Vec<Resp> = Vec::new();
                items.push(word("PSYNC"));
                items.push(word("?"));
                items.push(word("-1"));
                Some(message(items))
            },
            Handshake::Done => None,
        }
    }

    /// Takes the master's reply at this step: the next step, or the error that breaks
    /// the handshake off.
    pub fn receive(self, reply: &Resp) -> (r: Result<Handshake, ProtocolError>)
        ensures
            r == received(self, reply@),
    {
        let text = match reply.plain_string() {
            Ok(text) => text,
            Err(_) => {
                return Err(ProtocolError { step: self });
            },
        };
        let accepted = match self {
            Handshake::Pong => same_text(text, "PONG"),
            Handshake::ListeningPortAck => same_text(text, "OK"),
            Handshake::CapabilitiesAck => same_text(text, "OK"),
            Handshake::FullResync => starts_with(text, "FULLRESYNC"),
            Handshake::Done => false,
        };
        if !accepted {
            return Err(ProtocolError { step: self });
        }
        Ok(
            match self {
                Handshake::Pong => Handshake::ListeningPortAck,
                Handshake::ListeningPortAck => Handshake::CapabilitiesAck,
                Handshake::CapabilitiesAck => Handshake::FullResync,
                Handshake::FullResync => Handshake::Done,
                Handshake::Done => Handshake::Done,
            },
        )
    }
}

} // verus!
