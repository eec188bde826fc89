//! What running a command yields: the reply, and what is to be done after it is sent.

use vstd::prelude::*;

use crate::resp::wire::wire;
use crate::resp::{Resp, Value};
use crate::storage::{empty_snapshot, snapshot_frame, Slot, Storage};

verus! {

/// The commands of the server.
#[derive(Debug, Clone, Copy, PartialEq, Eq, Structural)]
pub enum Command {
    Echo,
    GetKey,
    Info,
    Ping,
    Psync,
    Replconf,
    SetKey,
}

/// Why a command was not run.
#[derive(Debug, Clone, Copy, PartialEq, Eq, Structural)]
pub enum CommandError {
    /// The value is no command: an empty array, an array whose first element is no
    /// text, a null bulk string or an integer.
    InvalidCommand,
    /// The name is that of no command.
    UnknownCommand,
    /// The command has too few or too many arguments.
    Arity(Command),
    /// An argument of the command is not what the command takes.
    InvalidArgument(Command),
    /// The command asks for what the server does not provide.
    UnsupportedFeature,
}

/// What is to be done after the reply was sent.
#[derive(Debug, Clone, Copy, PartialEq, Eq, Structural)]
pub enum PostRespRunCommand {
    /// Stream a full snapshot of the store.
    FullResync,
}

/// The reply of a command: a value of its own, or one that is read in the store.
#[derive(Debug)]
pub enum RespRunResult<'a> {
    Owned(Resp),
    Borrowed(&'a Resp),
}

impl<'a> View for RespRunResult<'a> {
    type V = Value;

    open spec fn view(&self) -> Value {
        match self {
            RespRunResult::Owned(resp) => resp@,
            RespRunResult::Borrowed(resp) => resp@,
        }
    }
}

impl<'a> std::ops::Deref for RespRunResult<'a> {
    type Target = Resp;

    fn deref(&self) -> (r: &Resp)
        ensures
            r@ == self@,
    {
        match self {
            RespRunResult::Owned(resp) => resp,
            RespRunResult::Borrowed(resp) => resp,
        }
    }
}

impl<'a> RespRunResult<'a> {
    /// The reply as a value of its own: a copy where it was read in the store.
    pub fn into_owned(self) -> (r: Resp)
        ensures
            r@ == self@,
    {
        match self {
            RespRunResult::Owned(resp) => resp,
            RespRunResult::Borrowed(resp) => resp.duplicate(),
        }
    }
}

/// The result of a command.
#[derive(Debug)]
pub struct RespEffect<'a> {
    pub run_result: RespRunResult<'a>,
    pub post_run_cmd: Option<PostRespRunCommand>,
}

/// The model of the result of a command.
pub ghost struct EffectView {
    pub run_result: Value,
    pub post_run_cmd: Option<PostRespRunCommand>,
}

impl<'a> View for RespEffect<'a> {
    type V = EffectView;

    open spec fn view(&self) -> EffectView {
        EffectView { run_result: self.run_result@, post_run_cmd: self.post_run_cmd }
    }
}

/// A reply after which nothing is to be done.
pub open spec fn reply(v: Value) -> EffectView {
    EffectView { run_result: v, post_run_cmd: None }
}

/// The model of what a command returned.
pub open spec fn effect_of(r: Result<RespEffect<'_>, CommandError>) -> Result<
    EffectView,
    CommandError,
> {
    match r {
        Ok(e) => Ok(e@),
        Err(e) => Err(e),
    }
}

/// What is sent in answer to a command, and whether the connection is given up after
/// it.
#[derive(Debug)]
pub struct Response {
    /// The bytes to send.
    pub bytes: Vec<u8>,
    /// Why the connection is closed once the bytes are sent, if it is.
    pub failure: Option<CommandError>,
}

/// What follows the reply on the wire: after a full resynchronisation was granted,
/// the snapshot of the store, which only an empty store has.
pub open spec fn payload_after(
    post_run_cmd: Option<PostRespRunCommand>,
    entries: Map<Value, Slot>,
) -> Result<Seq<u8>, CommandError> {
    match post_run_cmd {
        None => Ok(Seq::empty()),
        Some(PostRespRunCommand::FullResync) => if entries == Map::<Value, Slot>::empty() {
            Ok(snapshot_frame(empty_snapshot()))
        } else {
            Err(CommandError::UnsupportedFeature)
        },
    }
}

/// The bytes that answer a command: the reply, and right after it what the command
/// has streamed.
pub open spec fn response_bytes(effect: EffectView, entries: Map<Value, Slot>) -> Seq<u8> {
    match payload_after(effect.post_run_cmd, entries) {
        Ok(payload) => wire(effect.run_result) + payload,
        Err(_) => wire(effect.run_result),
    }
}

/// Why the connection is closed after the answer, if it is.
pub open spec fn response_failure(effect: EffectView, entries: Map<Value, Slot>) -> Option<
    CommandError,
> {
    match payload_after(effect.post_run_cmd, entries) {
        Ok(_) => None,
        Err(e) => Some(e),
    }
}

impl<'a> RespEffect<'a> {
    /// Writes out the answer to the command while the store is at hand: the reply,
    /// then what is streamed after it. Where that cannot be streamed, the reply alone
    /// is sent and the connection closed.
    pub fn respond(&self, storage: &Storage) -> (r: Response)
        ensures
            r.bytes@ == response_bytes(self@, storage.entries()),
            r.failure == response_failure(self@, storage.entries()),
    {
        let mut bytes = self.run_result.serialize();
        match self.post_run_cmd {
            None => {
                assert(bytes@ =~= response_bytes(self@, storage.entries()));
                Response { bytes, failure: None }
            },
            Some(post_run_cmd) => match post_run_cmd.run(storage) {
                Ok(payload) => {
                    bytes.extend_from_slice(payload.as_slice());
                    Response { bytes, failure: None }
                },
                Err(e) => Response { bytes, failure: Some(e) },
            },
        }
    }

    /// The result with a reply of its own, which outlives the store.
    pub fn into_owned(self) -> (r: RespEffect<'static>)
        ensures
            r@ == self@,
    {
        RespEffect {
            run_result: RespRunResult::Owned(self.run_result.into_owned()),
            post_run_cmd: self.post_run_cmd,
        }
    }
}

impl PostRespRunCommand {
    /// The bytes to stream after the reply. A full resynchronisation streams the
    /// snapshot of the store, which only an empty store has.
    pub fn run(&self, storage: &Storage) -> (r: Result<Vec<u8>, CommandError>)
        ensures
            match r {
                Ok(bytes) => storage.entries() == Map::<Value, Slot>::empty() && bytes@
                    == snapshot_frame(empty_snapshot()),
                Err(e) => storage.entries() != Map::<Value, Slot>::empty() && e
                    == CommandError::UnsupportedFeature,
            },
    {
        match self {
            PostRespRunCommand::FullResync => match storage.encode() {
                Ok(bytes) => Ok(bytes),
                Err(_) => Err(CommandError::UnsupportedFeature),
            },
        }
    }
}

} // verus!
