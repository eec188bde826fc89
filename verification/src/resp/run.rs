//! The command engine: what each command replies and what it does to the store.

use std::collections::VecDeque;
use vstd::prelude::*;
use vstd::string::StringExecFns;
use vstd::utf8::encode_utf8;

use crate::decimal::{read_signed, signed_i128};
use crate::resp::resp_effect::{
    effect_of, reply, Command, CommandError, EffectView, PostRespRunCommand, RespEffect,
    RespRunResult,
};
use crate::resp::{
    lemma_values_of, plain_text, values_of, Array, BulkString, Integer, Resp, SimpleString, Value,
};
use crate::storage::{
    info_text, live_value, new_slot, psync_text, unix_millis, ReplicationView, Slot, Storage,
};
use crate::text::{lowercase_of, same_text, to_lowercase, to_uppercase, uppercase_of};

verus! {

/// The reply `PONG`.
pub open spec fn pong() -> Value {
    Value::SimpleString("PONG"@)
}

/// The reply `OK`.
pub open spec fn ok() -> Value {
    Value::SimpleString("OK"@)
}

/// The null value.
pub open spec fn null() -> Value {
    Value::BulkString(None)
}

/// `ECHO message`: the message, unchanged.
pub open spec fn echo_reply(args: Seq<Value>) -> Result<EffectView, CommandError> {
    if args.len() == 1 {
        Ok(reply(args[0]))
    } else {
        Err(CommandError::Arity(Command::Echo))
    }
}

/// `PING [message]`: `PONG`, or the message, unchanged.
pub open spec fn ping_reply(args: Seq<Value>) -> Result<EffectView, CommandError> {
    if args.len() == 0 {
        Ok(reply(pong()))
    } else if args.len() == 1 {
        Ok(reply(args[0]))
    } else {
        Err(CommandError::Arity(Command::Ping))
    }
}

/// `GET key`: the value that is stored and has not expired, or the null value.
pub open spec fn get_reply(args: Seq<Value>, entries: Map<Value, Slot>, now: int) -> Result<
    EffectView,
    CommandError,
> {
    if args.len() == 1 {
        Ok(
            reply(
                match live_value(entries, args[0], now) {
                    Some(v) => v,
                    None => null(),
                },
            ),
        )
    } else {
        Err(CommandError::Arity(Command::GetKey))
    }
}

/// `REPLCONF ...`: `OK`, whatever the arguments.
pub open spec fn replconf_reply(args: Seq<Value>) -> Result<EffectView, CommandError> {
    Ok(reply(ok()))
}

/// `INFO section`: the replication section, the only one there is.
pub open spec fn info_reply(args: Seq<Value>, state: ReplicationView) -> Result<
    EffectView,
    CommandError,
> {
    if args.len() != 1 {
        Err(CommandError::Arity(Command::Info))
    } else {
        match plain_text(args[0]) {
            None => Err(CommandError::InvalidArgument(Command::Info)),
            Some(section) => if lowercase_of(section) == "replication"@ {
                Ok(reply(Value::BulkString(Some(info_text(state)))))
            } else {
                Err(CommandError::UnsupportedFeature)
            },
        }
    }
}

/// The argument is the text of the number -1.
pub open spec fn is_minus_one(v: Value) -> bool {
    match plain_text(v) {
        Some(text) => signed_i128(encode_utf8(text)) == Some(-1i128),
        None => false,
    }
}

/// `PSYNC replid offset`: a master grants a full resynchronisation, asked for by the
/// replication id `?` and the offset -1, and has the snapshot streamed after the reply.
pub open spec fn psync_reply(args: Seq<Value>, state: ReplicationView) -> Result<
    EffectView,
    CommandError,
> {
    if args.len() < 1 {
        Err(CommandError::Arity(Command::Psync))
    } else if plain_text(args[0]) != Some("?"@) {
        Err(CommandError::UnsupportedFeature)
    } else if args.len() < 2 {
        Err(CommandError::Arity(Command::Psync))
    } else if !is_minus_one(args[1]) {
        Err(CommandError::UnsupportedFeature)
    } else if args.len() > 2 {
        Err(CommandError::Arity(Command::Psync))
    } else {
        match psync_text(state) {
            None => Err(CommandError::UnsupportedFeature),
            Some(text) => Ok(
                EffectView {
                    run_result: Value::SimpleString("FULLRESYNC "@ + text),
                    post_run_cmd: Some(PostRespRunCommand::FullResync),
                },
            ),
        }
    }
}

/// The number of milliseconds that the value of `PX` gives, as an integer or as the
/// text of one.
pub open spec fn px_millis(v: Value) -> Option<int> {
    match v {
        Value::Integer(n) => Some(n),
        Value::SimpleString(s) => text_millis(s),
        Value::BulkString(Some(s)) => text_millis(s),
        _ => None,
    }
}

/// The 64-bit integer that a text denotes.
pub open spec fn text_millis(s: Seq<char>) -> Option<int> {
    match signed_i128(encode_utf8(s)) {
        Some(n) => if i64::MIN <= n <= i64::MAX {
            Some(n as int)
        } else {
            None
        },
        None => None,
    }
}

/// What `SET` is asked to store.
pub ghost struct SetRequest {
    pub key: Value,
    pub value: Value,
    pub ttl: Option<u64>,
}

/// `SET key value [PX millis]`: what is to be stored, and for how long.
pub open spec fn set_request(args: Seq<Value>) -> Result<SetRequest, CommandError> {
    if args.len() < 2 {
        Err(CommandError::Arity(Command::SetKey))
    } else if args.len() == 2 {
        Ok(SetRequest { key: args[0], value: args[1], ttl: None })
    } else {
        match plain_text(args[2]) {
            None => Err(CommandError::InvalidArgument(Command::SetKey)),
            Some(option) => if uppercase_of(option) != "PX"@ {
                Err(CommandError::InvalidArgument(Command::SetKey))
            } else if args.len() < 4 {
                Err(CommandError::Arity(Command::SetKey))
            } else {
                match px_millis(args[3]) {
                    None => Err(CommandError::InvalidArgument(Command::SetKey)),
                    Some(millis) => if millis <= 0 {
                        Err(CommandError::InvalidArgument(Command::SetKey))
                    } else if args.len() > 4 {
                        Err(CommandError::Arity(Command::SetKey))
                    } else {
                        Ok(SetRequest { key: args[0], value: args[1], ttl: Some(millis as u64) })
                    },
                }
            },
        }
    }
}

/// The reply of `SET`: always `OK`.
pub open spec fn set_reply(args: Seq<Value>) -> Result<EffectView, CommandError> {
    match set_request(args) {
        Ok(_) => Ok(reply(ok())),
        Err(e) => Err(e),
    }
}

/// The entries of the store after `SET` at time `now`.
pub open spec fn set_entries(args: Seq<Value>, entries: Map<Value, Slot>, now: int) -> Map<
    Value,
    Slot,
> {
    match set_request(args) {
        Ok(request) => entries.insert(request.key, new_slot(request.value, request.ttl, now)),
        Err(_) => entries,
    }
}

/// What the command with the upper-case name `name` replies to the arguments `args`.
pub open spec fn dispatch_reply(
    name: Seq<char>,
    args: Seq<Value>,
    entries: Map<Value, Slot>,
    state: ReplicationView,
    now: int,
) -> Result<EffectView, CommandError> {
    if name == "ECHO"@ {
        echo_reply(args)
    } else if name == "GET"@ {
        get_reply(args, entries, now)
    } else if name == "INFO"@ {
        info_reply(args, state)
    } else if name == "PING"@ {
        ping_reply(args)
    } else if name == "PSYNC"@ {
        psync_reply(args, state)
    } else if name == "REPLCONF"@ {
        replconf_reply(args)
    } else if name == "SET"@ {
        set_reply(args)
    } else {
        Err(CommandError::UnknownCommand)
    }
}

/// The entries of the store after the command with the upper-case name `name`: only
/// `SET` changes them.
pub open spec fn dispatch_entries(
    name: Seq<char>,
    args: Seq<Value>,
    entries: Map<Value, Slot>,
    now: int,
) -> Map<Value, Slot> {
    if name == "SET"@ {
        set_entries(args, entries, now)
    } else {
        entries
    }
}

/// The model of a command taken from an array: its upper-case name and its arguments.
pub ghost struct InvocationView {
    pub name: Seq<char>,
    pub args: Seq<Value>,
}

/// The command that an array holds: its first element, read as plain text, names the
/// command, whatever the case of its letters, and the others are the arguments.
pub open spec fn invocation_of(items: Seq<Value>) -> Option<InvocationView> {
    if items.len() == 0 {
        None
    } else {
        match plain_text(items[0]) {
            Some(name) => Some(
                InvocationView {
                    name: uppercase_of(name),
                    args: items.subrange(1, items.len() as int),
                },
            ),
            None => None,
        }
    }
}

/// The command with this upper-case name changes the store.
pub open spec fn writes_store(name: Seq<char>) -> bool {
    name == "SET"@
}

/// What an array replies when it is run as a command.
pub open spec fn array_reply(
    items: Seq<Value>,
    entries: Map<Value, Slot>,
    state: ReplicationView,
    now: int,
) -> Result<EffectView, CommandError> {
    match invocation_of(items) {
        None => Err(CommandError::InvalidCommand),
        Some(invocation) => dispatch_reply(invocation.name, invocation.args, entries, state, now),
    }
}

/// The entries of the store after an array was run as a command.
pub open spec fn array_entries(items: Seq<Value>, entries: Map<Value, Slot>, now: int) -> Map<
    Value,
    Slot,
> {
    match invocation_of(items) {
        None => entries,
        Some(invocation) => dispatch_entries(invocation.name, invocation.args, entries, now),
    }
}

/// What a text replies when it is run as a command: only `PING` is one.
pub open spec fn string_reply(s: Seq<char>) -> Result<Value, CommandError> {
    if s == "PING"@ {
        Ok(pong())
    } else {
        Err(CommandError::UnknownCommand)
    }
}

/// The model of a value that was looked at as a command: either its reply is known
/// without the store, or it is a command to run on the store.
pub ghost enum PreparedView {
    Reply(EffectView),
    Invoke(InvocationView),
}

/// A value looked at as a command: a text is a command by itself, an array holds a
/// command and its arguments, and nothing else is a command.
pub open spec fn prepared_of(v: Value) -> Result<PreparedView, CommandError> {
    match v {
        Value::SimpleString(s) => match string_reply(s) {
            Ok(r) => Ok(PreparedView::Reply(reply(r))),
            Err(e) => Err(e),
        },
        Value::BulkString(Some(s)) => match string_reply(s) {
            Ok(r) => Ok(PreparedView::Reply(reply(r))),
            Err(e) => Err(e),
        },
        Value::BulkString(None) => Err(CommandError::InvalidCommand),
        Value::Array(items) => match invocation_of(items) {
            Some(invocation) => Ok(PreparedView::Invoke(invocation)),
            None => Err(CommandError::InvalidCommand),
        },
        Value::Integer(_) => Err(CommandError::InvalidCommand),
    }
}

/// What a value replies when it is run as a command.
pub open spec fn run_reply(
    v: Value,
    entries: Map<Value, Slot>,
    state: ReplicationView,
    now: int,
) -> Result<EffectView, CommandError> {
    match prepared_of(v) {
        Err(e) => Err(e),
        Ok(PreparedView::Reply(effect)) => Ok(effect),
        Ok(PreparedView::Invoke(invocation)) => dispatch_reply(
            invocation.name,
            invocation.args,
            entries,
            state,
            now,
        ),
    }
}

/// The entries of the store after a value was run as a command.
pub open spec fn run_entries(v: Value, entries: Map<Value, Slot>, now: int) -> Map<Value, Slot> {
    match prepared_of(v) {
        Ok(PreparedView::Invoke(invocation)) => dispatch_entries(
            invocation.name,
            invocation.args,
            entries,
            now,
        ),
        _ => entries,
    }
}

/// `SET` followed by `GET` of the same key: what was stored is replied until its
/// time to live has passed, and the null value from then on; without a time to live
/// it is replied at any time.
pub proof fn lemma_set_then_get_replies(
    args: Seq<Value>,
    entries: Map<Value, Slot>,
    now: int,
    later: int,
)
    requires
        set_request(args) is Ok,
    ensures
        set_reply(args) == Ok::<EffectView, CommandError>(reply(ok())),
        ({
            let request = set_request(args)->Ok_0;
            get_reply(seq![request.key], set_entries(args, entries, now), later) == Ok::<
                EffectView,
                CommandError,
            >(
                reply(
                    if request.ttl matches Some(ttl) && later >= now + ttl {
                        null()
                    } else {
                        request.value
                    },
                ),
            )
        }),
{
}

/// `GET` of a key that was never stored replies the null value.
pub proof fn lemma_get_missing_replies(key: Value, entries: Map<Value, Slot>, now: int)
    requires
        !entries.contains_key(key),
    ensures
        get_reply(seq![key], entries, now) == Ok::<EffectView, CommandError>(reply(null())),
{
}

/// Only `SET` changes the store: every other command leaves its entries as they were,
/// and a `SET` that fails does so too.
pub proof fn lemma_only_set_writes(
    name: Seq<char>,
    args: Seq<Value>,
    entries: Map<Value, Slot>,
    now: int,
)
    ensures
        !writes_store(name) ==> dispatch_entries(name, args, entries, now) == entries,
        set_request(args) is Err ==> dispatch_entries(name, args, entries, now) == entries,
{
}

/// The models of a part of a list are that part of the models of the list.
pub proof fn lemma_values_of_subrange(items: Seq<Resp>, from: int, to: int)
    requires
        0 <= from <= to <= items.len(),
    ensures
        values_of(items.subrange(from, to)) == values_of(items).subrange(from, to),
{
    lemma_values_of(items);
    lemma_values_of(items.subrange(from, to));
    assert(values_of(items.subrange(from, to)) =~= values_of(items).subrange(from, to));
}

fn simple(text: &str) -> (r: Resp)
    ensures
        r@ == Value::SimpleString(text@),
{
    Resp::SimpleString(SimpleString(text.to_owned()))
}

fn plain_reply(v: Resp) -> (r: RespEffect<'static>)
    ensures
        r@ == reply(v@),
{
    RespEffect { run_result: RespRunResult::Owned(v), post_run_cmd: None }
}

/// Runs `ECHO`.
pub fn echo(args: VecDeque<Resp>) -> (r: Result<RespEffect<'static>, CommandError>)
    ensures
        effect_of(r) == echo_reply(values_of(args@)),
{
    let mut args = args;
    proof {
        lemma_values_of(args@);
    }
    let message = match args.pop_front() {
        Some(message) => message,
        None => {
            return Err(CommandError::Arity(Command::Echo));
        },
    };
    if args.len() != 0 {
        return Err(CommandError::Arity(Command::Echo));
    }
    Ok(plain_reply(message))
}

/// Runs `PING`.
pub fn ping(args: VecDeque<Resp>) -> (r: Result<RespEffect<'static>, CommandError>)
    ensures
        effect_of(r) == ping_reply(values_of(args@)),
{
    let mut args = args;
    proof {
        lemma_values_of(args@);
    }
    match args.pop_front() {
        None => Ok(plain_reply(simple("PONG"))),
        Some(message) => {
            if args.len() != 0 {
                return Err(CommandError::Arity(Command::Ping));
            }
            Ok(plain_reply(message))
        },
    }
}

/// Runs `REPLCONF`.
pub fn replconf(args: VecDeque<Resp>) -> (r: Result<RespEffect<'static>, CommandError>)
    ensures
        effect_of(r) == replconf_reply(values_of(args@)),
{
    Ok(plain_reply(simple("OK")))
}

/// Runs `GET` at time `now`.
pub fn get<'a>(args: VecDeque<Resp>, storage: &'a Storage, now: u64) -> (r: Result<
    RespEffect<'a>,
    CommandError,
>)
    ensures
        effect_of(r) == get_reply(values_of(args@), storage.entries(), now as int),
{
    let mut args = args;
    proof {
        lemma_values_of(args@);
    }
    let key = match args.pop_front() {
        Some(key) => key,
        None => {
            return Err(CommandError::Arity(Command::GetKey));
        },
    };
    if args.len() != 0 {
        return Err(CommandError::Arity(Command::GetKey));
    }
    match storage.get_at(&key, now) {
        Some(value) => Ok(
            RespEffect { run_result: RespRunResult::Borrowed(value), post_run_cmd: None },
        ),
        None => Ok(plain_reply(Resp::BulkString(BulkString(None)))),
    }
}

/// Runs `INFO`.
pub fn info(args: VecDeque<Resp>, storage: &Storage) -> (r: Result<
    RespEffect<'static>,
    CommandError,
>)
    ensures
        effect_of(r) == info_reply(values_of(args@), storage.replication_state()),
{
    let mut args = args;
    proof {
        lemma_values_of(args@);
    }
    let section = match args.pop_front() {
        Some(section) => section,
        None => {
            return Err(CommandError::Arity(Command::Info));
        },
    };
    if args.len() != 0 {
        return Err(CommandError::Arity(Command::Info));
    }
    let text = match section.plain_string() {
        Ok(text) => text,
        Err(_) => {
            return Err(CommandError::InvalidArgument(Command::Info));
        },
    };
    let lower = to_lowercase(text);
    if same_text(lower.as_str(), "replication") {
        let s = storage.replication().info();
        Ok(plain_reply(Resp::BulkString(BulkString(Some(s)))))
    } else {
        Err(CommandError::UnsupportedFeature)
    }
}

/// Whether the argument is the text of the number -1.
fn reads_minus_one(v: &Resp) -> (r: bool)
    ensures
        r == is_minus_one(v@),
{
    match v.plain_string() {
        Ok(text) => {
            let bytes = text.as_bytes();
            assert(bytes@.subrange(0, bytes@.len() as int) =~= bytes@);
            match read_signed(bytes, 0, bytes.len()) {
                Some(n) => n == -1,
                None => false,
            }
        },
        Err(_) => false,
    }
}

/// Runs `PSYNC`.
pub fn psync(args: VecDeque<Resp>, storage: &Storage) -> (r: Result<
    RespEffect<'static>,
    CommandError,
>)
    ensures
        effect_of(r) == psync_reply(values_of(args@), storage.replication_state()),
{
    let ghost all = values_of(args@);
    let mut args = args;
    proof {
        lemma_values_of(args@);
    }
    let replid = match args.pop_front() {
        Some(replid) => replid,
        None => {
            return Err(CommandError::Arity(Command::Psync));
        },
    };
    assert(replid@ == all[0]);
    let asks_all = match replid.plain_string() {
        Ok(text) => same_text(text, "?"),
        Err(_) => false,
    };
    if !asks_all {
        return Err(CommandError::UnsupportedFeature);
    }
    let offset = match args.pop_front() {
        Some(offset) => offset,
        None => {
            return Err(CommandError::Arity(Command::Psync));
        },
    };
    assert(offset@ == all[1]);
    if !reads_minus_one(&offset) {
        return Err(CommandError::UnsupportedFeature);
    }
    if args.len() != 0 {
        return Err(CommandError::Arity(Command::Psync));
    }
    let text = match storage.replication().info_psync() {
        Some(text) => text,
        None => {
            return Err(CommandError::UnsupportedFeature);
        },
    };
    let mut line = String::from_str("FULLRESYNC ");
    line.append(text.as_str());
    Ok(
        RespEffect {
            run_result: RespRunResult::Owned(Resp::SimpleString(SimpleString(line))),
            post_run_cmd: Some(PostRespRunCommand::FullResync),
        },
    )
}

/// Reads a text as a 64-bit integer.
fn read_millis(text: &str) -> (r: Option<i64>)
    ensures
        match r {
            Some(n) => text_millis(text@) == Some(n as int),
            None => text_millis(text@) is None,
        },
{
    let bytes = text.as_bytes();
    assert(bytes@.subrange(0, bytes@.len() as int) =~= bytes@);
    match read_signed(bytes, 0, bytes.len()) {
        Some(n) => {
            if n < -0x8000_0000_0000_0000i128 || n > 0x7fff_ffff_ffff_ffffi128 {
                None
            } else {
                Some(n as i64)
            }
        },
        None => None,
    }
}

/// Reads the value of `PX`.
fn read_px(v: &Resp) -> (r: Option<i64>)
    ensures
        match r {
            Some(n) => px_millis(v@) == Some(n as int),
            None => px_millis(v@) is None,
        },
{
    match v {
        Resp::Integer(n) => Some(n.0),
        Resp::SimpleString(s) => read_millis(s.0.as_str()),
        Resp::BulkString(b) => match &b.0 {
            Some(s) => read_millis(s.as_str()),
            None => None,
        },
        Resp::Array(_) => None,
    }
}

/// Runs `SET` at time `now`.
pub fn set(args: VecDeque<Resp>, storage: &mut Storage, now: u64) -> (r: Result<
    RespEffect<'static>,
    CommandError,
>)
    ensures
        effect_of(r) == set_reply(values_of(args@)),
        final(storage).entries() == set_entries(
            values_of(args@),
            old(storage).entries(),
            now as int,
        ),
        final(storage).replication_state() == old(storage).replication_state(),
{
    let ghost all = values_of(args@);
    let mut args = args;
    proof {
        lemma_values_of(args@);
    }
    let key = match args.pop_front() {
        Some(key) => key,
        None => {
            return Err(CommandError::Arity(Command::SetKey));
        },
    };
    let value = match args.pop_front() {
        Some(value) => value,
        None => {
            return Err(CommandError::Arity(Command::SetKey));
        },
    };
    assert(key@ == all[0] && value@ == all[1]);
    let expiry: Option<u64> = match args.pop_front() {
        None => None,
        Some(option) => {
            assert(option@ == all[2]);
            let is_px = match option.plain_string() {
                Ok(text) => {
                    let upper = to_uppercase(text);
                    same_text(upper.as_str(), "PX")
                },
                Err(_) => false,
            };
            if !is_px {
                return Err(CommandError::InvalidArgument(Command::SetKey));
            }
            let px = match args.pop_front() {
                Some(px) => px,
                None => {
                    return Err(CommandError::Arity(Command::SetKey));
                },
            };
            assert(px@ == all[3]);
            let millis: i64 = match read_px(&px) {
                Some(millis) => millis,
                None => {
                    return Err(CommandError::InvalidArgument(Command::SetKey));
                },
            };
            if millis <= 0 {
                return Err(CommandError::InvalidArgument(Command::SetKey));
            }
            Some(millis as u64)
        },
    };
    if args.len() != 0 {
        return Err(CommandError::Arity(Command::SetKey));
    }
    storage.set_at(key, value, expiry, now);
    Ok(plain_reply(simple("OK")))
}

/// Runs a command that leaves the store as it is: any but `SET`, by its upper-case
/// name, at time `now`.
pub fn dispatch_shared<'a>(
    name: &str,
    args: VecDeque<Resp>,
    storage: &'a Storage,
    now: u64,
) -> (r: Result<RespEffect<'a>, CommandError>)
    requires
        !writes_store(name@),
    ensures
        effect_of(r) == dispatch_reply(
            name@,
            values_of(args@),
            storage.entries(),
            storage.replication_state(),
            now as int,
        ),
{
    if same_text(name, "ECHO") {
        echo(args)
    } else if same_text(name, "GET") {
        get(args, storage, now)
    } else if same_text(name, "INFO") {
        info(args, storage)
    } else if same_text(name, "PING") {
        ping(args)
    } else if same_text(name, "PSYNC") {
        psync(args, storage)
    } else if same_text(name, "REPLCONF") {
        replconf(args)
    } else {
        Err(CommandError::UnknownCommand)
    }
}

/// Runs the command with the upper-case name `name` on the arguments `args`, at
/// time `now`.
pub fn dispatch(name: &str, args: VecDeque<Resp>, storage: &mut Storage, now: u64) -> (r: Result<
    RespEffect<'static>,
    CommandError,
>)
    ensures
        effect_of(r) == dispatch_reply(
            name@,
            values_of(args@),
            old(storage).entries(),
            old(storage).replication_state(),
            now as int,
        ),
        final(storage).entries() == dispatch_entries(
            name@,
            values_of(args@),
            old(storage).entries(),
            now as int,
        ),
        final(storage).replication_state() == old(storage).replication_state(),
{
    if same_text(name, "SET") {
        proof {
            reveal_strlit("ECHO");
            reveal_strlit("GET");
            reveal_strlit("INFO");
            reveal_strlit("PING");
            reveal_strlit("PSYNC");
            reveal_strlit("REPLCONF");
            reveal_strlit("SET");
            assert("GET"@[0] != "SET"@[0]);
        }
        set(args, storage, now)
    } else {
        match dispatch_shared(name, args, storage, now) {
            Ok(effect) => Ok(effect.into_owned()),
            Err(e) => Err(e),
        }
    }
}

/// Runs a text as a command.
pub fn run_string(s: String) -> (r: Result<Resp, CommandError>)
    ensures
        match r {
            Ok(v) => string_reply(s@) == Ok::<Value, CommandError>(v@),
            Err(e) => string_reply(s@) == Err::<Value, CommandError>(e),
        },
{
    if same_text(s.as_str(), "PING") {
        Ok(simple("PONG"))
    } else {
        Err(CommandError::UnknownCommand)
    }
}

/// The elements of a list, as a queue.
fn queue_of(items: Vec<Resp>) -> (r: VecDeque<Resp>)
    ensures
        r@ == items@,
{
    let mut items = items;
    let ghost all = items@;
    let mut queue: VecDeque<Resp> = VecDeque::new();
    while items.len() > 0
        invariant
            items@ + queue@ == all,
        decreases items@.len(),
    {
        let ghost before = items@;
        let ghost tail = queue@;
        match items.pop() {
            Some(item) => {
                queue.push_front(item);
                assert(items@ + queue@ =~= before + tail);
            },
            None => {},
        }
    }
    assert(queue@ =~= all);
    queue
}

/// A command taken from an array: its upper-case name and its arguments.
#[derive(Debug)]
pub struct Invocation {
    pub name: String,
    pub args: VecDeque<Resp>,
}

impl View for Invocation {
    type V = InvocationView;

    open spec fn view(&self) -> InvocationView {
        InvocationView { name: self.name@, args: values_of(self.args@) }
    }
}

impl Invocation {
    /// Whether the command changes the store, and so needs it for itself alone.
    pub fn writes(&self) -> (r: bool)
        ensures
            r == writes_store(self@.name),
    {
        same_text(self.name.as_str(), "SET")
    }

    /// Runs the command at time `now`.
    pub fn run_at(self, storage: &mut Storage, now: u64) -> (r: Result<
        RespEffect<'static>,
        CommandError,
    >)
        ensures
            effect_of(r) == dispatch_reply(
                self@.name,
                self@.args,
                old(storage).entries(),
                old(storage).replication_state(),
                now as int,
            ),
            final(storage).entries() == dispatch_entries(
                self@.name,
                self@.args,
                old(storage).entries(),
                now as int,
            ),
            final(storage).replication_state() == old(storage).replication_state(),
    {
        dispatch(self.name.as_str(), self.args, storage, now)
    }

    /// Runs the command now.
    pub fn run(self, storage: &mut Storage) -> (r: Result<RespEffect<'static>, CommandError>)
        ensures
            exists|now: u64|
                effect_of(r) == dispatch_reply(
                    self@.name,
                    self@.args,
                    old(storage).entries(),
                    old(storage).replication_state(),
                    now as int,
                ) && final(storage).entries() == dispatch_entries(
                    self@.name,
                    self@.args,
                    old(storage).entries(),
                    now as int,
                ),
            final(storage).replication_state() == old(storage).replication_state(),
    {
        let ghost v = self@;
        let now = unix_millis();
        let r = self.run_at(storage, now);
        assert(effect_of(r) == dispatch_reply(
            v.name,
            v.args,
            old(storage).entries(),
            old(storage).replication_state(),
            now as int,
        ) && storage.entries() == dispatch_entries(
            v.name,
            v.args,
            old(storage).entries(),
            now as int,
        ));
        r
    }

    /// Runs a command that does not change the store, at time `now`, on a store that
    /// others may read meanwhile.
    pub fn read_at<'a>(self, storage: &'a Storage, now: u64) -> (r: Result<
        RespEffect<'a>,
        CommandError,
    >)
        requires
            !writes_store(self@.name),
        ensures
            effect_of(r) == dispatch_reply(
                self@.name,
                self@.args,
                storage.entries(),
                storage.replication_state(),
                now as int,
            ),
    {
        dispatch_shared(self.name.as_str(), self.args, storage, now)
    }

    /// Runs a command that does not change the store, now.
    pub fn read<'a>(self, storage: &'a Storage) -> (r: Result<RespEffect<'a>, CommandError>)
        requires
            !writes_store(self@.name),
        ensures
            exists|now: u64|
                effect_of(r) == dispatch_reply(
                    self@.name,
                    self@.args,
                    storage.entries(),
                    storage.replication_state(),
                    now as int,
                ),
    {
        let ghost v = self@;
        let now = unix_millis();
        let r = self.read_at(storage, now);
        assert(effect_of(r) == dispatch_reply(
            v.name,
            v.args,
            storage.entries(),
            storage.replication_state(),
            now as int,
        ));
        r
    }
}

/// A value that was looked at as a command.
#[derive(Debug)]
pub enum Prepared {
    /// The reply is known without the store.
    Reply(RespEffect<'static>),
    /// A command to run on the store.
    Invoke(Invocation),
}

impl View for Prepared {
    type V = PreparedView;

    open spec fn view(&self) -> PreparedView {
        match self {
            Prepared::Reply(effect) => PreparedView::Reply(effect@),
            Prepared::Invoke(invocation) => PreparedView::Invoke(invocation@),
        }
    }
}

impl Array {
    /// Takes the array apart into the command that it holds.
    pub fn prepare(self) -> (r: Result<Invocation, CommandError>)
        ensures
            match r {
                Ok(invocation) => invocation_of(values_of(self.0@)) == Some(invocation@),
                Err(e) => invocation_of(values_of(self.0@)) is None && e
                    == CommandError::InvalidCommand,
            },
    {
        let ghost items = self.0@;
        proof {
            lemma_values_of(items);
        }
        let mut queue = queue_of(self.0);
        let name = match queue.pop_front() {
            Some(name) => name,
            None => {
                return Err(CommandError::InvalidCommand);
            },
        };
        proof {
            lemma_values_of_subrange(items, 1, items.len() as int);
        }
        let upper = match name.plain_string() {
            Ok(text) => to_uppercase(text),
            Err(_) => {
                return Err(CommandError::InvalidCommand);
            },
        };
        Ok(Invocation { name: upper, args: queue })
    }

    /// Runs the array as a command at time `now`.
    pub fn run_at(self, storage: &mut Storage, now: u64) -> (r: Result<
        RespEffect<'static>,
        CommandError,
    >)
        ensures
            effect_of(r) == array_reply(
                values_of(self.0@),
                old(storage).entries(),
                old(storage).replication_state(),
                now as int,
            ),
            final(storage).entries() == array_entries(
                values_of(self.0@),
                old(storage).entries(),
                now as int,
            ),
            final(storage).replication_state() == old(storage).replication_state(),
    {
        match self.prepare() {
            Ok(invocation) => invocation.run_at(storage, now),
            Err(e) => Err(e),
        }
    }

    /// Runs the array as a command now.
    pub fn run(self, storage: &mut Storage) -> (r: Result<RespEffect<'static>, CommandError>)
        ensures
            exists|now: u64|
                effect_of(r) == array_reply(
                    values_of(self.0@),
                    old(storage).entries(),
                    old(storage).replication_state(),
                    now as int,
                ) && final(storage).entries() == array_entries(
                    values_of(self.0@),
                    old(storage).entries(),
                    now as int,
                ),
            final(storage).replication_state() == old(storage).replication_state(),
    {
        let ghost items = values_of(self.0@);
        let now = unix_millis();
        let r = self.run_at(storage, now);
        assert(effect_of(r) == array_reply(
            items,
            old(storage).entries(),
            old(storage).replication_state(),
            now as int,
        ) && storage.entries() == array_entries(items, old(storage).entries(), now as int));
        r
    }
}

impl Resp {
    /// Looks at the value as a command.
    pub fn prepare(self) -> (r: Result<Prepared, CommandError>)
        ensures
            match r {
                Ok(prepared) => prepared_of(self@) == Ok::<PreparedView, CommandError>(prepared@),
                Err(e) => prepared_of(self@) == Err::<PreparedView, CommandError>(e),
            },
    {
        match self {
            Resp::SimpleString(s) => match run_string(s.0) {
                Ok(v) => Ok(Prepared::Reply(plain_reply(v))),
                Err(e) => Err(e),
            },
            Resp::BulkString(b) => match b.0 {
                Some(s) => match run_string(s) {
                    Ok(v) => Ok(Prepared::Reply(plain_reply(v))),
                    Err(e) => Err(e),
                },
                None => Err(CommandError::InvalidCommand),
            },
            Resp::Array(a) => match a.prepare() {
                Ok(invocation) => Ok(Prepared::Invoke(invocation)),
                Err(e) => Err(e),
            },
            Resp::Integer(_) => Err(CommandError::InvalidCommand),
        }
    }

    /// Runs the value as a command at time `now`.
    pub fn run_at(self, storage: &mut Storage, now: u64) -> (r: Result<
        RespEffect<'static>,
        CommandError,
    >)
        ensures
            effect_of(r) == run_reply(
                self@,
                old(storage).entries(),
                old(storage).replication_state(),
                now as int,
            ),
            final(storage).entries() == run_entries(self@, old(storage).entries(), now as int),
            final(storage).replication_state() == old(storage).replication_state(),
    {
        match self.prepare() {
            Ok(Prepared::Reply(effect)) => Ok(effect),
            Ok(Prepared::Invoke(invocation)) => invocation.run_at(storage, now),
            Err(e) => Err(e),
        }
    }

    /// Runs the value as a command now.
    pub fn run(self, storage: &mut Storage) -> (r: Result<RespEffect<'static>, CommandError>)
        ensures
            exists|now: u64|
                effect_of(r) == run_reply(
                    self@,
                    old(storage).entries(),
                    old(storage).replication_state(),
                    now as int,
                ) && final(storage).entries() == run_entries(
                    self@,
                    old(storage).entries(),
                    now as int,
                ),
            final(storage).replication_state() == old(storage).replication_state(),
    {
        let ghost v = self@;
        let now = unix_millis();
        let r = self.run_at(storage, now);
        assert(effect_of(r) == run_reply(
            v,
            old(storage).entries(),
            old(storage).replication_state(),
            now as int,
        ) && storage.entries() == run_entries(v, old(storage).entries(), now as int));
        r
    }
}

} // verus!
