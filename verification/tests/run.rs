use std::collections::VecDeque;
use std::time::{Duration, Instant};

use resp_store::config::{Config, Role};
use resp_store::resp::resp_effect::{Command, CommandError, PostRespRunCommand, RespRunResult};
use resp_store::resp::run::{
    dispatch, echo, get, info, ping, psync, replconf, run_string, Prepared,
};
use resp_store::resp::{Array, BulkString, Integer, Resp, SimpleString};
use resp_store::storage::Storage;

fn master() -> Storage {
    Storage::new(&Config::default())
}

fn replica() -> Storage {
    Storage::new(&Config {
        port: 6380,
        role: Role::Slave {
            master_host: "localhost".to_string(),
            master_port: 6379,
        },
    })
}

fn simple(s: &str) -> Resp {
    Resp::SimpleString(SimpleString(s.to_string()))
}

fn bulk(s: &str) -> Resp {
    Resp::BulkString(BulkString(Some(s.to_string())))
}

fn command(words: &[&str]) -> Resp {
    Resp::Array(Array(words.iter().map(|w| bulk(w)).collect()))
}

fn args(values: Vec<Resp>) -> VecDeque<Resp> {
    VecDeque::from(values)
}

fn run(input: Resp, storage: &mut Storage) -> Result<String, CommandError> {
    let effect = input.run(storage)?;
    Ok(String::from_utf8(effect.run_result.serialize()).unwrap())
}

fn assert_run(input: Resp, expected: Resp) -> Result<(), CommandError> {
    let mut storage = master();
    let result = run(input, &mut storage)?;
    assert_eq!(result, expected.to_string());
    Ok(())
}

fn assert_run_with_storage(
    input: Resp,
    expected: Resp,
    storage: &mut Storage,
) -> Result<(), CommandError> {
    let result = run(input, storage)?;
    assert_eq!(result, expected.to_string());
    Ok(())
}

#[test]
fn test_run_ping() {
    assert_run(
        Resp::Array(Array(vec![Resp::SimpleString(SimpleString(
            "PING".to_string(),
        ))])),
        Resp::SimpleString(SimpleString("PONG".to_string())),
    )
    .unwrap()
}

#[test]
fn test_run_ping_with_message() {
    assert_run(
        Resp::Array(Array(vec![
            Resp::SimpleString(SimpleString("PING".to_string())),
            Resp::SimpleString(SimpleString("hello".to_string())),
        ])),
        Resp::SimpleString(SimpleString("hello".to_string())),
    )
    .unwrap()
}

#[test]
fn test_run_too_many_arguments() {
    assert_run(
        Resp::Array(Array(vec![
            Resp::SimpleString(SimpleString("PING".to_string())),
            Resp::SimpleString(SimpleString("hello".to_string())),
            Resp::SimpleString(SimpleString("world".to_string())),
        ])),
        Resp::SimpleString(SimpleString("PONG".to_string())),
    )
    .unwrap_err();
}

#[test]
fn test_run_echo() {
    assert_run(
        Resp::Array(Array(vec![
            Resp::SimpleString(SimpleString("ECHO".to_string())),
            Resp::SimpleString(SimpleString("hello".to_string())),
        ])),
        Resp::SimpleString(SimpleString("hello".to_string())),
    )
    .unwrap()
}

#[test]
fn test_get_no_key() {
    assert_run_with_storage(
        Resp::Array(Array(vec![
            Resp::SimpleString(SimpleString("GET".to_string())),
            Resp::SimpleString(SimpleString("key".to_string())),
        ])),
        Resp::BulkString(BulkString(None)),
        &mut master(),
    )
    .unwrap()
}

#[test]
fn test_get_key() {
    let mut storage = master();

    assert_run_with_storage(
        Resp::Array(Array(vec![
            Resp::SimpleString(SimpleString("SET".to_string())),
            Resp::SimpleString(SimpleString("key".to_string())),
            Resp::BulkString(BulkString(Some("value".to_string()))),
        ])),
        Resp::SimpleString(SimpleString("OK".to_string())),
        &mut storage,
    )
    .unwrap();

    assert_run_with_storage(
        Resp::Array(Array(vec![
            Resp::SimpleString(SimpleString("GET".to_string())),
            Resp::SimpleString(SimpleString("key".to_string())),
        ])),
        Resp::BulkString(BulkString(Some("value".to_string()))),
        &mut storage,
    )
    .unwrap()
}

#[test]
fn test_expiry() {
    let mut storage = master();

    assert_run_with_storage(
        Resp::Array(Array(vec![
            Resp::SimpleString(SimpleString("SET".to_string())),
            Resp::SimpleString(SimpleString("key".to_string())),
            Resp::BulkString(BulkString(Some("value".to_string()))),
            Resp::SimpleString(SimpleString("PX".to_string())),
            Resp::Integer(Integer(100)),
        ])),
        Resp::SimpleString(SimpleString("OK".to_string())),
        &mut storage,
    )
    .unwrap();

    assert_run_with_storage(
        Resp::Array(Array(vec![
            Resp::SimpleString(SimpleString("GET".to_string())),
            Resp::SimpleString(SimpleString("key".to_string())),
        ])),
        Resp::BulkString(BulkString(Some("value".to_string()))),
        &mut storage,
    )
    .unwrap();

    let start = Instant::now();
    while start.elapsed() < Duration::from_millis(102) {
        std::hint::spin_loop();
    }

    assert_run_with_storage(
        Resp::Array(Array(vec![
            Resp::SimpleString(SimpleString("GET".to_string())),
            Resp::SimpleString(SimpleString("key".to_string())),
        ])),
        Resp::BulkString(BulkString(None)),
        &mut storage,
    )
    .unwrap()
}

#[test]
fn test_default_info() {
    let cmd = Resp::Array(Array(vec![
        Resp::SimpleString(SimpleString("INFO".to_string())),
        Resp::SimpleString(SimpleString("replication".to_string())),
    ]));

    let s = run(cmd, &mut master()).unwrap();
    let lines = s.lines().collect::<Vec<_>>();
    assert!(lines.iter().any(|line| line.contains("role:master")));
    assert!(lines.iter().any(|line| line.contains("master_replid:")));
    assert!(lines
        .iter()
        .any(|line| line.contains("master_repl_offset:")));
}

#[test]
fn test_info_exact_text() {
    let effect = command(&["INFO", "replication"])
        .run(&mut master())
        .unwrap();
    assert_eq!(
        effect.run_result.into_owned(),
        bulk("role:master\nmaster_replid:random_replid\nmaster_repl_offset:0")
    );
    assert_eq!(effect.post_run_cmd, None);

    let effect = command(&["info", "REPLICATION"])
        .run(&mut replica())
        .unwrap();
    assert_eq!(
        effect.run_result.into_owned(),
        bulk("role:slave\nmaster_host:localhost\nmaster_port:6379")
    );
}

#[test]
fn test_info_errors() {
    let mut storage = master();
    assert_eq!(
        command(&["INFO"]).run(&mut storage).unwrap_err(),
        CommandError::Arity(Command::Info)
    );
    assert_eq!(
        command(&["INFO", "replication", "more"])
            .run(&mut storage)
            .unwrap_err(),
        CommandError::Arity(Command::Info)
    );
    assert_eq!(
        command(&["INFO", "keyspace"]).run(&mut storage).unwrap_err(),
        CommandError::UnsupportedFeature
    );
    assert_eq!(
        info(args(vec![Resp::Integer(Integer(1))]), &storage).unwrap_err(),
        CommandError::InvalidArgument(Command::Info)
    );
}

#[test]
fn test_echo_arity() {
    let mut storage = master();
    assert_eq!(
        command(&["ECHO"]).run(&mut storage).unwrap_err(),
        CommandError::Arity(Command::Echo)
    );
    assert_eq!(
        command(&["ECHO", "a", "b"]).run(&mut storage).unwrap_err(),
        CommandError::Arity(Command::Echo)
    );
    let effect = echo(args(vec![bulk("hi")])).unwrap();
    assert_eq!(effect.run_result.into_owned(), bulk("hi"));
    let effect = echo(args(vec![Resp::Integer(Integer(7))])).unwrap();
    assert_eq!(effect.run_result.into_owned(), Resp::Integer(Integer(7)));
}

#[test]
fn test_ping_arity() {
    assert_eq!(ping(args(vec![])).unwrap().run_result.into_owned(), simple("PONG"));
    assert_eq!(ping(args(vec![bulk("a")])).unwrap().run_result.into_owned(), bulk("a"));
    assert_eq!(
        ping(args(vec![bulk("a"), bulk("b")])).unwrap_err(),
        CommandError::Arity(Command::Ping)
    );
}

#[test]
fn test_command_name_is_case_insensitive() {
    let mut storage = master();
    assert_eq!(
        command(&["ping"]).run(&mut storage).unwrap().run_result.into_owned(),
        simple("PONG")
    );
    assert_eq!(
        command(&["eChO", "x"]).run(&mut storage).unwrap().run_result.into_owned(),
        bulk("x")
    );
    command(&["set", "k", "v", "px", "1000"])
        .run(&mut storage)
        .unwrap();
    assert_eq!(
        command(&["gEt", "k"]).run(&mut storage).unwrap().run_result.into_owned(),
        bulk("v")
    );
}

#[test]
fn test_invalid_and_unknown_commands() {
    let mut storage = master();
    assert_eq!(
        Resp::Array(Array(vec![])).run(&mut storage).unwrap_err(),
        CommandError::InvalidCommand
    );
    assert_eq!(
        Resp::Array(Array(vec![Resp::Integer(Integer(1))]))
            .run(&mut storage)
            .unwrap_err(),
        CommandError::InvalidCommand
    );
    assert_eq!(
        Resp::Array(Array(vec![Resp::Array(Array(vec![]))]))
            .run(&mut storage)
            .unwrap_err(),
        CommandError::InvalidCommand
    );
    assert_eq!(
        command(&["FLUSHALL"]).run(&mut storage).unwrap_err(),
        CommandError::UnknownCommand
    );
    assert_eq!(
        command(&[""]).run(&mut storage).unwrap_err(),
        CommandError::UnknownCommand
    );
    assert_eq!(
        Resp::Integer(Integer(1)).run(&mut storage).unwrap_err(),
        CommandError::InvalidCommand
    );
    assert_eq!(
        Resp::BulkString(BulkString(None))
            .run(&mut storage)
            .unwrap_err(),
        CommandError::InvalidCommand
    );
}

#[test]
fn test_run_string() {
    let mut storage = master();
    assert_eq!(run_string("PING".to_string()).unwrap(), simple("PONG"));
    assert_eq!(
        run_string("ping".to_string()).unwrap_err(),
        CommandError::UnknownCommand
    );
    assert_eq!(
        simple("PING").run(&mut storage).unwrap().run_result.into_owned(),
        simple("PONG")
    );
    assert_eq!(
        bulk("PING").run(&mut storage).unwrap().run_result.into_owned(),
        simple("PONG")
    );
    assert_eq!(
        bulk("ECHO").run(&mut storage).unwrap_err(),
        CommandError::UnknownCommand
    );
}

#[test]
fn test_set_get_at_given_times() {
    let mut storage = master();
    let effect = command(&["SET", "k", "v", "PX", "100"])
        .run_at(&mut storage, 1_000)
        .unwrap();
    assert_eq!(effect.run_result.into_owned(), simple("OK"));
    assert_eq!(
        command(&["GET", "k"])
            .run_at(&mut storage, 1_000)
            .unwrap()
            .run_result.into_owned(),
        bulk("v")
    );
    assert_eq!(
        command(&["GET", "k"])
            .run_at(&mut storage, 1_099)
            .unwrap()
            .run_result.into_owned(),
        bulk("v")
    );
    assert_eq!(
        command(&["GET", "k"])
            .run_at(&mut storage, 1_100)
            .unwrap()
            .run_result.into_owned(),
        Resp::BulkString(BulkString(None))
    );
    assert_eq!(
        command(&["GET", "k"])
            .run_at(&mut storage, 5_000)
            .unwrap()
            .run_result.into_owned(),
        Resp::BulkString(BulkString(None))
    );
    assert!(!storage.is_empty());
}

#[test]
fn test_set_overwrites() {
    let mut storage = master();
    command(&["SET", "k", "one", "PX", "10"])
        .run_at(&mut storage, 0)
        .unwrap();
    command(&["SET", "k", "two"]).run_at(&mut storage, 5).unwrap();
    assert_eq!(
        command(&["GET", "k"])
            .run_at(&mut storage, 1_000_000)
            .unwrap()
            .run_result.into_owned(),
        bulk("two")
    );
}

#[test]
fn test_get_missing() {
    let mut storage = master();
    command(&["SET", "key", "value"]).run(&mut storage).unwrap();
    assert_eq!(
        command(&["GET", "missing"])
            .run(&mut storage)
            .unwrap()
            .run_result.into_owned(),
        Resp::BulkString(BulkString(None))
    );
    assert_eq!(
        get(args(vec![]), &storage, 0).unwrap_err(),
        CommandError::Arity(Command::GetKey)
    );
    assert_eq!(
        get(args(vec![bulk("a"), bulk("b")]), &storage, 0).unwrap_err(),
        CommandError::Arity(Command::GetKey)
    );
}

#[test]
fn test_keys_are_compared_structurally() {
    let mut storage = master();
    resp_store::resp::run::set(args(vec![bulk("k"), bulk("bulk")]), &mut storage, 0).unwrap();
    resp_store::resp::run::set(args(vec![simple("k"), bulk("simple")]), &mut storage, 0).unwrap();
    resp_store::resp::run::set(
        args(vec![Resp::Integer(Integer(1)), bulk("integer")]),
        &mut storage,
        0,
    )
    .unwrap();
    assert_eq!(
        get(args(vec![bulk("k")]), &storage, 0).unwrap().run_result.into_owned(),
        bulk("bulk")
    );
    assert_eq!(
        get(args(vec![simple("k")]), &storage, 0).unwrap().run_result.into_owned(),
        bulk("simple")
    );
    assert_eq!(
        get(args(vec![Resp::Integer(Integer(1))]), &storage, 0)
            .unwrap()
            .run_result.into_owned(),
        bulk("integer")
    );
}

#[test]
fn test_set_px_forms() {
    let mut storage = master();
    resp_store::resp::run::set(
        args(vec![bulk("a"), bulk("1"), bulk("px"), Resp::Integer(Integer(50))]),
        &mut storage,
        100,
    )
    .unwrap();
    resp_store::resp::run::set(
        args(vec![bulk("b"), bulk("2"), simple("Px"), simple("+50")]),
        &mut storage,
        100,
    )
    .unwrap();
    assert_eq!(
        get(args(vec![bulk("a")]), &storage, 149).unwrap().run_result.into_owned(),
        bulk("1")
    );
    assert_eq!(
        get(args(vec![bulk("a")]), &storage, 150).unwrap().run_result.into_owned(),
        Resp::BulkString(BulkString(None))
    );
    assert_eq!(
        get(args(vec![bulk("b")]), &storage, 149).unwrap().run_result.into_owned(),
        bulk("2")
    );
    assert_eq!(
        get(args(vec![bulk("b")]), &storage, 150).unwrap().run_result.into_owned(),
        Resp::BulkString(BulkString(None))
    );
}

#[test]
fn test_set_long_expiry_does_not_overflow() {
    let mut storage = master();
    resp_store::resp::run::set(
        args(vec![
            bulk("a"),
            bulk("1"),
            bulk("PX"),
            Resp::Integer(Integer(i64::MAX)),
        ]),
        &mut storage,
        u64::MAX,
    )
    .unwrap();
    assert_eq!(
        get(args(vec![bulk("a")]), &storage, u64::MAX)
            .unwrap()
            .run_result.into_owned(),
        bulk("1")
    );
}

#[test]
fn test_set_errors() {
    let mut storage = master();
    let arity = CommandError::Arity(Command::SetKey);
    let invalid = CommandError::InvalidArgument(Command::SetKey);
    assert_eq!(resp_store::resp::run::set(args(vec![]), &mut storage, 0).unwrap_err(), arity);
    assert_eq!(
        resp_store::resp::run::set(args(vec![bulk("k")]), &mut storage, 0).unwrap_err(),
        arity
    );
    assert_eq!(
        command(&["SET", "k", "v", "EX", "10"])
            .run(&mut storage)
            .unwrap_err(),
        invalid
    );
    assert_eq!(
        resp_store::resp::run::set(
            args(vec![bulk("k"), bulk("v"), Resp::Integer(Integer(1))]),
            &mut storage,
            0
        )
        .unwrap_err(),
        invalid
    );
    assert_eq!(
        command(&["SET", "k", "v", "PX"])
            .run(&mut storage)
            .unwrap_err(),
        arity
    );
    assert_eq!(
        command(&["SET", "k", "v", "PX", "0"])
            .run(&mut storage)
            .unwrap_err(),
        invalid
    );
    assert_eq!(
        command(&["SET", "k", "v", "PX", "-5"])
            .run(&mut storage)
            .unwrap_err(),
        invalid
    );
    assert_eq!(
        command(&["SET", "k", "v", "PX", "soon"])
            .run(&mut storage)
            .unwrap_err(),
        invalid
    );
    assert_eq!(
        command(&["SET", "k", "v", "PX", "9223372036854775808"])
            .run(&mut storage)
            .unwrap_err(),
        invalid
    );
    assert_eq!(
        resp_store::resp::run::set(
            args(vec![
                bulk("k"),
                bulk("v"),
                bulk("PX"),
                Resp::BulkString(BulkString(None))
            ]),
            &mut storage,
            0
        )
        .unwrap_err(),
        invalid
    );
    assert_eq!(
        command(&["SET", "k", "v", "PX", "10", "more"])
            .run(&mut storage)
            .unwrap_err(),
        arity
    );
    assert_eq!(
        command(&["SET", "k", "v", "PX", "bad", "more"])
            .run(&mut storage)
            .unwrap_err(),
        invalid
    );
    assert!(storage.is_empty());
}

#[test]
fn test_replconf_ignores_arguments() {
    assert_eq!(replconf(args(vec![])).unwrap().run_result.into_owned(), simple("OK"));
    assert_eq!(
        replconf(args(vec![
            bulk("listening-port"),
            bulk("6380"),
            Resp::Integer(Integer(1))
        ]))
        .unwrap()
        .run_result.into_owned(),
        simple("OK")
    );
    assert_eq!(
        command(&["replconf", "capa", "psync2"])
            .run(&mut master())
            .unwrap()
            .run_result.into_owned(),
        simple("OK")
    );
}

#[test]
fn test_psync_full_resync() {
    let mut storage = master();
    let effect = command(&["PSYNC", "?", "-1"]).run(&mut storage).unwrap();
    assert_eq!(*effect.run_result, simple("FULLRESYNC random_replid 0"));
    assert_eq!(effect.post_run_cmd, Some(PostRespRunCommand::FullResync));
    assert_eq!(
        effect.run_result.serialize(),
        b"+FULLRESYNC random_replid 0\r\n".to_vec()
    );

    let payload = effect.post_run_cmd.unwrap().run(&storage).unwrap();
    assert_eq!(&payload[..5], b"$88\r\n");
    assert_eq!(payload.len(), 5 + 88);
    assert_eq!(&payload[5..14], b"REDIS0011");
    assert_eq!(payload[payload.len() - 1], 0xa2);
}

#[test]
fn test_psync_errors() {
    let mut storage = master();
    let unsupported = CommandError::UnsupportedFeature;
    let arity = CommandError::Arity(Command::Psync);
    assert_eq!(psync(args(vec![]), &storage).unwrap_err(), arity);
    assert_eq!(
        psync(args(vec![bulk("abc")]), &storage).unwrap_err(),
        unsupported
    );
    assert_eq!(psync(args(vec![bulk("?")]), &storage).unwrap_err(), arity);
    assert_eq!(
        command(&["PSYNC", "abc", "-1"])
            .run(&mut storage)
            .unwrap_err(),
        unsupported
    );
    assert_eq!(
        command(&["PSYNC", "?", "0"]).run(&mut storage).unwrap_err(),
        unsupported
    );
    assert_eq!(
        command(&["PSYNC", "?", "x"]).run(&mut storage).unwrap_err(),
        unsupported
    );
    assert_eq!(
        psync(args(vec![Resp::Integer(Integer(1)), bulk("-1")]), &storage).unwrap_err(),
        unsupported
    );
    assert_eq!(
        psync(args(vec![bulk("?"), Resp::Integer(Integer(-1))]), &storage).unwrap_err(),
        unsupported
    );
    assert_eq!(
        command(&["PSYNC", "?", "-1", "more"])
            .run(&mut storage)
            .unwrap_err(),
        arity
    );
    assert_eq!(
        command(&["PSYNC", "?", "-1"])
            .run(&mut replica())
            .unwrap_err(),
        unsupported
    );
    assert!(psync(args(vec![bulk("?"), bulk("-01")]), &storage).is_ok());
}

#[test]
fn test_full_resync_needs_empty_store() {
    let mut storage = master();
    command(&["SET", "k", "v"]).run(&mut storage).unwrap();
    let effect = command(&["PSYNC", "?", "-1"]).run(&mut storage).unwrap();
    assert_eq!(
        effect.post_run_cmd.unwrap().run(&storage).unwrap_err(),
        CommandError::UnsupportedFeature
    );
}

#[test]
fn test_dispatch_takes_upper_case_names() {
    let mut storage = master();
    assert_eq!(
        dispatch("PING", args(vec![]), &mut storage, 0)
            .unwrap()
            .run_result.into_owned(),
        simple("PONG")
    );
    assert_eq!(
        dispatch("ping", args(vec![]), &mut storage, 0).unwrap_err(),
        CommandError::UnknownCommand
    );
    dispatch("SET", args(vec![bulk("k"), bulk("v")]), &mut storage, 0).unwrap();
    assert_eq!(
        dispatch("GET", args(vec![bulk("k")]), &mut storage, 0)
            .unwrap()
            .run_result.into_owned(),
        bulk("v")
    );
}

#[test]
fn test_many_keys_are_all_readable() {
    let mut storage = master();
    for i in 0..200 {
        let key = format!("key{}", i);
        let value = format!("value{}", i);
        command(&["SET", &key, &value]).run(&mut storage).unwrap();
    }
    for i in 0..200 {
        let key = format!("key{}", i);
        let value = format!("value{}", i);
        assert_eq!(
            command(&["GET", &key]).run(&mut storage).unwrap().run_result.into_owned(),
            bulk(&value)
        );
    }
}

#[test]
fn test_get_reads_in_the_store() {
    let mut storage = master();
    command(&["SET", "k", "v"]).run(&mut storage).unwrap();

    let invocation = match command(&["GET", "k"]).prepare().unwrap() {
        Prepared::Invoke(invocation) => invocation,
        Prepared::Reply(_) => panic!("GET needs the store"),
    };
    assert!(!invocation.writes());
    let effect = invocation.read(&storage).unwrap();
    assert!(matches!(effect.run_result, RespRunResult::Borrowed(_)));
    assert_eq!(*effect.run_result, bulk("v"));
    assert_eq!(effect.run_result.serialize(), b"$1\r\nv\r\n".to_vec());

    let invocation = match command(&["set", "k", "w"]).prepare().unwrap() {
        Prepared::Invoke(invocation) => invocation,
        Prepared::Reply(_) => panic!("SET needs the store"),
    };
    assert!(invocation.writes());
    assert_eq!(invocation.name, "SET");
    assert_eq!(invocation.args.len(), 2);
}

#[test]
fn test_prepare() {
    match simple("PING").prepare().unwrap() {
        Prepared::Reply(effect) => assert_eq!(*effect.run_result, simple("PONG")),
        Prepared::Invoke(_) => panic!("a text is run without the store"),
    }
    assert_eq!(
        simple("GET").prepare().unwrap_err(),
        CommandError::UnknownCommand
    );
    assert_eq!(
        Resp::Array(Array(vec![])).prepare().unwrap_err(),
        CommandError::InvalidCommand
    );
    match command(&["whatever", "x"]).prepare().unwrap() {
        Prepared::Invoke(invocation) => {
            assert_eq!(invocation.name, "WHATEVER");
            assert!(!invocation.writes());
            assert_eq!(
                invocation.read_at(&master(), 0).unwrap_err(),
                CommandError::UnknownCommand
            );
        }
        Prepared::Reply(_) => panic!("an array holds a command"),
    }
}

#[test]
fn test_respond() {
    let mut storage = master();
    let effect = command(&["PING"]).run(&mut storage).unwrap();
    let response = effect.respond(&storage);
    assert_eq!(response.bytes, b"+PONG\r\n".to_vec());
    assert_eq!(response.failure, None);

    let effect = command(&["PSYNC", "?", "-1"]).run(&mut storage).unwrap();
    let response = effect.respond(&storage);
    let mut expected = b"+FULLRESYNC random_replid 0\r\n$88\r\n".to_vec();
    expected.extend_from_slice(&storage.encode_snapshot().unwrap());
    assert_eq!(response.bytes, expected);
    assert_eq!(response.failure, None);

    command(&["SET", "k", "v"]).run(&mut storage).unwrap();
    let effect = command(&["PSYNC", "?", "-1"]).run(&mut storage).unwrap();
    let response = effect.respond(&storage);
    assert_eq!(response.bytes, b"+FULLRESYNC random_replid 0\r\n".to_vec());
    assert_eq!(response.failure, Some(CommandError::UnsupportedFeature));

    let effect = dispatch("GET", args(vec![bulk("k")]), &mut storage, 0).unwrap();
    assert_eq!(effect.respond(&storage).bytes, b"$1\r\nv\r\n".to_vec());
}
