use resp_store::config::{Config, Role};
use resp_store::resp::{Array, BulkString, Integer, Resp};
use resp_store::storage::{epoch_millis, random_repl_id, Replication, Storage, StorageError};
use resp_store::utils::{unhex, UnhexError};

fn bulk(s: &str) -> Resp {
    Resp::BulkString(BulkString(Some(s.to_string())))
}

const EMPTY_RDB: &str = "524544495330303131fa0972656469732d76657205372e322e30fa0a72656469732d62697473c040fa056374696d65c26d08bc65fa08757365642d6d656dc2b0c41000fa08616f662d62617365c000fff06e3bfec0ff5aa2";

#[test]
fn test_new_storage_is_empty() {
    let storage = Storage::new(&Config::default());
    assert!(storage.is_empty());
    assert_eq!(storage.get(&bulk("k")), None);
    assert_eq!(storage.get_at(&bulk("k"), 0), None);
}

#[test]
fn test_storage_roles() {
    let storage = Storage::new(&Config::default());
    match storage.replication() {
        Replication::Master { replid, offset } => {
            assert_eq!(replid, "random_replid");
            assert!(!replid.is_empty());
            assert_eq!(*offset, 0);
        }
        Replication::Slave { .. } => panic!("a master was configured"),
    }
    let storage = Storage::new(&Config {
        port: 1,
        role: Role::Slave {
            master_host: "example.org".to_string(),
            master_port: 7000,
        },
    });
    match &storage.replication {
        Replication::Slave {
            master_host,
            master_port,
        } => {
            assert_eq!(master_host, "example.org");
            assert_eq!(*master_port, 7000);
        }
        Replication::Master { .. } => panic!("a replica was configured"),
    }
}

#[test]
fn test_set_then_get() {
    let mut storage = Storage::new(&Config::default());
    storage.set(bulk("key"), bulk("value"), None);
    assert!(!storage.is_empty());
    assert_eq!(storage.get(&bulk("key")), Some(&bulk("value")));
    assert_eq!(storage.get(&bulk("missing")), None);
    storage.set(bulk("key"), Resp::Integer(Integer(5)), None);
    assert_eq!(storage.get(&bulk("key")), Some(&Resp::Integer(Integer(5))));
}

#[test]
fn test_expiry_is_at_or_before_now() {
    let mut storage = Storage::new(&Config::default());
    storage.set_at(bulk("k"), bulk("v"), Some(100), 1_000);
    assert_eq!(storage.get_at(&bulk("k"), 0), Some(&bulk("v")));
    assert_eq!(storage.get_at(&bulk("k"), 1_099), Some(&bulk("v")));
    assert_eq!(storage.get_at(&bulk("k"), 1_100), None);
    assert_eq!(storage.get_at(&bulk("k"), 1_101), None);
    assert!(!storage.is_empty());
}

#[test]
fn test_expired_entry_can_be_set_again() {
    let mut storage = Storage::new(&Config::default());
    storage.set_at(bulk("k"), bulk("old"), Some(1), 0);
    assert_eq!(storage.get_at(&bulk("k"), 10), None);
    storage.set_at(bulk("k"), bulk("new"), None, 10);
    assert_eq!(storage.get_at(&bulk("k"), u64::MAX), Some(&bulk("new")));
}

#[test]
fn test_far_expiry() {
    let mut storage = Storage::new(&Config::default());
    storage.set_at(bulk("k"), bulk("v"), Some(u64::MAX), u64::MAX);
    assert_eq!(storage.get_at(&bulk("k"), u64::MAX), Some(&bulk("v")));
}

#[test]
fn test_real_clock_set_with_long_expiry() {
    let mut storage = Storage::new(&Config::default());
    storage.set(bulk("k"), bulk("v"), Some(3_600_000));
    assert_eq!(storage.get(&bulk("k")), Some(&bulk("v")));
}

#[test]
fn test_set_leaves_other_keys() {
    let mut storage = Storage::new(&Config::default());
    storage.set_at(bulk("a"), bulk("1"), None, 0);
    storage.set_at(bulk("b"), bulk("2"), Some(5), 0);
    storage.set_at(Resp::Array(Array(vec![bulk("a")])), bulk("3"), None, 0);
    storage.set_at(bulk("a"), bulk("4"), None, 0);
    assert_eq!(storage.get_at(&bulk("a"), 1), Some(&bulk("4")));
    assert_eq!(storage.get_at(&bulk("b"), 1), Some(&bulk("2")));
    assert_eq!(
        storage.get_at(&Resp::Array(Array(vec![bulk("a")])), 1),
        Some(&bulk("3"))
    );
}

#[test]
fn test_encode_snapshot_of_empty_store() {
    let storage = Storage::new(&Config::default());
    let bytes = storage.encode_snapshot().unwrap();
    assert_eq!(bytes.len(), 88);
    assert_eq!(bytes, unhex(EMPTY_RDB).unwrap());
    assert_eq!(&bytes[..9], b"REDIS0011");
    assert_eq!(bytes[9], 0xfa);
    assert_eq!(&bytes[79..], &[0xff, 0xf0, 0x6e, 0x3b, 0xfe, 0xc0, 0xff, 0x5a, 0xa2]);
}

#[test]
fn test_encode_frames_without_trailing_terminator() {
    let storage = Storage::new(&Config::default());
    let framed = storage.encode().unwrap();
    let mut expected = b"$88\r\n".to_vec();
    expected.extend_from_slice(&storage.encode_snapshot().unwrap());
    assert_eq!(framed, expected);
}

#[test]
fn test_encode_of_filled_store_fails() {
    let mut storage = Storage::new(&Config::default());
    storage.set_at(bulk("k"), bulk("v"), Some(1), 0);
    assert_eq!(storage.encode_snapshot().unwrap_err(), StorageError::UnsupportedFeature);
    assert_eq!(storage.encode().unwrap_err(), StorageError::UnsupportedFeature);
}

#[test]
fn test_replication_info() {
    let master = Replication::Master {
        replid: "abc".to_string(),
        offset: 1234567890123,
    };
    assert_eq!(
        master.info(),
        "role:master\nmaster_replid:abc\nmaster_repl_offset:1234567890123"
    );
    assert_eq!(master.info_psync(), Some("abc 1234567890123".to_string()));
    let replica = Replication::Slave {
        master_host: "10.0.0.1".to_string(),
        master_port: 65535,
    };
    assert_eq!(
        replica.info(),
        "role:slave\nmaster_host:10.0.0.1\nmaster_port:65535"
    );
    assert_eq!(replica.info_psync(), None);
}

#[test]
fn test_default_replication() {
    assert_eq!(random_repl_id(), "random_replid");
    assert_eq!(
        Replication::default().info(),
        "role:master\nmaster_replid:random_replid\nmaster_repl_offset:0"
    );
}

#[test]
fn test_unhex() {
    assert_eq!(unhex("").unwrap(), Vec::<u8>::new());
    assert_eq!(unhex("00ff10Ab").unwrap(), vec![0x00, 0xff, 0x10, 0xab]);
    assert_eq!(unhex("abc").unwrap_err(), UnhexError::OddLength);
    assert_eq!(unhex("zz").unwrap_err(), UnhexError::InvalidDigit);
    assert_eq!(unhex("0g").unwrap_err(), UnhexError::InvalidDigit);
    assert_eq!(unhex("+1").unwrap_err(), UnhexError::InvalidDigit);
    assert_eq!(unhex("\u{e9}").unwrap_err(), UnhexError::InvalidDigit);
    assert_eq!(unhex("a\u{e9}").unwrap_err(), UnhexError::OddLength);
}

#[test]
fn test_epoch_millis() {
    assert_eq!(epoch_millis(None), 0);
    assert_eq!(epoch_millis(Some(0)), 0);
    assert_eq!(epoch_millis(Some(1_700_000_000_123)), 1_700_000_000_123);
    assert_eq!(epoch_millis(Some(u64::MAX as u128)), u64::MAX);
    assert_eq!(epoch_millis(Some(u64::MAX as u128 + 1)), u64::MAX);
    assert_eq!(epoch_millis(Some(u128::MAX)), u64::MAX);
}
