//! The key-value store with lazy expiry, and the replication state of this node.

use std::time::{Duration, SystemTime, UNIX_EPOCH};
use vstd::pervasive::unreached;
use vstd::prelude::*;
use vstd::string::StringExecFns;
use vstd::utf8::{encode_utf8, is_ascii_chars, is_ascii_chars_encode_utf8};

use crate::config::{Config, Role, RoleView};
use crate::decimal::{digits_of, push_digits};
use crate::resp::wire::{crlf, CR, LF, TAG_BULK_STRING};
use crate::resp::{Resp, Value};
use crate::text::{decimal_string, decimal_text};
use crate::utils::{all_hex, hex_bytes, hex_digit_value, unhex};

verus! {

/// The replication id of a master.
pub const RANDOM_REPLID: &'static str = "random_replid";

/// The empty database file, in hexadecimal.
pub const EMPTY_RDB_FILE_HEX: &'static str =
    "524544495330303131fa0972656469732d76657205372e322e30fa0a72656469732d62697473c040fa056374696d65c26d08bc65fa08757365642d6d656dc2b0c41000fa08616f662d62617365c000fff06e3bfec0ff5aa2";

/// The replication id that a master starts with.
pub fn random_repl_id() -> (r: String)
    ensures
        r@ == RANDOM_REPLID@,
{
    RANDOM_REPLID.to_owned()
}

/// The role of this node in replication, with what identifies it.
#[derive(Debug)]
pub enum Replication {
    Master { replid: String, offset: u64 },
    Slave { master_host: String, master_port: u16 },
}

/// The model of the replication state.
pub ghost enum ReplicationView {
    Master { replid: Seq<char>, offset: u64 },
    Slave { master_host: Seq<char>, master_port: u16 },
}

impl View for Replication {
    type V = ReplicationView;

    open spec fn view(&self) -> ReplicationView {
        match self {
            Replication::Master { replid, offset } => ReplicationView::Master {
                replid: replid@,
                offset: *offset,
            },
            Replication::Slave { master_host, master_port } => ReplicationView::Slave {
                master_host: master_host@,
                master_port: *master_port,
            },
        }
    }
}

/// The state that a master starts in.
pub open spec fn initial_master() -> ReplicationView {
    ReplicationView::Master { replid: RANDOM_REPLID@, offset: 0 }
}

/// The lines of the replication section, joined by line feeds.
pub open spec fn info_text(state: ReplicationView) -> Seq<char> {
    match state {
        ReplicationView::Master { replid, offset } => "role:master\nmaster_replid:"@ + replid
            + "\nmaster_repl_offset:"@ + decimal_text(offset as nat),
        ReplicationView::Slave { master_host, master_port } => "role:slave\nmaster_host:"@
            + master_host + "\nmaster_port:"@ + decimal_text(master_port as nat),
    }
}

/// What a master tells a replica that asks for a full resynchronisation: its
/// replication id and its offset, parted by a blank.
pub open spec fn psync_text(state: ReplicationView) -> Option<Seq<char>> {
    match state {
        ReplicationView::Master { replid, offset } => Some(
            replid + " "@ + decimal_text(offset as nat),
        ),
        ReplicationView::Slave { .. } => None,
    }
}

/// What a master that has just started tells about its replication: its role, its
/// replication id, which is not empty, and the offset 0, each on a line of its own.
pub proof fn lemma_initial_master_info()
    ensures
        info_text(initial_master())
            == "role:master\nmaster_replid:random_replid\nmaster_repl_offset:0"@,
        RANDOM_REPLID@.len() > 0,
{
    reveal_strlit("role:master\nmaster_replid:");
    reveal_strlit("random_replid");
    reveal_strlit("\nmaster_repl_offset:");
    reveal_strlit("role:master\nmaster_replid:random_replid\nmaster_repl_offset:0");
    assert(digits_of(0) =~= seq![0x30u8]);
    assert(decimal_text(0) =~= seq!['0']);
    assert(info_text(initial_master())
        =~= "role:master\nmaster_replid:random_replid\nmaster_repl_offset:0"@);
}

impl Clone for Replication {
    fn clone(&self) -> (r: Replication)
        ensures
            r@ == self@,
    {
        match self {
            Replication::Master { replid, offset } => Replication::Master {
                replid: replid.clone(),
                offset: *offset,
            },
            Replication::Slave { master_host, master_port } => Replication::Slave {
                master_host: master_host.clone(),
                master_port: *master_port,
            },
        }
    }
}

impl Default for Replication {
    fn default() -> (r: Replication)
        ensures
            r@ == initial_master(),
    {
        Replication::Master { replid: random_repl_id(), offset: 0 }
    }
}

impl Replication {
    /// The replication section of the server's information.
    pub fn info(&self) -> (r: String)
        ensures
            r@ == info_text(self@),
    {
        match self {
            Replication::Master { replid, offset } => {
                let mut s = String::from_str("role:master\nmaster_replid:");
                s.append(replid.as_str());
                s.append("\nmaster_repl_offset:");
                s.append(decimal_string(*offset).as_str());
                s
            },
            Replication::Slave { master_host, master_port } => {
                let mut s = String::from_str("role:slave\nmaster_host:");
                s.append(master_host.as_str());
                s.append("\nmaster_port:");
                s.append(decimal_string(*master_port as u64).as_str());
                s
            },
        }
    }

    /// The replication id and offset of a master, for the reply to a replica.
    pub fn info_psync(&self) -> (r: Option<String>)
        ensures
            match r {
                Some(s) => psync_text(self@) == Some(s@),
                None => psync_text(self@) is None,
            },
    {
        match self {
            Replication::Master { replid, offset } => {
                let mut s = replid.clone();
                s.append(" ");
                s.append(decimal_string(*offset).as_str());
                Some(s)
            },
            Replication::Slave { .. } => None,
        }
    }
}

/// The model of a stored entry: the value and the time at which it expires, in
/// milliseconds since the epoch.
pub ghost struct Slot {
    pub value: Value,
    pub expires_at: Option<int>,
}

/// A stored entry.
#[derive(Debug)]
struct Entry {
    key: Resp,
    value: Resp,
    expires_at: Option<u128>,
}

impl Entry {
    spec fn slot(self) -> Slot {
        Slot {
            value: self.value@,
            expires_at: match self.expires_at {
                Some(t) => Some(t as int),
                None => None,
            },
        }
    }
}

/// The map that a list of entries stands for; of two entries with one key the later
/// counts.
spec fn map_of(entries: Seq<Entry>) -> Map<Value, Slot>
    decreases entries.len(),
{
    if entries.len() == 0 {
        Map::empty()
    } else {
        map_of(entries.drop_last()).insert(entries.last().key@, entries.last().slot())
    }
}

/// No two entries have the same key.
spec fn distinct_keys(entries: Seq<Entry>) -> bool {
    forall|i: int, j: int|
        0 <= i < j < entries.len() ==> (#[trigger] entries[i]).key@ != (#[trigger] entries[j]).key@
}

proof fn lemma_map_of_absent(entries: Seq<Entry>, key: Value)
    requires
        forall|i: int| 0 <= i < entries.len() ==> (#[trigger] entries[i]).key@ != key,
    ensures
        !map_of(entries).contains_key(key),
    decreases entries.len(),
{
    if entries.len() > 0 {
        let front = entries.drop_last();
        assert forall|i: int| 0 <= i < front.len() implies (#[trigger] front[i]).key@ != key by {
            assert(front[i] == entries[i]);
        }
        lemma_map_of_absent(front, key);
        assert(entries.last() == entries[entries.len() - 1]);
    }
}

proof fn lemma_map_of_present(entries: Seq<Entry>, i: int)
    requires
        distinct_keys(entries),
        0 <= i < entries.len(),
    ensures
        map_of(entries).contains_key(entries[i].key@),
        map_of(entries)[entries[i].key@] == entries[i].slot(),
    decreases entries.len(),
{
    let front = entries.drop_last();
    if i < entries.len() - 1 {
        assert forall|a: int, b: int| 0 <= a < b < front.len() implies (#[trigger] front[a]).key@
            != (#[trigger] front[b]).key@ by {
            assert(front[a] == entries[a]);
            assert(front[b] == entries[b]);
        }
        lemma_map_of_present(front, i);
        assert(front[i] == entries[i]);
        assert(entries[i].key@ != entries[entries.len() - 1].key@);
    }
}

proof fn lemma_map_of_replace(entries: Seq<Entry>, i: int, entry: Entry)
    requires
        distinct_keys(entries),
        0 <= i < entries.len(),
        entries[i].key@ == entry.key@,
    ensures
        map_of(entries.update(i, entry)) == map_of(entries).insert(entry.key@, entry.slot()),
    decreases entries.len(),
{
    let after = entries.update(i, entry);
    let front = entries.drop_last();
    let last = entries.last();
    if i == entries.len() - 1 {
        assert(after.drop_last() =~= front);
        assert(map_of(after) =~= map_of(entries).insert(entry.key@, entry.slot()));
    } else {
        assert forall|a: int, b: int| 0 <= a < b < front.len() implies (#[trigger] front[a]).key@
            != (#[trigger] front[b]).key@ by {
            assert(front[a] == entries[a]);
            assert(front[b] == entries[b]);
        }
        lemma_map_of_replace(front, i, entry);
        assert(front[i] == entries[i]);
        assert(entries[i].key@ != entries[entries.len() - 1].key@);
        assert(after.drop_last() =~= front.update(i, entry));
        assert(after.last() == last);
        assert(map_of(after) =~= map_of(entries).insert(entry.key@, entry.slot()));
    }
}

/// Lists with the same keys and the same entries under them stand for the same map.
proof fn lemma_map_of_same(a: Seq<Entry>, b: Seq<Entry>)
    requires
        a.len() == b.len(),
        forall|i: int|
            0 <= i < a.len() ==> (#[trigger] a[i]).key@ == b[i].key@ && a[i].slot() == b[i].slot(),
    ensures
        map_of(a) == map_of(b),
    decreases a.len(),
{
    if a.len() > 0 {
        let x = a.drop_last();
        let y = b.drop_last();
        assert forall|i: int| 0 <= i < x.len() implies (#[trigger] x[i]).key@ == y[i].key@
            && x[i].slot() == y[i].slot() by {
            assert(x[i] == a[i]);
            assert(y[i] == b[i]);
        }
        lemma_map_of_same(x, y);
        assert(a.last() == a[a.len() - 1]);
    }
}

/// The entries of the store: a list in which no key occurs twice.
#[derive(Debug)]
struct Table {
    entries: Vec<Entry>,
}

impl Table {
    #[verifier::type_invariant]
    spec fn well_formed(self) -> bool {
        distinct_keys(self.entries@)
    }

    spec fn map(self) -> Map<Value, Slot> {
        map_of(self.entries@)
    }

    fn new() -> (r: Table)
        ensures
            r.map() == Map::<Value, Slot>::empty(),
    {
        Table { entries: Vec::new() }
    }

    fn duplicate(&self) -> (r: Table)
        ensures
            r.map() == self.map(),
    {
        proof {
            use_type_invariant(self);
        }
        let mut entries: Vec<Entry> = Vec::new();
        let mut i: usize = 0;
        while i < self.entries.len()
            invariant
                i <= self.entries@.len(),
                entries@.len() == i,
                forall|j: int|
                    0 <= j < i ==> (#[trigger] entries@[j]).key@ == self.entries@[j].key@
                        && entries@[j].slot() == self.entries@[j].slot(),
            decreases self.entries@.len() - i,
        {
            let entry = &self.entries[i];
            entries.push(
                Entry {
                    key: entry.key.duplicate(),
                    value: entry.value.duplicate(),
                    expires_at: entry.expires_at,
                },
            );
            i = i + 1;
        }
        proof {
            lemma_map_of_same(entries@, self.entries@);
            assert forall|a: int, b: int| 0 <= a < b < entries@.len() implies (
            #[trigger] entries@[a]).key@ != (#[trigger] entries@[b]).key@ by {
                assert(self.entries@[a].key@ != self.entries@[b].key@);
            }
        }
        Table { entries }
    }

    fn is_empty(&self) -> (r: bool)
        ensures
            r == (self.map() == Map::<Value, Slot>::empty()),
    {
        let r = self.entries.len() == 0;
        proof {
            if !r {
                let last = self.entries@.last();
                assert(self.map().contains_key(last.key@));
                assert(!Map::<Value, Slot>::empty().contains_key(last.key@));
            }
        }
        r
    }

    /// The index of the entry with the given key.
    fn find(&self, key: &Resp) -> (r: Option<usize>)
        ensures
            match r {
                Some(i) => i < self.entries@.len() && self.entries@[i as int].key@ == key@
                    && self.map().contains_key(key@) && self.map()[key@]
                    == self.entries@[i as int].slot(),
                None => !self.map().contains_key(key@),
            },
    {
        proof {
            use_type_invariant(self);
        }
        let mut i: usize = 0;
        while i < self.entries.len()
            invariant
                i <= self.entries@.len(),
                distinct_keys(self.entries@),
                forall|j: int| 0 <= j < i ==> (#[trigger] self.entries@[j]).key@ != key@,
            decreases self.entries@.len() - i,
        {
            if self.entries[i].key.same(key) {
                proof {
                    lemma_map_of_present(self.entries@, i as int);
                }
                return Some(i);
            }
            i = i + 1;
        }
        proof {
            lemma_map_of_absent(self.entries@, key@);
        }
        None
    }

    fn put(&mut self, key: Resp, value: Resp, expires_at: Option<u128>)
        ensures
            final(self).map() == old(self).map().insert(
                key@,
                Slot {
                    value: value@,
                    expires_at: match expires_at {
                        Some(t) => Some(t as int),
                        None => None,
                    },
                },
            ),
    {
        proof {
            use_type_invariant(&*self);
        }
        let found = self.find(&key);
        let entry = Entry { key, value, expires_at };
        let ghost before = self.entries@;
        let mut entries: Vec<Entry> = Vec::new();
        std::mem::swap(&mut self.entries, &mut entries);
        match found {
            Some(i) => {
                proof {
                    lemma_map_of_replace(before, i as int, entry);
                    let after = before.update(i as int, entry);
                    assert forall|a: int, b: int| 0 <= a < b < after.len() implies (
                    #[trigger] after[a]).key@ != (#[trigger] after[b]).key@ by {
                        assert(before[a].key@ != before[b].key@);
                    }
                }
                entries.set(i, entry);
            },
            None => {
                proof {
                    let after = before.push(entry);
                    assert(after.drop_last() =~= before);
                    lemma_map_of_absent_keys(before, key@);
                    assert forall|a: int, b: int| 0 <= a < b < after.len() implies (
                    #[trigger] after[a]).key@ != (#[trigger] after[b]).key@ by {
                        if b < before.len() {
                            assert(before[a].key@ != before[b].key@);
                        }
                    }
                }
                entries.push(entry);
            },
        }
        std::mem::swap(&mut self.entries, &mut entries);
    }
}

proof fn lemma_map_of_absent_keys(entries: Seq<Entry>, key: Value)
    requires
        !map_of(entries).contains_key(key),
    ensures
        forall|i: int| 0 <= i < entries.len() ==> (#[trigger] entries[i]).key@ != key,
    decreases entries.len(),
{
    if entries.len() > 0 {
        let front = entries.drop_last();
        lemma_map_of_absent_keys(front, key);
        assert forall|i: int| 0 <= i < entries.len() implies (#[trigger] entries[i]).key@
            != key by {
            if i < front.len() {
                assert(front[i] == entries[i]);
            }
        }
    }
}

/// Why the store could not be written out.
#[derive(Debug, Clone, Copy, PartialEq, Eq, Structural)]
pub enum StorageError {
    /// A snapshot was asked of a store that is not empty; only the empty store can
    /// be written.
    UnsupportedFeature,
}

/// The store and the replication state of this node.
#[derive(Debug)]
pub struct Storage {
    data: Table,
    pub replication: Replication,
}

/// The value that is read under `key` at time `now`: that of the entry, unless the
/// entry has expired.
pub open spec fn live_value(entries: Map<Value, Slot>, key: Value, now: int) -> Option<Value> {
    if entries.contains_key(key) {
        match entries[key].expires_at {
            Some(t) => if t <= now {
                None
            } else {
                Some(entries[key].value)
            },
            None => Some(entries[key].value),
        }
    } else {
        None
    }
}

/// The entry that `set` stores at time `now`: it expires `ttl` milliseconds later, or
/// never.
pub open spec fn new_slot(value: Value, ttl: Option<u64>, now: int) -> Slot {
    Slot {
        value,
        expires_at: match ttl {
            Some(d) => Some(now + d),
            None => None,
        },
    }
}

/// The bytes of the empty database file.
pub open spec fn empty_snapshot() -> Seq<u8> {
    hex_bytes(EMPTY_RDB_FILE_HEX@)
}

/// The snapshot as it is streamed to a replica: `$`, the length, a line terminator,
/// and the bytes; no terminator follows them.
pub open spec fn snapshot_frame(payload: Seq<u8>) -> Seq<u8> {
    seq![0x24u8] + digits_of(payload.len()) + crlf() + payload
}

/// The text of the empty database file is hexadecimal.
proof fn lemma_empty_rdb_file_is_hex()
    ensures
        encode_utf8(EMPTY_RDB_FILE_HEX@).len() % 2 == 0,
        all_hex(encode_utf8(EMPTY_RDB_FILE_HEX@)),
{
    reveal_strlit(
        "524544495330303131fa0972656469732d76657205372e322e30fa0a72656469732d62697473c040fa056374696d65c26d08bc65fa08757365642d6d656dc2b0c41000fa08616f662d62617365c000fff06e3bfec0ff5aa2",
    );
    let s = EMPTY_RDB_FILE_HEX@;
    assert(s.len() == 176);
    assert forall|i: int| 0 <= i < s.len() implies hex_char(#[trigger] s[i]) by {
    }
    assert(is_ascii_chars(s));
    is_ascii_chars_encode_utf8(s);
    let b = encode_utf8(s);
    assert(b.len() == 176);
    assert forall|i: int| 0 <= i < b.len() implies hex_digit_value(#[trigger] b[i]) is Some by {
        assert(hex_char(s[i]));
        assert(b[i] == s[i] as u8);
    }
}

/// `c` is a hexadecimal digit.
spec fn hex_char(c: char) -> bool {
    ('0' <= c <= '9') || ('a' <= c <= 'f')
}

/// The empty database file has 88 bytes, so its frame begins with `$88` and a line
/// terminator.
pub proof fn lemma_empty_snapshot_frame()
    ensures
        empty_snapshot().len() == 88,
        snapshot_frame(empty_snapshot()) == seq![0x24u8, 0x38u8, 0x38u8, 0x0du8, 0x0au8]
            + empty_snapshot(),
{
    lemma_empty_rdb_file_is_hex();
    reveal_strlit(
        "524544495330303131fa0972656469732d76657205372e322e30fa0a72656469732d62697473c040fa056374696d65c26d08bc65fa08757365642d6d656dc2b0c41000fa08616f662d62617365c000fff06e3bfec0ff5aa2",
    );
    let s = EMPTY_RDB_FILE_HEX@;
    assert(is_ascii_chars(s)) by {
        assert forall|i: int| 0 <= i < s.len() implies hex_char(#[trigger] s[i]) by {}
    }
    is_ascii_chars_encode_utf8(s);
    assert(digits_of(88) =~= seq![0x38u8, 0x38u8]) by {
        reveal_with_fuel(digits_of, 2);
    }
    assert(snapshot_frame(empty_snapshot()) =~= seq![0x24u8, 0x38u8, 0x38u8, 0x0du8, 0x0au8]
        + empty_snapshot());
}

/// The model of an optional value.
pub open spec fn value_of(r: Option<&Resp>) -> Option<Value> {
    match r {
        Some(v) => Some(v@),
        None => None,
    }
}

/// A point in time, as the system clock tells it.
#[verifier::external_type_specification]
#[verifier::external_body]
pub struct ExSystemTime(SystemTime);

/// `SystemTime::now`. Trusted; nothing is claimed of the result, which is whatever the
/// system clock says.
#[verifier::external_body]
fn system_now() -> SystemTime {
    SystemTime::now()
}

/// `SystemTime::duration_since` the Unix epoch. Trusted; nothing is claimed of the
/// result, which is missing where the time lies before the epoch.
#[verifier::external_body]
fn since_epoch(time: &SystemTime) -> Option<Duration> {
    time.duration_since(UNIX_EPOCH).ok()
}

/// `Duration::as_millis`. Trusted; nothing is claimed of the result.
#[verifier::external_body]
fn whole_millis(duration: &Duration) -> u128 {
    duration.as_millis()
}

/// The time of the system clock, in milliseconds since the Unix epoch as
/// [`epoch_millis`] reckons them. Nothing is promised of it: the clock decides it.
pub(crate) fn unix_millis() -> u64 {
    let now = system_now();

    let elapsed: Option<u128> = match since_epoch(&now) {
        Some(duration) => {
            let millis = whole_millis(&duration);

            Some(millis)
        },
        None => None,
    };

    epoch_millis(elapsed)
}

/// The time in milliseconds since the Unix epoch that the store reckons with, where
/// `elapsed` milliseconds have passed since the epoch, or the time lies before it: a
/// time before the epoch counts as the epoch, and one too far for 64 bits as the
/// farthest that 64 bits hold.
pub open spec fn epoch_millis_of(elapsed: Option<u128>) -> u64 {
    match elapsed {
        Some(millis) => if millis > u64::MAX {
            u64::MAX
        } else {
            millis as u64
        },
        None => 0,
    }
}

/// The time that the store reckons with, from what the clock tells.
pub fn epoch_millis(elapsed: Option<u128>) -> (r: u64)
    ensures
        r == epoch_millis_of(elapsed),
{
    match elapsed {
        Some(millis) => {
            if millis > u64::MAX as u128 {
                u64::MAX
            } else {
                millis as u64
            }
        },
        None => 0,
    }
}

impl Default for Storage {
    fn default() -> (r: Storage)
        ensures
            r.entries() == Map::<Value, Slot>::empty(),
            r.replication_state() == initial_master(),
    {
        Storage { data: Table::new(), replication: Replication::default() }
    }
}

impl Clone for Storage {
    fn clone(&self) -> (r: Storage)
        ensures
            r.entries() == self.entries(),
            r.replication_state() == self.replication_state(),
    {
        Storage { data: self.data.duplicate(), replication: self.replication.clone() }
    }
}

impl Storage {
    /// The entries of the store, expired ones included, by key.
    pub closed spec fn entries(&self) -> Map<Value, Slot> {
        self.data.map()
    }

    /// The replication state of this node.
    pub closed spec fn replication_state(&self) -> ReplicationView {
        self.replication@
    }

    /// The replication state of this node.
    pub fn replication(&self) -> (r: &Replication)
        ensures
            r@ == self.replication_state(),
    {
        &self.replication
    }

    /// An empty store for a node with the configured role.
    pub fn new(config: &Config) -> (r: Storage)
        ensures
            r.entries() == Map::<Value, Slot>::empty(),
            r.replication_state() == match config.role@ {
                RoleView::Master => initial_master(),
                RoleView::Slave { master_host, master_port } => ReplicationView::Slave {
                    master_host,
                    master_port,
                },
            },
    {
        let replication = match &config.role {
            Role::Master => Replication::default(),
            Role::Slave { master_host, master_port } => Replication::Slave {
                master_host: master_host.clone(),
                master_port: *master_port,
            },
        };
        Storage { data: Table::new(), replication }
    }

    /// Whether the store holds no entry, expired or not.
    pub fn is_empty(&self) -> (r: bool)
        ensures
            r == (self.entries() == Map::<Value, Slot>::empty()),
    {
        self.data.is_empty()
    }

    /// The value stored under `key`, as seen at time `now`. An expired entry is not
    /// returned, and is left in place.
    pub fn get_at(&self, key: &Resp, now: u64) -> (r: Option<&Resp>)
        ensures
            value_of(r) == live_value(self.entries(), key@, now as int),
    {
        match self.data.find(key) {
            None => None,
            Some(i) => {
                let entry = &self.data.entries[i];
                match entry.expires_at {
                    Some(t) => if t <= now as u128 {
                        None
                    } else {
                        Some(&entry.value)
                    },
                    None => Some(&entry.value),
                }
            },
        }
    }

    /// The value stored under `key`, as seen now.
    pub fn get(&self, key: &Resp) -> (r: Option<&Resp>)
        ensures
            exists|now: u64| value_of(r) == live_value(self.entries(), key@, now as int),
    {
        let now = unix_millis();
        let r = self.get_at(key, now);
        assert(value_of(r) == live_value(self.entries(), key@, now as int));
        r
    }

    /// Stores `value` under `key` at time `now`, whatever was stored there; with
    /// `expiry`, the entry expires that many milliseconds later.
    pub fn set_at(&mut self, key: Resp, value: Resp, expiry: Option<u64>, now: u64)
        ensures
            final(self).entries() == old(self).entries().insert(
                key@,
                new_slot(value@, expiry, now as int),
            ),
            final(self).replication_state() == old(self).replication_state(),
    {
        let expires_at: Option<u128> = match expiry {
            Some(d) => Some(now as u128 + d as u128),
            None => None,
        };
        self.data.put(key, value, expires_at);
    }

    /// Stores `value` under `key` now.
    pub fn set(&mut self, key: Resp, value: Resp, expiry: Option<u64>)
        ensures
            exists|now: u64|
                final(self).entries() == old(self).entries().insert(
                    key@,
                    new_slot(value@, expiry, now as int),
                ),
            final(self).replication_state() == old(self).replication_state(),
    {
        let now = unix_millis();
        self.set_at(key, value, expiry, now);
        assert(self.entries() == old(self).entries().insert(
            key@,
            new_slot(value@, expiry, now as int),
        ));
    }

    /// The store as a database file. Only the empty store can be written.
    pub fn encode_snapshot(&self) -> (r: Result<Vec<u8>, StorageError>)
        ensures
            match r {
                Ok(bytes) => self.entries() == Map::<Value, Slot>::empty() && bytes@
                    == empty_snapshot(),
                Err(e) => self.entries() != Map::<Value, Slot>::empty() && e
                    == StorageError::UnsupportedFeature,
            },
    {
        if !self.is_empty() {
            return Err(StorageError::UnsupportedFeature);
        }
        proof {
            lemma_empty_rdb_file_is_hex();
        }
        match unhex(EMPTY_RDB_FILE_HEX) {
            Ok(bytes) => Ok(bytes),
            Err(_) => unreached(),
        }
    }

    /// The store as it is streamed to a replica after a full resynchronisation was
    /// granted.
    pub fn encode(&self) -> (r: Result<Vec<u8>, StorageError>)
        ensures
            match r {
                Ok(bytes) => self.entries() == Map::<Value, Slot>::empty() && bytes@
                    == snapshot_frame(empty_snapshot()),
                Err(e) => self.entries() != Map::<Value, Slot>::empty() && e
                    == StorageError::UnsupportedFeature,
            },
    {
        let bytes = match self.encode_snapshot() {
            Ok(bytes) => bytes,
            Err(e) => {
                return Err(e);
            },
        };
        let mut out: Vec<u8> = Vec::new();
        out.push(TAG_BULK_STRING);
        push_digits(&mut out, bytes.len() as u64);
        out.push(CR);
        out.push(LF);
        out.extend_from_slice(bytes.as_slice());
        assert(out@ =~= snapshot_frame(empty_snapshot()));
        Ok(out)
    }
}

/// The entries of a store after `keys.len()` calls of `set`, the i-th storing
/// `values[i]` under `keys[i]` at time `times[i]`, without expiry.
pub open spec fn after_sets(
    entries: Map<Value, Slot>,
    keys: Seq<Value>,
    values: Seq<Value>,
    times: Seq<int>,
) -> Map<Value, Slot>
    decreases keys.len(),
{
    if keys.len() == 0 {
        entries
    } else {
        after_sets(entries, keys.drop_last(), values.drop_last(), times.drop_last()).insert(
            keys.last(),
            new_slot(values.last(), None, times.last()),
        )
    }
}

/// An entry that is stored with a time to live is read back until that many
/// milliseconds have passed, and is absent from then on.
pub proof fn lemma_set_then_get_with_expiry(
    entries: Map<Value, Slot>,
    key: Value,
    value: Value,
    ttl: u64,
    now: int,
    later: int,
)
    ensures
        later < now + ttl ==> live_value(
            entries.insert(key, new_slot(value, Some(ttl), now)),
            key,
            later,
        ) == Some(value),
        later >= now + ttl ==> live_value(
            entries.insert(key, new_slot(value, Some(ttl), now)),
            key,
            later,
        ) is None,
{
}

/// An entry that is stored without a time to live is read back at any time,
/// whatever was stored under its key before.
pub proof fn lemma_set_then_get(
    entries: Map<Value, Slot>,
    key: Value,
    value: Value,
    now: int,
    later: int,
)
    ensures
        live_value(entries.insert(key, new_slot(value, None, now)), key, later) == Some(value),
{
}

/// Nothing is read under a key that was never stored.
pub proof fn lemma_get_missing(entries: Map<Value, Slot>, key: Value, now: int)
    requires
        !entries.contains_key(key),
    ensures
        live_value(entries, key, now) is None,
        live_value(Map::<Value, Slot>::empty(), key, now) is None,
{
}

/// What is read is never an entry whose expiry is at or before the time of reading.
pub proof fn lemma_get_is_live(entries: Map<Value, Slot>, key: Value, now: int)
    ensures
        live_value(entries, key, now) is Some ==> entries.contains_key(key) && (
        entries[key].expires_at matches Some(t) ==> t > now),
{
}

/// Storing under one key leaves what is read under every other key as it was.
pub proof fn lemma_set_keeps_other_keys(
    entries: Map<Value, Slot>,
    key: Value,
    value: Value,
    ttl: Option<u64>,
    now: int,
    other: Value,
    later: int,
)
    requires
        other != key,
    ensures
        live_value(entries.insert(key, new_slot(value, ttl, now)), other, later) == live_value(
            entries,
            other,
            later,
        ),
{
}

/// No update is lost: after values were stored under keys that differ from one
/// another, in any order of time, each of them is read back under its key.
pub proof fn lemma_sets_on_distinct_keys(
    entries: Map<Value, Slot>,
    keys: Seq<Value>,
    values: Seq<Value>,
    times: Seq<int>,
    i: int,
    later: int,
)
    requires
        keys.len() == values.len() == times.len(),
        forall|a: int, b: int| 0 <= a < b < keys.len() ==> keys[a] != keys[b],
        0 <= i < keys.len(),
    ensures
        live_value(after_sets(entries, keys, values, times), keys[i], later) == Some(values[i]),
    decreases keys.len(),
{
    if i < keys.len() - 1 {
        lemma_sets_on_distinct_keys(
            entries,
            keys.drop_last(),
            values.drop_last(),
            times.drop_last(),
            i,
            later,
        );
        assert(keys[i] != keys[keys.len() - 1]);
    }
}

} // verus!
