//! Startup configuration: the port to listen on and the role of this node.

use vstd::prelude::*;
use vstd::string::StrSliceExecFns;
use vstd::utf8::encode_utf8;

use crate::decimal::{read_unsigned, unsigned_u128};
use crate::text::{is_prefix, same_text, starts_with};

verus! {

/// The port that is used when none is given.
pub const DEFAULT_PORT: u16 = 6379;

/// The role of this node.
#[derive(Debug, Clone, PartialEq, Eq)]
pub enum Role {
    Master,
    Slave { master_host: String, master_port: u16 },
}

/// The configuration of the server, fixed at startup.
#[derive(Debug, Clone)]
pub struct Config {
    pub port: u16,
    pub role: Role,
}

/// Why a configuration could not be read.
#[derive(Debug, Clone, Copy, PartialEq, Eq, Structural)]
pub enum ConfigError {
    /// A parameter's name does not begin with `--`.
    InvalidParameter,
    /// The last parameter has no value.
    MissingValue,
    /// The port is not a decimal number that fits 16 bits.
    InvalidPort,
    /// The master is given without a port.
    MissingMasterPort,
    /// The master's port is not a decimal number that fits 16 bits.
    InvalidMasterPort,
}

/// The model of a role: the master's host and port, for a replica.
pub ghost enum RoleView {
    Master,
    Slave { master_host: Seq<char>, master_port: u16 },
}

/// The model of a configuration.
pub ghost struct ConfigView {
    pub port: u16,
    pub role: RoleView,
}

impl View for Role {
    type V = RoleView;

    open spec fn view(&self) -> RoleView {
        match self {
            Role::Master => RoleView::Master,
            Role::Slave { master_host, master_port } => RoleView::Slave {
                master_host: master_host@,
                master_port: *master_port,
            },
        }
    }
}

impl View for Config {
    type V = ConfigView;

    open spec fn view(&self) -> ConfigView {
        ConfigView { port: self.port, role: self.role@ }
    }
}

/// The index of the first blank of `s` at or after `from`, or the length of `s` where
/// there is none.
pub open spec fn first_blank(s: Seq<char>, from: int) -> int
    decreases s.len() - from,
{
    if from >= s.len() {
        s.len() as int
    } else if s[from] == ' ' {
        from
    } else {
        first_blank(s, from + 1)
    }
}

/// The number that a text denotes as a port: an optional `+`, then digits, with a
/// value that fits 16 bits.
pub open spec fn port_value(text: Seq<char>) -> Option<u16> {
    match unsigned_u128(encode_utf8(text)) {
        Some(p) => if p <= u16::MAX {
            Some(p as u16)
        } else {
            None
        },
        None => None,
    }
}

/// The replica role that `replica_of` describes: the words of the text are parted by
/// single blanks, the first is the master's host and the second its port.
pub open spec fn slave_of(replica_of: Seq<char>) -> Result<RoleView, ConfigError> {
    let i = first_blank(replica_of, 0);
    if i >= replica_of.len() {
        Err(ConfigError::MissingMasterPort)
    } else {
        let j = first_blank(replica_of, i + 1);
        match port_value(replica_of.subrange(i + 1, j)) {
            Some(p) => Ok(
                RoleView::Slave { master_host: replica_of.subrange(0, i), master_port: p },
            ),
            None => Err(ConfigError::InvalidMasterPort),
        }
    }
}

/// Where no blank stands between `from` and `to`, the first blank after `from` is the
/// first blank after `to`.
pub proof fn lemma_first_blank_skip(s: Seq<char>, from: int, to: int)
    requires
        0 <= from <= to <= s.len(),
        forall|j: int| from <= j < to ==> s[j] != ' ',
    ensures
        first_blank(s, from) == first_blank(s, to),
    decreases to - from,
{
    if from < to {
        lemma_first_blank_skip(s, from + 1, to);
    }
}

/// Finds the first blank of `s` at or after `from`, where `len` is the number of
/// characters of `s`.
fn find_blank(s: &str, from: usize, len: usize) -> (r: usize)
    requires
        from <= len == s@.len(),
    ensures
        r == first_blank(s@, from as int),
        from <= r <= len,
{
    let mut i: usize = from;
    while i < len
        invariant
            from <= i <= len == s@.len(),
            forall|j: int| from <= j < i ==> s@[j] != ' ',
        decreases len - i,
    {
        if s.get_char(i) == ' ' {
            proof {
                lemma_first_blank_skip(s@, from as int, i as int);
            }
            return i;
        }
        i = i + 1;
    }
    proof {
        lemma_first_blank_skip(s@, from as int, i as int);
    }
    i
}

/// Reads a text as a port number.
pub fn read_port(text: &str) -> (r: Option<u16>)
    ensures
        r == port_value(text@),
{
    let bytes = text.as_bytes();
    assert(bytes@.subrange(0, bytes@.len() as int) =~= bytes@);
    match read_unsigned(bytes, 0, bytes.len()) {
        Some(p) => if p <= 0xffff {
            Some(p as u16)
        } else {
            None
        },
        None => None,
    }
}

impl Role {
    /// The replica role that the value of `--replicaof` describes.
    pub fn new_slave(replica_of: &str) -> (r: Result<Role, ConfigError>)
        ensures
            match r {
                Ok(role) => slave_of(replica_of@) == Ok::<RoleView, ConfigError>(role@),
                Err(e) => slave_of(replica_of@) == Err::<RoleView, ConfigError>(e),
            },
    {
        let len = replica_of.unicode_len();
        let i = find_blank(replica_of, 0, len);
        if i >= len {
            return Err(ConfigError::MissingMasterPort);
        }
        let j = find_blank(replica_of, i + 1, len);
        let port_text = replica_of.substring_char(i + 1, j);
        match read_port(port_text) {
            Some(p) => {
                let host = replica_of.substring_char(0, i).to_owned();
                Ok(Role::Slave { master_host: host, master_port: p })
            },
            None => Err(ConfigError::InvalidMasterPort),
        }
    }
}

/// The texts of a list of strings.
pub open spec fn texts(args: Seq<String>) -> Seq<Seq<char>> {
    Seq::new(args.len(), |i: int| args[i]@)
}

/// The name of a parameter begins with two dashes.
pub open spec fn dashed(name: Seq<char>) -> bool {
    is_prefix("--"@, name)
}

/// The value that follows the last occurrence of `name` among the first `n` words of
/// `args`, read as names and values in turn.
pub open spec fn last_value(args: Seq<Seq<char>>, name: Seq<char>, n: int) -> Option<Seq<char>>
    decreases n,
{
    if n < 2 {
        None
    } else if args[n - 2] == name {
        Some(args[n - 1])
    } else {
        last_value(args, name, n - 2)
    }
}

/// The configuration that the command line `args` describes. The words are names and
/// values in turn; every name begins with `--`; the last value given for `--port` is
/// the port and the last given for `--replicaof` makes the node a replica.
pub open spec fn config_of(args: Seq<Seq<char>>) -> Result<ConfigView, ConfigError> {
    if exists|i: int| 0 <= i < args.len() && i % 2 == 0 && !dashed(#[trigger] args[i]) {
        Err(ConfigError::InvalidParameter)
    } else if args.len() % 2 != 0 {
        Err(ConfigError::MissingValue)
    } else {
        let port = match last_value(args, "--port"@, args.len() as int) {
            None => Some(DEFAULT_PORT),
            Some(text) => port_value(text),
        };
        match port {
            None => Err(ConfigError::InvalidPort),
            Some(port) => match last_value(args, "--replicaof"@, args.len() as int) {
                None => Ok(ConfigView { port, role: RoleView::Master }),
                Some(text) => match slave_of(text) {
                    Ok(role) => Ok(ConfigView { port, role }),
                    Err(e) => Err(e),
                },
            },
        }
    }
}

impl Config {
    /// Reads the configuration from the words of the command line.
    pub fn parse_parameter(parameter: Vec<String>) -> (r: Result<Config, ConfigError>)
        ensures
            match r {
                Ok(config) => config_of(texts(parameter@)) == Ok::<ConfigView, ConfigError>(
                    config@,
                ),
                Err(e) => config_of(texts(parameter@)) == Err::<ConfigView, ConfigError>(e),
            },
    {
        let ghost args = texts(parameter@);
        let n = parameter.len();
        let mut port_at: Option<usize> = None;
        let mut replica_at: Option<usize> = None;
        let mut i: usize = 0;
        while i < n
            invariant
                i <= n == parameter@.len(),
                i % 2 == 0,
                args == texts(parameter@),
                forall|j: int| 0 <= j < i && j % 2 == 0 ==> dashed(#[trigger] args[j]),
                match port_at {
                    Some(k) => k < i && last_value(args, "--port"@, i as int) == Some(args[k as int]),
                    None => last_value(args, "--port"@, i as int) is None,
                },
                match replica_at {
                    Some(k) => k < i && last_value(args, "--replicaof"@, i as int) == Some(
                        args[k as int],
                    ),
                    None => last_value(args, "--replicaof"@, i as int) is None,
                },
            decreases n - i,
        {
            let name = parameter[i].as_str();
            assert(name@ == args[i as int]);
            if !starts_with(name, "--") {
                return Err(ConfigError::InvalidParameter);
            }
            if i + 1 >= n {
                assert(args.len() % 2 != 0);
                assert forall|j: int| 0 <= j < args.len() && j % 2 == 0 implies dashed(
                    #[trigger] args[j],
                ) by {
                    if j >= i {
                        assert(j == i);
                    }
                }
                return Err(ConfigError::MissingValue);
            }
            if same_text(name, "--port") {
                port_at = Some(i + 1);
            }
            if same_text(name, "--replicaof") {
                replica_at = Some(i + 1);
            }
            i = i + 2;
        }
        assert(i == n);
        let port: u16 = match port_at {
            None => DEFAULT_PORT,
            Some(k) => {
                assert(parameter@[k as int]@ == args[k as int]);
                match read_port(parameter[k].as_str()) {
                    Some(p) => p,
                    None => {
                        return Err(ConfigError::InvalidPort);
                    },
                }
            },
        };
        let role = match replica_at {
            None => Role::Master,
            Some(k) => {
                assert(parameter@[k as int]@ == args[k as int]);
                match Role::new_slave(parameter[k].as_str()) {
                    Ok(role) => role,
                    Err(e) => {
                        return Err(e);
                    },
                }
            },
        };
        Ok(Config { port, role })
    }
}

impl Default for Config {
    fn default() -> (r: Config)
        ensures
            r@ == (ConfigView { port: DEFAULT_PORT, role: RoleView::Master }),
    {
        Config { port: DEFAULT_PORT, role: Role::Master }
    }
}

} // verus!
