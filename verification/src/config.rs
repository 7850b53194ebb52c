//! How an instance is set up, and how command-line arguments say so.

use vstd::prelude::*;
use vstd::utf8::*;

use crate::commands::str_eq;
use crate::decimal::{parse_unsigned, read_unsigned};

verus! {

/// The part that an instance plays in replication.
#[derive(Clone, Copy, Debug, PartialEq, Eq, Structural)]
pub enum Role {
    Slave,
    Master,
}

/// The name that a role goes by in reports.
pub open spec fn role_name(role: Role) -> Seq<char> {
    match role {
        Role::Slave => "slave"@,
        Role::Master => "master"@,
    }
}

impl Role {
    /// The name that the role goes by in reports.
    pub fn as_str(&self) -> (r: &'static str)
        ensures
            r@ == role_name(*self),
    {
        match self {
            Role::Slave => "slave",
            Role::Master => "master",
        }
    }

    /// The name that the role goes by in reports, as an owned text.
    pub fn to_string(&self) -> (r: String)
        ensures
            r@ == role_name(*self),
    {
        self.as_str().to_owned()
    }
}

/// How an instance is set up.
#[derive(Debug)]
pub struct InstanceConfig {
    port: u32,
    role: Role,
    replicaof: Option<String>,
}

/// What an [`InstanceConfig`] stands for.
pub struct InstanceConfigView {
    pub port: u32,
    pub role: Role,
    /// Host and port of the master, with a space between them.
    pub replicaof: Option<Seq<char>>,
}

impl View for InstanceConfig {
    type V = InstanceConfigView;

    closed spec fn view(&self) -> InstanceConfigView {
        InstanceConfigView {
            port: self.port,
            role: self.role,
            replicaof: match self.replicaof {
                Some(s) => Some(s@),
                None => None,
            },
        }
    }
}

/// The set-up of an instance that was told nothing: a master on port 6379.
pub open spec fn default_config() -> InstanceConfigView {
    InstanceConfigView { port: 6379, role: Role::Master, replicaof: None }
}

impl Default for InstanceConfig {
    fn default() -> (r: InstanceConfig)
        ensures
            r@ == default_config(),
    {
        InstanceConfig { port: 6379, role: Role::Master, replicaof: None }
    }
}

impl Clone for InstanceConfig {
    fn clone(&self) -> (r: InstanceConfig)
        ensures
            r@ == self@,
    {
        InstanceConfig {
            port: self.port,
            role: self.role,
            replicaof: match &self.replicaof {
                Some(s) => Some(s.clone()),
                None => None,
            },
        }
    }
}

/// Why command-line arguments give no set-up.
#[derive(Clone, Copy, Debug, PartialEq, Eq, Structural)]
pub enum ConfigError {
    /// An option stands last, with no value behind it.
    MissingValue,
    /// The value of `--port` is no decimal number that fits 16 bits.
    BadPort,
}

/// The set-up after one more argument, the one at `i`, has been looked at.
pub open spec fn apply_arg(cfg: InstanceConfigView, args: Seq<Seq<char>>, i: int) -> Result<
    InstanceConfigView,
    ConfigError,
> {
    if args[i] == "--port"@ {
        if i + 1 >= args.len() {
            Err(ConfigError::MissingValue)
        } else {
            match parse_unsigned(encode_utf8(args[i + 1]), u16::MAX as nat) {
                Some(p) => Ok(InstanceConfigView { port: p as u32, ..cfg }),
                None => Err(ConfigError::BadPort),
            }
        }
    } else if args[i] == "--replicaof"@ {
        if i + 1 >= args.len() {
            Err(ConfigError::MissingValue)
        } else {
            Ok(InstanceConfigView { role: Role::Slave, replicaof: Some(args[i + 1]), ..cfg })
        }
    } else {
        Ok(cfg)
    }
}

/// The set-up after the first `n` arguments have been looked at, one after
/// the other, starting from the default. `--port` takes the argument behind
/// it as the port; `--replicaof` takes the argument behind it as the master
/// and makes the instance a replica. The last word on each stands.
pub open spec fn config_from(args: Seq<Seq<char>>, n: nat) -> Result<
    InstanceConfigView,
    ConfigError,
>
    decreases n,
{
    if n == 0 {
        Ok(default_config())
    } else {
        match config_from(args, (n - 1) as nat) {
            Err(e) => Err(e),
            Ok(cfg) => apply_arg(cfg, args, n - 1),
        }
    }
}

/// Once an argument has been refused, looking at more arguments changes
/// nothing.
pub proof fn lemma_config_error_stays(args: Seq<Seq<char>>, n: nat, m: nat)
    requires
        n <= m,
        config_from(args, n) is Err,
    ensures
        config_from(args, m) == config_from(args, n),
    decreases m,
{
    if n < m {
        lemma_config_error_stays(args, n, (m - 1) as nat);
    }
}

/// The texts of a run of arguments, one for one.
pub open spec fn arg_texts(args: Seq<String>) -> Seq<Seq<char>> {
    Seq::new(args.len(), |i: int| args[i]@)
}

impl InstanceConfig {
    /// The set-up with the given port and master: a replica where a master
    /// is given, a master where none is.
    pub fn new(port: u32, replicaof: Option<String>) -> (r: InstanceConfig)
        ensures
            r@.port == port,
            r@.role == (if replicaof is Some {
                Role::Slave
            } else {
                Role::Master
            }),
            r@.replicaof == (match replicaof {
                Some(s) => Some(s@),
                None => None,
            }),
    {
        let role = if replicaof.is_some() {
            Role::Slave
        } else {
            Role::Master
        };
        InstanceConfig { port, role, replicaof }
    }

    /// The port to listen on.
    pub fn port(&self) -> (p: u32)
        ensures
            p == self@.port,
    {
        self.port
    }

    /// The part that the instance plays.
    pub fn role(&self) -> (r: Role)
        ensures
            r == self@.role,
    {
        self.role
    }

    /// Host and port of the master, where the instance is a replica.
    pub fn replicaof(&self) -> (r: Option<&String>)
        ensures
            match r {
                Some(s) => self@.replicaof == Some(s@),
                None => self@.replicaof is None,
            },
    {
        self.replicaof.as_ref()
    }

    /// The set-up that command-line arguments ask for.
    pub fn from_command_args(args: &Vec<String>) -> (r: Result<InstanceConfig, ConfigError>)
        ensures
            match config_from(arg_texts(args@), args@.len()) {
                Ok(cfg) => r is Ok && r->Ok_0@ == cfg,
                Err(e) => r == Err::<InstanceConfig, ConfigError>(e),
            },
    {
        let mut output = InstanceConfig::default();
        let mut i: usize = 0;
        while i < args.len()
            invariant
                i <= args.len(),
                config_from(arg_texts(args@), i as nat) == Ok::<InstanceConfigView, ConfigError>(
                    output@,
                ),
            decreases args.len() - i,
        {
            let arg = args[i].as_str();
            assert(arg_texts(args@)[i as int] == arg@);
            if str_eq(arg, "--port") {
                if i + 1 >= args.len() {
                    return Err(ConfigError::MissingValue);
                }
                assert(arg_texts(args@)[i + 1] == args@[i + 1]@);
                match read_unsigned(args[i + 1].as_str().as_bytes(), 0xffff) {
                    Some(p) => {
                        output.port = p as u32;
                    },
                    None => {
                        proof {
                            lemma_config_error_stays(
                                arg_texts(args@),
                                (i + 1) as nat,
                                args@.len(),
                            );
                        }
                        return Err(ConfigError::BadPort);
                    },
                }
            } else if str_eq(arg, "--replicaof") {
                if i + 1 >= args.len() {
                    return Err(ConfigError::MissingValue);
                }
                assert(arg_texts(args@)[i + 1] == args@[i + 1]@);
                output.role = Role::Slave;
                output.replicaof = Some(args[i + 1].clone());
            }
            i += 1;
        }
        Ok(output)
    }
}

} // verus!
