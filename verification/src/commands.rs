//! The commands of the store: how they are parsed from values of the wire
//! protocol, and how they are sent as such values.

use vstd::prelude::*;
use vstd::slice::slice_subrange;
use vstd::utf8::*;

use crate::common::{bytes_eq, lemma_ascii_is_utf8, text, Bytes};
use crate::decimal::{
    dec_digits, dec_int, is_digit, lemma_dec_digits_shape, lemma_parse_signed_of_dec, parse_signed,
    push_i64, push_u64, read_i64,
};
use crate::resp::{
    b_str, dup_values, lemma_array_view, value_int, value_text, views, Value, ValueView,
};

verus! {

/// A request that the store understands.
#[derive(Debug, PartialEq, Eq)]
pub enum Command {
    Ping,
    Echo(Bytes),
    Get(Bytes),
    /// Key, value, and the time to live in milliseconds where one is given.
    SetKV(Bytes, Bytes, Option<u64>),
    Info(String),
    ReplConf(String, String),
    ReplConfGetAck(String),
    ReplConfAck(i64),
    Psync(String, i64),
    /// Number of replicas and time-out in milliseconds.
    Wait(i64, i64),
    /// A `Wait` that is taken up again: no acknowledgements are asked for.
    WaitInternal(i64, i64),
}

/// What a [`Command`] stands for.
pub enum CommandView {
    Ping,
    Echo(Seq<u8>),
    Get(Seq<u8>),
    SetKV(Seq<u8>, Seq<u8>, Option<u64>),
    Info(Seq<char>),
    ReplConf(Seq<char>, Seq<char>),
    ReplConfGetAck(Seq<char>),
    ReplConfAck(i64),
    Psync(Seq<char>, i64),
    Wait(i64, i64),
    WaitInternal(i64, i64),
}

impl View for Command {
    type V = CommandView;

    open spec fn view(&self) -> CommandView {
        match self {
            Command::Ping => CommandView::Ping,
            Command::Echo(b) => CommandView::Echo(b@),
            Command::Get(b) => CommandView::Get(b@),
            Command::SetKV(k, v, ex) => CommandView::SetKV(k@, v@, *ex),
            Command::Info(s) => CommandView::Info(s@),
            Command::ReplConf(k, v) => CommandView::ReplConf(k@, v@),
            Command::ReplConfGetAck(a) => CommandView::ReplConfGetAck(a@),
            Command::ReplConfAck(n) => CommandView::ReplConfAck(*n),
            Command::Psync(id, off) => CommandView::Psync(id@, *off),
            Command::Wait(n, t) => CommandView::Wait(*n, *t),
            Command::WaitInternal(n, t) => CommandView::WaitInternal(*n, *t),
        }
    }
}

impl Clone for Command {
    fn clone(&self) -> (r: Command)
        ensures
            r@ == self@,
    {
        match self {
            Command::Ping => Command::Ping,
            Command::Echo(b) => Command::Echo(b.clone()),
            Command::Get(b) => Command::Get(b.clone()),
            Command::SetKV(k, v, ex) => Command::SetKV(k.clone(), v.clone(), *ex),
            Command::Info(s) => Command::Info(s.clone()),
            Command::ReplConf(k, v) => Command::ReplConf(k.clone(), v.clone()),
            Command::ReplConfGetAck(a) => Command::ReplConfGetAck(a.clone()),
            Command::ReplConfAck(n) => Command::ReplConfAck(*n),
            Command::Psync(id, off) => Command::Psync(id.clone(), *off),
            Command::Wait(n, t) => Command::Wait(*n, *t),
            Command::WaitInternal(n, t) => Command::WaitInternal(*n, *t),
        }
    }
}

/// Why a value is no command.
#[derive(Debug, PartialEq, Eq)]
pub enum CommandError {
    /// The command named first was given the wrong number of arguments:
    /// its name, their number, and the arguments themselves.
    BadArity(String, usize, Vec<Value>),
    /// No command has this name.
    UnknownCommand(Bytes),
    /// An argument of the command named is of the wrong kind, or is no
    /// text or no number where one is needed.
    InvalidArgument(String),
    /// The value is neither a simple string `PING` nor an array that
    /// starts with a bulk string.
    NotACommand,
}

/// What a [`CommandError`] stands for.
pub enum CommandErrorView {
    BadArity(Seq<char>, usize, Seq<ValueView>),
    UnknownCommand(Seq<u8>),
    InvalidArgument(Seq<char>),
    NotACommand,
}

impl View for CommandError {
    type V = CommandErrorView;

    open spec fn view(&self) -> CommandErrorView {
        match self {
            CommandError::BadArity(cmd, n, args) => CommandErrorView::BadArity(cmd@, *n, views(args@)),
            CommandError::UnknownCommand(name) => CommandErrorView::UnknownCommand(name@),
            CommandError::InvalidArgument(cmd) => CommandErrorView::InvalidArgument(cmd@),
            CommandError::NotACommand => CommandErrorView::NotACommand,
        }
    }
}

impl CommandError {
    /// A short description of the error.
    pub fn to_string(&self) -> (r: String)
        ensures
            r@ == (match self@ {
                CommandErrorView::BadArity(_, _, _) => "wrong number of arguments"@,
                CommandErrorView::UnknownCommand(_) => "unknown command"@,
                CommandErrorView::InvalidArgument(_) => "invalid argument"@,
                CommandErrorView::NotACommand => "not a command"@,
            }),
    {
        match self {
            CommandError::BadArity(_, _, _) => "wrong number of arguments".to_owned(),
            CommandError::UnknownCommand(_) => "unknown command".to_owned(),
            CommandError::InvalidArgument(_) => "invalid argument".to_owned(),
            CommandError::NotACommand => "not a command".to_owned(),
        }
    }
}

/// What parsing a value gives.
pub type ParsedCommand = Result<CommandView, CommandErrorView>;

/// Whether what the parser returned is what the grammar gives.
pub open spec fn agrees(r: Result<Command, CommandError>, p: ParsedCommand) -> bool {
    match p {
        Ok(c) => r is Ok && r->Ok_0@ == c,
        Err(e) => r is Err && r->Err_0@ == e,
    }
}

/// The bulk string that holds the bytes of `s`.
pub open spec fn word(s: &str) -> ValueView {
    ValueView::BulkString(text(s))
}

/// The bulk string that holds the text `s` in UTF-8.
pub open spec fn bulk_text(s: Seq<char>) -> ValueView {
    ValueView::BulkString(encode_utf8(s))
}

/// The number that `i` becomes as a `u64`: itself, or itself and 2^64 where
/// it is negative.
pub open spec fn wrapped(i: i64) -> u64 {
    if i >= 0 {
        i as u64
    } else {
        (i + 0x1_0000_0000_0000_0000) as u64
    }
}

/// The array of bulk strings that a command is sent as.
pub open spec fn to_value(c: CommandView) -> ValueView {
    ValueView::Array(
        match c {
            CommandView::Ping => seq![word("PING")],
            CommandView::Echo(b) => seq![word("ECHO"), ValueView::BulkString(b)],
            CommandView::Get(b) => seq![word("GET"), ValueView::BulkString(b)],
            CommandView::SetKV(k, v, None) => seq![
                word("SET"),
                ValueView::BulkString(k),
                ValueView::BulkString(v),
            ],
            CommandView::SetKV(k, v, Some(ex)) => seq![
                word("SET"),
                ValueView::BulkString(k),
                ValueView::BulkString(v),
                word("px"),
                ValueView::BulkString(dec_digits(ex as nat)),
            ],
            CommandView::Info(s) => seq![word("INFO"), bulk_text(s)],
            CommandView::ReplConf(k, v) => seq![word("REPLCONF"), bulk_text(k), bulk_text(v)],
            CommandView::ReplConfGetAck(a) => seq![word("REPLCONF"), word("GETACK"), bulk_text(a)],
            CommandView::ReplConfAck(n) => seq![
                word("REPLCONF"),
                word("ACK"),
                ValueView::BulkString(dec_int(n as int)),
            ],
            CommandView::Psync(id, off) => seq![
                word("PSYNC"),
                bulk_text(id),
                ValueView::BulkString(dec_int(off as int)),
            ],
            CommandView::Wait(n, t) | CommandView::WaitInternal(n, t) => seq![
                word("WAIT"),
                ValueView::BulkString(dec_int(n as int)),
                ValueView::BulkString(dec_int(t as int)),
            ],
        },
    )
}

/// The error of a command that was given the wrong number of arguments.
pub open spec fn bad_arity(cmd: &str, args: Seq<ValueView>) -> ParsedCommand {
    Err(CommandErrorView::BadArity(cmd@, args.len() as usize, args))
}

/// The error of a command that was given an argument it cannot take.
pub open spec fn bad_argument(cmd: &str) -> ParsedCommand {
    Err(CommandErrorView::InvalidArgument(cmd@))
}

/// The decimal integer that the text of an argument holds.
pub open spec fn int_of_text(v: ValueView) -> Option<i64> {
    match value_text(v) {
        Ok(t) => match parse_signed(encode_utf8(t), i64::MIN as int, i64::MAX as int) {
            Some(i) => Some(i as i64),
            None => None,
        },
        Err(_) => None,
    }
}

/// `ECHO <x>`.
pub open spec fn parse_echo_args(args: Seq<ValueView>) -> ParsedCommand {
    if args.len() != 1 {
        bad_arity("ECHO", args)
    } else {
        match args[0] {
            ValueView::BulkString(b) => Ok(CommandView::Echo(b)),
            _ => bad_argument("ECHO"),
        }
    }
}

/// `GET <k>`.
pub open spec fn parse_get_args(args: Seq<ValueView>) -> ParsedCommand {
    if args.len() != 1 {
        bad_arity("GET", args)
    } else {
        match args[0] {
            ValueView::BulkString(b) => Ok(CommandView::Get(b)),
            _ => bad_argument("GET"),
        }
    }
}

/// `SET <k> <v>` and `SET <k> <v> px <ms>`.
pub open spec fn parse_set_args(args: Seq<ValueView>) -> ParsedCommand {
    if args.len() == 2 {
        match (args[0], args[1]) {
            (ValueView::BulkString(k), ValueView::BulkString(v)) => Ok(
                CommandView::SetKV(k, v, None),
            ),
            _ => bad_argument("SET"),
        }
    } else if args.len() == 4 {
        match (args[0], args[1], args[2], args[3]) {
            (
                ValueView::BulkString(k),
                ValueView::BulkString(v),
                ValueView::BulkString(px),
                ValueView::BulkString(ms),
            ) => if px == text("px") {
                match int_of_text(args[3]) {
                    Some(i) => Ok(CommandView::SetKV(k, v, Some(wrapped(i)))),
                    None => bad_argument("SET"),
                }
            } else {
                bad_argument("SET")
            },
            _ => bad_argument("SET"),
        }
    } else {
        bad_arity("SET", args)
    }
}

/// `INFO <section>`.
pub open spec fn parse_info_args(args: Seq<ValueView>) -> ParsedCommand {
    if args.len() != 1 {
        bad_arity("INFO", args)
    } else {
        match args[0] {
            ValueView::BulkString(b) => if valid_utf8(b) {
                Ok(CommandView::Info(decode_utf8(b)))
            } else {
                bad_argument("INFO")
            },
            _ => bad_argument("INFO"),
        }
    }
}

/// `REPLCONF GETACK <x>`, `REPLCONF ACK <n>` and `REPLCONF <k> <v>`.
pub open spec fn parse_replconf_args(args: Seq<ValueView>) -> ParsedCommand {
    if args.len() != 2 {
        bad_arity("REPLCONF", args)
    } else {
        match (value_text(args[0]), value_text(args[1])) {
            (Ok(key), Ok(val)) => if key == "GETACK"@ {
                Ok(CommandView::ReplConfGetAck(val))
            } else if key == "ACK"@ {
                match int_of_text(args[1]) {
                    Some(n) => Ok(CommandView::ReplConfAck(n)),
                    None => bad_argument("REPLCONF"),
                }
            } else {
                Ok(CommandView::ReplConf(key, val))
            },
            _ => bad_argument("REPLCONF"),
        }
    }
}

/// `PSYNC <id> <offset>`.
pub open spec fn parse_psync_args(args: Seq<ValueView>) -> ParsedCommand {
    if args.len() != 2 {
        bad_arity("PSYNC", args)
    } else {
        match (value_text(args[0]), int_of_text(args[1])) {
            (Ok(id), Some(off)) => Ok(CommandView::Psync(id, off)),
            _ => bad_argument("PSYNC"),
        }
    }
}

/// `WAIT <n> <timeout-ms>`.
pub open spec fn parse_wait_args(args: Seq<ValueView>) -> ParsedCommand {
    if args.len() != 2 {
        bad_arity("WAIT", args)
    } else {
        match (value_int(args[0]), value_int(args[1])) {
            (Ok(n), Ok(t)) => Ok(CommandView::Wait(n, t)),
            _ => bad_argument("WAIT"),
        }
    }
}

/// The command with the name `name` and the arguments `args`. Names are
/// upper case and are told apart byte by byte.
pub open spec fn parse_named(name: Seq<u8>, args: Seq<ValueView>) -> ParsedCommand {
    if name == text("PING") {
        if args.len() == 0 {
            Ok(CommandView::Ping)
        } else {
            bad_arity("PING", args)
        }
    } else if name == text("ECHO") {
        parse_echo_args(args)
    } else if name == text("GET") {
        parse_get_args(args)
    } else if name == text("INFO") {
        parse_info_args(args)
    } else if name == text("SET") {
        parse_set_args(args)
    } else if name == text("REPLCONF") {
        parse_replconf_args(args)
    } else if name == text("PSYNC") {
        parse_psync_args(args)
    } else if name == text("WAIT") {
        parse_wait_args(args)
    } else {
        Err(CommandErrorView::UnknownCommand(name))
    }
}

/// The command that a value stands for: an array whose first element is a
/// bulk string that names the command, or the simple string `PING`.
pub open spec fn parse_command(v: ValueView) -> ParsedCommand {
    match v {
        ValueView::Array(elems) => if elems.len() == 0 {
            Err(CommandErrorView::NotACommand)
        } else {
            match elems[0] {
                ValueView::BulkString(name) => parse_named(name, elems.skip(1)),
                _ => Err(CommandErrorView::NotACommand),
            }
        },
        ValueView::SimpleString(b) => if b == text("PING") {
            Ok(CommandView::Ping)
        } else {
            Err(CommandErrorView::NotACommand)
        },
        _ => Err(CommandErrorView::NotACommand),
    }
}

/// Whether two texts are the same.
pub fn str_eq(a: &str, b: &str) -> (same: bool)
    ensures
        same == (a@ == b@),
{
    proof {
        encode_utf8_decode_utf8(a@);
        encode_utf8_decode_utf8(b@);
    }
    bytes_eq(a.as_bytes(), b.as_bytes())
}

/// The bulk string that holds the text `s` in UTF-8.
fn bulk_of_text(s: &str) -> (r: Value)
    ensures
        r@ == bulk_text(s@),
{
    Value::BulkString(Bytes::from_text(s))
}

/// The bulk string that holds the decimal numeral of `n`.
fn bulk_of_u64(n: u64) -> (r: Value)
    ensures
        r@ == ValueView::BulkString(dec_digits(n as nat)),
{
    let mut digits: Vec<u8> = Vec::new();
    push_u64(&mut digits, n);
    assert(digits@ =~= dec_digits(n as nat));
    Value::BulkString(Bytes::from_vec(digits))
}

/// The bulk string that holds the decimal numeral of `i`.
fn bulk_of_i64(i: i64) -> (r: Value)
    ensures
        r@ == ValueView::BulkString(dec_int(i as int)),
{
    let mut digits: Vec<u8> = Vec::new();
    push_i64(&mut digits, i);
    assert(digits@ =~= dec_int(i as int));
    Value::BulkString(Bytes::from_vec(digits))
}

/// The array of two values.
fn array2(a: Value, b: Value) -> (r: Value)
    ensures
        r@ == ValueView::Array(seq![a@, b@]),
{
    let mut elems: Vec<Value> = Vec::new();
    elems.push(a);
    elems.push(b);
    proof {
        lemma_array_view(elems);
        assert(views(elems@) =~= seq![a@, b@]);
    }
    Value::Array(elems)
}

/// The array of three values.
fn array3(a: Value, b: Value, c: Value) -> (r: Value)
    ensures
        r@ == ValueView::Array(seq![a@, b@, c@]),
{
    let mut elems: Vec<Value> = Vec::new();
    elems.push(a);
    elems.push(b);
    elems.push(c);
    proof {
        lemma_array_view(elems);
        assert(views(elems@) =~= seq![a@, b@, c@]);
    }
    Value::Array(elems)
}

impl Command {
    /// The array of bulk strings that the command is sent as.
    pub fn to_bulk_array(&self) -> (r: Value)
        ensures
            r@ == to_value(self@),
    {
        match self {
            Command::Ping => {
                let mut elems: Vec<Value> = Vec::new();
                elems.push(b_str("PING"));
                proof {
                    lemma_array_view(elems);
                    assert(views(elems@) =~= seq![word("PING")]);
                }
                Value::Array(elems)
            },
            Command::Echo(bs) => array2(b_str("ECHO"), Value::BulkString(bs.clone())),
            Command::Get(bs) => array2(b_str("GET"), Value::BulkString(bs.clone())),
            Command::SetKV(kbs, vbs, ex) => match ex {
                None => array3(
                    b_str("SET"),
                    Value::BulkString(kbs.clone()),
                    Value::BulkString(vbs.clone()),
                ),
                Some(ex) => {
                    let mut elems: Vec<Value> = Vec::new();
                    elems.push(b_str("SET"));
                    elems.push(Value::BulkString(kbs.clone()));
                    elems.push(Value::BulkString(vbs.clone()));
                    elems.push(b_str("px"));
                    elems.push(bulk_of_u64(*ex));
                    proof {
                        lemma_array_view(elems);
                        assert(views(elems@) =~= seq![
                            word("SET"),
                            ValueView::BulkString(kbs@),
                            ValueView::BulkString(vbs@),
                            word("px"),
                            ValueView::BulkString(dec_digits(*ex as nat)),
                        ]);
                    }
                    Value::Array(elems)
                },
            },
            Command::Info(s) => array2(b_str("INFO"), bulk_of_text(s.as_str())),
            Command::ReplConf(key, val) => array3(
                b_str("REPLCONF"),
                bulk_of_text(key.as_str()),
                bulk_of_text(val.as_str()),
            ),
            Command::ReplConfGetAck(arg) => array3(
                b_str("REPLCONF"),
                b_str("GETACK"),
                bulk_of_text(arg.as_str()),
            ),
            Command::ReplConfAck(n) => array3(b_str("REPLCONF"), b_str("ACK"), bulk_of_i64(*n)),
            Command::Psync(key, val) => array3(
                b_str("PSYNC"),
                bulk_of_text(key.as_str()),
                bulk_of_i64(*val),
            ),
            Command::Wait(n_repls, timeout) | Command::WaitInternal(n_repls, timeout) => array3(
                b_str("WAIT"),
                bulk_of_i64(*n_repls),
                bulk_of_i64(*timeout),
            ),
        }
    }
}

/// The error of the command `cmd`, which was given `args` and takes
/// another number of arguments.
pub fn bad_num_of_arguments_err(cmd: &str, args: &[Value]) -> (r: Result<Command, CommandError>)
    ensures
        agrees(r, bad_arity(cmd, views(args@))),
{
    Err(CommandError::BadArity(cmd.to_owned(), args.len(), dup_values(args)))
}

/// The error of the command `cmd`, which was given an argument that it
/// cannot take.
fn bad_argument_err(cmd: &str) -> (r: Result<Command, CommandError>)
    ensures
        agrees(r, bad_argument(cmd)),
{
    Err(CommandError::InvalidArgument(cmd.to_owned()))
}

/// The decimal integer that the text of an argument holds.
fn arg_int_of_text(v: &Value) -> (r: Option<i64>)
    ensures
        r == int_of_text(v@),
{
    match v.try_to_string() {
        Ok(t) => read_i64(t.as_str().as_bytes()),
        Err(_) => None,
    }
}

/// The number that `i` becomes as a `u64`.
pub fn wrap(i: i64) -> (r: u64)
    ensures
        r == wrapped(i),
{
    if i >= 0 {
        i as u64
    } else {
        let below: u64 = (-(i + 1)) as u64;
        u64::MAX - below
    }
}

/// The command with the name `name` and the arguments `args`.
fn parse_named_cmd(name: &Bytes, args: &[Value]) -> (r: Result<Command, CommandError>)
    ensures
        agrees(r, parse_named(name@, views(args@))),
{
    if name.is_text("PING") {
        if args.len() == 0 {
            Ok(Command::Ping)
        } else {
            bad_num_of_arguments_err("PING", args)
        }
    } else if name.is_text("ECHO") {
        parse_echo(args)
    } else if name.is_text("GET") {
        parse_get(args)
    } else if name.is_text("INFO") {
        parse_info(args)
    } else if name.is_text("SET") {
        parse_set(args)
    } else if name.is_text("REPLCONF") {
        parse_replconf(args)
    } else if name.is_text("PSYNC") {
        parse_psync(args)
    } else if name.is_text("WAIT") {
        parse_wait(args)
    } else {
        Err(CommandError::UnknownCommand(name.clone()))
    }
}

/// Parses a value as a command.
pub fn parse_cmd(val: &Value) -> (r: Result<Command, CommandError>)
    ensures
        agrees(r, parse_command(val@)),
{
    match val {
        Value::Array(elems) => {
            proof {
                lemma_array_view(*elems);
            }
            if elems.len() == 0 {
                return Err(CommandError::NotACommand);
            }
            match &elems[0] {
                Value::BulkString(bs) => {
                    let args = slice_subrange(elems.as_slice(), 1, elems.len());
                    assert(views(args@) =~= views(elems@).skip(1));
                    parse_named_cmd(bs, args)
                },
                _ => Err(CommandError::NotACommand),
            }
        },
        Value::SimpleString(v) => {
            if v.is_text("PING") {
                Ok(Command::Ping)
            } else {
                Err(CommandError::NotACommand)
            }
        },
        _ => Err(CommandError::NotACommand),
    }
}

/// `ECHO <x>`.
fn parse_echo(args: &[Value]) -> (r: Result<Command, CommandError>)
    ensures
        agrees(r, parse_echo_args(views(args@))),
{
    if args.len() != 1 {
        bad_num_of_arguments_err("ECHO", args)
    } else {
        match &args[0] {
            Value::BulkString(bs) => Ok(Command::Echo(bs.clone())),
            _ => bad_argument_err("ECHO"),
        }
    }
}

/// `GET <k>`.
fn parse_get(args: &[Value]) -> (r: Result<Command, CommandError>)
    ensures
        agrees(r, parse_get_args(views(args@))),
{
    if args.len() != 1 {
        bad_num_of_arguments_err("GET", args)
    } else {
        match &args[0] {
            Value::BulkString(bs) => Ok(Command::Get(bs.clone())),
            _ => bad_argument_err("GET"),
        }
    }
}

/// `SET <k> <v>` and `SET <k> <v> px <ms>`.
fn parse_set(args: &[Value]) -> (r: Result<Command, CommandError>)
    ensures
        agrees(r, parse_set_args(views(args@))),
{
    if args.len() == 2 {
        match (&args[0], &args[1]) {
            (Value::BulkString(k), Value::BulkString(v)) => Ok(
                Command::SetKV(k.clone(), v.clone(), None),
            ),
            _ => bad_argument_err("SET"),
        }
    } else if args.len() == 4 {
        match (&args[0], &args[1], &args[2], &args[3]) {
            (
                Value::BulkString(k),
                Value::BulkString(v),
                Value::BulkString(px),
                Value::BulkString(_),
            ) => {
                if px.is_text("px") {
                    match arg_int_of_text(&args[3]) {
                        Some(i) => Ok(Command::SetKV(k.clone(), v.clone(), Some(wrap(i)))),
                        None => bad_argument_err("SET"),
                    }
                } else {
                    bad_argument_err("SET")
                }
            },
            _ => bad_argument_err("SET"),
        }
    } else {
        bad_num_of_arguments_err("SET", args)
    }
}

/// `INFO <section>`.
fn parse_info(args: &[Value]) -> (r: Result<Command, CommandError>)
    ensures
        agrees(r, parse_info_args(views(args@))),
{
    if args.len() != 1 {
        bad_num_of_arguments_err("INFO", args)
    } else {
        match &args[0] {
            Value::BulkString(bs) => match bs.to_string() {
                Ok(section) => Ok(Command::Info(section)),
                Err(_) => bad_argument_err("INFO"),
            },
            _ => bad_argument_err("INFO"),
        }
    }
}

/// `REPLCONF GETACK <x>`, `REPLCONF ACK <n>` and `REPLCONF <k> <v>`.
fn parse_replconf(args: &[Value]) -> (r: Result<Command, CommandError>)
    ensures
        agrees(r, parse_replconf_args(views(args@))),
{
    if args.len() != 2 {
        return bad_num_of_arguments_err("REPLCONF", args);
    }
    match (args[0].try_to_string(), args[1].try_to_string()) {
        (Ok(key), Ok(val)) => {
            if str_eq(key.as_str(), "GETACK") {
                Ok(Command::ReplConfGetAck(val))
            } else if str_eq(key.as_str(), "ACK") {
                match arg_int_of_text(&args[1]) {
                    Some(n) => Ok(Command::ReplConfAck(n)),
                    None => bad_argument_err("REPLCONF"),
                }
            } else {
                Ok(Command::ReplConf(key, val))
            }
        },
        _ => bad_argument_err("REPLCONF"),
    }
}

/// `PSYNC <id> <offset>`.
fn parse_psync(args: &[Value]) -> (r: Result<Command, CommandError>)
    ensures
        agrees(r, parse_psync_args(views(args@))),
{
    if args.len() != 2 {
        return bad_num_of_arguments_err("PSYNC", args);
    }
    match (args[0].try_to_string(), arg_int_of_text(&args[1])) {
        (Ok(repl_id), Some(offset)) => Ok(Command::Psync(repl_id, offset)),
        _ => bad_argument_err("PSYNC"),
    }
}

/// `WAIT <n> <timeout-ms>`.
fn parse_wait(args: &[Value]) -> (r: Result<Command, CommandError>)
    ensures
        agrees(r, parse_wait_args(views(args@))),
{
    if args.len() != 2 {
        return bad_num_of_arguments_err("WAIT", args);
    }
    match (args[0].try_to_int(), args[1].try_to_int()) {
        (Ok(n), Ok(t)) => Ok(Command::Wait(n, t)),
        _ => bad_argument_err("WAIT"),
    }
}

/// The bytes of an ASCII text are its characters, one for one.
pub proof fn lemma_ascii_text(s: &str)
    requires
        is_ascii_chars(s@),
    ensures
        text(s).len() == s@.len(),
        forall|i: int| 0 <= i < s@.len() ==> #[trigger] text(s)[i] == s@[i] as u8,
{
    is_ascii_chars_encode_utf8(s@);
}

/// The bytes of the four-letter names.
proof fn lemma_names_of_four()
    ensures
        text("PING") == seq![80u8, 73u8, 78u8, 71u8],
        text("ECHO") == seq![69u8, 67u8, 72u8, 79u8],
        text("INFO") == seq![73u8, 78u8, 70u8, 79u8],
        text("WAIT") == seq![87u8, 65u8, 73u8, 84u8],
{
    reveal_strlit("PING");
    reveal_strlit("ECHO");
    reveal_strlit("INFO");
    reveal_strlit("WAIT");
    lemma_ascii_text("PING");
    lemma_ascii_text("ECHO");
    lemma_ascii_text("INFO");
    lemma_ascii_text("WAIT");
    assert(text("PING") =~= seq![80u8, 73u8, 78u8, 71u8]);
    assert(text("ECHO") =~= seq![69u8, 67u8, 72u8, 79u8]);
    assert(text("INFO") =~= seq![73u8, 78u8, 70u8, 79u8]);
    assert(text("WAIT") =~= seq![87u8, 65u8, 73u8, 84u8]);
}

/// The bytes of the three-letter names.
proof fn lemma_names_of_three()
    ensures
        text("GET") == seq![71u8, 69u8, 84u8],
        text("SET") == seq![83u8, 69u8, 84u8],
        text("ACK") == seq![65u8, 67u8, 75u8],
        text("px") == seq![112u8, 120u8],
{
    reveal_strlit("GET");
    reveal_strlit("SET");
    reveal_strlit("ACK");
    reveal_strlit("px");
    lemma_ascii_text("GET");
    lemma_ascii_text("SET");
    lemma_ascii_text("ACK");
    lemma_ascii_text("px");
    assert(text("GET") =~= seq![71u8, 69u8, 84u8]);
    assert(text("SET") =~= seq![83u8, 69u8, 84u8]);
    assert(text("ACK") =~= seq![65u8, 67u8, 75u8]);
    assert(text("px") =~= seq![112u8, 120u8]);
}

/// The bytes of the longer names.
proof fn lemma_names_longer()
    ensures
        text("REPLCONF") == seq![82u8, 69u8, 80u8, 76u8, 67u8, 79u8, 78u8, 70u8],
        text("PSYNC") == seq![80u8, 83u8, 89u8, 78u8, 67u8],
        text("GETACK") == seq![71u8, 69u8, 84u8, 65u8, 67u8, 75u8],
{
    reveal_strlit("REPLCONF");
    reveal_strlit("PSYNC");
    reveal_strlit("GETACK");
    lemma_ascii_text("REPLCONF");
    lemma_ascii_text("PSYNC");
    lemma_ascii_text("GETACK");
    assert(text("REPLCONF") =~= seq![82u8, 69u8, 80u8, 76u8, 67u8, 79u8, 78u8, 70u8]);
    assert(text("PSYNC") =~= seq![80u8, 83u8, 89u8, 78u8, 67u8]);
    assert(text("GETACK") =~= seq![71u8, 69u8, 84u8, 65u8, 67u8, 75u8]);
}

/// The bytes of the names that commands and their arguments go by.
pub proof fn lemma_names()
    ensures
        text("PING") == seq![80u8, 73u8, 78u8, 71u8],
        text("ECHO") == seq![69u8, 67u8, 72u8, 79u8],
        text("GET") == seq![71u8, 69u8, 84u8],
        text("INFO") == seq![73u8, 78u8, 70u8, 79u8],
        text("SET") == seq![83u8, 69u8, 84u8],
        text("REPLCONF") == seq![82u8, 69u8, 80u8, 76u8, 67u8, 79u8, 78u8, 70u8],
        text("PSYNC") == seq![80u8, 83u8, 89u8, 78u8, 67u8],
        text("WAIT") == seq![87u8, 65u8, 73u8, 84u8],
        text("px") == seq![112u8, 120u8],
        text("GETACK") == seq![71u8, 69u8, 84u8, 65u8, 67u8, 75u8],
        text("ACK") == seq![65u8, 67u8, 75u8],
{
    lemma_names_of_four();
    lemma_names_of_three();
    lemma_names_longer();
}

/// Whether `name` is none of the names that stand before `upto` in the
/// order in which the parser tries them.
pub open spec fn none_before(name: Seq<u8>, upto: nat) -> bool {
    &&& upto > 0 ==> name != text("PING")
    &&& upto > 1 ==> name != text("ECHO")
    &&& upto > 2 ==> name != text("GET")
    &&& upto > 3 ==> name != text("INFO")
    &&& upto > 4 ==> name != text("SET")
    &&& upto > 5 ==> name != text("REPLCONF")
    &&& upto > 6 ==> name != text("PSYNC")
}

/// The names of the commands differ from one another.
pub proof fn lemma_names_differ()
    ensures
        none_before(text("PING"), 0),
        none_before(text("ECHO"), 1),
        none_before(text("GET"), 2),
        none_before(text("INFO"), 3),
        none_before(text("SET"), 4),
        none_before(text("REPLCONF"), 5),
        none_before(text("PSYNC"), 6),
        none_before(text("WAIT"), 7),
{
    lemma_names();
    let ping = text("PING");
    let echo = text("ECHO");
    let get = text("GET");
    let info = text("INFO");
    let set = text("SET");
    let replconf = text("REPLCONF");
    let psync = text("PSYNC");
    let wait = text("WAIT");
    assert(ping[0] == 80 && echo[0] == 69 && get[0] == 71 && info[0] == 73 && set[0] == 83);
    assert(replconf[0] == 82 && psync[0] == 80 && wait[0] == 87);
    assert(ping.len() == 4 && psync.len() == 5);
}

/// A text written as a bulk string is read back as that text.
pub proof fn lemma_text_of_bulk(s: Seq<char>)
    ensures
        value_text(bulk_text(s)) == Ok::<Seq<char>, crate::resp::ConvertError>(s),
{
    encode_utf8_valid_utf8(s);
    encode_utf8_decode_utf8(s);
}

/// A signed numeral written as a bulk string is read back as its number,
/// as a text and as a value.
pub proof fn lemma_int_of_bulk(i: i64)
    ensures
        int_of_text(ValueView::BulkString(dec_int(i as int))) == Some(i),
        value_int(ValueView::BulkString(dec_int(i as int))) == Ok::<i64, crate::resp::ConvertError>(
            i,
        ),
{
    let d = dec_int(i as int);
    if i < 0 {
        lemma_dec_digits_shape((-i) as nat);
        assert forall|j: int| 0 <= j < d.len() implies #[trigger] d[j] < 128 by {
            if j > 0 {
                assert(d[j] == dec_digits((-i) as nat)[j - 1]);
                assert(is_digit(dec_digits((-i) as nat)[j - 1]));
            }
        }
    } else {
        lemma_dec_digits_shape(i as nat);
        assert forall|j: int| 0 <= j < d.len() implies #[trigger] d[j] < 128 by {
            assert(is_digit(d[j]));
        }
    }
    lemma_ascii_is_utf8(d);
    decode_utf8_encode_utf8(d);
    lemma_parse_signed_of_dec(i as int, i64::MIN as int, i64::MAX as int);
}

/// Whether a command is parsed back from the array that it is sent as.
///
/// A time to live beyond `i64::MAX` is written as a numeral that is not
/// read back. A `ReplConf` whose key is `GETACK` or `ACK` is sent as what
/// reads as a `ReplConfGetAck` or a `ReplConfAck`. A `WaitInternal` is sent
/// as the `Wait` that it takes up.
pub open spec fn canonical(c: CommandView) -> bool {
    match c {
        CommandView::SetKV(_, _, Some(ex)) => ex <= i64::MAX,
        CommandView::ReplConf(key, _) => key != "GETACK"@ && key != "ACK"@,
        CommandView::WaitInternal(_, _) => false,
        _ => true,
    }
}

/// An array that starts with a bulk string is parsed by the name that the
/// bulk string holds; what follows are the arguments.
proof fn lemma_dispatch(name: Seq<u8>, args: Seq<ValueView>)
    ensures
        parse_command(ValueView::Array(seq![ValueView::BulkString(name)] + args)) == parse_named(
            name,
            args,
        ),
{
    let elems = seq![ValueView::BulkString(name)] + args;
    assert(elems.skip(1) =~= args);
}

/// `SET` round-trips.
proof fn lemma_set_round_trip(k: Seq<u8>, v: Seq<u8>, ex: Option<u64>)
    requires
        ex matches Some(t) ==> t <= i64::MAX,
    ensures
        parse_set_args(to_value(CommandView::SetKV(k, v, ex))->Array_0.skip(1)) == Ok::<
            CommandView,
            CommandErrorView,
        >(CommandView::SetKV(k, v, ex)),
{
    let args = to_value(CommandView::SetKV(k, v, ex))->Array_0.skip(1);
    assert(args[0] == ValueView::BulkString(k));
    assert(args[1] == ValueView::BulkString(v));
    match ex {
        Some(t) => {
            assert(args[2] == word("px"));
            assert(args[3] == ValueView::BulkString(dec_digits(t as nat)));
            lemma_int_of_bulk(t as i64);
        },
        None => {},
    }
}

/// `REPLCONF` round-trips, in each of its three forms.
proof fn lemma_replconf_round_trip(c: CommandView)
    requires
        c is ReplConf || c is ReplConfGetAck || c is ReplConfAck,
        canonical(c),
    ensures
        parse_replconf_args(to_value(c)->Array_0.skip(1)) == Ok::<CommandView, CommandErrorView>(c),
{
    let args = to_value(c)->Array_0.skip(1);
    match c {
        CommandView::ReplConf(key, val) => {
            assert(args[0] == bulk_text(key));
            assert(args[1] == bulk_text(val));
            lemma_text_of_bulk(key);
            lemma_text_of_bulk(val);
        },
        CommandView::ReplConfGetAck(arg) => {
            assert(args[0] == word("GETACK"));
            assert(args[1] == bulk_text(arg));
            lemma_text_of_bulk("GETACK"@);
            lemma_text_of_bulk(arg);
        },
        CommandView::ReplConfAck(n) => {
            assert(args[0] == word("ACK"));
            assert(args[1] == ValueView::BulkString(dec_int(n as int)));
            lemma_text_of_bulk("ACK"@);
            lemma_int_of_bulk(n);
            reveal_strlit("ACK");
            reveal_strlit("GETACK");
            assert("ACK"@.len() != "GETACK"@.len());
        },
        _ => {},
    }
}

/// `PSYNC` and `WAIT` round-trip.
proof fn lemma_numbers_round_trip(c: CommandView)
    requires
        c is Psync || c is Wait,
    ensures
        c is Psync ==> parse_psync_args(to_value(c)->Array_0.skip(1)) == Ok::<
            CommandView,
            CommandErrorView,
        >(c),
        c is Wait ==> parse_wait_args(to_value(c)->Array_0.skip(1)) == Ok::<
            CommandView,
            CommandErrorView,
        >(c),
{
    let args = to_value(c)->Array_0.skip(1);
    match c {
        CommandView::Psync(id, off) => {
            assert(args[0] == bulk_text(id));
            assert(args[1] == ValueView::BulkString(dec_int(off as int)));
            lemma_text_of_bulk(id);
            lemma_int_of_bulk(off);
        },
        CommandView::Wait(n, t) => {
            assert(args[0] == ValueView::BulkString(dec_int(n as int)));
            assert(args[1] == ValueView::BulkString(dec_int(t as int)));
            lemma_int_of_bulk(n);
            lemma_int_of_bulk(t);
        },
        _ => {},
    }
}

/// `ECHO`, `GET` and `INFO` round-trip.
proof fn lemma_single_round_trip(c: CommandView)
    requires
        c is Echo || c is Get || c is Info,
    ensures
        c is Echo ==> parse_echo_args(to_value(c)->Array_0.skip(1)) == Ok::<
            CommandView,
            CommandErrorView,
        >(c),
        c is Get ==> parse_get_args(to_value(c)->Array_0.skip(1)) == Ok::<
            CommandView,
            CommandErrorView,
        >(c),
        c is Info ==> parse_info_args(to_value(c)->Array_0.skip(1)) == Ok::<
            CommandView,
            CommandErrorView,
        >(c),
{
    let args = to_value(c)->Array_0.skip(1);
    match c {
        CommandView::Echo(b) => {
            assert(args[0] == ValueView::BulkString(b));
        },
        CommandView::Get(b) => {
            assert(args[0] == ValueView::BulkString(b));
        },
        CommandView::Info(s) => {
            assert(args[0] == bulk_text(s));
            lemma_text_of_bulk(s);
        },
        _ => {},
    }
}

/// Parsing undoes sending: a canonical command is parsed back from the
/// array of bulk strings that it is sent as.
pub proof fn law_command_round_trip(c: CommandView)
    requires
        canonical(c),
    ensures
        parse_command(to_value(c)) == Ok::<CommandView, CommandErrorView>(c),
{
    lemma_names_differ();
    let elems = to_value(c)->Array_0;
    let args = elems.skip(1);
    assert(elems =~= seq![elems[0]] + args);
    match c {
        CommandView::Ping => {
            lemma_dispatch(text("PING"), args);
        },
        CommandView::Echo(_) => {
            lemma_dispatch(text("ECHO"), args);
            lemma_single_round_trip(c);
        },
        CommandView::Get(_) => {
            lemma_dispatch(text("GET"), args);
            lemma_single_round_trip(c);
        },
        CommandView::Info(_) => {
            lemma_dispatch(text("INFO"), args);
            lemma_single_round_trip(c);
        },
        CommandView::SetKV(k, v, ex) => {
            lemma_dispatch(text("SET"), args);
            lemma_set_round_trip(k, v, ex);
        },
        CommandView::ReplConf(_, _) | CommandView::ReplConfGetAck(_) | CommandView::ReplConfAck(_) => {
            lemma_dispatch(text("REPLCONF"), args);
            lemma_replconf_round_trip(c);
        },
        CommandView::Psync(_, _) => {
            lemma_dispatch(text("PSYNC"), args);
            lemma_numbers_round_trip(c);
        },
        CommandView::Wait(_, _) => {
            lemma_dispatch(text("WAIT"), args);
            lemma_numbers_round_trip(c);
        },
        CommandView::WaitInternal(_, _) => {},
    }
}

} // verus!
