//! A parser for the three commands `PING`, `ECHO` and `GET`.

use vstd::prelude::*;

use crate::commands::{
    agrees, bad_argument, lemma_names, parse_command, Command, CommandError, CommandErrorView,
    CommandView, ParsedCommand,
};
use crate::common::text;
use crate::resp::{lemma_array_view, Value, ValueView};

verus! {

/// The command that a value stands for, where only `PING`, `ECHO <x>` and
/// `GET <k>` are understood: an array of a name alone or of a name and one
/// bulk string, or the simple string `PING`.
pub open spec fn parse_basic(v: ValueView) -> ParsedCommand {
    match v {
        ValueView::Array(elems) => if elems.len() == 0 {
            Err(CommandErrorView::NotACommand)
        } else {
            match elems[0] {
                ValueView::BulkString(name) => if elems.len() == 1 {
                    if name == text("PING") {
                        Ok(CommandView::Ping)
                    } else {
                        Err(CommandErrorView::UnknownCommand(name))
                    }
                } else if elems.len() == 2 {
                    if name == text("ECHO") {
                        match elems[1] {
                            ValueView::BulkString(b) => Ok(CommandView::Echo(b)),
                            _ => bad_argument("ECHO"),
                        }
                    } else if name == text("GET") {
                        match elems[1] {
                            ValueView::BulkString(b) => Ok(CommandView::Get(b)),
                            _ => bad_argument("GET"),
                        }
                    } else {
                        Err(CommandErrorView::UnknownCommand(name))
                    }
                } else {
                    Err(CommandErrorView::NotACommand)
                },
                _ => Err(CommandErrorView::NotACommand),
            }
        },
        ValueView::SimpleString(b) => if b == text("PING") {
            Ok(CommandView::Ping)
        } else {
            Err(CommandErrorView::NotACommand)
        },
        _ => Err(CommandErrorView::NotACommand),
    }
}

/// Parses a value as one of the commands `PING`, `ECHO` and `GET`.
pub fn parse_cmd(val: &Value) -> (r: Result<Command, CommandError>)
    ensures
        agrees(r, parse_basic(val@)),
{
    match val {
        Value::Array(elems) => {
            proof {
                lemma_array_view(*elems);
            }
            if elems.len() == 0 {
                return Err(CommandError::NotACommand);
            }
            let n_elems: usize = elems.len();
            match &elems[0] {
                Value::BulkString(v) => {
                    if n_elems == 1 {
                        if v.is_text("PING") {
                            Ok(Command::Ping)
                        } else {
                            Err(CommandError::UnknownCommand(v.clone()))
                        }
                    } else if n_elems == 2 {
                        if v.is_text("ECHO") {
                            parse_echo(elems.as_slice())
                        } else if v.is_text("GET") {
                            parse_get(elems.as_slice())
                        } else {
                            Err(CommandError::UnknownCommand(v.clone()))
                        }
                    } else {
                        Err(CommandError::NotACommand)
                    }
                },
                _ => Err(CommandError::NotACommand),
            }
        },
        Value::SimpleString(v) => {
            if v.is_text("PING") {
                Ok(Command::Ping)
            } else {
                Err(CommandError::NotACommand)
            }
        },
        _ => Err(CommandError::NotACommand),
    }
}

/// The `ECHO` whose argument stands second in `elems`.
fn parse_echo(elems: &[Value]) -> (r: Result<Command, CommandError>)
    requires
        elems@.len() >= 2,
    ensures
        agrees(
            r,
            match elems@[1]@ {
                ValueView::BulkString(b) => Ok(CommandView::Echo(b)),
                _ => bad_argument("ECHO"),
            },
        ),
{
    match &elems[1] {
        Value::BulkString(bs) => Ok(Command::Echo(bs.clone())),
        _ => Err(CommandError::InvalidArgument("ECHO".to_owned())),
    }
}

/// The `GET` whose argument stands second in `elems`.
fn parse_get(elems: &[Value]) -> (r: Result<Command, CommandError>)
    requires
        elems@.len() >= 2,
    ensures
        agrees(
            r,
            match elems@[1]@ {
                ValueView::BulkString(b) => Ok(CommandView::Get(b)),
                _ => bad_argument("GET"),
            },
        ),
{
    match &elems[1] {
        Value::BulkString(bs) => Ok(Command::Get(bs.clone())),
        _ => Err(CommandError::InvalidArgument("GET".to_owned())),
    }
}

/// What is parsed as one of the three commands is parsed as the same
/// command where every command is understood.
pub proof fn law_basic_agrees(v: ValueView)
    requires
        parse_basic(v) is Ok,
    ensures
        parse_command(v) == parse_basic(v),
{
    lemma_names();
    match v {
        ValueView::Array(elems) => {
            if elems.len() == 2 {
                assert(elems.skip(1)[0] == elems[1]);
            }
        },
        _ => {},
    }
}

} // verus!
