//! Answers to the commands that need no store.

use vstd::prelude::*;

use crate::commands::{Command, CommandError, CommandErrorView, CommandView};
use crate::common::text;
use crate::resp::{s_str, Value, ValueView};

verus! {

/// The answer that needs no store: `PONG` to a `PING`, its argument to an
/// `ECHO`, and a simple error to every other command and to what is no
/// command.
pub open spec fn answer(c: Result<CommandView, CommandErrorView>) -> ValueView {
    match c {
        Err(CommandErrorView::BadArity(_, _, _)) => ValueView::SimpleError(
            "wrong number of arguments"@,
        ),
        Err(CommandErrorView::UnknownCommand(_)) => ValueView::SimpleError("unknown command"@),
        Err(CommandErrorView::InvalidArgument(_)) => ValueView::SimpleError("invalid argument"@),
        Err(CommandErrorView::NotACommand) => ValueView::SimpleError("not a command"@),
        Ok(CommandView::Ping) => ValueView::SimpleString(text("PONG")),
        Ok(CommandView::Echo(a)) => ValueView::BulkString(a),
        Ok(_) => ValueView::SimpleError("cannot handle this command"@),
    }
}

/// What a parsed command stands for, or the error in its place.
pub open spec fn parsed_view(r: &Result<Command, CommandError>) -> Result<
    CommandView,
    CommandErrorView,
> {
    match r {
        Ok(c) => Ok(c@),
        Err(e) => Err(e@),
    }
}

/// Answers a command without a store.
pub fn process_cmd(cmd_res: &Result<Command, CommandError>) -> (r: Value)
    ensures
        r@ == answer(parsed_view(cmd_res)),
{
    match cmd_res {
        Err(e) => Value::SimpleError(e.to_string()),
        Ok(cmd) => match cmd {
            Command::Ping => s_str("PONG"),
            Command::Echo(a) => Value::BulkString(a.clone()),
            _ => Value::SimpleError("cannot handle this command".to_owned()),
        },
    }
}

} // verus!
