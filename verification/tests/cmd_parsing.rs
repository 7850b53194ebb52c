use redis_starter_rust::cmd_parsing::parse_cmd;
use redis_starter_rust::cmd_proc::process_cmd;
use redis_starter_rust::commands::{Command, CommandError};
use redis_starter_rust::resp::Value;
use redis_starter_rust::resp::Value::{Array, BulkString, Int, SimpleString};

#[test]
fn parse_echo() {
    let val = Array(vec![BulkString("ECHO".into()), BulkString("teo".into())]);
    let expected = Command::Echo("teo".into());
    let cmd = parse_cmd(&val).unwrap();

    assert_eq!(cmd, expected);
}

#[test]
fn parse_simple_ping() {
    let val = SimpleString("PING".into());
    let expected = Command::Ping;
    let cmd = parse_cmd(&val).unwrap();

    assert_eq!(cmd, expected);
}

#[test]
fn parse_bulk_ping() {
    let val = Array(vec![BulkString("PING".into())]);
    let expected = Command::Ping;
    let cmd = parse_cmd(&val).unwrap();

    assert_eq!(cmd, expected);
}

#[test]
fn basic_parse_get() {
    let val = Array(vec![BulkString("GET".into()), BulkString("foo".into())]);
    assert_eq!(parse_cmd(&val).unwrap(), Command::Get("foo".into()));
}

#[test]
fn basic_parse_rejects_unknown_names() {
    let one = Array(vec![BulkString("PONG".into())]);
    assert_eq!(parse_cmd(&one), Err(CommandError::UnknownCommand("PONG".into())));
    let two = Array(vec![BulkString("SET".into()), BulkString("k".into())]);
    assert_eq!(parse_cmd(&two), Err(CommandError::UnknownCommand("SET".into())));
    let lower = Array(vec![BulkString("ping".into())]);
    assert_eq!(parse_cmd(&lower), Err(CommandError::UnknownCommand("ping".into())));
}

#[test]
fn basic_parse_rejects_what_is_no_command() {
    assert_eq!(parse_cmd(&Array(vec![])), Err(CommandError::NotACommand));
    assert_eq!(parse_cmd(&Int(3)), Err(CommandError::NotACommand));
    assert_eq!(parse_cmd(&SimpleString("PONG".into())), Err(CommandError::NotACommand));
    assert_eq!(parse_cmd(&Array(vec![Int(1), Int(2)])), Err(CommandError::NotACommand));
    let three = Array(vec![
        BulkString("ECHO".into()),
        BulkString("a".into()),
        BulkString("b".into()),
    ]);
    assert_eq!(parse_cmd(&three), Err(CommandError::NotACommand));
}

#[test]
fn basic_parse_rejects_wrong_argument() {
    let val = Array(vec![BulkString("ECHO".into()), Int(5)]);
    assert_eq!(parse_cmd(&val), Err(CommandError::InvalidArgument("ECHO".to_string())));
    let val = Array(vec![BulkString("GET".into()), Value::NullBulkString]);
    assert_eq!(parse_cmd(&val), Err(CommandError::InvalidArgument("GET".to_string())));
}

#[test]
fn process_ping_and_echo() {
    assert_eq!(process_cmd(&Ok(Command::Ping)), SimpleString("PONG".into()));
    assert_eq!(process_cmd(&Ok(Command::Echo("pears".into()))), BulkString("pears".into()));
}

#[test]
fn process_other_commands_and_errors() {
    assert_eq!(
        process_cmd(&Ok(Command::Get("k".into()))),
        Value::SimpleError("cannot handle this command".to_string())
    );
    assert_eq!(
        process_cmd(&Err(CommandError::NotACommand)),
        Value::SimpleError("not a command".to_string())
    );
    assert_eq!(
        process_cmd(&Err(CommandError::UnknownCommand("X".into()))),
        Value::SimpleError("unknown command".to_string())
    );
    assert_eq!(
        process_cmd(&Err(CommandError::InvalidArgument("GET".to_string()))),
        Value::SimpleError("invalid argument".to_string())
    );
    assert_eq!(
        process_cmd(&Err(CommandError::BadArity("GET".to_string(), 0, vec![]))),
        Value::SimpleError("wrong number of arguments".to_string())
    );
}
