use redis_starter_rust::commands::{
    bad_num_of_arguments_err, parse_cmd, str_eq, wrap, Command, CommandError,
};
use redis_starter_rust::common::Bytes;
use redis_starter_rust::resp::Value::{Array, BulkString, Int, NullBulkString, SimpleString};
use redis_starter_rust::resp::{b_str, s_str, serialize, Value};

fn words(ws: &[&str]) -> Value {
    Array(ws.iter().map(|w| b_str(w)).collect())
}

fn bad_arg(cmd: &str) -> Result<Command, CommandError> {
    Err(CommandError::InvalidArgument(cmd.to_string()))
}

#[test]
fn parse_every_command() {
    assert_eq!(parse_cmd(&words(&["PING"])), Ok(Command::Ping));
    assert_eq!(parse_cmd(&s_str("PING")), Ok(Command::Ping));
    assert_eq!(parse_cmd(&words(&["ECHO", "pears"])), Ok(Command::Echo("pears".into())));
    assert_eq!(parse_cmd(&words(&["GET", "foo"])), Ok(Command::Get("foo".into())));
    assert_eq!(
        parse_cmd(&words(&["SET", "foo", "bar"])),
        Ok(Command::SetKV("foo".into(), "bar".into(), None))
    );
    assert_eq!(
        parse_cmd(&words(&["SET", "foo", "bar", "px", "100"])),
        Ok(Command::SetKV("foo".into(), "bar".into(), Some(100)))
    );
    assert_eq!(
        parse_cmd(&words(&["INFO", "replication"])),
        Ok(Command::Info("replication".to_string()))
    );
    assert_eq!(
        parse_cmd(&words(&["REPLCONF", "listening-port", "6380"])),
        Ok(Command::ReplConf("listening-port".to_string(), "6380".to_string()))
    );
    assert_eq!(
        parse_cmd(&words(&["REPLCONF", "GETACK", "*"])),
        Ok(Command::ReplConfGetAck("*".to_string()))
    );
    assert_eq!(parse_cmd(&words(&["REPLCONF", "ACK", "31"])), Ok(Command::ReplConfAck(31)));
    assert_eq!(
        parse_cmd(&words(&["PSYNC", "?", "-1"])),
        Ok(Command::Psync("?".to_string(), -1))
    );
    assert_eq!(parse_cmd(&words(&["WAIT", "2", "500"])), Ok(Command::Wait(2, 500)));
    assert_eq!(parse_cmd(&words(&["WAIT", "0", "-5"])), Ok(Command::Wait(0, -5)));
    assert_eq!(
        parse_cmd(&Array(vec![b_str("WAIT"), Int(1), Int(0)])),
        Ok(Command::Wait(1, 0))
    );
}

#[test]
fn names_are_upper_case_only() {
    assert_eq!(
        parse_cmd(&words(&["ping"])),
        Err(CommandError::UnknownCommand("ping".into()))
    );
    assert_eq!(
        parse_cmd(&words(&["Set", "a", "b"])),
        Err(CommandError::UnknownCommand("Set".into()))
    );
    assert_eq!(
        parse_cmd(&words(&["FLUSHALL"])),
        Err(CommandError::UnknownCommand("FLUSHALL".into()))
    );
    assert_eq!(bad_arg("SET"), parse_cmd(&words(&["SET", "a", "b", "PX", "100"])));
}

#[test]
fn what_is_no_command() {
    assert_eq!(parse_cmd(&Array(vec![])), Err(CommandError::NotACommand));
    assert_eq!(parse_cmd(&Array(vec![s_str("PING")])), Err(CommandError::NotACommand));
    assert_eq!(parse_cmd(&s_str("PONG")), Err(CommandError::NotACommand));
    assert_eq!(parse_cmd(&b_str("PING")), Err(CommandError::NotACommand));
    assert_eq!(parse_cmd(&Int(1)), Err(CommandError::NotACommand));
    assert_eq!(parse_cmd(&NullBulkString), Err(CommandError::NotACommand));
}

#[test]
fn wrong_number_of_arguments() {
    let arity = |cmd: &str, args: Vec<Value>| -> Result<Command, CommandError> {
        Err(CommandError::BadArity(cmd.to_string(), args.len(), args))
    };
    assert_eq!(parse_cmd(&words(&["PING", "x"])), arity("PING", vec![b_str("x")]));
    assert_eq!(parse_cmd(&words(&["ECHO"])), arity("ECHO", vec![]));
    assert_eq!(parse_cmd(&words(&["ECHO", "a", "b"])), arity("ECHO", vec![b_str("a"), b_str("b")]));
    assert_eq!(parse_cmd(&words(&["GET"])), arity("GET", vec![]));
    assert_eq!(parse_cmd(&words(&["SET", "k"])), arity("SET", vec![b_str("k")]));
    assert_eq!(
        parse_cmd(&words(&["SET", "k", "v", "px"])),
        arity("SET", vec![b_str("k"), b_str("v"), b_str("px")])
    );
    assert_eq!(parse_cmd(&words(&["INFO"])), arity("INFO", vec![]));
    assert_eq!(parse_cmd(&words(&["REPLCONF", "capa"])), arity("REPLCONF", vec![b_str("capa")]));
    assert_eq!(parse_cmd(&words(&["PSYNC", "?"])), arity("PSYNC", vec![b_str("?")]));
    assert_eq!(parse_cmd(&words(&["WAIT", "1"])), arity("WAIT", vec![b_str("1")]));
    assert_eq!(
        bad_num_of_arguments_err("GET", &[Int(1), Int(2)]),
        arity("GET", vec![Int(1), Int(2)])
    );
}

#[test]
fn wrong_arguments() {
    assert_eq!(parse_cmd(&Array(vec![b_str("ECHO"), Int(1)])), bad_arg("ECHO"));
    assert_eq!(parse_cmd(&Array(vec![b_str("GET"), s_str("k")])), bad_arg("GET"));
    assert_eq!(parse_cmd(&Array(vec![b_str("SET"), b_str("k"), Int(1)])), bad_arg("SET"));
    assert_eq!(parse_cmd(&words(&["SET", "k", "v", "ex", "100"])), bad_arg("SET"));
    assert_eq!(parse_cmd(&words(&["SET", "k", "v", "px", "soon"])), bad_arg("SET"));
    assert_eq!(parse_cmd(&words(&["SET", "k", "v", "px", "100 "])), bad_arg("SET"));
    assert_eq!(
        parse_cmd(&Array(vec![b_str("SET"), b_str("k"), b_str("v"), b_str("px"), Int(100)])),
        bad_arg("SET")
    );
    assert_eq!(
        parse_cmd(&Array(vec![b_str("INFO"), BulkString(Bytes::from(vec![0xffu8]))])),
        bad_arg("INFO")
    );
    assert_eq!(parse_cmd(&Array(vec![b_str("INFO"), s_str("x")])), bad_arg("INFO"));
    assert_eq!(parse_cmd(&Array(vec![b_str("REPLCONF"), Int(1), b_str("x")])), bad_arg("REPLCONF"));
    assert_eq!(parse_cmd(&words(&["REPLCONF", "ACK", "many"])), bad_arg("REPLCONF"));
    assert_eq!(parse_cmd(&words(&["PSYNC", "?", "x"])), bad_arg("PSYNC"));
    assert_eq!(parse_cmd(&Array(vec![b_str("PSYNC"), b_str("?"), Int(-1)])), bad_arg("PSYNC"));
    assert_eq!(parse_cmd(&words(&["WAIT", "one", "2"])), bad_arg("WAIT"));
    assert_eq!(parse_cmd(&Array(vec![b_str("WAIT"), b_str("1"), NullBulkString])), bad_arg("WAIT"));
}

#[test]
fn replconf_takes_any_string_kind() {
    assert_eq!(
        parse_cmd(&Array(vec![b_str("REPLCONF"), s_str("capa"), NullBulkString])),
        Ok(Command::ReplConf("capa".to_string(), String::new()))
    );
    assert_eq!(
        parse_cmd(&Array(vec![b_str("PSYNC"), NullBulkString, s_str("7")])),
        Ok(Command::Psync(String::new(), 7))
    );
}

#[test]
fn negative_time_to_live_wraps() {
    assert_eq!(
        parse_cmd(&words(&["SET", "k", "v", "px", "-5"])),
        Ok(Command::SetKV("k".into(), "v".into(), Some(u64::MAX - 4)))
    );
    assert_eq!(wrap(-1), u64::MAX);
    assert_eq!(wrap(i64::MIN), 1u64 << 63);
    assert_eq!(wrap(0), 0);
    assert_eq!(wrap(i64::MAX), i64::MAX as u64);
}

#[test]
fn commands_as_arrays() {
    assert_eq!(Command::Ping.to_bulk_array(), words(&["PING"]));
    assert_eq!(Command::Echo("x".into()).to_bulk_array(), words(&["ECHO", "x"]));
    assert_eq!(Command::Get("k".into()).to_bulk_array(), words(&["GET", "k"]));
    assert_eq!(
        Command::SetKV("k".into(), "v".into(), None).to_bulk_array(),
        words(&["SET", "k", "v"])
    );
    assert_eq!(
        Command::SetKV("k".into(), "v".into(), Some(1500)).to_bulk_array(),
        words(&["SET", "k", "v", "px", "1500"])
    );
    assert_eq!(
        Command::SetKV("k".into(), "v".into(), Some(u64::MAX)).to_bulk_array(),
        words(&["SET", "k", "v", "px", "18446744073709551615"])
    );
    assert_eq!(Command::Info("replication".to_string()).to_bulk_array(), words(&["INFO", "replication"]));
    assert_eq!(
        Command::ReplConf("capa".to_string(), "psync2".to_string()).to_bulk_array(),
        words(&["REPLCONF", "capa", "psync2"])
    );
    assert_eq!(
        Command::ReplConfGetAck("*".to_string()).to_bulk_array(),
        words(&["REPLCONF", "GETACK", "*"])
    );
    assert_eq!(Command::ReplConfAck(-3).to_bulk_array(), words(&["REPLCONF", "ACK", "-3"]));
    assert_eq!(Command::Psync("?".to_string(), -1).to_bulk_array(), words(&["PSYNC", "?", "-1"]));
    assert_eq!(Command::Wait(2, 500).to_bulk_array(), words(&["WAIT", "2", "500"]));
    assert_eq!(Command::WaitInternal(2, -100).to_bulk_array(), words(&["WAIT", "2", "-100"]));
}

#[test]
fn command_on_the_wire() {
    let bytes = serialize(&Command::SetKV("foo".into(), "bar".into(), None).to_bulk_array());
    assert_eq!(bytes.into_inner(), b"*3\r\n$3\r\nSET\r\n$3\r\nfoo\r\n$3\r\nbar\r\n".to_vec());
}

#[test]
fn command_round_trip() {
    let cmds = vec![
        Command::Ping,
        Command::Echo("pears".into()),
        Command::Echo(Bytes::from(vec![0u8, 255, 13, 10])),
        Command::Get("".into()),
        Command::SetKV("k".into(), "v".into(), None),
        Command::SetKV("k".into(), "v".into(), Some(0)),
        Command::SetKV("k".into(), "v".into(), Some(i64::MAX as u64)),
        Command::Info("replication".to_string()),
        Command::Info("käse".to_string()),
        Command::ReplConf("listening-port".to_string(), "6380".to_string()),
        Command::ReplConf("getack".to_string(), "*".to_string()),
        Command::ReplConfGetAck("*".to_string()),
        Command::ReplConfAck(0),
        Command::ReplConfAck(i64::MIN),
        Command::Psync("?".to_string(), -1),
        Command::Psync("8371b4fb1155b71f4a04d3e1bc3e18c4a990aeeb".to_string(), 1234),
        Command::Wait(0, 0),
        Command::Wait(i64::MAX, i64::MIN),
    ];
    for c in cmds {
        assert_eq!(parse_cmd(&c.to_bulk_array()), Ok(c.clone()));
    }
}

#[test]
fn commands_that_do_not_round_trip() {
    let far = Command::SetKV("k".into(), "v".into(), Some(1u64 << 63));
    assert_eq!(parse_cmd(&far.to_bulk_array()), bad_arg("SET"));
    let getack = Command::ReplConf("GETACK".to_string(), "*".to_string());
    assert_eq!(
        parse_cmd(&getack.to_bulk_array()),
        Ok(Command::ReplConfGetAck("*".to_string()))
    );
    let ack = Command::ReplConf("ACK".to_string(), "5".to_string());
    assert_eq!(parse_cmd(&ack.to_bulk_array()), Ok(Command::ReplConfAck(5)));
    let again = Command::WaitInternal(1, 100);
    assert_eq!(parse_cmd(&again.to_bulk_array()), Ok(Command::Wait(1, 100)));
}

#[test]
fn error_texts() {
    assert_eq!(CommandError::NotACommand.to_string(), "not a command");
    assert_eq!(CommandError::UnknownCommand("X".into()).to_string(), "unknown command");
    assert_eq!(CommandError::InvalidArgument("X".to_string()).to_string(), "invalid argument");
    assert_eq!(
        CommandError::BadArity("X".to_string(), 0, vec![]).to_string(),
        "wrong number of arguments"
    );
}

#[test]
fn texts_compare_by_content() {
    assert!(str_eq("abc", "abc"));
    assert!(!str_eq("abc", "abd"));
    assert!(!str_eq("abc", "ab"));
    assert!(str_eq("", ""));
    assert!(str_eq("käse", "käse"));
}

#[test]
fn simple_string_ping_only() {
    assert_eq!(parse_cmd(&SimpleString("PING".into())), Ok(Command::Ping));
    assert_eq!(parse_cmd(&SimpleString("ECHO".into())), Err(CommandError::NotACommand));
}
