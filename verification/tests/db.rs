use redis_starter_rust::commands::{parse_cmd, Command};
use redis_starter_rust::config::{InstanceConfig, Role};
use redis_starter_rust::db::{
    answer_due, get_empty_rdb_bytes, handshake_reply_ok, Db, Outcome, ValAndExpiry,
};
use redis_starter_rust::deser::{
    deserialize, deserialize_many, deserialize_v1, DecodeError, RespDeserializer,
};
use redis_starter_rust::resp::Value::{Array, BulkError, FileContents, Int, NullBulkString};
use redis_starter_rust::resp::{b_str, s_str, serialize, Value};
use redis_starter_rust::svc::{make_query, session_step, Query, ToReplica};

const SEED: u64 = 1700000000000;
const ID: &str = "e7f2b274301a9800e7f2";
const T0: u64 = 1_000_000;
const CLIENT: &str = "127.0.0.1:50000";
const GETACK: &[u8] = b"*3\r\n$8\r\nREPLCONF\r\n$6\r\nGETACK\r\n$1\r\n*\r\n";

fn master() -> Db {
    Db::new(InstanceConfig::default(), SEED)
}

fn replica(port: u32) -> Db {
    Db::new(InstanceConfig::new(port, Some("localhost 6379".to_string())), SEED + 1)
}

fn query(cmd: Command, from: &str) -> Query {
    Query::new(cmd, 0, from.to_string())
}

fn run(db: &mut Db, cmd: Command, from: &str, now: u64) -> Outcome {
    let q = query(cmd, from);
    assert!(db.can_handle(&q, now));
    db.handle_query(&q, now)
}

/// Sends `input` as one client would and returns what the session writes back.
fn talk(db: &mut Db, input: &[u8], now: u64) -> Vec<u8> {
    let (val, n) = deserialize(input).unwrap();
    assert_eq!(n, input.len());
    let q = make_query(&val, n, CLIENT).unwrap();
    assert!(db.can_handle(&q, now));
    let out = db.handle_query(&q, now);
    match session_step(false, &out.result).reply {
        Some(bytes) => bytes.into_inner(),
        None => Vec::new(),
    }
}

fn sent(out: &Outcome) -> Vec<(String, Vec<u8>, String)> {
    out.outbox
        .iter()
        .map(|o| match &o.msg {
            ToReplica::Bytes(b, note) => (o.to.clone(), b.clone(), note.clone()),
        })
        .collect()
}

#[test]
fn ping_is_answered_with_pong() {
    let mut db = master();
    assert_eq!(talk(&mut db, b"*1\r\n$4\r\nPING\r\n", T0), b"+PONG\r\n".to_vec());
}

#[test]
fn echo_is_answered_with_its_argument() {
    let mut db = master();
    assert_eq!(
        talk(&mut db, b"*2\r\n$4\r\nECHO\r\n$5\r\npears\r\n", T0),
        b"$5\r\npears\r\n".to_vec()
    );
}

#[test]
fn set_then_get() {
    let mut db = master();
    assert_eq!(
        talk(&mut db, b"*3\r\n$3\r\nSET\r\n$3\r\nfoo\r\n$3\r\nbar\r\n", T0),
        b"+OK\r\n".to_vec()
    );
    assert_eq!(talk(&mut db, b"*2\r\n$3\r\nGET\r\n$3\r\nfoo\r\n", T0), b"$3\r\nbar\r\n".to_vec());
    assert_eq!(talk(&mut db, b"*2\r\n$3\r\nGET\r\n$3\r\nfoo\r\n", T0 + 1_000_000), b"$3\r\nbar\r\n".to_vec());
}

#[test]
fn set_px_then_get_in_time_and_late() {
    let mut db = master();
    let set = b"*5\r\n$3\r\nSET\r\n$3\r\nfoo\r\n$3\r\nbar\r\n$2\r\npx\r\n$3\r\n100\r\n";
    let get = b"*2\r\n$3\r\nGET\r\n$3\r\nfoo\r\n";
    assert_eq!(talk(&mut db, set, T0), b"+OK\r\n".to_vec());
    assert_eq!(talk(&mut db, get, T0 + 50), b"$3\r\nbar\r\n".to_vec());
    assert_eq!(talk(&mut db, get, T0 + 99), b"$3\r\nbar\r\n".to_vec());
    assert_eq!(talk(&mut db, get, T0 + 100), b"$-1\r\n".to_vec());
    assert_eq!(talk(&mut db, get, T0 + 200), b"$-1\r\n".to_vec());
}

#[test]
fn info_replication_on_master() {
    let mut db = master();
    let reply = talk(&mut db, b"*2\r\n$4\r\nINFO\r\n$11\r\nreplication\r\n", T0);
    let body = format!("role:master\r\nmaster_replid:{ID}\r\nmaster_repl_offset:0");
    let expected = format!("${}\r\n{}\r\n", body.len(), body);
    assert_eq!(reply, expected.into_bytes());
    assert_eq!(ID.len(), 20);
    assert!(ID.bytes().all(|b| b.is_ascii_hexdigit()));
    assert_eq!(db.replication_id(), ID);
}

#[test]
fn handshake() {
    let mut master = master();
    let joining = replica(6380);
    assert_eq!(joining.master_address(), Some("localhost:6379".to_string()));
    assert_eq!(master.master_address(), None);
    let plan = joining.handshake_commands();
    assert_eq!(
        plan,
        vec![
            Command::Ping,
            Command::ReplConf("listening-port".to_string(), "6380".to_string()),
            Command::ReplConf("capa".to_string(), "psync2".to_string()),
            Command::Psync("?".to_string(), -1),
        ]
    );
    let peer = "127.0.0.1 41000";
    let addr = "127.0.0.1:41000";
    let mut replies: Vec<Vec<u8>> = Vec::new();
    let mut handed_over = false;
    for (step, cmd) in plan.iter().enumerate() {
        let wire = serialize(&cmd.to_bulk_array()).into_inner();
        let (val, n) = deserialize(&wire).unwrap();
        assert_eq!(n, wire.len());
        let seen = parse_cmd(&val).unwrap();
        assert_eq!(&seen, cmd);
        let q = Query::new(seen, n, addr.to_string());
        assert!(master.can_handle(&q, T0));
        let out = master.handle_query(&q, T0);
        assert!(out.outbox.is_empty());
        assert!(out.retry.is_none());
        assert!(handshake_reply_ok(step, &out.result.vals[0]));
        let did = session_step(false, &out.result);
        handed_over = did.hand_over;
        replies.push(did.reply.unwrap().into_inner());
    }
    assert_eq!(replies[0], b"+PONG\r\n".to_vec());
    assert_eq!(replies[1], b"+OK\r\n".to_vec());
    assert_eq!(replies[2], b"+OK\r\n".to_vec());
    let mut last = format!("+FULLRESYNC {ID} 0\r\n$88\r\n").into_bytes();
    last.extend(get_empty_rdb_bytes());
    assert_eq!(replies[3], last);
    assert!(handed_over);

    assert_eq!(master.replica_count(), 0);
    let first = master.register_replica(peer);
    assert_eq!((first.key.as_str(), first.is_new), (addr, true));
    let again = master.register_replica(addr);
    assert_eq!((again.key.as_str(), again.is_new), (addr, false));
    assert_eq!(master.replica_count(), 1);

    let mut reader = RespDeserializer::from_reader(&replies[3]);
    let (first, n) = deserialize_v1(&mut reader).unwrap();
    assert_eq!(first, s_str(&format!("FULLRESYNC {ID} 0")));
    assert_eq!(n, 36);
    assert_eq!(reader.deserialize_file(), Ok(FileContents(get_empty_rdb_bytes().into())));
    assert_eq!(deserialize_v1(&mut reader), Err(DecodeError::UnexpectedEof));
}

#[test]
fn handshake_replies_as_expected() {
    assert!(handshake_reply_ok(0, &s_str("PONG")));
    assert!(!handshake_reply_ok(0, &s_str("OK")));
    assert!(!handshake_reply_ok(0, &b_str("PONG")));
    assert!(handshake_reply_ok(1, &s_str("OK")));
    assert!(handshake_reply_ok(2, &s_str("OK")));
    assert!(!handshake_reply_ok(2, &s_str("PONG")));
    assert!(handshake_reply_ok(3, &s_str("FULLRESYNC abc 0")));
    assert!(handshake_reply_ok(3, &s_str("FULLRESYNC ")));
    assert!(!handshake_reply_ok(3, &s_str("FULLRESYNC")));
    assert!(!handshake_reply_ok(3, &s_str("CONTINUE")));
    assert!(!handshake_reply_ok(4, &s_str("OK")));
}

#[test]
fn get_of_a_key_never_set() {
    let mut db = master();
    let out = run(&mut db, Command::Get("nope".into()), CLIENT, T0);
    assert_eq!(out.result.vals, vec![NullBulkString]);
    assert!(!out.result.pass_stream);
}

#[test]
fn set_overwrites() {
    let mut db = master();
    run(&mut db, Command::SetKV("k".into(), "one".into(), Some(10)), CLIENT, T0);
    run(&mut db, Command::SetKV("other".into(), "x".into(), None), CLIENT, T0);
    run(&mut db, Command::SetKV("k".into(), "two".into(), None), CLIENT, T0 + 1);
    let out = run(&mut db, Command::Get("k".into()), CLIENT, T0 + 1000);
    assert_eq!(out.result.vals, vec![b_str("two")]);
    let out = run(&mut db, Command::Get("other".into()), CLIENT, T0 + 1000);
    assert_eq!(out.result.vals, vec![b_str("x")]);
}

#[test]
fn a_value_without_time_to_live_is_gone_at_the_end_of_time_only() {
    let mut db = master();
    run(&mut db, Command::SetKV("k".into(), "v".into(), None), CLIENT, T0);
    let out = run(&mut db, Command::Get("k".into()), CLIENT, u64::MAX - 1);
    assert_eq!(out.result.vals, vec![b_str("v")]);
    let out = run(&mut db, Command::Get("k".into()), CLIENT, u64::MAX);
    assert_eq!(out.result.vals, vec![NullBulkString]);
}

#[test]
fn entries_run_out_at_their_time() {
    let _forever = ValAndExpiry::new("v".into(), None, T0);
    let _soon = ValAndExpiry::new("v".into(), Some(0), u64::MAX);
    let mut db = master();
    run(&mut db, Command::SetKV("k".into(), "v".into(), Some(0)), CLIENT, T0);
    let out = run(&mut db, Command::Get("k".into()), CLIENT, T0);
    assert_eq!(out.result.vals, vec![NullBulkString]);
}

#[test]
fn queries_that_the_store_cannot_take() {
    let db = master();
    assert!(!db.can_handle(&query(Command::Psync("abc".to_string(), 5), CLIENT), T0));
    assert!(!db.can_handle(&query(Command::Psync("?".to_string(), 0), CLIENT), T0));
    assert!(db.can_handle(&query(Command::Psync("?".to_string(), -1), CLIENT), T0));
    let late = Command::SetKV("k".into(), "v".into(), Some(10));
    assert!(!db.can_handle(&query(late.clone(), CLIENT), u64::MAX - 5));
    assert!(db.can_handle(&query(late, CLIENT), u64::MAX - 10));
    let wrapped = Command::SetKV("k".into(), "v".into(), Some(u64::MAX));
    assert!(!db.can_handle(&query(wrapped.clone(), CLIENT), 1));
    assert!(db.can_handle(&query(wrapped, CLIENT), 0));
    let mut heavy = query(Command::Ping, CLIENT);
    heavy.deser_byte_cnt = usize::MAX;
    assert!(db.can_handle(&heavy, T0));
    let mut db = master();
    let mut one = query(Command::Ping, CLIENT);
    one.deser_byte_cnt = 1;
    db.handle_query(&one, T0);
    assert!(!db.can_handle(&heavy, T0));
    heavy.cmd = Command::Psync("?".to_string(), -1);
    assert!(db.can_handle(&heavy, T0));
}

#[test]
fn info_of_other_sections_and_of_a_replica() {
    let mut db = master();
    let out = run(&mut db, Command::Info("keyspace".to_string()), CLIENT, T0);
    assert_eq!(out.result.vals, vec![NullBulkString]);
    let mut db = replica(6380);
    assert_eq!(db.config().role(), Role::Slave);
    let out = run(&mut db, Command::Info("replication".to_string()), CLIENT, T0);
    let id = db.replication_id().clone();
    assert_eq!(
        out.result.vals,
        vec![b_str(&format!("role:slave\r\nmaster_replid:{id}\r\nmaster_repl_offset:0"))]
    );
}

#[test]
fn replconf_answers() {
    let mut db = master();
    let conf = |k: &str, v: &str| Command::ReplConf(k.to_string(), v.to_string());
    assert_eq!(run(&mut db, conf("listening-port", "6380"), CLIENT, T0).result.vals, vec![Value::ok()]);
    assert_eq!(run(&mut db, conf("capa", "psync2"), CLIENT, T0).result.vals, vec![Value::ok()]);
    assert_eq!(
        run(&mut db, conf("capa", "eof"), CLIENT, T0).result.vals,
        vec![BulkError("Can't handle capa=`eof`".to_string())]
    );
    assert_eq!(
        run(&mut db, conf("mode", "x"), CLIENT, T0).result.vals,
        vec![BulkError("Can't handle repl_conf key=`mode`".to_string())]
    );
    assert_eq!(db.replica_count(), 0);
}

#[test]
fn psync_hands_the_stream_over() {
    let mut db = master();
    let mut q = query(Command::Psync("?".to_string(), -1), CLIENT);
    q.deser_byte_cnt = 30;
    let out = db.handle_query(&q, T0);
    assert_eq!(
        out.result.vals,
        vec![s_str(&format!("FULLRESYNC {ID} 0")), FileContents(get_empty_rdb_bytes().into())]
    );
    assert!(out.result.pass_stream);
    assert_eq!(out.result.repl_byte_cnt_inc, 0);
    assert_eq!(db.repl_byte_cnt(), 0);
}

#[test]
fn set_without_replicas_sends_nothing() {
    let mut db = master();
    let out = run(&mut db, Command::SetKV("foo".into(), "bar".into(), None), CLIENT, T0);
    assert_eq!(out.result.vals, vec![Value::ok()]);
    assert!(out.outbox.is_empty());
    assert!(out.retry.is_none());
    assert_eq!(db.replication_offset(), 0);
}

#[test]
fn set_goes_to_every_replica_and_moves_the_offset() {
    let mut db = master();
    assert!(db.register_replica("10.0.0.1:7001").is_new);
    assert!(db.register_replica("10.0.0.2 7002").is_new);
    let out = run(&mut db, Command::SetKV("foo".into(), "bar".into(), None), CLIENT, T0);
    let wire = b"*3\r\n$3\r\nSET\r\n$3\r\nfoo\r\n$3\r\nbar\r\n".to_vec();
    assert_eq!(wire.len(), 31);
    assert_eq!(
        sent(&out),
        vec![
            ("10.0.0.1:7001".to_string(), wire.clone(), "attempting replication".to_string()),
            ("10.0.0.2:7002".to_string(), wire.clone(), "attempting replication".to_string()),
        ]
    );
    assert_eq!(db.replication_offset(), 31);
    let out = run(&mut db, Command::SetKV("foo".into(), "bar".into(), Some(100)), CLIENT, T0);
    let wire_px = b"*5\r\n$3\r\nSET\r\n$3\r\nfoo\r\n$3\r\nbar\r\n$2\r\npx\r\n$3\r\n100\r\n".to_vec();
    assert_eq!(sent(&out)[1].1, wire_px);
    assert_eq!(db.replication_offset(), 31 + wire_px.len() as u64);
    run(&mut db, Command::Get("foo".into()), CLIENT, T0);
    run(&mut db, Command::Ping, CLIENT, T0);
    assert_eq!(db.replication_offset(), 31 + 48);
}

#[test]
fn replica_counts_what_the_master_sent() {
    let mut master = master();
    master.register_replica("10.0.0.1:7001");
    let writes = vec![
        Command::SetKV("a".into(), "1".into(), None),
        Command::SetKV("bb".into(), "22".into(), Some(5000)),
        Command::SetKV("a".into(), "333".into(), None),
    ];
    let mut feed: Vec<u8> = Vec::new();
    for w in writes {
        let out = run(&mut master, w, CLIENT, T0);
        feed.extend(sent(&out)[0].1.clone());
    }
    assert_eq!(master.replication_offset(), feed.len() as u64);

    let mut follower = replica(7001);
    let mut at = 0;
    while at < feed.len() {
        let (val, n) = deserialize(&feed[at..]).unwrap();
        let q = make_query(&val, n, "10.0.0.9:6379").unwrap();
        assert!(follower.can_handle(&q, T0));
        let out = follower.handle_query(&q, T0);
        assert!(session_step(true, &out.result).reply.is_none());
        at += n;
    }
    assert_eq!(follower.repl_byte_cnt() as u64, master.replication_offset());
    let (vals, total) = deserialize_many(&feed).unwrap();
    assert_eq!((vals.len(), total), (3, feed.len()));
    let out = run(&mut follower, Command::Get("a".into()), CLIENT, T0);
    assert_eq!(out.result.vals, vec![b_str("333")]);
}

#[test]
fn getack_reports_the_count_before_itself() {
    let mut follower = replica(7001);
    let set = b"*3\r\n$3\r\nSET\r\n$3\r\nfoo\r\n$3\r\nbar\r\n";
    let (val, n) = deserialize(set).unwrap();
    follower.handle_query(&make_query(&val, n, "10.0.0.9:6379").unwrap(), T0);
    assert_eq!(follower.repl_byte_cnt(), 31);
    let (val, n) = deserialize(GETACK).unwrap();
    assert_eq!(n, 37);
    let out = follower.handle_query(&make_query(&val, n, "10.0.0.9:6379").unwrap(), T0);
    assert_eq!(out.result.vals, vec![Array(vec![b_str("REPLCONF"), b_str("ACK"), b_str("31")])]);
    assert_eq!(
        session_step(true, &out.result).reply.map(|b| b.into_inner()),
        Some(b"*3\r\n$8\r\nREPLCONF\r\n$3\r\nACK\r\n$2\r\n31\r\n".to_vec())
    );
    assert_eq!(follower.repl_byte_cnt(), 68);
}

#[test]
fn acknowledgements_are_kept_per_replica() {
    let mut db = master();
    db.register_replica("10.0.0.1:7001");
    db.register_replica("10.0.0.2:7002");
    run(&mut db, Command::SetKV("foo".into(), "bar".into(), None), CLIENT, T0);
    let out = run(&mut db, Command::ReplConfAck(31), "10.0.0.1:7001", T0);
    assert!(out.result.vals.is_empty());
    assert!(out.outbox.is_empty());
    assert!(!out.result.pass_stream);
    let out = run(&mut db, Command::WaitInternal(2, 0), CLIENT, T0);
    assert_eq!(out.result.vals, vec![Int(1)]);
    run(&mut db, Command::ReplConfAck(31), "10.0.0.3:7003", T0);
    let out = run(&mut db, Command::WaitInternal(2, 0), CLIENT, T0);
    assert_eq!(out.result.vals, vec![Int(1)]);
    run(&mut db, Command::ReplConfAck(30), "10.0.0.2:7002", T0);
    let out = run(&mut db, Command::WaitInternal(2, 0), CLIENT, T0);
    assert_eq!(out.result.vals, vec![Int(1)]);
    run(&mut db, Command::ReplConfAck(99), "10.0.0.2:7002", T0);
    let out = run(&mut db, Command::WaitInternal(2, 0), CLIENT, T0);
    assert_eq!(out.result.vals, vec![Int(2)]);
    assert_eq!(db.replica_count(), 2);
}

#[test]
fn wait_with_nothing_pending_answers_at_once() {
    let mut db = master();
    let out = run(&mut db, Command::Wait(0, 0), CLIENT, T0);
    assert_eq!(out.result.vals, vec![Int(0)]);
    db.register_replica("10.0.0.1:7001");
    db.register_replica("10.0.0.2:7002");
    db.register_replica("10.0.0.3:7003");
    let out = run(&mut db, Command::Wait(5, 0), CLIENT, T0);
    assert_eq!(out.result.vals, vec![Int(3)]);
    assert!(out.retry.is_none());
    let out = run(&mut db, Command::Wait(2, 5000), CLIENT, T0);
    assert_eq!(out.result.vals, vec![Int(3)]);
    assert!(out.retry.is_none());
    let out = run(&mut db, Command::Wait(-1, 5000), CLIENT, T0);
    assert_eq!(out.result.vals, vec![Int(3)]);
    let out = run(&mut db, Command::Wait(5, -1), CLIENT, T0);
    assert_eq!(out.result.vals, vec![Int(3)]);
}

#[test]
fn wait_asks_every_replica_once() {
    let mut db = master();
    db.register_replica("10.0.0.1:7001");
    db.register_replica("10.0.0.2:7002");
    let out = run(&mut db, Command::Wait(2, 0), CLIENT, T0);
    assert_eq!(
        sent(&out),
        vec![
            ("10.0.0.1:7001".to_string(), GETACK.to_vec(), "requesting getack".to_string()),
            ("10.0.0.2:7002".to_string(), GETACK.to_vec(), "requesting getack".to_string()),
        ]
    );
    let out = run(&mut db, Command::WaitInternal(2, 0), CLIENT, T0);
    assert!(out.outbox.is_empty());
    assert_eq!(db.replication_offset(), 0);
}

#[test]
fn wait_times_out_when_no_replica_answers() {
    let mut db = master();
    db.register_replica("10.0.0.1:7001");
    db.register_replica("10.0.0.2:7002");
    run(&mut db, Command::SetKV("foo".into(), "bar".into(), None), CLIENT, T0);
    let mut q = query(Command::Wait(2, 100), CLIENT);
    q.deser_byte_cnt = 30;
    let out = db.handle_query(&q, T0);
    assert!(out.result.vals.is_empty());
    assert_eq!(out.outbox.len(), 2);
    assert!(session_step(false, &out.result).reply.is_none());
    let retry = out.retry.unwrap();
    assert_eq!(retry.delay_ms, 100);
    assert_eq!(retry.query.cmd, Command::WaitInternal(2, 0));
    assert_eq!(retry.query.deser_byte_cnt, 30);
    assert_eq!(retry.query.client_info.host, "127.0.0.1");
    assert_eq!(retry.query.client_info.port, "50000");
    let out = db.handle_query(&retry.query, T0 + 100);
    assert_eq!(out.result.vals, vec![Int(0)]);
    assert!(out.retry.is_none());
    assert!(out.outbox.is_empty());
    assert_eq!(
        session_step(false, &out.result).reply.map(|b| b.into_inner()),
        Some(b":0\r\n".to_vec())
    );
}

#[test]
fn wait_is_put_off_in_steps_of_a_hundred() {
    let mut db = master();
    db.register_replica("10.0.0.1:7001");
    run(&mut db, Command::SetKV("foo".into(), "bar".into(), None), CLIENT, T0);
    let out = run(&mut db, Command::Wait(1, 250), CLIENT, T0);
    let first = out.retry.unwrap();
    assert_eq!((first.delay_ms, &first.query.cmd), (100, &Command::WaitInternal(1, 150)));
    let second = db.handle_query(&first.query, T0).retry.unwrap();
    assert_eq!((second.delay_ms, &second.query.cmd), (100, &Command::WaitInternal(1, 50)));
    let third = db.handle_query(&second.query, T0).retry.unwrap();
    assert_eq!((third.delay_ms, &third.query.cmd), (50, &Command::WaitInternal(1, -50)));
    let last = db.handle_query(&third.query, T0);
    assert_eq!(last.result.vals, vec![Int(0)]);
    assert!(last.retry.is_none());
}

#[test]
fn wait_answers_as_soon_as_enough_replicas_acknowledge() {
    let mut db = master();
    db.register_replica("10.0.0.1:7001");
    db.register_replica("10.0.0.2:7002");
    run(&mut db, Command::SetKV("foo".into(), "bar".into(), None), CLIENT, T0);
    let out = run(&mut db, Command::Wait(2, 5000), CLIENT, T0);
    let retry = out.retry.unwrap();
    assert_eq!(retry.query.cmd, Command::WaitInternal(2, 4900));
    run(&mut db, Command::ReplConfAck(31), "10.0.0.1:7001", T0 + 10);
    run(&mut db, Command::ReplConfAck(31), "10.0.0.2:7002", T0 + 20);
    let out = db.handle_query(&retry.query, T0 + 100);
    assert_eq!(out.result.vals, vec![Int(2)]);
    assert!(out.retry.is_none());
    let out = run(&mut db, Command::Wait(2, 5000), CLIENT, T0 + 200);
    assert_eq!(out.result.vals, vec![Int(2)]);
    assert!(out.retry.is_none());
}

#[test]
fn every_query_but_psync_counts_its_bytes() {
    let mut db = replica(7001);
    let mut q = query(Command::Ping, CLIENT);
    q.deser_byte_cnt = 14;
    let out = db.handle_query(&q, T0);
    assert_eq!(out.result.repl_byte_cnt_inc, 14);
    assert_eq!(db.repl_byte_cnt(), 14);
    let out = db.execute(&q, T0);
    assert_eq!(out.result.repl_byte_cnt_inc, 14);
    assert_eq!(db.repl_byte_cnt(), 14);
    q.cmd = Command::ReplConfAck(3);
    db.handle_query(&q, T0);
    assert_eq!(db.repl_byte_cnt(), 28);
}

#[test]
fn a_replica_that_joins_again_starts_from_zero() {
    let mut db = master();
    db.register_replica("10.0.0.1:7001");
    db.register_replica("10.0.0.2:7002");
    run(&mut db, Command::SetKV("foo".into(), "bar".into(), None), CLIENT, T0);
    run(&mut db, Command::ReplConfAck(31), "10.0.0.1:7001", T0);
    run(&mut db, Command::ReplConfAck(31), "10.0.0.2:7002", T0);
    let out = run(&mut db, Command::WaitInternal(2, 0), CLIENT, T0);
    assert_eq!(out.result.vals, vec![Int(2)]);

    let again = db.register_replica("10.0.0.1 7001");
    assert_eq!((again.key.as_str(), again.is_new), ("10.0.0.1:7001", false));
    assert_eq!(db.replica_count(), 2);
    assert_eq!(db.replication_offset(), 31);
    let out = run(&mut db, Command::WaitInternal(2, 0), CLIENT, T0);
    assert_eq!(out.result.vals, vec![Int(1)]);
    let out = run(&mut db, Command::SetKV("a".into(), "b".into(), None), CLIENT, T0);
    let to: Vec<String> = sent(&out).into_iter().map(|m| m.0).collect();
    assert_eq!(to, vec!["10.0.0.1:7001".to_string(), "10.0.0.2:7002".to_string()]);
    let out = run(&mut db, Command::Get("foo".into()), CLIENT, T0);
    assert_eq!(out.result.vals, vec![b_str("bar")]);
}

#[test]
fn answers_with_values_go_back_and_others_do_not() {
    let mut db = master();
    assert!(answer_due(&run(&mut db, Command::Ping, CLIENT, T0)));
    assert!(answer_due(&run(&mut db, Command::Get("nope".into()), CLIENT, T0)));
    assert!(answer_due(&run(&mut db, Command::Psync("?".to_string(), -1), CLIENT, T0)));
    assert!(!answer_due(&run(&mut db, Command::ReplConfAck(3), CLIENT, T0)));
    db.register_replica("10.0.0.1:7001");
    run(&mut db, Command::SetKV("foo".into(), "bar".into(), None), CLIENT, T0);
    assert!(!answer_due(&run(&mut db, Command::Wait(1, 100), CLIENT, T0)));
    assert!(answer_due(&run(&mut db, Command::Wait(1, 0), CLIENT, T0)));
}

#[test]
fn a_store_can_be_set_up_with_any_seed() {
    let db = Db::new(InstanceConfig::default(), 0);
    assert_eq!(db.replication_id(), "07fffffff00000000000");
    let db = Db::new(InstanceConfig::default(), 1);
    assert_eq!(db.replication_id(), "7ffffffffffffffe0000");
}

#[test]
fn commands_one_by_one() {
    let mut db = master();
    let (answer, outbox) = db.exec_set(&"k".into(), &"v".into(), &Some(100), T0);
    assert_eq!(answer, Value::ok());
    assert!(outbox.is_empty());
    assert_eq!(db.exec_get(&"k".into(), T0 + 99), b_str("v"));
    assert_eq!(db.exec_get(&"k".into(), T0 + 100), NullBulkString);
    assert_eq!(db.exec_get(&"other".into(), T0), NullBulkString);
    let (_, _) = db.exec_set(&"k".into(), &"w".into(), &None, T0 + 200);
    assert_eq!(db.exec_get(&"k".into(), T0 + 1_000_000), b_str("w"));
    assert_eq!(
        db.exec_info("replication"),
        b_str(&format!("role:master\r\nmaster_replid:{ID}\r\nmaster_repl_offset:0"))
    );
    assert_eq!(db.exec_info("server"), NullBulkString);
    assert_eq!(db.exec_repl_conf(&"listening-port".to_string(), &"1".to_string()), Value::ok());
    assert_eq!(db.exec_repl_conf(&"capa".to_string(), &"psync2".to_string()), Value::ok());
    assert_eq!(
        db.exec_repl_conf(&"capa".to_string(), &"x".to_string()),
        BulkError("Can't handle capa=`x`".to_string())
    );
    assert_eq!(
        db.exec_repl_conf_get_ack(),
        Array(vec![b_str("REPLCONF"), b_str("ACK"), b_str("0")])
    );
    db.register_replica("10.0.0.1:7001");
    let (_, outbox) = db.exec_set(&"foo".into(), &"bar".into(), &None, T0);
    assert_eq!(outbox.len(), 1);
    assert_eq!(outbox[0].to, "10.0.0.1:7001");
    assert_eq!(db.replication_offset(), 31);
    let peer = query(Command::Ping, "10.0.0.1:7001").client_info;
    db.exec_repl_conf_ack(31, &peer);
    let out = db.exec_wait(1, false, 100, &query(Command::Wait(1, 100), CLIENT));
    assert_eq!(out.result.vals, vec![Int(1)]);
    assert!(out.retry.is_none());
}
