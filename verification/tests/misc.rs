use redis_starter_rust::common::{append_bytes, bytes_eq, Bytes, InvalidUtf8};
use redis_starter_rust::config::{ConfigError, InstanceConfig, Role};
use redis_starter_rust::db::get_empty_rdb_bytes;
use redis_starter_rust::debug_util::format_bytes_dbg;
use redis_starter_rust::decimal::{push_i64, push_u64, push_usize, read_i64, read_unsigned};
use redis_starter_rust::misc_util::{
    hex_decode, make_replication_id, millis_of_reading, now_millis, spaces_to_colons,
    InvalidDigit,
};

const EMPTY_RDB_FILE_HEX: &str = "524544495330303131fa0972656469732d76657205372e322e30fa0a72656469732d62697473c040fa056374696d65c26d08bc65fa08757365642d6d656dc2b0c41000fa08616f662d62617365c000fff06e3bfec0ff5aa2";

fn args(list: &[&str]) -> Vec<String> {
    list.iter().map(|s| s.to_string()).collect()
}

#[test]
fn bytes_basics() {
    let b = Bytes::from("héllo");
    assert_eq!(b.len(), 6);
    assert!(!b.is_empty());
    assert!(Bytes::from("").is_empty());
    assert_eq!(b.as_bytes(), "héllo".as_bytes());
    assert_eq!(b.as_vec(), &"héllo".as_bytes().to_vec());
    assert_eq!(b.to_string(), Ok("héllo".to_string()));
    assert_eq!(b.clone(), b);
    assert!(b.same_as(&Bytes::from("héllo".as_bytes())));
    assert!(!b.same_as(&Bytes::from("hello")));
    assert!(b.is_text("héllo"));
    assert!(!b.is_text("hello"));
    assert_eq!(b.into_inner(), "héllo".as_bytes().to_vec());
    assert_eq!(Bytes::from_vec(vec![1, 2]), Bytes::from(vec![1u8, 2]));
    assert_eq!(Bytes::from_slice(&[1, 2]), Bytes::from(vec![1u8, 2]));
    assert_eq!(Bytes::from_text("ab"), Bytes::from(vec![97u8, 98]));
}

#[test]
fn bytes_that_are_no_text() {
    assert_eq!(Bytes::from(vec![0xffu8, 0xfe]).to_string(), Err(InvalidUtf8));
    assert_eq!(Bytes::from(vec![0xc3u8]).to_string(), Err(InvalidUtf8));
    assert_eq!(Bytes::from(vec![0xc3u8, 0xa9]).to_string(), Ok("é".to_string()));
}

#[test]
fn byte_helpers() {
    assert!(bytes_eq(b"abc", b"abc"));
    assert!(!bytes_eq(b"abc", b"abd"));
    assert!(!bytes_eq(b"abc", b"abcd"));
    assert!(bytes_eq(b"", b""));
    let mut v = vec![1u8];
    append_bytes(&mut v, &[2, 3]);
    assert_eq!(v, vec![1, 2, 3]);
}

#[test]
fn decimal_numerals() {
    let mut out = Vec::new();
    push_u64(&mut out, 0);
    out.push(b' ');
    push_u64(&mut out, u64::MAX);
    out.push(b' ');
    push_i64(&mut out, i64::MIN);
    out.push(b' ');
    push_i64(&mut out, 907);
    out.push(b' ');
    push_usize(&mut out, 10);
    assert_eq!(out, b"0 18446744073709551615 -9223372036854775808 907 10".to_vec());
}

#[test]
fn decimal_reading() {
    assert_eq!(read_unsigned(b"0", 10), Some(0));
    assert_eq!(read_unsigned(b"10", 10), Some(10));
    assert_eq!(read_unsigned(b"11", 10), None);
    assert_eq!(read_unsigned(b"+7", 10), Some(7));
    assert_eq!(read_unsigned(b"-7", 10), None);
    assert_eq!(read_unsigned(b"", 10), None);
    assert_eq!(read_unsigned(b"+", 10), None);
    assert_eq!(read_unsigned(b"0000000000000000000000000000007", 10), Some(7));
    assert_eq!(read_unsigned(b"18446744073709551615", u64::MAX), Some(u64::MAX));
    assert_eq!(read_unsigned(b"18446744073709551616", u64::MAX), None);
    assert_eq!(read_unsigned(b"1a", u64::MAX), None);
    assert_eq!(read_i64(b"-9223372036854775808"), Some(i64::MIN));
    assert_eq!(read_i64(b"9223372036854775807"), Some(i64::MAX));
    assert_eq!(read_i64(b"9223372036854775808"), None);
    assert_eq!(read_i64(b"-0"), Some(0));
    assert_eq!(read_i64(b"+12"), Some(12));
    assert_eq!(read_i64(b"--1"), None);
    assert_eq!(read_i64(b"-"), None);
    assert_eq!(read_i64(b""), None);
    assert_eq!(read_i64(b" 1"), None);
}

#[test]
fn hex_decoding() {
    assert_eq!(hex_decode("00ff10ab"), Ok(vec![0x00, 0xff, 0x10, 0xab]));
    assert_eq!(hex_decode(""), Ok(vec![]));
    assert_eq!(hex_decode("AB"), Ok(vec![0xab]));
    assert_eq!(hex_decode("0g"), Err(InvalidDigit));
    assert_eq!(hex_decode("g0"), Err(InvalidDigit));
    assert_eq!(hex_decode("00zz00"), Err(InvalidDigit));
    assert_eq!(hex_decode("CD"), Err(InvalidDigit));
    assert_eq!(hex_decode("0F"), Err(InvalidDigit));
}

#[test]
fn empty_snapshot_is_the_88_bytes() {
    let rdb = get_empty_rdb_bytes();
    assert_eq!(rdb.len(), 88);
    assert_eq!(hex_decode(EMPTY_RDB_FILE_HEX), Ok(rdb.clone()));
    assert_eq!(&rdb[..9], b"REDIS0011");
    assert_eq!(rdb[87], 0xa2);
}

#[test]
fn replication_ids() {
    assert_eq!(make_replication_id(1700000000000), "e7f2b274301a9800e7f2");
    assert_eq!(make_replication_id(1761682345123), "1639a4b7538cb35d1639");
    assert_eq!(make_replication_id(8589934596), "fffffffffffffffc7fff");
}

#[test]
fn replication_ids_of_seeds_with_a_short_mix() {
    assert_eq!(make_replication_id(0), "07fffffff00000000000");
    assert_eq!(make_replication_id(1), "7ffffffffffffffe0000");
    assert_eq!(make_replication_id(u64::MAX), "ffffffff800000010000");
    for seed in [0u64, 1, 2, 3, 17, u64::MAX, 1 << 33, 1700000000000] {
        let id = make_replication_id(seed);
        assert_eq!(id.len(), 20);
        assert!(id.bytes().all(|b| b.is_ascii_digit() || (b'a'..=b'f').contains(&b)));
    }
}

#[test]
fn clock_reads_a_time_of_our_days() {
    let now = now_millis();
    assert!(now > 1_000_000_000_000);
}

#[test]
fn readings_of_the_clock_are_cut_to_64_bits() {
    assert_eq!(millis_of_reading(None), 0);
    assert_eq!(millis_of_reading(Some(0)), 0);
    assert_eq!(millis_of_reading(Some(1_700_000_000_000)), 1_700_000_000_000);
    assert_eq!(millis_of_reading(Some(u64::MAX as u128)), u64::MAX);
    assert_eq!(millis_of_reading(Some((1u128 << 64) + 7)), 7);
    assert_eq!(millis_of_reading(Some(u128::MAX)), u64::MAX);
}

#[test]
fn spaces_become_colons() {
    assert_eq!(spaces_to_colons("localhost 6379"), "localhost:6379");
    assert_eq!(spaces_to_colons("a b c"), "a:b:c");
    assert_eq!(spaces_to_colons("127.0.0.1:80"), "127.0.0.1:80");
    assert_eq!(spaces_to_colons(""), "");
    assert_eq!(spaces_to_colons("é ü"), "é:ü");
}

#[test]
fn bytes_shown_for_reading() {
    assert_eq!(
        format_bytes_dbg(b"a\n\r\x00\x01\x1f \x7f\x80\xff"),
        "a\n\r[^A][0x01][0x1f] \x7f[0x80][0xff]"
    );
    assert_eq!(format_bytes_dbg(b""), "");
    assert_eq!(format_bytes_dbg(b"+PONG\r\n"), "+PONG\r\n");
    assert_eq!(format_bytes_dbg(&[0x0b, 0xab]), "[0x0b][0xab]");
}

#[test]
fn bytes_shown_on_one_line() {
    assert_eq!(
        Bytes::from(&b"a\n\r\x00\x01 \x7f\x80"[..]).to_debug_string(),
        "a\\n\\r[^A][0x01] \x7f[0x80]"
    );
    assert_eq!(Bytes::from("").to_debug_string(), "");
    assert_eq!(Bytes::from("+OK\r\n").to_debug_string(), "+OK\\r\\n");
}

#[test]
fn roles() {
    assert_eq!(Role::Master.to_string(), "master");
    assert_eq!(Role::Slave.to_string(), "slave");
    assert_eq!(Role::Master.as_str(), "master");
    assert_ne!(Role::Master, Role::Slave);
}

#[test]
fn default_set_up() {
    let cfg = InstanceConfig::default();
    assert_eq!(cfg.port(), 6379);
    assert_eq!(cfg.role(), Role::Master);
    assert_eq!(cfg.replicaof(), None);
    let same = cfg.clone();
    assert_eq!(same.port(), 6379);
    assert_eq!(same.role(), Role::Master);
}

#[test]
fn set_up_from_parts() {
    let cfg = InstanceConfig::new(7000, Some("localhost 6379".to_string()));
    assert_eq!(cfg.port(), 7000);
    assert_eq!(cfg.role(), Role::Slave);
    assert_eq!(cfg.replicaof(), Some(&"localhost 6379".to_string()));
    let cfg = InstanceConfig::new(7001, None);
    assert_eq!(cfg.role(), Role::Master);
}

#[test]
fn set_up_from_arguments() {
    let cfg = InstanceConfig::from_command_args(&args(&["prog"])).unwrap();
    assert_eq!((cfg.port(), cfg.role(), cfg.replicaof()), (6379, Role::Master, None));
    let cfg = InstanceConfig::from_command_args(&args(&["prog", "--port", "7000"])).unwrap();
    assert_eq!((cfg.port(), cfg.role()), (7000, Role::Master));
    let cfg = InstanceConfig::from_command_args(&args(&[
        "prog",
        "--replicaof",
        "localhost 6379",
        "--port",
        "6380",
    ]))
    .unwrap();
    assert_eq!(cfg.port(), 6380);
    assert_eq!(cfg.role(), Role::Slave);
    assert_eq!(cfg.replicaof(), Some(&"localhost 6379".to_string()));
    let cfg = InstanceConfig::from_command_args(&args(&["--port", "1", "--port", "2", "x"])).unwrap();
    assert_eq!(cfg.port(), 2);
    let cfg = InstanceConfig::from_command_args(&args(&[])).unwrap();
    assert_eq!(cfg.port(), 6379);
}

#[test]
fn arguments_that_give_no_set_up() {
    let bad = |list: &[&str]| InstanceConfig::from_command_args(&args(list)).err();
    assert_eq!(bad(&["prog", "--port"]), Some(ConfigError::MissingValue));
    assert_eq!(bad(&["prog", "--replicaof"]), Some(ConfigError::MissingValue));
    assert_eq!(bad(&["prog", "--port", "http"]), Some(ConfigError::BadPort));
    assert_eq!(bad(&["prog", "--port", "-1"]), Some(ConfigError::BadPort));
    assert_eq!(bad(&["prog", "--port", "65536"]), Some(ConfigError::BadPort));
    assert_eq!(bad(&["prog", "--port", "4294967296"]), Some(ConfigError::BadPort));
    assert_eq!(bad(&["prog", "--port", "x", "--port", "1"]), Some(ConfigError::BadPort));
    assert_eq!(bad(&["prog", "--replicaof", "--port"]), Some(ConfigError::MissingValue));
    let cfg = InstanceConfig::from_command_args(&args(&["prog", "--port", "65535"])).unwrap();
    assert_eq!(cfg.port(), 65535);
    let cfg = InstanceConfig::from_command_args(&args(&["prog", "--port", "+0080"])).unwrap();
    assert_eq!(cfg.port(), 80);
}
