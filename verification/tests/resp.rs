use redis_starter_rust::common::Bytes;
use redis_starter_rust::deser::{
    deserialize, deserialize_many, deserialize_v0, deserialize_v1, parse_len, DecodeError,
    RespDeserializer, RespDeserializerV0,
};
use redis_starter_rust::resp::Value::{
    Array, BulkError, BulkString, FileContents, Int, NullBulkString, SimpleError, SimpleString,
};
use redis_starter_rust::resp::{
    b_str, s_err, s_str, serialize, serialize_many, ConvertError, QueryResult, RespSerializer, Value,
};

pub fn deser_str(data: &str) -> Result<Value, DecodeError> {
    let mut deser = RespDeserializerV0::new(Vec::from(data.as_bytes()));
    deser.deserialize()
}

fn wire(v: &Value) -> Vec<u8> {
    serialize(v).into_inner()
}

fn round_trip(v: Value) {
    let bytes = wire(&v);
    let n = bytes.len();
    assert_eq!(deserialize(&bytes), Ok((v, n)));
}

#[test]
fn parse_simple_str() {
    let input = "+teo\r\n";
    let expected = s_str("teo");

    assert_eq!(deser_str(input).unwrap(), expected);
}

#[test]
fn parse_array_2() {
    let input = "*2\r\n$4\r\nECHO\r\n$5\r\npears\r\n";
    let expected = Array(vec![b_str("ECHO"), b_str("pears")]);

    assert_eq!(deser_str(input).unwrap(), expected);
}

#[test]
fn parse_array_ping() {
    let input = "*1\r\n$4\r\nPING\r\n";
    let expected = Array(vec![b_str("PING")]);

    assert_eq!(deser_str(input).unwrap(), expected);
}

#[test]
fn encode_each_kind() {
    assert_eq!(wire(&NullBulkString), b"$-1\r\n".to_vec());
    assert_eq!(wire(&s_str("PONG")), b"+PONG\r\n".to_vec());
    assert_eq!(wire(&Int(-42)), b":-42\r\n".to_vec());
    assert_eq!(wire(&Int(0)), b":0\r\n".to_vec());
    assert_eq!(wire(&Int(i64::MIN)), b":-9223372036854775808\r\n".to_vec());
    assert_eq!(wire(&Int(i64::MAX)), b":9223372036854775807\r\n".to_vec());
    assert_eq!(wire(&b_str("pears")), b"$5\r\npears\r\n".to_vec());
    assert_eq!(wire(&b_str("")), b"$0\r\n\r\n".to_vec());
    assert_eq!(wire(&FileContents("abc".into())), b"$3\r\nabc".to_vec());
    assert_eq!(wire(&s_err("boom")), b"-boom\r\n".to_vec());
    assert_eq!(wire(&BulkError("bad".to_string())), b"!3\r\nbad\r\n".to_vec());
    assert_eq!(
        wire(&Array(vec![b_str("ECHO"), b_str("pears")])),
        b"*2\r\n$4\r\nECHO\r\n$5\r\npears\r\n".to_vec()
    );
    assert_eq!(wire(&Array(vec![])), b"*0\r\n".to_vec());
}

#[test]
fn simple_error_escapes_line_ends() {
    assert_eq!(wire(&s_err("a\r\nb")), b"-a\\r\\nb\r\n".to_vec());
    assert_eq!(wire(&s_err("\n")), b"-\\n\r\n".to_vec());
}

#[test]
fn bulk_error_counts_bytes_not_characters() {
    assert_eq!(wire(&BulkError("é".to_string())), b"!2\r\n\xc3\xa9\r\n".to_vec());
}

#[test]
fn codec_round_trip_each_kind() {
    round_trip(NullBulkString);
    round_trip(s_str("OK"));
    round_trip(s_str(""));
    round_trip(SimpleString("a\rb".into()));
    round_trip(Int(0));
    round_trip(Int(-1));
    round_trip(Int(i64::MIN));
    round_trip(Int(i64::MAX));
    round_trip(b_str("hello"));
    round_trip(b_str("with\r\nline end"));
    round_trip(BulkString(Bytes::from(vec![0u8, 255, 10, 13])));
    round_trip(s_err("ERR something"));
    round_trip(BulkError("käse\r\n".to_string()));
    round_trip(Array(vec![]));
    round_trip(Array(vec![
        Int(1),
        Array(vec![b_str("x"), NullBulkString, Array(vec![s_str("deep")])]),
        s_err("e"),
    ]));
}

#[test]
fn simple_string_with_line_feed_does_not_round_trip() {
    let v = SimpleString("a\nb".into());
    let bytes = wire(&v);
    assert_eq!(deserialize(&bytes), Err(DecodeError::MissingCrlf));
    let v = SimpleString("a\r\nb".into());
    let bytes = wire(&v);
    assert_eq!(deserialize(&bytes), Ok((s_str("a"), 4)));
}

#[test]
fn simple_error_with_line_end_does_not_round_trip() {
    let bytes = wire(&s_err("a\nb"));
    assert_eq!(deserialize(&bytes), Ok((s_err("a\\nb"), 7)));
}

#[test]
fn decode_counts_bytes_and_leaves_the_rest() {
    let input = b"+OK\r\n:12\r\n";
    assert_eq!(deserialize(input), Ok((s_str("OK"), 5)));
    let input = b"*2\r\n$3\r\nfoo\r\n:7\r\ntrailing";
    assert_eq!(deserialize(input), Ok((Array(vec![b_str("foo"), Int(7)]), 17)));
}

#[test]
fn decode_many_reads_everything() {
    let vals = vec![s_str("a"), Int(5), Array(vec![b_str("x"), NullBulkString]), b_str("")];
    let bytes = serialize_many(&vals).into_inner();
    let total = bytes.len();
    assert_eq!(deserialize_many(&bytes), Ok((vals, total)));
    assert_eq!(deserialize_many(b""), Ok((vec![], 0)));
}

#[test]
fn decode_many_fails_on_a_broken_tail() {
    assert_eq!(deserialize_many(b"+a\r\n$5\r\nab"), Err(DecodeError::UnexpectedEof));
    assert_eq!(deserialize_many(b"+a\r\n?"), Err(DecodeError::InvalidTag(b'?')));
}

#[test]
fn serialize_many_is_concatenation() {
    let a = s_str("x");
    let b = Int(3);
    let mut both = wire(&a);
    both.extend(wire(&b));
    assert_eq!(serialize_many(&[a, b]).into_inner(), both);
    assert_eq!(serialize_many(&[]).into_inner(), Vec::<u8>::new());
}

#[test]
fn decode_null_and_lengths_with_white_space() {
    assert_eq!(deserialize(b"$-1\r\n"), Ok((NullBulkString, 5)));
    assert_eq!(deserialize(b"$-1 \t\r\n"), Ok((NullBulkString, 7)));
    assert_eq!(deserialize(b"$3\n"), Err(DecodeError::UnexpectedEof));
    assert_eq!(deserialize(b"$3\nabc\r\n"), Ok((b_str("abc"), 8)));
    assert_eq!(deserialize(b"$+3  \r\nabc\r\n"), Ok((b_str("abc"), 12)));
    assert_eq!(deserialize(b"$3\xc2\xa0\r\nabc\r\n"), Ok((b_str("abc"), 11)));
    assert_eq!(deserialize(b"$3\xe2\x80\x83\xe3\x80\x80\r\nabc\r\n"), Ok((b_str("abc"), 15)));
    assert_eq!(deserialize(b":  7\r\n"), Err(DecodeError::BadInteger));
    assert_eq!(deserialize(b":+7 \r\n"), Ok((Int(7), 6)));
    assert_eq!(deserialize(b":007\r\n"), Ok((Int(7), 6)));
}

#[test]
fn decode_errors() {
    assert_eq!(deserialize(b""), Err(DecodeError::UnexpectedEof));
    assert_eq!(deserialize(b"+OK"), Err(DecodeError::UnexpectedEof));
    assert_eq!(deserialize(b"+OK\r"), Err(DecodeError::UnexpectedEof));
    assert_eq!(deserialize(b"$5\r\nab\r\n"), Err(DecodeError::UnexpectedEof));
    assert_eq!(deserialize(b"*2\r\n+a\r\n"), Err(DecodeError::UnexpectedEof));
    assert_eq!(deserialize(b"?x\r\n"), Err(DecodeError::InvalidTag(b'?')));
    assert_eq!(deserialize(b"\r\n"), Err(DecodeError::InvalidTag(13)));
    assert_eq!(deserialize(b"$x\r\n"), Err(DecodeError::BadLength));
    assert_eq!(deserialize(b"$-2\r\n"), Err(DecodeError::BadLength));
    assert_eq!(deserialize(b"$\r\n"), Err(DecodeError::BadLength));
    assert_eq!(deserialize(b"*-1\r\n"), Err(DecodeError::BadLength));
    assert_eq!(deserialize(b"*99999999999999999999999999\r\n"), Err(DecodeError::BadLength));
    assert_eq!(deserialize(b":abc\r\n"), Err(DecodeError::BadInteger));
    assert_eq!(deserialize(b":\r\n"), Err(DecodeError::BadInteger));
    assert_eq!(deserialize(b":-\r\n"), Err(DecodeError::BadInteger));
    assert_eq!(deserialize(b":9223372036854775808\r\n"), Err(DecodeError::BadInteger));
    assert_eq!(deserialize(b":-9223372036854775809\r\n"), Err(DecodeError::BadInteger));
    assert_eq!(deserialize(b"+a\n"), Err(DecodeError::MissingCrlf));
    assert_eq!(deserialize(b"+\n"), Err(DecodeError::MissingCrlf));
    assert_eq!(deserialize(b"$3\r\nabcXY"), Err(DecodeError::MissingCrlf));
    assert_eq!(deserialize(b"-\xff\r\n"), Err(DecodeError::InvalidUtf8));
    assert_eq!(deserialize(b"!1\r\n\xff\r\n"), Err(DecodeError::InvalidUtf8));
    assert_eq!(deserialize(b"*1\r\n?"), Err(DecodeError::InvalidTag(b'?')));
}

#[test]
fn decode_error_kinds_of_values() {
    assert_eq!(deserialize(b"-ERR x\r\n"), Ok((s_err("ERR x"), 8)));
    assert_eq!(deserialize(b"!5\r\nhello\r\n"), Ok((BulkError("hello".to_string()), 11)));
    assert_eq!(deserialize(b"-\r\n"), Ok((SimpleError(String::new()), 3)));
}

#[test]
fn reader_keeps_its_place() {
    let data = b"+a\r\n:1\r\n$2\r\nxy";
    let mut reader = RespDeserializer::from_reader(data);
    assert_eq!(deserialize_v1(&mut reader), Ok((s_str("a"), 4)));
    assert_eq!(deserialize_v1(&mut reader), Ok((Int(1), 4)));
    assert_eq!(deserialize_v1(&mut reader), Err(DecodeError::UnexpectedEof));
    assert_eq!(reader.deserialize_file(), Ok(FileContents("xy".into())));
    assert_eq!(deserialize_v1(&mut reader), Err(DecodeError::UnexpectedEof));
}

#[test]
fn file_frame_has_no_line_end() {
    let frame = wire(&FileContents("snapshot".into()));
    assert_eq!(frame, b"$8\r\nsnapshot".to_vec());
    let mut reader = RespDeserializer::from_reader(&frame);
    assert_eq!(reader.deserialize_file(), Ok(FileContents("snapshot".into())));
    let mut reader = RespDeserializer::from_reader(b"$8\r\nsnap");
    assert_eq!(reader.deserialize_file(), Err(DecodeError::UnexpectedEof));
    let mut reader = RespDeserializer::from_reader(b"+8\r\nsnapshot");
    assert_eq!(reader.deserialize_file(), Err(DecodeError::InvalidTag(b'+')));
    let mut reader = RespDeserializer::from_reader(b"$x\r\nsnapshot");
    assert_eq!(reader.deserialize_file(), Err(DecodeError::BadLength));
    let mut reader = RespDeserializer::from_reader(b"");
    assert_eq!(reader.deserialize_file(), Err(DecodeError::UnexpectedEof));
}

#[test]
fn owning_reader_reads_bytes_and_lines() {
    let mut reader = RespDeserializerV0::new(b"ab\ncd".to_vec());
    assert_eq!(reader.read_one_byte(), Ok(b'a'));
    let mut buf = vec![9u8, 9];
    assert_eq!(reader.read_until(b'\n', &mut buf), Ok(2));
    assert_eq!(buf, b"b\n".to_vec());
    assert_eq!(reader.read_until(b'\n', &mut buf), Err(DecodeError::UnexpectedEof));
    assert_eq!(buf, b"cd".to_vec());
    assert_eq!(reader.read_one_byte(), Err(DecodeError::UnexpectedEof));
}

#[test]
fn owning_reader_reads_values_in_turn() {
    let mut reader = RespDeserializerV0::new(b":1\r\n:2\r\n".to_vec());
    assert_eq!(reader.deserialize(), Ok(Int(1)));
    assert_eq!(reader.deserialize(), Ok(Int(2)));
    assert_eq!(reader.deserialize(), Err(DecodeError::UnexpectedEof));
    assert_eq!(deserialize_v0(b"$2\r\nhi\r\n"), Ok(b_str("hi")));
    assert_eq!(deserialize_v0(b"%"), Err(DecodeError::InvalidTag(b'%')));
}

#[test]
fn length_lines() {
    assert_eq!(parse_len(b"12\r\n"), Ok(12));
    assert_eq!(parse_len(b"0"), Ok(0));
    assert_eq!(parse_len(b"+5 \n"), Ok(5));
    assert_eq!(parse_len(b"-5"), Err(DecodeError::BadLength));
    assert_eq!(parse_len(b""), Err(DecodeError::BadLength));
    assert_eq!(parse_len(b" 5"), Err(DecodeError::BadLength));
    assert_eq!(parse_len(b"5x"), Err(DecodeError::BadLength));
}

#[test]
fn serializer_counts_what_it_writes() {
    let mut ser = RespSerializer::new();
    assert_eq!(ser.write(b"ab"), 2);
    assert_eq!(ser.writeln(b"cd"), 4);
    assert_eq!(ser.write_len_line(b'*', 120), 6);
    assert_eq!(ser.serialize(&Array(vec![b_str("ECHO"), b_str("pears")])), 25);
    assert_eq!(
        ser.into_bytes().into_inner(),
        b"abcd\r\n*120\r\n*2\r\n$4\r\nECHO\r\n$5\r\npears\r\n".to_vec()
    );
    assert_eq!(RespSerializer::default().into_bytes().into_inner(), Vec::<u8>::new());
}

#[test]
fn values_as_texts_and_numbers() {
    assert_eq!(Value::ok(), s_str("OK"));
    assert_eq!(NullBulkString.try_to_string(), Ok(String::new()));
    assert_eq!(s_str("abc").try_to_string(), Ok("abc".to_string()));
    assert_eq!(b_str("käse").try_to_string(), Ok("käse".to_string()));
    assert_eq!(
        BulkString(Bytes::from(vec![0xffu8])).try_to_string(),
        Err(ConvertError::InvalidUtf8)
    );
    assert_eq!(Int(3).try_to_string(), Err(ConvertError::WrongKind));
    assert_eq!(Array(vec![]).try_to_string(), Err(ConvertError::WrongKind));
    assert_eq!(Int(-3).try_to_int(), Ok(-3));
    assert_eq!(b_str("-17").try_to_int(), Ok(-17));
    assert_eq!(s_str("+5").try_to_int(), Ok(5));
    assert_eq!(b_str("5 ").try_to_int(), Err(ConvertError::NotAnInteger));
    assert_eq!(NullBulkString.try_to_int(), Err(ConvertError::WrongKind));
}

#[test]
fn values_from_parts() {
    assert_eq!(Value::from("ECHO"), b_str("ECHO"));
    assert_eq!(Value::from(&Bytes::from("x")), b_str("x"));
    assert_eq!(Value::from(vec![Int(1), Int(2)]), Array(vec![Int(1), Int(2)]));
    assert_eq!(Value::from(&[Int(1), b_str("a")][..]), Array(vec![Int(1), b_str("a")]));
    let into: Value = "PING".into();
    assert_eq!(into, b_str("PING"));
    let r = QueryResult::from(vec![Int(1)]);
    assert_eq!(r, QueryResult { vals: vec![Int(1)], pass_stream: false, repl_byte_cnt_inc: 0 });
}

#[test]
fn short_reads_are_ends_of_input() {
    let whole = wire(&Array(vec![b_str("SET"), b_str("k"), Int(-7), s_err("e"), NullBulkString]));
    for k in 0..whole.len() {
        assert_eq!(deserialize(&whole[..k]), Err(DecodeError::UnexpectedEof));
    }
    let (v, n) = deserialize(&whole).unwrap();
    assert_eq!(n, whole.len());
    let mut longer = whole.clone();
    longer.extend(b"+more\r\n");
    assert_eq!(deserialize(&longer), Ok((v, n)));
}

#[test]
fn values_are_copied_whole() {
    let v = Array(vec![Int(1), Array(vec![b_str("x"), s_err("e")]), NullBulkString]);
    assert_eq!(v.clone(), v);
    assert_eq!(v.dup(), v);
    let r = QueryResult { vals: vec![v], pass_stream: true, repl_byte_cnt_inc: 9 };
    assert_eq!(r.clone(), r);
    let plain = QueryResult::of(vec![Int(1)]);
    assert_eq!(plain.vals, vec![Int(1)]);
    assert!(!plain.pass_stream);
    assert_eq!(plain.repl_byte_cnt_inc, 0);
}
