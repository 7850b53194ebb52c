//! Reading undoes writing: which values are read back from their bytes as
//! they were written.

use vstd::prelude::*;
use vstd::utf8::*;

use crate::decimal::{
    all_digits, dec_digits, dec_int, is_digit, lemma_dec_digits_shape, lemma_parse_signed_of_dec,
    lemma_parse_unsigned_of_dec,
};
use crate::deser::{
    closed_payload, lemma_first_at_is, line_feed_at, line_length, parse_file, parse_many,
    parse_value, parse_values, trailing_space_len, trim_end, Parsed, ParsedMany,
};
use crate::resp::{
    crlf, encode, encode_all, escape_crlf, lemma_encode_all_front, len_line, minus_one, ValueView,
    CR, LF, TAG_ARRAY, TAG_BULK, TAG_BULK_ERROR,
};

verus! {

/// Whether a value is read back as it was written.
///
/// A simple string must hold no line feed, which would end its line early. A
/// simple error must hold neither a carriage return nor a line feed, which
/// are written as escapes. The frame of a file is not closed by a line end,
/// so it is read by its own reader only. Lengths must fit a `usize`, as those
/// of values held in memory do.
pub open spec fn round_trips(v: ValueView) -> bool
    decreases v,
{
    match v {
        ValueView::NullBulkString => true,
        ValueView::Int(_) => true,
        ValueView::SimpleString(b) => !b.contains(LF),
        ValueView::SimpleError(msg) => !encode_utf8(msg).contains(CR) && !encode_utf8(
            msg,
        ).contains(LF),
        ValueView::BulkString(b) => b.len() <= usize::MAX,
        ValueView::BulkError(msg) => encode_utf8(msg).len() <= usize::MAX,
        ValueView::FileContents(_) => false,
        ValueView::Array(elems) => elems.len() <= usize::MAX && forall|i: int|
            0 <= i < elems.len() ==> round_trips(#[trigger] elems[i]),
    }
}

/// The value `v`, read from `n` bytes.
pub open spec fn one(v: ValueView, n: nat) -> Parsed {
    Ok((v, n))
}

/// The values `vs`, read from `n` bytes.
pub open spec fn run(vs: Seq<ValueView>, n: nat) -> ParsedMany {
    Ok((vs, n))
}

/// Whether every value of a run is read back as it was written.
pub open spec fn all_round_trip(vs: Seq<ValueView>) -> bool {
    forall|i: int| 0 <= i < vs.len() ==> round_trips(#[trigger] vs[i])
}

/// Where a line holds no line feed before its end, the first line feed is
/// the one that ends it.
proof fn lemma_line_ends(head: Seq<u8>, rest: Seq<u8>)
    requires
        !head.contains(LF),
    ensures
        line_feed_at(head + crlf() + rest) == head.len() + 1,
{
    let s = head + crlf() + rest;
    assert forall|j: int| 0 <= j < head.len() + 1 implies s[j] != LF by {
        if j < head.len() {
            assert(s[j] == head[j]);
            assert(head.contains(head[j]));
        }
    }
    assert(s[head.len() as int + 1] == LF);
    lemma_first_at_is(s, LF, head.len() as int + 1);
}

/// A numeral followed by a line end is left alone by trimming, but for the
/// line end.
proof fn lemma_trim_numeral(d: Seq<u8>)
    requires
        d.len() > 0,
        is_digit(d.last()),
    ensures
        trim_end(d + crlf()) == d,
{
    let s2 = d + crlf();
    let s1 = d.push(CR);
    assert(trailing_space_len(s2) == 1);
    assert(s2.take(s2.len() - 1) =~= s1);
    assert(trailing_space_len(s1) == 1);
    assert(s1.take(s1.len() - 1) =~= d);
    assert(trailing_space_len(d) == 0);
    assert(trim_end(d) == d);
    assert(trim_end(s1) == trim_end(d));
    assert(trim_end(s2) == trim_end(s1));
}

/// Digits hold no line feed.
proof fn lemma_digits_no_line_feed(d: Seq<u8>)
    requires
        all_digits(d),
    ensures
        !d.contains(LF),
{
    if d.contains(LF) {
        let j = choose|j: int| 0 <= j < d.len() && d[j] == LF;
        assert(is_digit(d[j]));
    }
}

/// A length line is read as the length that it was written for.
proof fn lemma_len_line(tag: u8, len: nat, rest: Seq<u8>)
    requires
        len <= usize::MAX,
    ensures
        ({
            let s = len_line(tag, len) + rest;
            let body = s.skip(1);
            let k = dec_digits(len).len() as int + 1;
            &&& s.len() > 0
            &&& s[0] == tag
            &&& line_feed_at(body) == k
            &&& k < body.len()
            &&& line_length(body.take(k + 1)) == Some(len)
            &&& trim_end(body.take(k + 1)) == dec_digits(len)
            &&& body.skip(k + 1) == rest
            &&& len_line(tag, len).len() == k + 2
        }),
{
    let d = dec_digits(len);
    let s = len_line(tag, len) + rest;
    let body = s.skip(1);
    lemma_dec_digits_shape(len);
    lemma_digits_no_line_feed(d);
    assert(body =~= d + crlf() + rest);
    lemma_line_ends(d, rest);
    assert(body.take(d.len() as int + 2) =~= d + crlf());
    lemma_trim_numeral(d);
    lemma_parse_unsigned_of_dec(len, usize::MAX as nat);
    assert(body.skip(d.len() as int + 2) =~= rest);
}

/// Bytes without carriage return and line feed are written as they are.
proof fn lemma_escape_plain(b: Seq<u8>)
    requires
        !b.contains(CR),
        !b.contains(LF),
    ensures
        escape_crlf(b) == b,
    decreases b.len(),
{
    if b.len() > 0 {
        let head = b.drop_last();
        assert(b.contains(b.last()));
        assert forall|x: u8| head.contains(x) implies b.contains(x) by {
            let j = choose|j: int| 0 <= j < head.len() && head[j] == x;
            assert(b[j] == x);
        }
        lemma_escape_plain(head);
        assert(head.push(b.last()) =~= b);
    }
}

/// A null is read back from its bytes.
proof fn lemma_null_round_trip(rest: Seq<u8>)
    ensures
        parse_value(encode(ValueView::NullBulkString) + rest) == one(
            ValueView::NullBulkString,
            encode(ValueView::NullBulkString).len(),
        ),
{
    let s = encode(ValueView::NullBulkString) + rest;
    let body = s.skip(1);
    let d = minus_one();
    assert(body =~= d + crlf() + rest);
    assert(!d.contains(LF)) by {
        if d.contains(LF) {
            let j = choose|j: int| 0 <= j < d.len() && d[j] == LF;
        }
    }
    lemma_line_ends(d, rest);
    assert(body.take(4) =~= d + crlf());
    lemma_trim_numeral(d);
}

/// A simple string without a line feed is read back from its bytes.
proof fn lemma_simple_string_round_trip(b: Seq<u8>, rest: Seq<u8>)
    requires
        !b.contains(LF),
    ensures
        parse_value(encode(ValueView::SimpleString(b)) + rest) == one(
            ValueView::SimpleString(b),
            encode(ValueView::SimpleString(b)).len(),
        ),
{
    let s = encode(ValueView::SimpleString(b)) + rest;
    let body = s.skip(1);
    assert(body =~= b + crlf() + rest);
    lemma_line_ends(b, rest);
    assert(body.take(b.len() as int) =~= b);
}

/// A simple error without line ends is read back from its bytes.
proof fn lemma_simple_error_round_trip(msg: Seq<char>, rest: Seq<u8>)
    requires
        !encode_utf8(msg).contains(CR),
        !encode_utf8(msg).contains(LF),
    ensures
        parse_value(encode(ValueView::SimpleError(msg)) + rest) == one(
            ValueView::SimpleError(msg),
            encode(ValueView::SimpleError(msg)).len(),
        ),
{
    let s = encode(ValueView::SimpleError(msg)) + rest;
    let body = s.skip(1);
    let b = encode_utf8(msg);
    lemma_escape_plain(b);
    assert(body =~= b + crlf() + rest);
    lemma_line_ends(b, rest);
    assert(body.take(b.len() as int) =~= b);
    encode_utf8_valid_utf8(msg);
    encode_utf8_decode_utf8(msg);
}

/// A signed numeral holds no line feed and ends in a digit.
proof fn lemma_dec_int_shape(i: int)
    ensures
        !dec_int(i).contains(LF),
        dec_int(i).len() > 0,
        is_digit(dec_int(i).last()),
{
    let d = dec_int(i);
    if i < 0 {
        let m = dec_digits((-i) as nat);
        lemma_dec_digits_shape((-i) as nat);
        lemma_digits_no_line_feed(m);
        if d.contains(LF) {
            let j = choose|j: int| 0 <= j < d.len() && d[j] == LF;
            assert(m[j - 1] == LF);
            assert(m.contains(LF));
        }
        assert(d.last() == m.last());
    } else {
        lemma_dec_digits_shape(i as nat);
        lemma_digits_no_line_feed(d);
    }
}

/// An integer is read back from its bytes.
proof fn lemma_int_round_trip(i: i64, rest: Seq<u8>)
    ensures
        parse_value(encode(ValueView::Int(i)) + rest) == one(
            ValueView::Int(i),
            encode(ValueView::Int(i)).len(),
        ),
{
    let s = encode(ValueView::Int(i)) + rest;
    let body = s.skip(1);
    let d = dec_int(i as int);
    assert(body =~= d + crlf() + rest);
    lemma_dec_int_shape(i as int);
    lemma_line_ends(d, rest);
    assert(body.take(d.len() as int + 2) =~= d + crlf());
    lemma_trim_numeral(d);
    lemma_parse_signed_of_dec(i as int, i64::MIN as int, i64::MAX as int);
}

/// A bulk string is read back from its bytes.
proof fn lemma_bulk_string_round_trip(b: Seq<u8>, rest: Seq<u8>)
    requires
        b.len() <= usize::MAX,
    ensures
        parse_value(encode(ValueView::BulkString(b)) + rest) == one(
            ValueView::BulkString(b),
            encode(ValueView::BulkString(b)).len(),
        ),
{
    let s = encode(ValueView::BulkString(b)) + rest;
    let tail = b + crlf() + rest;
    assert(s =~= len_line(TAG_BULK, b.len()) + tail);
    lemma_len_line(TAG_BULK, b.len(), tail);
    lemma_dec_digits_shape(b.len());
    assert(tail.take(b.len() as int) =~= b);
    assert(closed_payload(tail, b.len()) == Ok::<Seq<u8>, crate::deser::DecodeError>(b));
}

/// A bulk error is read back from its bytes.
proof fn lemma_bulk_error_round_trip(msg: Seq<char>, rest: Seq<u8>)
    requires
        encode_utf8(msg).len() <= usize::MAX,
    ensures
        parse_value(encode(ValueView::BulkError(msg)) + rest) == one(
            ValueView::BulkError(msg),
            encode(ValueView::BulkError(msg)).len(),
        ),
{
    let s = encode(ValueView::BulkError(msg)) + rest;
    let b = encode_utf8(msg);
    let tail = b + crlf() + rest;
    assert(s =~= len_line(TAG_BULK_ERROR, b.len()) + tail);
    lemma_len_line(TAG_BULK_ERROR, b.len(), tail);
    assert(tail.take(b.len() as int) =~= b);
    assert(closed_payload(tail, b.len()) == Ok::<Seq<u8>, crate::deser::DecodeError>(b));
    encode_utf8_valid_utf8(msg);
    encode_utf8_decode_utf8(msg);
}

/// An array is read back from its bytes, where its elements are.
proof fn lemma_array_round_trip(elems: Seq<ValueView>, rest: Seq<u8>)
    requires
        elems.len() <= usize::MAX,
        parse_values(encode_all(elems) + rest, elems.len()) == run(elems, encode_all(elems).len()),
    ensures
        parse_value(encode(ValueView::Array(elems)) + rest) == one(
            ValueView::Array(elems),
            encode(ValueView::Array(elems)).len(),
        ),
{
    let s = encode(ValueView::Array(elems)) + rest;
    let tail = encode_all(elems) + rest;
    assert(s =~= len_line(TAG_ARRAY, elems.len()) + tail);
    lemma_len_line(TAG_ARRAY, elems.len(), tail);
    lemma_dec_digits_shape(elems.len());
}

/// A value that round-trips is read back from its bytes, whatever follows
/// them, and reading it takes exactly those bytes.
pub proof fn lemma_decode_encode(v: ValueView, rest: Seq<u8>)
    requires
        round_trips(v),
    ensures
        parse_value(encode(v) + rest) == one(v, encode(v).len()),
    decreases v,
{
    match v {
        ValueView::NullBulkString => lemma_null_round_trip(rest),
        ValueView::SimpleString(b) => lemma_simple_string_round_trip(b, rest),
        ValueView::SimpleError(msg) => lemma_simple_error_round_trip(msg, rest),
        ValueView::Int(i) => lemma_int_round_trip(i, rest),
        ValueView::BulkString(b) => lemma_bulk_string_round_trip(b, rest),
        ValueView::BulkError(msg) => lemma_bulk_error_round_trip(msg, rest),
        ValueView::FileContents(_) => {},
        ValueView::Array(elems) => {
            lemma_decode_encode_all(elems, rest);
            lemma_array_round_trip(elems, rest);
        },
    }
}

/// Reading `n` values is reading one value and then the others.
proof fn lemma_parse_values_step(s: Seq<u8>, n: nat, v: ValueView, k: nat, vs: Seq<ValueView>, m: nat)
    requires
        n > 0,
        parse_value(s) == one(v, k),
        k <= s.len(),
        parse_values(s.skip(k as int), (n - 1) as nat) == run(vs, m),
    ensures
        parse_values(s, n) == run(seq![v] + vs, k + m),
{
}

/// A run of values that round-trip is read back from its bytes, whatever
/// follows them, when as many values are asked for as were written.
pub proof fn lemma_decode_encode_all(vs: Seq<ValueView>, rest: Seq<u8>)
    requires
        all_round_trip(vs),
    ensures
        parse_values(encode_all(vs) + rest, vs.len()) == run(vs, encode_all(vs).len()),
    decreases vs,
{
    if vs.len() > 0 {
        let tail = vs.skip(1);
        let s = encode_all(vs) + rest;
        let first = encode(vs[0]);
        lemma_encode_all_front(vs);
        assert(s =~= first + (encode_all(tail) + rest));
        lemma_decode_encode(vs[0], encode_all(tail) + rest);
        assert forall|i: int| 0 <= i < tail.len() implies round_trips(#[trigger] tail[i]) by {
            assert(tail[i] == vs[i + 1]);
        }
        lemma_decode_encode_all(tail, rest);
        assert(s.skip(first.len() as int) =~= encode_all(tail) + rest);
        lemma_parse_values_step(s, vs.len(), vs[0], first.len(), tail, encode_all(tail).len());
        assert(seq![vs[0]] + tail =~= vs);
    } else {
        assert(vs =~= Seq::<ValueView>::empty());
    }
}

/// Decoding undoes encoding: a value that round-trips is read back from its
/// bytes, and the count of bytes read is the count of bytes written.
pub proof fn law_codec_round_trip(v: ValueView)
    requires
        round_trips(v),
    ensures
        parse_value(encode(v)) == one(v, encode(v).len()),
{
    lemma_decode_encode(v, Seq::empty());
    assert(encode(v) + Seq::<u8>::empty() =~= encode(v));
}

/// A value is written as two bytes at least.
pub proof fn lemma_encode_nonempty(v: ValueView)
    ensures
        encode(v).len() >= 2,
{
}

/// Reading all values is reading one value and then all the others.
proof fn lemma_parse_many_step(s: Seq<u8>, v: ValueView, k: nat, vs: Seq<ValueView>, m: nat)
    requires
        parse_value(s) == one(v, k),
        0 < k <= s.len(),
        parse_many(s.skip(k as int)) == run(vs, m),
    ensures
        parse_many(s) == run(seq![v] + vs, k + m),
{
}

/// Reading the bytes of values written one after the other gives the
/// values back, in order, and takes all of the bytes.
pub proof fn law_concatenation(vs: Seq<ValueView>)
    requires
        all_round_trip(vs),
    ensures
        parse_many(encode_all(vs)) == run(vs, encode_all(vs).len()),
    decreases vs.len(),
{
    if vs.len() > 0 {
        let tail = vs.skip(1);
        let s = encode_all(vs);
        let first = encode(vs[0]);
        lemma_encode_all_front(vs);
        lemma_encode_nonempty(vs[0]);
        lemma_decode_encode(vs[0], encode_all(tail));
        assert forall|i: int| 0 <= i < tail.len() implies round_trips(#[trigger] tail[i]) by {
            assert(tail[i] == vs[i + 1]);
        }
        law_concatenation(tail);
        assert(s.skip(first.len() as int) =~= encode_all(tail));
        lemma_parse_many_step(s, vs[0], first.len(), tail, encode_all(tail).len());
        assert(seq![vs[0]] + tail =~= vs);
    } else {
        assert(vs =~= Seq::<ValueView>::empty());
    }
}

/// The frame of a file is read back by the reader of files, whatever
/// follows it.
pub proof fn law_file_round_trip(b: Seq<u8>, rest: Seq<u8>)
    requires
        b.len() <= usize::MAX,
    ensures
        parse_file(encode(ValueView::FileContents(b)) + rest) == one(ValueView::FileContents(b), encode(ValueView::FileContents(b)).len()),
{
    let v = ValueView::FileContents(b);
    let s = encode(v) + rest;
    let tail = b + rest;
    assert(s =~= len_line(TAG_BULK, b.len()) + tail);
    lemma_len_line(TAG_BULK, b.len(), tail);
    let body = s.skip(1);
    let k = dec_digits(b.len()).len() as int + 1;
    assert(body.subrange(k + 1, k + 1 + b.len()) =~= b);
}

} // verus!
