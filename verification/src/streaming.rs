//! Reading from bytes that are still coming in: what was read from a part
//! of them stands when more have come.

use vstd::prelude::*;

use crate::deser::{
    closed_payload, first_at, lemma_first_at_bounds, lemma_parse_value_bounds, line_feed_at,
    line_length, parse_body, parse_file, parse_value, parse_values, DecodeError,
};
use crate::resp::{
    minus_one, ValueView, LF, TAG_ARRAY, TAG_BULK, TAG_INT, TAG_SIMPLE_ERROR, TAG_SIMPLE_STRING,
};

verus! {

/// Whether an outcome of reading stands once and for all: a value that was
/// read, or an error other than the end of the bytes.
pub open spec fn settled<T>(r: Result<T, DecodeError>) -> bool {
    r != Err::<T, DecodeError>(DecodeError::UnexpectedEof)
}

/// The first `c` of some bytes is also the first `c` of those bytes with
/// more behind them.
proof fn lemma_first_at_extend(s: Seq<u8>, more: Seq<u8>, c: u8)
    requires
        first_at(s, c) < s.len(),
    ensures
        first_at(s + more, c) == first_at(s, c),
    decreases s.len(),
{
    lemma_first_at_bounds(s, c);
    if s.len() > 0 && s[0] != c {
        assert((s + more).skip(1) =~= s.skip(1) + more);
        lemma_first_at_extend(s.skip(1), more, c);
    }
}

/// A payload that is there whole is the same with more bytes behind it.
proof fn lemma_closed_payload_extend(rest: Seq<u8>, more: Seq<u8>, len: nat)
    requires
        settled(closed_payload(rest, len)),
    ensures
        closed_payload(rest + more, len) == closed_payload(rest, len),
{
    assert((rest + more).take(len as int) =~= rest.take(len as int));
}

/// What was read behind a tag, or refused there, is read or refused just so
/// when more bytes follow.
proof fn lemma_body_settles(tag: u8, body: Seq<u8>, more: Seq<u8>, k: int)
    requires
        0 <= k < body.len(),
        settled(parse_body(tag, body, k)),
    ensures
        parse_body(tag, body + more, k) == parse_body(tag, body, k),
    decreases body.len(), 0nat,
{
    assert((body + more).take(k + 1) =~= body.take(k + 1));
    assert((body + more).skip(k + 1) =~= body.skip(k + 1) + more);
    let line = body.take(k + 1);
    let rest = body.skip(k + 1);
    if tag == TAG_SIMPLE_STRING || tag == TAG_SIMPLE_ERROR {
        if k >= 1 {
            assert((body + more)[k - 1] == body[k - 1]);
            assert((body + more).take(k - 1) =~= body.take(k - 1));
        }
    } else if tag == TAG_INT {
    } else if tag == TAG_BULK && crate::deser::trim_end(line) == minus_one() {
    } else {
        match line_length(line) {
            None => {},
            Some(len) => {
                if tag == TAG_ARRAY {
                    lemma_values_settle(rest, more, len);
                } else {
                    lemma_closed_payload_extend(rest, more, len);
                }
            },
        }
    }
}

/// What was read from some bytes, or refused in them, is read or refused
/// just so when more bytes follow. Only the end of the bytes may give way
/// to something else.
pub proof fn law_reading_settles(s: Seq<u8>, more: Seq<u8>)
    requires
        settled(parse_value(s)),
    ensures
        parse_value(s + more) == parse_value(s),
    decreases s.len(), 1nat,
{
    let long = s + more;
    if s.len() > 0 {
        assert(long[0] == s[0]);
        if crate::deser::is_tag(s[0]) {
            let body = s.skip(1);
            let k = line_feed_at(body);
            lemma_first_at_bounds(body, LF);
            assert(long.skip(1) =~= body + more);
            lemma_first_at_extend(body, more, LF);
            lemma_body_settles(s[0], body, more, k);
        }
    }
}

/// The same of a run of values.
pub proof fn lemma_values_settle(s: Seq<u8>, more: Seq<u8>, n: nat)
    requires
        settled(parse_values(s, n)),
    ensures
        parse_values(s + more, n) == parse_values(s, n),
    decreases s.len(), n + 2,
{
    if n > 0 {
        lemma_parse_value_bounds(s);
        law_reading_settles(s, more);
        match parse_value(s) {
            Ok((_, k)) => {
                assert((s + more).skip(k as int) =~= s.skip(k as int) + more);
                lemma_values_settle(s.skip(k as int), more, (n - 1) as nat);
            },
            Err(_) => {},
        }
    }
}

/// Bytes that stop short of the end of a value read as the end of the
/// bytes, never as another value and never as another error.
pub proof fn law_short_read(s: Seq<u8>, k: int)
    requires
        parse_value(s) is Ok,
        0 <= k < parse_value(s)->Ok_0.1,
    ensures
        parse_value(s.take(k)) == Err::<(ValueView, nat), DecodeError>(DecodeError::UnexpectedEof),
{
    lemma_parse_value_bounds(s);
    let short = s.take(k);
    let more = s.skip(k);
    assert(short + more =~= s);
    if settled(parse_value(short)) {
        law_reading_settles(short, more);
        lemma_parse_value_bounds(short);
    }
}

/// The frame of a file that was read from some bytes, or refused in them,
/// is read or refused just so when more bytes follow.
pub proof fn law_file_reading_settles(s: Seq<u8>, more: Seq<u8>)
    requires
        settled(parse_file(s)),
    ensures
        parse_file(s + more) == parse_file(s),
{
    let long = s + more;
    if s.len() > 0 {
        assert(long[0] == s[0]);
        if s[0] == TAG_BULK {
            let body = s.skip(1);
            let k = line_feed_at(body);
            lemma_first_at_bounds(body, LF);
            assert(long.skip(1) =~= body + more);
            lemma_first_at_extend(body, more, LF);
            assert((body + more).take(k + 1) =~= body.take(k + 1));
            match line_length(body.take(k + 1)) {
                None => {},
                Some(len) => {
                    assert((body + more).subrange(k + 1, k + 1 + len) =~= body.subrange(
                        k + 1,
                        k + 1 + len,
                    ));
                },
            }
        }
    }
}

} // verus!
