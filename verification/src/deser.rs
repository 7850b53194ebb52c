//! Reading values of the wire protocol from bytes: the grammar, the decoder
//! that follows it, and readers that keep their place.

use vstd::prelude::*;
use vstd::slice::slice_subrange;
use vstd::utf8::*;

use crate::common::{append_bytes, Bytes};
use crate::decimal::{parse_signed, parse_unsigned, read_i64, read_unsigned, MINUS};
use crate::resp::{
    minus_one, Value, ValueView, CR, LF, TAG_ARRAY, TAG_BULK, TAG_BULK_ERROR, TAG_INT,
    TAG_SIMPLE_ERROR, TAG_SIMPLE_STRING,
};

verus! {

/// Why bytes could not be read as a value.
#[derive(Clone, Copy, Debug, PartialEq, Eq, Structural)]
pub enum DecodeError {
    /// The bytes end before the value does.
    UnexpectedEof,
    /// The value opens with a byte that names no kind of value.
    InvalidTag(u8),
    /// A length line holds no decimal length.
    BadLength,
    /// An integer line holds no decimal integer that fits an `i64`.
    BadInteger,
    /// A line or a payload is not closed by a carriage return and a line
    /// feed.
    MissingCrlf,
    /// An error message is not well-formed UTF-8.
    InvalidUtf8,
}

/// What reading one value gives: the value and the number of bytes that it
/// took, or the reason why there is none.
pub type Parsed = Result<(ValueView, nat), DecodeError>;

/// What reading a run of values gives.
pub type ParsedMany = Result<(Seq<ValueView>, nat), DecodeError>;

/// Whether the three bytes are the UTF-8 form of a white-space character
/// beyond U+07FF.
pub open spec fn is_wide_space(a: u8, b: u8, c: u8) -> bool {
    ||| a == 0xE1 && b == 0x9A && c == 0x80
    ||| a == 0xE2 && b == 0x80 && (0x80 <= c <= 0x8A || c == 0xA8 || c == 0xA9 || c == 0xAF)
    ||| a == 0xE2 && b == 0x81 && c == 0x9F
    ||| a == 0xE3 && b == 0x80 && c == 0x80
}

/// The number of bytes of the white-space character that `s` ends in, in
/// UTF-8; zero where it ends in none.
pub open spec fn trailing_space_len(s: Seq<u8>) -> nat {
    let n = s.len() as int;
    if n >= 1 && (9 <= s[n - 1] <= 13 || s[n - 1] == 32) {
        1
    } else if n >= 2 && s[n - 2] == 0xC2 && (s[n - 1] == 0x85 || s[n - 1] == 0xA0) {
        2
    } else if n >= 3 && is_wide_space(s[n - 3], s[n - 2], s[n - 1]) {
        3
    } else {
        0
    }
}

/// `s` without the white space that it ends in.
pub open spec fn trim_end(s: Seq<u8>) -> Seq<u8>
    decreases s.len(),
{
    let k = trailing_space_len(s);
    if k == 0 {
        s
    } else {
        trim_end(s.take(s.len() - k))
    }
}

/// The length that a length line states: what is left of the line without
/// its trailing white space, read as an unsigned decimal numeral.
pub open spec fn line_length(line: Seq<u8>) -> Option<nat> {
    parse_unsigned(trim_end(line), usize::MAX as nat)
}

/// The place of the first byte `c` in `s`, or the length of `s` where it
/// holds none.
pub open spec fn first_at(s: Seq<u8>, c: u8) -> int
    decreases s.len(),
{
    if s.len() == 0 {
        0
    } else if s[0] == c {
        0
    } else {
        1 + first_at(s.skip(1), c)
    }
}

/// The place of the first line feed in `s`, or the length of `s` where it
/// holds none.
pub open spec fn line_feed_at(s: Seq<u8>) -> int {
    first_at(s, LF)
}

/// The first `c` lies within `s`, or at its end where it holds none.
pub proof fn lemma_first_at_bounds(s: Seq<u8>, c: u8)
    ensures
        0 <= first_at(s, c) <= s.len(),
    decreases s.len(),
{
    if s.len() > 0 && s[0] != c {
        lemma_first_at_bounds(s.skip(1), c);
    }
}

/// Whether `tag` opens a value.
pub open spec fn is_tag(tag: u8) -> bool {
    tag == TAG_SIMPLE_STRING || tag == TAG_SIMPLE_ERROR || tag == TAG_INT || tag == TAG_BULK || tag
        == TAG_ARRAY || tag == TAG_BULK_ERROR
}

/// A payload of `len` bytes at the start of `rest`, closed by a carriage
/// return and a line feed.
pub open spec fn closed_payload(rest: Seq<u8>, len: nat) -> Result<Seq<u8>, DecodeError> {
    if rest.len() < len + 2 {
        Err(DecodeError::UnexpectedEof)
    } else if rest[len as int] != CR || rest[len as int + 1] != LF {
        Err(DecodeError::MissingCrlf)
    } else {
        Ok(rest.take(len as int))
    }
}

/// A simple string or a simple error: the line `body[..= k]` ends in a
/// carriage return and a line feed, and what stands before them is the
/// payload.
pub open spec fn parse_text_line(tag: u8, body: Seq<u8>, k: int) -> Parsed {
    if k < 1 || body[k - 1] != CR {
        Err(DecodeError::MissingCrlf)
    } else if tag == TAG_SIMPLE_STRING {
        Ok((ValueView::SimpleString(body.take(k - 1)), (k + 2) as nat))
    } else if !valid_utf8(body.take(k - 1)) {
        Err(DecodeError::InvalidUtf8)
    } else {
        Ok((ValueView::SimpleError(decode_utf8(body.take(k - 1))), (k + 2) as nat))
    }
}

/// An integer: the line without its trailing white space is a signed
/// decimal numeral. `used` is the number of bytes up to the end of the line.
pub open spec fn parse_int_line(line: Seq<u8>, used: nat) -> Parsed {
    match parse_signed(trim_end(line), i64::MIN as int, i64::MAX as int) {
        Some(i) => Ok((ValueView::Int(i as i64), used)),
        None => Err(DecodeError::BadInteger),
    }
}

/// A bulk string or a bulk error of `len` bytes, which `rest` starts with.
pub open spec fn parse_bulk(tag: u8, rest: Seq<u8>, len: nat, used: nat) -> Parsed {
    match closed_payload(rest, len) {
        Err(e) => Err(e),
        Ok(payload) => if tag == TAG_BULK {
            Ok((ValueView::BulkString(payload), used + len + 2))
        } else if !valid_utf8(payload) {
            Err(DecodeError::InvalidUtf8)
        } else {
            Ok((ValueView::BulkError(decode_utf8(payload)), used + len + 2))
        },
    }
}

/// An array made of the values that were read for it, after `used` bytes of
/// tag and length line.
pub open spec fn parse_array(elems: ParsedMany, used: nat) -> Parsed {
    match elems {
        Ok((vs, m)) => Ok((ValueView::Array(vs), used + m)),
        Err(e) => Err(e),
    }
}

/// Reads what follows the tag of a value: `body` is what stands behind the
/// tag, and its first line feed stands at `k`.
pub open spec fn parse_body(tag: u8, body: Seq<u8>, k: int) -> Parsed
    decreases body.len(), 0nat,
{
    if k < 0 || k >= body.len() {
        Err(DecodeError::UnexpectedEof)
    } else {
        let line = body.take(k + 1);
        let rest = body.skip(k + 1);
        let used = (k + 2) as nat;
        if tag == TAG_SIMPLE_STRING || tag == TAG_SIMPLE_ERROR {
            parse_text_line(tag, body, k)
        } else if tag == TAG_INT {
            parse_int_line(line, used)
        } else if tag == TAG_BULK && trim_end(line) == minus_one() {
            Ok((ValueView::NullBulkString, used))
        } else {
            match line_length(line) {
                None => Err(DecodeError::BadLength),
                Some(len) => if tag == TAG_ARRAY {
                    parse_array(parse_values(rest, len), used)
                } else {
                    parse_bulk(tag, rest, len, used)
                },
            }
        }
    }
}

/// Reads the value that `s` starts with.
///
/// A value opens with a tag: `+` for a simple string, `-` for a simple
/// error, `:` for an integer, `$` for a bulk string or a null, `*` for an
/// array, `!` for a bulk error. A line runs up to the first line feed. The
/// line of a simple string or a simple error ends in a carriage return and a
/// line feed, and what stands before them is the payload. An integer line
/// and a length line are read without their trailing white space. A bulk
/// string and a bulk error hold as many bytes as their length line says,
/// then a carriage return and a line feed; the length `-1` makes a null. An
/// array holds as many values as its length line says.
pub open spec fn parse_value(s: Seq<u8>) -> Parsed
    decreases s.len(), 0nat,
{
    if s.len() == 0 {
        Err(DecodeError::UnexpectedEof)
    } else if !is_tag(s[0]) {
        Err(DecodeError::InvalidTag(s[0]))
    } else {
        parse_body(s[0], s.skip(1), line_feed_at(s.skip(1)))
    }
}

/// Reads the `n` values that `s` starts with, one after the other.
pub open spec fn parse_values(s: Seq<u8>, n: nat) -> ParsedMany
    decreases s.len(), n,
{
    if n == 0 {
        Ok((Seq::empty(), 0))
    } else {
        match parse_value(s) {
            Err(e) => Err(e),
            Ok((v, k)) => if k > s.len() {
                Err(DecodeError::UnexpectedEof)
            } else {
                match parse_values(s.skip(k as int), (n - 1) as nat) {
                    Err(e) => Err(e),
                    Ok((vs, m)) => Ok((seq![v] + vs, k + m)),
                }
            },
        }
    }
}

/// Reads values from `s` until nothing is left of it.
pub open spec fn parse_many(s: Seq<u8>) -> ParsedMany
    decreases s.len(),
{
    if s.len() == 0 {
        Ok((Seq::empty(), 0))
    } else {
        match parse_value(s) {
            Err(e) => Err(e),
            Ok((v, k)) => if k == 0 || k > s.len() {
                Err(DecodeError::UnexpectedEof)
            } else {
                match parse_many(s.skip(k as int)) {
                    Err(e) => Err(e),
                    Ok((vs, m)) => Ok((seq![v] + vs, k + m)),
                }
            },
        }
    }
}

/// Reads the frame of a file that `s` starts with: the tag `$`, a length
/// line, and as many bytes as the line says, with nothing to close them.
pub open spec fn parse_file(s: Seq<u8>) -> Parsed {
    if s.len() == 0 {
        Err(DecodeError::UnexpectedEof)
    } else if s[0] != TAG_BULK {
        Err(DecodeError::InvalidTag(s[0]))
    } else {
        let body = s.skip(1);
        let k = line_feed_at(body);
        if k >= body.len() {
            Err(DecodeError::UnexpectedEof)
        } else {
            match line_length(body.take(k + 1)) {
                None => Err(DecodeError::BadLength),
                Some(len) => if body.len() - (k + 1) < len {
                    Err(DecodeError::UnexpectedEof)
                } else {
                    Ok((ValueView::FileContents(body.subrange(k + 1, k + 1 + len)), (k + 2 + len) as nat))
                },
            }
        }
    }
}

/// Whether what a decoder returned is what the grammar gives.
pub open spec fn agrees(r: Result<(Value, usize), DecodeError>, p: Parsed) -> bool {
    match p {
        Ok((v, n)) => r is Ok && r->Ok_0.0@ == v && r->Ok_0.1 == n,
        Err(e) => r == Err::<(Value, usize), DecodeError>(e),
    }
}

/// The first `c` is where no `c` stands before.
pub proof fn lemma_first_at_is(s: Seq<u8>, c: u8, k: int)
    requires
        0 <= k <= s.len(),
        forall|j: int| 0 <= j < k ==> s[j] != c,
        k < s.len() ==> s[k] == c,
    ensures
        first_at(s, c) == k,
    decreases k,
{
    if k > 0 {
        lemma_first_at_is(s.skip(1), c, k - 1);
    }
}

/// What follows a tag takes at least its line, and no more bytes than
/// there are.
pub proof fn lemma_parse_body_bounds(tag: u8, body: Seq<u8>, k: int)
    ensures
        parse_body(tag, body, k) matches Ok((_, n)) ==> 1 <= n <= body.len() + 1,
    decreases body.len(), 0nat,
{
    if 0 <= k < body.len() {
        match line_length(body.take(k + 1)) {
            Some(len) => {
                if tag == TAG_ARRAY {
                    lemma_parse_values_bounds(body.skip(k + 1), len);
                }
            },
            None => {},
        }
    }
}

/// A value takes at least its tag and its line, and no more bytes than
/// there are.
pub proof fn lemma_parse_value_bounds(s: Seq<u8>)
    ensures
        parse_value(s) matches Ok((_, n)) ==> 2 <= n <= s.len(),
    decreases s.len(), 1nat,
{
    if s.len() > 0 && is_tag(s[0]) {
        lemma_parse_body_bounds(s[0], s.skip(1), line_feed_at(s.skip(1)));
    }
}

/// A run of values takes no more bytes than there are, and holds as many
/// values as were asked for.
pub proof fn lemma_parse_values_bounds(s: Seq<u8>, n: nat)
    ensures
        parse_values(s, n) matches Ok((vs, m)) ==> m <= s.len() && vs.len() == n,
    decreases s.len(), n + 2,
{
    if n > 0 {
        lemma_parse_value_bounds(s);
        match parse_value(s) {
            Ok((_, k)) => {
                lemma_parse_values_bounds(s.skip(k as int), (n - 1) as nat);
            },
            Err(_) => {},
        }
    }
}

/// The place of the first byte `c` at or after `from`, or the length of
/// `data` where none follows.
fn find_byte(data: &[u8], from: usize, c: u8) -> (at: usize)
    requires
        from <= data.len(),
    ensures
        from <= at <= data.len(),
        at - from == first_at(data@.skip(from as int), c),
{
    let mut i: usize = from;
    while i < data.len() && data[i] != c
        invariant
            from <= i <= data.len(),
            forall|j: int| from <= j < i ==> data@[j] != c,
        decreases data.len() - i,
    {
        i += 1;
    }
    proof {
        lemma_first_at_is(data@.skip(from as int), c, i - from);
    }
    i
}

/// Where `data[from..to]` ends once its trailing white space is left out.
fn trimmed_end(data: &[u8], from: usize, to: usize) -> (end: usize)
    requires
        from <= to <= data.len(),
    ensures
        from <= end <= to,
        data@.subrange(from as int, end as int) == trim_end(data@.subrange(from as int, to as int)),
{
    let mut end: usize = to;
    loop
        invariant
            from <= end <= to <= data.len(),
            trim_end(data@.subrange(from as int, end as int)) == trim_end(
                data@.subrange(from as int, to as int),
            ),
        ensures
            trailing_space_len(data@.subrange(from as int, end as int)) == 0,
        decreases end,
    {
        let ghost cur = data@.subrange(from as int, end as int);
        let n: usize = end - from;
        let k: usize = if n >= 1 && ((9 <= data[end - 1] && data[end - 1] <= 13) || data[end - 1]
            == 32) {
            1
        } else if n >= 2 && data[end - 2] == 0xC2 && (data[end - 1] == 0x85 || data[end - 1]
            == 0xA0) {
            2
        } else if n >= 3 && wide_space(data[end - 3], data[end - 2], data[end - 1]) {
            3
        } else {
            0
        };
        assert(k == trailing_space_len(cur));
        if k == 0 {
            break ;
        }
        assert(cur.take(cur.len() - k) =~= data@.subrange(from as int, end - k));
        end = end - k;
    }
    end
}

/// Whether the three bytes are the UTF-8 form of a white-space character
/// beyond U+07FF.
fn wide_space(a: u8, b: u8, c: u8) -> (r: bool)
    ensures
        r == is_wide_space(a, b, c),
{
    (a == 0xE1 && b == 0x9A && c == 0x80) || (a == 0xE2 && b == 0x80 && ((0x80 <= c && c <= 0x8A)
        || c == 0xA8 || c == 0xA9 || c == 0xAF)) || (a == 0xE2 && b == 0x81 && c == 0x9F) || (a
        == 0xE3 && b == 0x80 && c == 0x80)
}

/// The length that the line `data[from..to]` states.
fn read_line_length(data: &[u8], from: usize, to: usize) -> (r: Option<usize>)
    requires
        from <= to <= data.len(),
    ensures
        r matches Some(n) ==> line_length(data@.subrange(from as int, to as int)) == Some(n as nat),
        r is None ==> line_length(data@.subrange(from as int, to as int)) is None,
{
    let end = trimmed_end(data, from, to);
    match read_unsigned(slice_subrange(data, from, end), usize::MAX as u64) {
        Some(n) => Some(n as usize),
        None => None,
    }
}

/// The length that a length line states: the line without its trailing
/// white space, read as an unsigned decimal numeral.
pub fn parse_len(bytes: &[u8]) -> (r: Result<usize, DecodeError>)
    ensures
        r matches Ok(n) ==> line_length(bytes@) == Some(n as nat),
        r matches Err(e) ==> e == DecodeError::BadLength && line_length(bytes@) is None,
{
    assert(bytes@.subrange(0, bytes@.len() as int) =~= bytes@);
    match read_line_length(bytes, 0, bytes.len()) {
        Some(n) => Ok(n),
        None => Err(DecodeError::BadLength),
    }
}

/// The payload of `len` bytes at `from`, where a carriage return and a
/// line feed close it.
fn read_closed_payload(data: &[u8], from: usize, len: usize) -> (r: Result<Bytes, DecodeError>)
    requires
        from <= data.len(),
    ensures
        r matches Ok(b) ==> closed_payload(data@.skip(from as int), len as nat) == Ok::<
            Seq<u8>,
            DecodeError,
        >(b@),
        r matches Err(e) ==> closed_payload(data@.skip(from as int), len as nat) == Err::<
            Seq<u8>,
            DecodeError,
        >(e),
        r is Ok ==> from + len + 2 <= data.len(),
{
    let left: usize = data.len() - from;
    if left < 2 || left - 2 < len {
        return Err(DecodeError::UnexpectedEof);
    }
    if data[from + len] != CR || data[from + len + 1] != LF {
        return Err(DecodeError::MissingCrlf);
    }
    let payload = Bytes::from_slice(slice_subrange(data, from, from + len));
    assert(data@.skip(from as int).take(len as int) =~= data@.subrange(from as int, from + len));
    Ok(payload)
}

/// How a run of values read so far goes before what reading the rest gives.
pub open spec fn after(done: Seq<ValueView>, used: nat, rest: ParsedMany) -> ParsedMany {
    match rest {
        Ok((vs, m)) => Ok((done + vs, used + m)),
        Err(e) => Err(e),
    }
}

/// One more value read goes behind the values read so far.
proof fn lemma_after_one_more(done: Seq<ValueView>, used: nat, v: ValueView, n: nat, rest: ParsedMany)
    ensures
        after(done, used, after(seq![v], n, rest)) == after(done.push(v), used + n, rest),
{
    match rest {
        Ok((vs, m)) => {
            assert(done + (seq![v] + vs) =~= done.push(v) + vs);
        },
        Err(_) => {},
    }
}

/// Reads a simple string or a simple error whose line feed stands at `lf`.
fn decode_text_line(data: &[u8], pos: usize, lf: usize, tag: u8) -> (r: Result<
    (Value, usize),
    DecodeError,
>)
    requires
        pos < lf < data.len(),
        tag == TAG_SIMPLE_STRING || tag == TAG_SIMPLE_ERROR,
    ensures
        agrees(r, parse_text_line(tag, data@.skip(pos + 1), lf - (pos + 1))),
        r matches Ok((_, n)) ==> pos + n <= data.len(),
{
    let ghost body = data@.skip(pos + 1);
    if lf < pos + 2 || data[lf - 1] != CR {
        return Err(DecodeError::MissingCrlf);
    }
    let payload = Bytes::from_slice(slice_subrange(data, pos + 1, lf - 1));
    assert(body.take(lf - (pos + 1) - 1) =~= data@.subrange(pos + 1, lf - 1));
    if tag == TAG_SIMPLE_STRING {
        return Ok((Value::SimpleString(payload), lf + 1 - pos));
    }
    match payload.to_string() {
        Ok(msg) => Ok((Value::SimpleError(msg), lf + 1 - pos)),
        Err(_) => Err(DecodeError::InvalidUtf8),
    }
}

/// Reads a bulk string or a bulk error of `len` bytes at `next`.
fn decode_bulk(data: &[u8], pos: usize, next: usize, len: usize, tag: u8) -> (r: Result<
    (Value, usize),
    DecodeError,
>)
    requires
        pos < next <= data.len(),
    ensures
        agrees(r, parse_bulk(tag, data@.skip(next as int), len as nat, (next - pos) as nat)),
        r matches Ok((_, n)) ==> pos + n <= data.len(),
{
    match read_closed_payload(data, next, len) {
        Err(e) => Err(e),
        Ok(payload) => {
            let used: usize = next + len + 2 - pos;
            if tag == TAG_BULK {
                Ok((Value::BulkString(payload), used))
            } else {
                match payload.to_string() {
                    Ok(msg) => Ok((Value::BulkError(msg), used)),
                    Err(_) => Err(DecodeError::InvalidUtf8),
                }
            }
        },
    }
}

/// Reads the `len` values of an array, the first of which starts at `next`.
fn decode_array(data: &[u8], pos: usize, next: usize, len: usize) -> (r: Result<
    (Value, usize),
    DecodeError,
>)
    requires
        pos < next <= data.len(),
    ensures
        agrees(
            r,
            parse_array(parse_values(data@.skip(next as int), len as nat), (next - pos) as nat),
        ),
        r matches Ok((_, n)) ==> pos + n <= data.len(),
    decreases data.len() - pos, 0nat,
{
    let ghost rest = data@.skip(next as int);
    let mut elems: Vec<Value> = Vec::new();
    let mut at: usize = next;
    let mut i: usize = 0;
    proof {
        assert(Seq::<ValueView>::empty() + parse_values(rest, len as nat)->Ok_0.0
            =~= parse_values(rest, len as nat)->Ok_0.0);
    }
    while i < len
        invariant
            i <= len,
            pos < next <= at <= data.len(),
            rest == data@.skip(next as int),
            elems.len() == i,
            parse_values(rest, len as nat) == after(
                crate::resp::views(elems@),
                (at - next) as nat,
                parse_values(data@.skip(at as int), (len - i) as nat),
            ),
        decreases len - i,
    {
        let ghost cur = data@.skip(at as int);
        proof {
            lemma_parse_value_bounds(cur);
        }
        match decode_at(data, at) {
            Err(e) => {
                return Err(e);
            },
            Ok((v, n)) => {
                proof {
                    let done = crate::resp::views(elems@);
                    let tail = parse_values(cur.skip(n as int), (len - i - 1) as nat);
                    assert(cur.skip(n as int) =~= data@.skip(at + n));
                    assert(crate::resp::views(elems@.push(v)) =~= done.push(v@));
                    assert(parse_values(cur, (len - i) as nat) == after(seq![v@], n as nat, tail));
                    lemma_after_one_more(done, (at - next) as nat, v@, n as nat, tail);
                }
                elems.push(v);
                at = at + n;
                i += 1;
            },
        }
    }
    proof {
        crate::resp::lemma_array_view(elems);
        assert(crate::resp::views(elems@) + Seq::<ValueView>::empty() =~= crate::resp::views(
            elems@,
        ));
    }
    Ok((Value::Array(elems), at - pos))
}

/// Reads an integer whose line runs from `pos + 1` through the line feed at
/// `lf`.
fn decode_int_line(data: &[u8], pos: usize, lf: usize) -> (r: Result<(Value, usize), DecodeError>)
    requires
        pos < lf < data.len(),
    ensures
        agrees(r, parse_int_line(data@.subrange(pos + 1, lf + 1), (lf + 1 - pos) as nat)),
        r matches Ok((_, n)) ==> pos + n <= data.len(),
{
    let end: usize = trimmed_end(data, pos + 1, lf + 1);
    match read_i64(slice_subrange(data, pos + 1, end)) {
        Some(i) => Ok((Value::Int(i), lf + 1 - pos)),
        None => Err(DecodeError::BadInteger),
    }
}

/// Whether the line `data[from..to]` holds the numeral `-1` once its
/// trailing white space is left out.
fn is_null_length(data: &[u8], from: usize, to: usize) -> (b: bool)
    requires
        from <= to <= data.len(),
    ensures
        b == (trim_end(data@.subrange(from as int, to as int)) == minus_one()),
{
    let end: usize = trimmed_end(data, from, to);
    let numeral = slice_subrange(data, from, end);
    if end - from == 2 && numeral[0] == MINUS && numeral[1] == 49 {
        assert(numeral@ =~= minus_one());
        true
    } else {
        false
    }
}

/// Reads what follows the tag `tag` at `pos`, whose line ends with the
/// line feed at `lf`.
fn decode_body(data: &[u8], pos: usize, lf: usize, tag: u8) -> (r: Result<
    (Value, usize),
    DecodeError,
>)
    requires
        pos < lf < data.len(),
    ensures
        agrees(r, parse_body(tag, data@.skip(pos + 1), lf - (pos + 1))),
        r matches Ok((_, n)) ==> pos + n <= data.len(),
    decreases data.len() - pos, 1nat,
{
    if tag == TAG_SIMPLE_STRING || tag == TAG_SIMPLE_ERROR {
        return decode_text_line(data, pos, lf, tag);
    }
    let ghost body = data@.skip(pos + 1);
    let ghost k = lf - (pos + 1);
    let next: usize = lf + 1;
    assert(body.take(k + 1) =~= data@.subrange(pos + 1, next as int));
    assert(body.skip(k + 1) =~= data@.skip(next as int));
    if tag == TAG_INT {
        return decode_int_line(data, pos, lf);
    }
    if tag == TAG_BULK && is_null_length(data, pos + 1, next) {
        return Ok((Value::NullBulkString, next - pos));
    }
    match read_line_length(data, pos + 1, next) {
        None => Err(DecodeError::BadLength),
        Some(n) => if tag == TAG_ARRAY {
            decode_array(data, pos, next, n)
        } else {
            decode_bulk(data, pos, next, n, tag)
        },
    }
}

/// Reads the value that starts at `pos`, and says how many bytes it took.
pub fn decode_at(data: &[u8], pos: usize) -> (r: Result<(Value, usize), DecodeError>)
    requires
        pos <= data.len(),
    ensures
        agrees(r, parse_value(data@.skip(pos as int))),
        r matches Ok((_, n)) ==> pos + n <= data.len(),
    decreases data.len() - pos, 2nat,
{
    if pos == data.len() {
        return Err(DecodeError::UnexpectedEof);
    }
    let tag: u8 = data[pos];
    if !(tag == TAG_SIMPLE_STRING || tag == TAG_SIMPLE_ERROR || tag == TAG_INT || tag == TAG_BULK
        || tag == TAG_ARRAY || tag == TAG_BULK_ERROR) {
        return Err(DecodeError::InvalidTag(tag));
    }
    assert(data@.skip(pos as int).skip(1) =~= data@.skip(pos + 1));
    let lf: usize = find_byte(data, pos + 1, LF);
    if lf == data.len() {
        return Err(DecodeError::UnexpectedEof);
    }
    decode_body(data, pos, lf, tag)
}

/// Reads the frame of a file that starts at `pos`, and says how many bytes
/// it took.
pub fn decode_file_at(data: &[u8], pos: usize) -> (r: Result<(Value, usize), DecodeError>)
    requires
        pos <= data.len(),
    ensures
        agrees(r, parse_file(data@.skip(pos as int))),
        r matches Ok((_, n)) ==> pos + n <= data.len(),
{
    let ghost s = data@.skip(pos as int);
    if pos == data.len() {
        return Err(DecodeError::UnexpectedEof);
    }
    let tag: u8 = data[pos];
    if tag != TAG_BULK {
        return Err(DecodeError::InvalidTag(tag));
    }
    let ghost body = s.skip(1);
    assert(body =~= data@.skip(pos + 1));
    let lf: usize = find_byte(data, pos + 1, LF);
    if lf == data.len() {
        return Err(DecodeError::UnexpectedEof);
    }
    let ghost k = lf - (pos + 1);
    let next: usize = lf + 1;
    assert(body.take(k + 1) =~= data@.subrange(pos + 1, next as int));
    match read_line_length(data, pos + 1, next) {
        None => Err(DecodeError::BadLength),
        Some(len) => {
            if data.len() - next < len {
                return Err(DecodeError::UnexpectedEof);
            }
            let payload = Bytes::from_slice(slice_subrange(data, next, next + len));
            assert(body.subrange(k + 1, k + 1 + len) =~= data@.subrange(
                next as int,
                next + len,
            ));
            Ok((Value::FileContents(payload), next + len - pos))
        },
    }
}

/// Reads the value that `data` starts with, and says how many bytes it
/// took.
pub fn deserialize(data: &[u8]) -> (r: Result<(Value, usize), DecodeError>)
    ensures
        agrees(r, parse_value(data@)),
{
    assert(data@.skip(0) =~= data@);
    decode_at(data, 0)
}

/// Whether what a decoder of runs returned is what the grammar gives.
pub open spec fn agrees_many(r: Result<(Vec<Value>, usize), DecodeError>, p: ParsedMany) -> bool {
    match p {
        Ok((vs, n)) => r is Ok && crate::resp::views(r->Ok_0.0@) == vs && r->Ok_0.1 == n,
        Err(e) => r == Err::<(Vec<Value>, usize), DecodeError>(e),
    }
}

/// Reads values from `data` until nothing is left of it, and says how many
/// bytes they took.
pub fn deserialize_many(data: &[u8]) -> (r: Result<(Vec<Value>, usize), DecodeError>)
    ensures
        agrees_many(r, parse_many(data@)),
{
    let mut vals: Vec<Value> = Vec::new();
    let mut at: usize = 0;
    proof {
        assert(data@.skip(0) =~= data@);
        assert(Seq::<ValueView>::empty() + parse_many(data@)->Ok_0.0 =~= parse_many(
            data@,
        )->Ok_0.0);
    }
    while at < data.len()
        invariant
            at <= data.len(),
            parse_many(data@) == after(
                crate::resp::views(vals@),
                at as nat,
                parse_many(data@.skip(at as int)),
            ),
        decreases data.len() - at,
    {
        let ghost cur = data@.skip(at as int);
        proof {
            lemma_parse_value_bounds(cur);
        }
        match decode_at(data, at) {
            Err(e) => {
                return Err(e);
            },
            Ok((v, n)) => {
                proof {
                    let done = crate::resp::views(vals@);
                    let tail = parse_many(cur.skip(n as int));
                    assert(cur.skip(n as int) =~= data@.skip(at + n));
                    assert(crate::resp::views(vals@.push(v)) =~= done.push(v@));
                    assert(parse_many(cur) == after(seq![v@], n as nat, tail));
                    lemma_after_one_more(done, at as nat, v@, n as nat, tail);
                }
                vals.push(v);
                at = at + n;
            },
        }
    }
    proof {
        assert(crate::resp::views(vals@) + Seq::<ValueView>::empty() =~= crate::resp::views(vals@));
    }
    Ok((vals, at))
}

/// A reader of values from bytes held in memory, which keeps its place.
pub struct RespDeserializer<'a> {
    data: &'a [u8],
    pos: usize,
}

impl<'a> View for RespDeserializer<'a> {
    type V = Seq<u8>;

    /// The bytes that are left to read.
    closed spec fn view(&self) -> Seq<u8> {
        self.data@.skip(self.pos as int)
    }
}

impl<'a> RespDeserializer<'a> {
    /// The place of the reader lies within its bytes.
    #[verifier::type_invariant]
    spec fn in_bounds(self) -> bool {
        self.pos <= self.data@.len()
    }

    /// A reader that has all of `data` before it.
    pub fn from_reader(data: &'a [u8]) -> (r: RespDeserializer<'a>)
        ensures
            r@ == data@,
    {
        assert(data@.skip(0) =~= data@);
        RespDeserializer { data, pos: 0 }
    }

    /// Reads the frame of a file and moves past it; where there is none, the
    /// reader stays where it was.
    pub fn deserialize_file(&mut self) -> (r: Result<Value, DecodeError>)
        ensures
            match parse_file(old(self)@) {
                Ok((v, n)) => r is Ok && r->Ok_0@ == v && final(self)@ == old(self)@.skip(n as int),
                Err(e) => r == Err::<Value, DecodeError>(e) && final(self)@ == old(self)@,
            },
    {
        proof {
            use_type_invariant(&*self);
        }
        match decode_file_at(self.data, self.pos) {
            Ok((v, n)) => {
                assert(self.data@.skip(self.pos as int).skip(n as int) =~= self.data@.skip(
                    self.pos + n,
                ));
                self.pos = self.pos + n;
                Ok(v)
            },
            Err(e) => Err(e),
        }
    }
}

/// Reads one value, says how many bytes it took and moves past it; where
/// there is none, the reader stays where it was.
pub fn deserialize_v1(me: &mut RespDeserializer) -> (r: Result<(Value, usize), DecodeError>)
    ensures
        agrees(r, parse_value(old(me)@)),
        r matches Ok((_, n)) ==> final(me)@ == old(me)@.skip(n as int),
        r is Err ==> final(me)@ == old(me)@,
{
    me.advance()
}

impl<'a> RespDeserializer<'a> {
    /// Reads one value, says how many bytes it took and moves past it.
    fn advance(&mut self) -> (r: Result<(Value, usize), DecodeError>)
        ensures
            agrees(r, parse_value(old(self)@)),
            r matches Ok((_, n)) ==> final(self)@ == old(self)@.skip(n as int),
            r is Err ==> final(self)@ == old(self)@,
    {
        proof {
            use_type_invariant(&*self);
        }
        match decode_at(self.data, self.pos) {
            Ok((v, n)) => {
                assert(self.data@.skip(self.pos as int).skip(n as int) =~= self.data@.skip(
                    self.pos + n,
                ));
                self.pos = self.pos + n;
                Ok((v, n))
            },
            Err(e) => Err(e),
        }
    }
}

/// A reader of values from bytes that it owns, which keeps its place and
/// does not count.
pub struct RespDeserializerV0 {
    data: Vec<u8>,
    pos: usize,
}

impl View for RespDeserializerV0 {
    type V = Seq<u8>;

    /// The bytes that are left to read.
    closed spec fn view(&self) -> Seq<u8> {
        self.data@.skip(self.pos as int)
    }
}

impl RespDeserializerV0 {
    /// The place of the reader lies within its bytes.
    #[verifier::type_invariant]
    spec fn in_bounds(self) -> bool {
        self.pos <= self.data@.len()
    }

    /// A reader that has all of `v` before it.
    pub fn new(v: Vec<u8>) -> (r: RespDeserializerV0)
        ensures
            r@ == v@,
    {
        assert(v@.skip(0) =~= v@);
        RespDeserializerV0 { data: v, pos: 0 }
    }

    /// Reads one value and moves past it; where there is none, the reader
    /// stays where it was.
    pub fn deserialize(&mut self) -> (r: Result<Value, DecodeError>)
        ensures
            match parse_value(old(self)@) {
                Ok((v, n)) => r is Ok && r->Ok_0@ == v && final(self)@ == old(self)@.skip(n as int),
                Err(e) => r == Err::<Value, DecodeError>(e) && final(self)@ == old(self)@,
            },
    {
        proof {
            use_type_invariant(&*self);
        }
        match decode_at(self.data.as_slice(), self.pos) {
            Ok((v, n)) => {
                assert(self.data@.skip(self.pos as int).skip(n as int) =~= self.data@.skip(
                    self.pos + n,
                ));
                self.pos = self.pos + n;
                Ok(v)
            },
            Err(e) => Err(e),
        }
    }

    /// Reads up to the first byte `c` and past it, puts what was read in
    /// place of what `buf` held, and returns how many bytes that was. Where
    /// no `c` is left, everything is read into `buf` and the read fails.
    pub fn read_until(&mut self, c: u8, buf: &mut Vec<u8>) -> (r: Result<usize, DecodeError>)
        ensures
            ({
                let left = old(self)@;
                let k = first_at(left, c);
                if k < left.len() {
                    &&& r == Ok::<usize, DecodeError>((k + 1) as usize)
                    &&& final(buf)@ == left.take(k + 1)
                    &&& final(self)@ == left.skip(k + 1)
                } else {
                    &&& r == Err::<usize, DecodeError>(DecodeError::UnexpectedEof)
                    &&& final(buf)@ == left
                    &&& final(self)@ == Seq::<u8>::empty()
                }
            }),
    {
        proof {
            use_type_invariant(&*self);
        }
        let ghost left = self@;
        let at: usize = find_byte(self.data.as_slice(), self.pos, c);
        let stop: usize = if at < self.data.len() {
            at + 1
        } else {
            at
        };
        buf.clear();
        append_bytes(buf, slice_subrange(self.data.as_slice(), self.pos, stop));
        assert(buf@ =~= left.take(stop - self.pos));
        assert(left.skip(stop - self.pos) =~= self.data@.skip(stop as int));
        let read: usize = stop - self.pos;
        self.pos = stop;
        if at < self.data.len() {
            Ok(read)
        } else {
            assert(left.take(left.len() as int) =~= left);
            Err(DecodeError::UnexpectedEof)
        }
    }

    /// Reads one byte and moves past it; fails where none is left.
    pub fn read_one_byte(&mut self) -> (r: Result<u8, DecodeError>)
        ensures
            old(self)@.len() > 0 ==> r == Ok::<u8, DecodeError>(old(self)@[0]) && final(self)@ == old(
                self,
            )@.skip(1),
            old(self)@.len() == 0 ==> r == Err::<u8, DecodeError>(DecodeError::UnexpectedEof)
                && final(self)@ == old(self)@,
    {
        proof {
            use_type_invariant(&*self);
        }
        if self.pos < self.data.len() {
            let b: u8 = self.data[self.pos];
            assert(self.data@.skip(self.pos as int).skip(1) =~= self.data@.skip(self.pos + 1));
            self.pos = self.pos + 1;
            Ok(b)
        } else {
            Err(DecodeError::UnexpectedEof)
        }
    }
}

/// Reads the value that `data` starts with.
pub fn deserialize_v0(data: &[u8]) -> (r: Result<Value, DecodeError>)
    ensures
        match parse_value(data@) {
            Ok((v, _)) => r is Ok && r->Ok_0@ == v,
            Err(e) => r == Err::<Value, DecodeError>(e),
        },
{
    assert(data@.skip(0) =~= data@);
    match decode_at(data, 0) {
        Ok((v, _)) => Ok(v),
        Err(e) => Err(e),
    }
}

} // verus!
