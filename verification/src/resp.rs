//! The values of the wire protocol, and how they are written as bytes.

use vstd::prelude::*;
use vstd::utf8::*;

use crate::common::{append_bytes, text, Bytes, InvalidUtf8};
use crate::decimal::{dec_digits, dec_int, push_i64, push_usize, read_i64, MINUS};

verus! {

/// One value of the wire protocol.
#[derive(Debug, PartialEq, Eq)]
pub enum Value {
    NullBulkString,
    SimpleString(Bytes),
    Array(Vec<Value>),
    Int(i64),
    BulkString(Bytes),
    FileContents(Bytes),
    SimpleError(String),
    BulkError(String),
}

/// What a [`Value`] stands for: byte strings as sequences of bytes, texts as
/// sequences of characters, arrays as sequences of values.
pub enum ValueView {
    NullBulkString,
    SimpleString(Seq<u8>),
    Array(Seq<ValueView>),
    Int(i64),
    BulkString(Seq<u8>),
    FileContents(Seq<u8>),
    SimpleError(Seq<char>),
    BulkError(Seq<char>),
}

impl View for Value {
    type V = ValueView;

    open spec fn view(&self) -> ValueView
        decreases self, 0nat,
    {
        match self {
            Value::NullBulkString => ValueView::NullBulkString,
            Value::SimpleString(b) => ValueView::SimpleString(b@),
            Value::Array(elems) => ValueView::Array(views_upto(elems, elems@.len())),
            Value::Int(i) => ValueView::Int(*i),
            Value::BulkString(b) => ValueView::BulkString(b@),
            Value::FileContents(b) => ValueView::FileContents(b@),
            Value::SimpleError(s) => ValueView::SimpleError(s@),
            Value::BulkError(s) => ValueView::BulkError(s@),
        }
    }
}

/// The views of the first `n` values of `v`, in order.
pub open spec fn views_upto(v: &Vec<Value>, n: nat) -> Seq<ValueView>
    decreases v, n,
{
    if n == 0 || n > v@.len() {
        Seq::empty()
    } else {
        proof {
            vstd::std_specs::vec::axiom_vec_index_decreases(*v, n - 1);
        }
        views_upto(v, (n - 1) as nat).push(v@[n - 1].view())
    }
}

/// The views of a run of values, one for one.
pub open spec fn views(vs: Seq<Value>) -> Seq<ValueView> {
    Seq::new(vs.len(), |i: int| vs[i]@)
}

/// The first `n` views of a vector are the views of its first `n` values.
pub proof fn lemma_views_upto(v: &Vec<Value>, n: nat)
    requires
        n <= v@.len(),
    ensures
        views_upto(v, n) == views(v@.take(n as int)),
    decreases n,
{
    if n > 0 {
        lemma_views_upto(v, (n - 1) as nat);
        assert(views(v@.take(n as int)) =~= views(v@.take(n - 1)).push(v@[n - 1]@));
    } else {
        assert(views(v@.take(0)) =~= Seq::<ValueView>::empty());
    }
}

/// An array stands for the views of its elements.
pub proof fn lemma_array_view(elems: Vec<Value>)
    ensures
        Value::Array(elems)@ == ValueView::Array(views(elems@)),
{
    lemma_views_upto(&elems, elems@.len());
    assert(elems@.take(elems@.len() as int) =~= elems@);
}

impl Value {
    /// A copy of this value.
    pub fn dup(&self) -> (r: Value)
        ensures
            r@ == self@,
        decreases self,
    {
        match self {
            Value::NullBulkString => Value::NullBulkString,
            Value::SimpleString(b) => Value::SimpleString(b.clone()),
            Value::Array(elems) => {
                let mut out: Vec<Value> = Vec::new();
                let mut i: usize = 0;
                while i < elems.len()
                    invariant
                        self is Array,
                        self->Array_0 == *elems,
                        i <= elems.len(),
                        out.len() == i,
                        views(out@) == views(elems@.take(i as int)),
                    decreases elems.len() - i,
                {
                    proof {
                        vstd::std_specs::vec::axiom_vec_index_decreases(*elems, i as int);
                    }
                    let e = elems[i].dup();
                    out.push(e);
                    assert(views(out@) =~= views(elems@.take(i + 1))) by {
                        assert(elems@.take(i + 1) =~= elems@.take(i as int).push(elems@[i as int]));
                        assert forall|j: int| 0 <= j < out@.len() implies views(out@)[j] == views(
                            elems@.take(i + 1),
                        )[j] by {
                            if j < i {
                                assert(views(out@)[j] == views(elems@.take(i as int))[j]);
                            }
                        }
                    }
                    i += 1;
                }
                proof {
                    assert(elems@.take(i as int) =~= elems@);
                    lemma_array_view(out);
                    lemma_array_view(*elems);
                }
                Value::Array(out)
            },
            Value::Int(i) => Value::Int(*i),
            Value::BulkString(b) => Value::BulkString(b.clone()),
            Value::FileContents(b) => Value::FileContents(b.clone()),
            Value::SimpleError(s) => Value::SimpleError(s.clone()),
            Value::BulkError(s) => Value::BulkError(s.clone()),
        }
    }
}

impl Clone for Value {
    fn clone(&self) -> (r: Value)
        ensures
            r@ == self@,
    {
        self.dup()
    }
}

/// A copy of a run of values.
pub fn dup_values(vs: &[Value]) -> (r: Vec<Value>)
    ensures
        views(r@) == views(vs@),
{
    let mut out: Vec<Value> = Vec::new();
    let mut i: usize = 0;
    while i < vs.len()
        invariant
            i <= vs.len(),
            out.len() == i,
            forall|j: int| 0 <= j < i ==> out@[j]@ == vs@[j]@,
        decreases vs.len() - i,
    {
        out.push(vs[i].dup());
        i += 1;
    }
    assert(views(out@) =~= views(vs@));
    out
}

/// Why a value could not be turned into a text or a number.
#[derive(Clone, Copy, Debug, PartialEq, Eq, Structural)]
pub enum ConvertError {
    /// The value is of a kind that holds neither.
    WrongKind,
    /// Its bytes are not well-formed UTF-8.
    InvalidUtf8,
    /// Its bytes are not a decimal numeral that fits an `i64`.
    NotAnInteger,
}

/// The text that a value stands for, where it has one.
pub open spec fn value_text(v: ValueView) -> Result<Seq<char>, ConvertError> {
    match v {
        ValueView::NullBulkString => Ok(Seq::empty()),
        ValueView::SimpleString(b) | ValueView::BulkString(b) => if valid_utf8(b) {
            Ok(decode_utf8(b))
        } else {
            Err(ConvertError::InvalidUtf8)
        },
        _ => Err(ConvertError::WrongKind),
    }
}

/// The integer that a value stands for, where it has one.
pub open spec fn value_int(v: ValueView) -> Result<i64, ConvertError> {
    match v {
        ValueView::Int(i) => Ok(i),
        ValueView::SimpleString(b) | ValueView::BulkString(b) => match crate::decimal::parse_signed(
            b,
            i64::MIN as int,
            i64::MAX as int,
        ) {
            Some(i) => Ok(i as i64),
            None => Err(ConvertError::NotAnInteger),
        },
        _ => Err(ConvertError::WrongKind),
    }
}

impl Value {
    /// The simple string `OK`.
    pub fn ok() -> (r: Value)
        ensures
            r@ == ValueView::SimpleString(text("OK")),
    {
        Value::SimpleString(Bytes::from_text("OK"))
    }

    /// The text of a null, simple or bulk string; a null reads as the empty
    /// text.
    pub fn try_to_string(&self) -> (r: Result<String, ConvertError>)
        ensures
            r matches Ok(s) ==> value_text(self@) == Ok::<Seq<char>, ConvertError>(s@),
            r matches Err(e) ==> value_text(self@) == Err::<Seq<char>, ConvertError>(e),
    {
        match self {
            Value::NullBulkString => Ok(String::new()),
            Value::SimpleString(bs) | Value::BulkString(bs) => match bs.to_string() {
                Ok(s) => Ok(s),
                Err(_) => Err(ConvertError::InvalidUtf8),
            },
            _ => Err(ConvertError::WrongKind),
        }
    }

    /// The number of an integer, or of a simple or bulk string that holds a
    /// decimal numeral.
    pub fn try_to_int(&self) -> (r: Result<i64, ConvertError>)
        ensures
            r == value_int(self@),
    {
        match self {
            Value::Int(i) => Ok(*i),
            Value::SimpleString(bs) | Value::BulkString(bs) => match read_i64(bs.as_bytes()) {
                Some(i) => Ok(i),
                None => Err(ConvertError::NotAnInteger),
            },
            _ => Err(ConvertError::WrongKind),
        }
    }
}

impl From<&str> for Value {
    /// The bulk string that holds the bytes of `s`.
    fn from(s: &str) -> (r: Value)
        ensures
            r@ == ValueView::BulkString(text(s)),
    {
        Value::BulkString(Bytes::from_text(s))
    }
}

impl vstd::std_specs::convert::FromSpecImpl<&str> for Value {
    open spec fn obeys_from_spec() -> bool {
        false
    }

    closed spec fn from_spec(s: &str) -> Value {
        arbitrary()
    }
}

impl From<&Bytes> for Value {
    /// The bulk string that holds the bytes of `s`.
    fn from(s: &Bytes) -> (r: Value)
        ensures
            r@ == ValueView::BulkString(s@),
    {
        Value::BulkString(s.clone())
    }
}

impl vstd::std_specs::convert::FromSpecImpl<&Bytes> for Value {
    open spec fn obeys_from_spec() -> bool {
        false
    }

    closed spec fn from_spec(s: &Bytes) -> Value {
        arbitrary()
    }
}

impl From<&[Value]> for Value {
    /// The array of copies of the values `v`.
    fn from(v: &[Value]) -> (r: Value)
        ensures
            r@ == ValueView::Array(views(v@)),
    {
        let v1 = dup_values(v);
        proof {
            lemma_array_view(v1);
        }
        Value::Array(v1)
    }
}

impl vstd::std_specs::convert::FromSpecImpl<&[Value]> for Value {
    open spec fn obeys_from_spec() -> bool {
        false
    }

    closed spec fn from_spec(v: &[Value]) -> Value {
        arbitrary()
    }
}

impl From<Vec<Value>> for Value {
    /// The array of the values `v`.
    fn from(v: Vec<Value>) -> (r: Value)
        ensures
            r@ == ValueView::Array(views(v@)),
    {
        proof {
            lemma_array_view(v);
        }
        Value::Array(v)
    }
}

impl vstd::std_specs::convert::FromSpecImpl<Vec<Value>> for Value {
    open spec fn obeys_from_spec() -> bool {
        true
    }

    open spec fn from_spec(v: Vec<Value>) -> Value {
        Value::Array(v)
    }
}

/// A simple string that holds the bytes of `s`.
pub fn s_str(s: &str) -> (r: Value)
    ensures
        r@ == ValueView::SimpleString(text(s)),
{
    Value::SimpleString(Bytes::from_text(s))
}

/// A bulk string that holds the bytes of `s`.
pub fn b_str(s: &str) -> (r: Value)
    ensures
        r@ == ValueView::BulkString(text(s)),
{
    Value::BulkString(Bytes::from_text(s))
}

/// A simple error with the message `s`.
pub fn s_err(s: &str) -> (r: Value)
    ensures
        r@ == ValueView::SimpleError(s@),
{
    Value::SimpleError(s.to_owned())
}

/// What the database answers to one query.
#[derive(Debug, PartialEq, Eq)]
pub struct QueryResult {
    /// The values to send back, in order; none where the answer is put off.
    pub vals: Vec<Value>,
    /// Whether the connection is to be handed over to the replication side.
    pub pass_stream: bool,
    /// By how many bytes the count of consumed replication input grows.
    pub repl_byte_cnt_inc: usize,
}

/// What a [`QueryResult`] stands for.
pub struct QueryResultView {
    pub vals: Seq<ValueView>,
    pub pass_stream: bool,
    pub repl_byte_cnt_inc: usize,
}

impl View for QueryResult {
    type V = QueryResultView;

    open spec fn view(&self) -> QueryResultView {
        QueryResultView {
            vals: views(self.vals@),
            pass_stream: self.pass_stream,
            repl_byte_cnt_inc: self.repl_byte_cnt_inc,
        }
    }
}

impl Clone for QueryResult {
    fn clone(&self) -> (r: QueryResult)
        ensures
            r@ == self@,
    {
        QueryResult {
            vals: dup_values(self.vals.as_slice()),
            pass_stream: self.pass_stream,
            repl_byte_cnt_inc: self.repl_byte_cnt_inc,
        }
    }
}

impl From<Vec<Value>> for QueryResult {
    /// An answer made of `v` alone: no hand-over, nothing counted.
    fn from(v: Vec<Value>) -> (r: QueryResult)
        ensures
            r@ == (QueryResultView { vals: views(v@), pass_stream: false, repl_byte_cnt_inc: 0 }),
    {
        QueryResult { vals: v, pass_stream: false, repl_byte_cnt_inc: 0 }
    }
}

impl vstd::std_specs::convert::FromSpecImpl<Vec<Value>> for QueryResult {
    open spec fn obeys_from_spec() -> bool {
        true
    }

    open spec fn from_spec(v: Vec<Value>) -> QueryResult {
        QueryResult { vals: v, pass_stream: false, repl_byte_cnt_inc: 0 }
    }
}

impl QueryResult {
    /// An answer made of `vals` alone: no hand-over, nothing counted.
    pub fn of(vals: Vec<Value>) -> (r: QueryResult)
        ensures
            r@ == (QueryResultView { vals: views(vals@), pass_stream: false, repl_byte_cnt_inc: 0 }),
    {
        QueryResult { vals, pass_stream: false, repl_byte_cnt_inc: 0 }
    }
}

// Wire format

/// Carriage return.
pub const CR: u8 = 13;

/// Line feed.
pub const LF: u8 = 10;

/// `+`, which opens a simple string.
pub const TAG_SIMPLE_STRING: u8 = 43;

/// `-`, which opens a simple error.
pub const TAG_SIMPLE_ERROR: u8 = 45;

/// `:`, which opens an integer.
pub const TAG_INT: u8 = 58;

/// `$`, which opens a bulk string, a null and the frame of a file.
pub const TAG_BULK: u8 = 36;

/// `*`, which opens an array.
pub const TAG_ARRAY: u8 = 42;

/// `!`, which opens a bulk error.
pub const TAG_BULK_ERROR: u8 = 33;

/// The numeral `-1`, which a null has for its length.
pub open spec fn minus_one() -> Seq<u8> {
    seq![MINUS, 49u8]
}

/// The two bytes that end a line.
pub open spec fn crlf() -> Seq<u8> {
    seq![CR, LF]
}

/// `s` with each carriage return replaced by a backslash and `r`, and each
/// line feed by a backslash and `n`.
pub open spec fn escape_crlf(s: Seq<u8>) -> Seq<u8>
    decreases s.len(),
{
    if s.len() == 0 {
        s
    } else if s.last() == CR {
        escape_crlf(s.drop_last()) + seq![92u8, 114u8]
    } else if s.last() == LF {
        escape_crlf(s.drop_last()) + seq![92u8, 110u8]
    } else {
        escape_crlf(s.drop_last()).push(s.last())
    }
}

/// A byte that opens a value, a decimal length, and the end of the line.
pub open spec fn len_line(tag: u8, len: nat) -> Seq<u8> {
    seq![tag] + dec_digits(len) + crlf()
}

/// The bytes that a value is sent as.
pub open spec fn encode(v: ValueView) -> Seq<u8>
    decreases v,
{
    match v {
        ValueView::NullBulkString => seq![TAG_BULK] + minus_one() + crlf(),
        ValueView::SimpleString(b) => seq![TAG_SIMPLE_STRING] + b + crlf(),
        ValueView::Int(i) => seq![TAG_INT] + dec_int(i as int) + crlf(),
        ValueView::Array(elems) => len_line(TAG_ARRAY, elems.len()) + encode_all(elems),
        ValueView::BulkString(b) => len_line(TAG_BULK, b.len()) + b + crlf(),
        ValueView::FileContents(b) => len_line(TAG_BULK, b.len()) + b,
        ValueView::SimpleError(msg) => seq![TAG_SIMPLE_ERROR] + escape_crlf(encode_utf8(msg))
            + crlf(),
        ValueView::BulkError(msg) => len_line(TAG_BULK_ERROR, encode_utf8(msg).len())
            + encode_utf8(msg) + crlf(),
    }
}

/// The bytes that a run of values is sent as: one value after the other.
pub open spec fn encode_all(vs: Seq<ValueView>) -> Seq<u8>
    decreases vs,
{
    if vs.len() == 0 {
        Seq::empty()
    } else {
        encode_all(vs.drop_last()) + encode(vs.last())
    }
}

/// Sending one more value appends its bytes.
pub proof fn lemma_encode_all_push(vs: Seq<ValueView>, v: ValueView)
    ensures
        encode_all(vs.push(v)) == encode_all(vs) + encode(v),
{
    assert(vs.push(v).drop_last() =~= vs);
}

/// A run of values is sent as its first value, then the others.
pub proof fn lemma_encode_all_front(vs: Seq<ValueView>)
    requires
        vs.len() > 0,
    ensures
        encode_all(vs) == encode(vs[0]) + encode_all(vs.skip(1)),
    decreases vs.len(),
{
    if vs.len() == 1 {
        assert(vs.drop_last() =~= Seq::<ValueView>::empty());
        assert(vs.skip(1) =~= Seq::<ValueView>::empty());
        assert(encode_all(vs) =~= encode(vs[0]) + encode_all(vs.skip(1)));
    } else {
        lemma_encode_all_front(vs.drop_last());
        assert(vs.drop_last().skip(1) =~= vs.skip(1).drop_last());
        assert(vs.skip(1).last() == vs.last());
        assert(encode_all(vs) =~= encode(vs[0]) + encode_all(vs.skip(1)));
    }
}

/// Writes values in wire format into a buffer that it owns.
pub struct RespSerializer {
    writer: Vec<u8>,
}

impl View for RespSerializer {
    type V = Seq<u8>;

    /// The bytes written so far.
    closed spec fn view(&self) -> Seq<u8> {
        self.writer@
    }
}

impl RespSerializer {
    /// A serializer that has written nothing.
    pub fn new() -> (r: RespSerializer)
        ensures
            r@ == Seq::<u8>::empty(),
    {
        RespSerializer { writer: Vec::new() }
    }

    /// Writes `value` in wire format and returns the number of bytes that
    /// this took.
    pub fn serialize(&mut self, value: &Value) -> (cnt: usize)
        ensures
            final(self)@ == old(self)@ + encode(value@),
            cnt == encode(value@).len(),
        decreases value, 1nat,
    {
        let before: usize = self.writer.len();
        match value {
            Value::NullBulkString => {
                self.writer.push(TAG_BULK);
                self.writer.push(MINUS);
                self.writer.push(49u8);
                append_crlf(&mut self.writer);
                assert(self@ =~= old(self)@ + encode(value@));
            },
            Value::SimpleString(v) => {
                self.writer.push(TAG_SIMPLE_STRING);
                self.writeln(v.as_bytes());
                assert(self@ =~= old(self)@ + encode(value@));
            },
            Value::Int(i) => {
                self.writer.push(TAG_INT);
                push_i64(&mut self.writer, *i);
                append_crlf(&mut self.writer);
                assert(self@ =~= old(self)@ + encode(value@));
            },
            Value::Array(elems) => {
                self.write_len_line(TAG_ARRAY, elems.len());
                self.serialize_elems(value);
                proof {
                    lemma_array_view(*elems);
                    assert(self@ =~= old(self)@ + encode(value@));
                }
            },
            Value::BulkString(v) => {
                self.write_len_line(TAG_BULK, v.len());
                self.writeln(v.as_bytes());
                assert(self@ =~= old(self)@ + encode(value@));
            },
            Value::FileContents(bs) => {
                self.write_len_line(TAG_BULK, bs.len());
                self.write(bs.as_bytes());
                assert(self@ =~= old(self)@ + encode(value@));
            },
            Value::SimpleError(msg) => {
                self.writer.push(TAG_SIMPLE_ERROR);
                append_escaped(&mut self.writer, msg.as_str().as_bytes());
                append_crlf(&mut self.writer);
                assert(self@ =~= old(self)@ + encode(value@));
            },
            Value::BulkError(msg) => {
                let raw = msg.as_str().as_bytes();
                self.write_len_line(TAG_BULK_ERROR, raw.len());
                self.writeln(raw);
                assert(self@ =~= old(self)@ + encode(value@));
            },
        }
        self.writer.len() - before
    }

    /// Writes the elements of the array `owner`, one after the other.
    fn serialize_elems(&mut self, owner: &Value)
        requires
            owner is Array,
        ensures
            final(self)@ == old(self)@ + encode_all(views(owner->Array_0@)),
        decreases owner, 0nat,
    {
        if let Value::Array(elems) = owner {
            let mut i: usize = 0;
            assert(views(elems@).take(0) =~= Seq::<ValueView>::empty());
            while i < elems.len()
                invariant
                    owner is Array,
                    owner->Array_0 == *elems,
                    i <= elems.len(),
                    self@ == old(self)@ + encode_all(views(elems@).take(i as int)),
                decreases elems.len() - i,
            {
                proof {
                    vstd::std_specs::vec::axiom_vec_index_decreases(*elems, i as int);
                }
                self.serialize(&elems[i]);
                proof {
                    assert(views(elems@).take(i + 1) =~= views(elems@).take(i as int).push(
                        elems@[i as int]@,
                    ));
                    lemma_encode_all_push(views(elems@).take(i as int), elems@[i as int]@);
                    assert(self@ =~= old(self)@ + encode_all(views(elems@).take(i + 1)));
                }
                i += 1;
            }
            assert(views(elems@).take(i as int) =~= views(elems@));
        }
    }

    /// Writes `data` and the end of the line; returns the number of bytes
    /// written.
    pub fn writeln(&mut self, data: &[u8]) -> (cnt: usize)
        ensures
            final(self)@ == old(self)@ + data@ + crlf(),
            cnt == data@.len() + 2,
    {
        let before: usize = self.writer.len();
        append_bytes(&mut self.writer, data);
        append_crlf(&mut self.writer);
        self.writer.len() - before
    }

    /// Writes `data`; returns the number of bytes written.
    pub fn write(&mut self, data: &[u8]) -> (cnt: usize)
        ensures
            final(self)@ == old(self)@ + data@,
            cnt == data@.len(),
    {
        append_bytes(&mut self.writer, data);
        data.len()
    }

    /// Writes the byte `c`, the decimal numeral of `len` and the end of the
    /// line; returns the number of bytes written.
    pub fn write_len_line(&mut self, c: u8, len: usize) -> (cnt: usize)
        ensures
            final(self)@ == old(self)@ + len_line(c, len as nat),
            cnt == len_line(c, len as nat).len(),
    {
        let before: usize = self.writer.len();
        self.writer.push(c);
        push_usize(&mut self.writer, len);
        append_crlf(&mut self.writer);
        assert(self@ =~= old(self)@ + len_line(c, len as nat));
        self.writer.len() - before
    }

    /// Gives up the bytes written.
    pub fn into_bytes(self) -> (r: Bytes)
        ensures
            r@ == self@,
    {
        Bytes::from_vec(self.writer)
    }
}

impl Default for RespSerializer {
    fn default() -> (r: RespSerializer)
        ensures
            r@ == Seq::<u8>::empty(),
    {
        RespSerializer::new()
    }
}

/// Appends the end of a line to `out`.
fn append_crlf(out: &mut Vec<u8>)
    ensures
        final(out)@ == old(out)@ + crlf(),
{
    out.push(CR);
    out.push(LF);
    assert(out@ =~= old(out)@ + crlf());
}

/// Appends `src` to `out`, with its carriage returns and line feeds
/// replaced by their two-character escapes.
fn append_escaped(out: &mut Vec<u8>, src: &[u8])
    ensures
        final(out)@ == old(out)@ + escape_crlf(src@),
{
    let mut i: usize = 0;
    assert(src@.take(0) =~= Seq::<u8>::empty());
    while i < src.len()
        invariant
            i <= src.len(),
            out@ == old(out)@ + escape_crlf(src@.take(i as int)),
        decreases src.len() - i,
    {
        let b: u8 = src[i];
        proof {
            assert(src@.take(i + 1).drop_last() =~= src@.take(i as int));
            assert(src@.take(i + 1).last() == b);
        }
        if b == CR {
            out.push(92u8);
            out.push(114u8);
        } else if b == LF {
            out.push(92u8);
            out.push(110u8);
        } else {
            out.push(b);
        }
        assert(out@ =~= old(out)@ + escape_crlf(src@.take(i + 1)));
        i += 1;
    }
    assert(src@.take(i as int) =~= src@);
}

/// The bytes that `value` is sent as.
pub fn serialize(value: &Value) -> (r: Bytes)
    ensures
        r@ == encode(value@),
{
    let mut serializer = RespSerializer::new();
    serializer.serialize(value);
    serializer.into_bytes()
}

/// The bytes that `values` are sent as, one after the other.
pub fn serialize_many(values: &[Value]) -> (r: Bytes)
    ensures
        r@ == encode_all(views(values@)),
{
    let mut serializer = RespSerializer::new();
    let mut i: usize = 0;
    assert(views(values@).take(0) =~= Seq::<ValueView>::empty());
    while i < values.len()
        invariant
            i <= values.len(),
            serializer@ == encode_all(views(values@).take(i as int)),
        decreases values.len() - i,
    {
        serializer.serialize(&values[i]);
        proof {
            assert(views(values@).take(i + 1) =~= views(values@).take(i as int).push(
                values@[i as int]@,
            ));
            lemma_encode_all_push(views(values@).take(i as int), values@[i as int]@);
        }
        i += 1;
    }
    assert(views(values@).take(i as int) =~= views(values@));
    serializer.into_bytes()
}

} // verus!
