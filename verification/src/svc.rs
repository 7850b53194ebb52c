//! Queries and where they come from, and what a session decides between
//! reading a request and writing the answer.

use vstd::prelude::*;
use vstd::string::StrSliceExecFns;
use vstd::string::StringExecFns;

use crate::commands::{parse_cmd, parse_command, word, Command, CommandError, CommandView};
use crate::common::Bytes;
use crate::deser::DecodeError;
use crate::resp::{
    encode_all, lemma_array_view, serialize_many, QueryResult, QueryResultView, Value, ValueView,
};

verus! {

/// What the store hands to the task that writes to one replica.
#[derive(Debug)]
pub enum ToReplica {
    /// Bytes to write, and a note on what they are for.
    Bytes(Vec<u8>, String),
}

/// What a [`ToReplica`] stands for.
pub enum ToReplicaView {
    Bytes(Seq<u8>, Seq<char>),
}

impl View for ToReplica {
    type V = ToReplicaView;

    open spec fn view(&self) -> ToReplicaView {
        match self {
            ToReplica::Bytes(b, note) => ToReplicaView::Bytes(b@, note@),
        }
    }
}

/// Where a query came from.
#[derive(Debug)]
pub struct ClientInfo {
    pub host: String,
    pub port: String,
}

/// What a [`ClientInfo`] stands for.
pub struct ClientInfoView {
    pub host: Seq<char>,
    pub port: Seq<char>,
}

impl View for ClientInfo {
    type V = ClientInfoView;

    open spec fn view(&self) -> ClientInfoView {
        ClientInfoView { host: self.host@, port: self.port@ }
    }
}

impl Clone for ClientInfo {
    fn clone(&self) -> (r: ClientInfo)
        ensures
            r@ == self@,
    {
        ClientInfo { host: self.host.clone(), port: self.port.clone() }
    }
}

/// A command on its way to the store, with the number of bytes that it was
/// read from and the peer that sent it.
#[derive(Debug)]
pub struct Query {
    pub cmd: Command,
    pub deser_byte_cnt: usize,
    pub client_info: ClientInfo,
}

/// What a [`Query`] stands for.
pub struct QueryView {
    pub cmd: CommandView,
    pub deser_byte_cnt: usize,
    pub client_info: ClientInfoView,
}

impl View for Query {
    type V = QueryView;

    open spec fn view(&self) -> QueryView {
        QueryView {
            cmd: self.cmd@,
            deser_byte_cnt: self.deser_byte_cnt,
            client_info: self.client_info@,
        }
    }
}

impl Clone for Query {
    fn clone(&self) -> (r: Query)
        ensures
            r@ == self@,
    {
        Query {
            cmd: self.cmd.clone(),
            deser_byte_cnt: self.deser_byte_cnt,
            client_info: self.client_info.clone(),
        }
    }
}

/// The place of the first character `c` in `s`, or the length of `s` where
/// it holds none.
pub open spec fn first_char_at(s: Seq<char>, c: char) -> int
    decreases s.len(),
{
    if s.len() == 0 {
        0
    } else if s[0] == c {
        0
    } else {
        1 + first_char_at(s.skip(1), c)
    }
}

/// The first `c` is where no `c` stands before.
pub proof fn lemma_first_char_at_is(s: Seq<char>, c: char, k: int)
    requires
        0 <= k <= s.len(),
        forall|j: int| 0 <= j < k ==> s[j] != c,
        k < s.len() ==> s[k] == c,
    ensures
        first_char_at(s, c) == k,
    decreases k,
{
    if k > 0 {
        lemma_first_char_at_is(s.skip(1), c, k - 1);
    }
}

/// Whether an address holds the colon that parts host and port.
pub open spec fn has_colon(addr: Seq<char>) -> bool {
    first_char_at(addr, ':') < addr.len()
}

/// The peer that an address names: the host is what stands before the
/// first colon, the port what stands between it and the next colon, or the
/// end.
pub open spec fn peer_of(addr: Seq<char>) -> ClientInfoView {
    let i = first_char_at(addr, ':');
    let rest = addr.skip(i + 1);
    ClientInfoView { host: addr.take(i), port: rest.take(first_char_at(rest, ':')) }
}

/// The place of the first `c` at or after `from` in `s`, or the length of
/// `s` in characters where none follows.
fn find_char(s: &str, from: usize, c: char) -> (at: usize)
    requires
        from <= s@.len(),
    ensures
        from <= at <= s@.len(),
        at - from == first_char_at(s@.skip(from as int), c),
{
    let n: usize = s.unicode_len();
    let mut i: usize = from;
    while i < n && s.get_char(i) != c
        invariant
            n == s@.len(),
            from <= i <= n,
            forall|j: int| from <= j < i ==> s@[j] != c,
        decreases n - i,
    {
        i += 1;
    }
    proof {
        lemma_first_char_at_is(s@.skip(from as int), c, i - from);
    }
    i
}

/// Whether `addr` holds a colon.
pub fn addr_has_colon(addr: &str) -> (b: bool)
    ensures
        b == has_colon(addr@),
{
    assert(addr@.skip(0) =~= addr@);
    find_char(addr, 0, ':') < addr.unicode_len()
}

impl Query {
    /// The query made of `cmd`, which took `deser_byte_cnt` bytes and came
    /// from the peer at `addr`.
    pub fn new(cmd: Command, deser_byte_cnt: usize, addr: String) -> (r: Query)
        requires
            has_colon(addr@),
        ensures
            r@ == (QueryView { cmd: cmd@, deser_byte_cnt, client_info: peer_of(addr@) }),
    {
        let s = addr.as_str();
        assert(s@.skip(0) =~= s@);
        let n: usize = s.unicode_len();
        let colon: usize = find_char(s, 0, ':');
        let stop: usize = find_char(s, colon + 1, ':');
        let host = s.substring_char(0, colon);
        let port = s.substring_char(colon + 1, stop);
        proof {
            let rest = s@.skip(colon + 1);
            assert(host@ =~= s@.take(colon as int));
            assert(port@ =~= rest.take(first_char_at(rest, ':')));
        }
        Query {
            cmd,
            deser_byte_cnt,
            client_info: ClientInfo { host: String::from_str(host), port: String::from_str(port) },
        }
    }
}

/// Makes the query for a value that was read from `deser_byte_cnt` bytes
/// sent by the peer at `addr`; fails where the value is no command.
pub fn make_query(input_val: &Value, deser_byte_cnt: usize, addr: &str) -> (r: Result<
    Query,
    CommandError,
>)
    requires
        has_colon(addr@),
    ensures
        match parse_command(input_val@) {
            Ok(c) => r is Ok && r->Ok_0@ == (QueryView {
                cmd: c,
                deser_byte_cnt,
                client_info: peer_of(addr@),
            }),
            Err(e) => r is Err && r->Err_0@ == e,
        },
{
    match parse_cmd(input_val) {
        Ok(cmd) => Ok(Query::new(cmd, deser_byte_cnt, String::from_str(addr))),
        Err(e) => Err(e),
    }
}

/// Whether a value is the acknowledgement `REPLCONF ACK ...` that a replica
/// owes its master.
pub open spec fn is_ack(v: ValueView) -> bool {
    v matches ValueView::Array(parts) && parts.len() >= 2 && parts[0] == word("REPLCONF")
        && parts[1] == word("ACK")
}

/// Whether an answer is let through to the peer. On a connection that
/// feeds replication, only the acknowledgement that the master asked for is
/// let through; on every other connection, every answer is.
pub open spec fn reply_due(is_replication: bool, result: QueryResultView) -> bool {
    !is_replication || (result.vals.len() > 0 && is_ack(result.vals[0]))
}

/// Whether anything is written to the peer for an answer: the answer holds a
/// value, which is looked at first, and it is let through.
pub open spec fn reply_written(is_replication: bool, result: QueryResultView) -> bool {
    result.vals.len() > 0 && reply_due(is_replication, result)
}

/// Whether `v` is a bulk string that holds the bytes of `s`.
fn is_word(v: &Value, s: &str) -> (b: bool)
    ensures
        b == (v@ == word(s)),
{
    match v {
        Value::BulkString(bs) => bs.is_text(s),
        _ => false,
    }
}

/// Whether `query_result` is let through to the peer.
pub fn should_reply(is_replication: bool, query_result: &QueryResult) -> (b: bool)
    ensures
        b == reply_due(is_replication, query_result@),
{
    if !is_replication {
        return true;
    }
    if query_result.vals.len() == 0 {
        return false;
    }
    if let Value::Array(parts) = &query_result.vals[0] {
        proof {
            lemma_array_view(*parts);
        }
        parts.len() >= 2 && is_word(&parts[0], "REPLCONF") && is_word(&parts[1], "ACK")
    } else {
        false
    }
}

/// What a session does with the answer of the store.
pub struct SessionStep {
    /// The bytes to write to the peer and flush, where the answer is due.
    pub reply: Option<Bytes>,
    /// Whether the connection goes to the store, which then feeds a
    /// replica through it, and the session ends.
    pub hand_over: bool,
}

/// What a session does with the answer `query_result`. An answer without
/// values is an answer put off: nothing is written for it. The values of
/// every other answer that is let through are written one after the other.
/// The connection is handed over where the answer says so.
pub fn session_step(is_replication: bool, query_result: &QueryResult) -> (r: SessionStep)
    ensures
        r.hand_over == query_result@.pass_stream,
        reply_written(is_replication, query_result@) ==> r.reply is Some && r.reply->Some_0@
            == encode_all(query_result@.vals),
        !reply_written(is_replication, query_result@) ==> r.reply is None,
{
    let reply = if query_result.vals.len() > 0 && should_reply(is_replication, query_result) {
        Some(serialize_many(query_result.vals.as_slice()))
    } else {
        None
    };
    SessionStep { reply, hand_over: query_result.pass_stream }
}

/// The bytes that the task of a replica writes back for the answer of the
/// store to what the replica sent: its values, one after the other.
pub fn replica_reply(query_result: &QueryResult) -> (r: Bytes)
    ensures
        r@ == encode_all(query_result@.vals),
{
    serialize_many(query_result.vals.as_slice())
}

/// What a session does after a read has failed.
pub struct ReadFailure {
    /// The count of ends of input met so far.
    pub eof_cnt: usize,
    /// Whether the session closes the connection and ends.
    pub close: bool,
}

/// What a session does after a read has failed with `err`: an end of input
/// is counted and the session goes on; bytes that are no value end it.
pub fn after_read_error(err: &DecodeError, eof_cnt: usize) -> (r: ReadFailure)
    requires
        eof_cnt < usize::MAX,
    ensures
        *err == DecodeError::UnexpectedEof ==> r.eof_cnt == eof_cnt + 1 && !r.close,
        *err != DecodeError::UnexpectedEof ==> r.eof_cnt == eof_cnt && r.close,
{
    match err {
        DecodeError::UnexpectedEof => ReadFailure { eof_cnt: eof_cnt + 1, close: false },
        _ => ReadFailure { eof_cnt, close: true },
    }
}

/// The count of ends of input met so far, after a read has failed with
/// `err`.
pub fn count_eof(err: &DecodeError, eof_cnt: usize) -> (r: usize)
    requires
        eof_cnt < usize::MAX,
    ensures
        r == (if *err == DecodeError::UnexpectedEof {
            eof_cnt + 1
        } else {
            eof_cnt as int
        }),
{
    match err {
        DecodeError::UnexpectedEof => eof_cnt + 1,
        _ => eof_cnt,
    }
}

} // verus!
