//! What holds of the store over runs of queries: reading and writing keys,
//! the counts of replication, what goes to the replicas, and `WAIT`.

use vstd::prelude::*;

use crate::commands::{
    canonical, law_command_round_trip, parse_command, to_value, CommandErrorView, CommandView,
};
use crate::common::text;
use crate::config::Role;
use crate::db::{
    accepts, acked_count, admits, broadcast, empty_rdb, entry_for, fullresync_text, handle,
    handshake_plan, handshake_reply_expected, info_text, is_known, joined,
    lemma_acked_count_push, ok_value, step, DbView, ReplicaView,
};
use crate::decimal::dec_digits;
use crate::deser::{parse_many, parse_value};
use crate::resp::{
    crlf, encode, encode_all, lemma_encode_all_push, len_line, ValueView, TAG_BULK,
    TAG_SIMPLE_STRING,
};
use crate::round_trip::{law_codec_round_trip, law_concatenation, one, round_trips};
use crate::svc::{ClientInfoView, QueryView, ToReplicaView};

verus! {

// Reading and writing keys

/// A key that was set without a time to live reads as its value right
/// after, whenever that is before the end of time.
pub proof fn law_get_after_set(
    s: DbView,
    k: Seq<u8>,
    v: Seq<u8>,
    set: QueryView,
    get: QueryView,
    t0: u64,
    t1: u64,
)
    requires
        set.cmd == CommandView::SetKV(k, v, None),
        get.cmd == CommandView::Get(k),
        t1 < u64::MAX,
    ensures
        handle(handle(s, set, t0).0, get, t1).1.result.vals == seq![ValueView::BulkString(v)],
{
}

/// A key that was set with a time to live reads as its value before that
/// time has passed, and as a null from then on.
pub proof fn law_get_after_set_px(
    s: DbView,
    k: Seq<u8>,
    v: Seq<u8>,
    ttl: u64,
    set: QueryView,
    get: QueryView,
    t0: u64,
    t1: u64,
)
    requires
        set.cmd == CommandView::SetKV(k, v, Some(ttl)),
        get.cmd == CommandView::Get(k),
        t0 + ttl <= u64::MAX,
    ensures
        t1 < t0 + ttl ==> handle(handle(s, set, t0).0, get, t1).1.result.vals
            == seq![ValueView::BulkString(v)],
        t1 >= t0 + ttl ==> handle(handle(s, set, t0).0, get, t1).1.result.vals
            == seq![ValueView::NullBulkString],
{
}

/// A key whose entry has run out reads as a null, though the entry is
/// still kept; so does a key that was never set.
pub proof fn law_expired_reads_null(s: DbView, k: Seq<u8>, get: QueryView, now: u64)
    requires
        get.cmd == CommandView::Get(k),
        !s.kv.dom().contains(k) || now >= s.kv[k].ex,
    ensures
        handle(s, get, now).1.result.vals == seq![ValueView::NullBulkString],
        handle(s, get, now).0.kv == s.kv,
{
}

/// Only `SET` changes what is stored.
pub proof fn law_only_set_stores(s: DbView, q: QueryView, now: u64)
    requires
        !(q.cmd is SetKV),
    ensures
        handle(s, q, now).0.kv == s.kv,
{
}

/// `SET` answers `OK` and gives the key its entry, in the place of an older
/// one; every other key keeps what it had, and the replicas are who they
/// were, with what they had acknowledged.
pub proof fn law_set_stores(
    s: DbView,
    k: Seq<u8>,
    v: Seq<u8>,
    ex: Option<u64>,
    q: QueryView,
    now: u64,
)
    requires
        q.cmd == CommandView::SetKV(k, v, ex),
    ensures
        handle(s, q, now).1.result.vals == seq![ok_value()],
        handle(s, q, now).0.kv.dom().contains(k),
        handle(s, q, now).0.kv[k] == entry_for(v, ex, now),
        forall|other: Seq<u8>|
            other != k ==> handle(s, q, now).0.kv.dom().contains(other) == s.kv.dom().contains(
                other,
            ) && handle(s, q, now).0.kv[other] == s.kv[other],
        handle(s, q, now).0.replicas == s.replicas,
{
}

/// `GET` answers the value of a key that has an entry which has not run
/// out, and a null otherwise; it changes nothing of what is stored, of the
/// replicas or of the replication offset.
pub proof fn law_get_reads(s: DbView, k: Seq<u8>, q: QueryView, now: u64)
    requires
        q.cmd == CommandView::Get(k),
    ensures
        s.kv.dom().contains(k) && now < s.kv[k].ex ==> handle(s, q, now).1.result.vals
            == seq![ValueView::BulkString(s.kv[k].val)],
        !(s.kv.dom().contains(k) && now < s.kv[k].ex) ==> handle(s, q, now).1.result.vals
            == seq![ValueView::NullBulkString],
        handle(s, q, now).0.kv == s.kv,
        handle(s, q, now).0.replicas == s.replicas,
        handle(s, q, now).0.replication_offset == s.replication_offset,
        handle(s, q, now).1.outbox.len() == 0,
{
}

/// `INFO` answers, for the section `replication`, three lines joined by
/// line ends: the role, the replication id and the replication offset; for
/// every other section, a null. It changes nothing of what is stored, of the
/// replicas or of the replication offset.
pub proof fn law_info(s: DbView, section: Seq<char>, q: QueryView, now: u64)
    requires
        q.cmd == CommandView::Info(section),
    ensures
        section == "replication"@ ==> handle(s, q, now).1.result.vals == seq![
            ValueView::BulkString(info_text(s)),
        ],
        section != "replication"@ ==> handle(s, q, now).1.result.vals
            == seq![ValueView::NullBulkString],
        handle(s, q, now).0.kv == s.kv,
        handle(s, q, now).0.replicas == s.replicas,
        handle(s, q, now).0.replication_offset == s.replication_offset,
{
}

/// The report on replication of a master that has sent nothing yet reads
/// `role:master`, `master_replid:` and the replication id, and
/// `master_repl_offset:0`; that of a replica starts with `role:slave`.
pub proof fn law_info_text(s: DbView)
    requires
        s.replication_offset == 0,
    ensures
        s.cfg.role == Role::Master ==> info_text(s) == text("role:master\r\nmaster_replid:")
            + vstd::utf8::encode_utf8(s.replication_id) + text("\r\nmaster_repl_offset:0"),
        s.cfg.role == Role::Slave ==> info_text(s) == text("role:slave\r\nmaster_replid:")
            + vstd::utf8::encode_utf8(s.replication_id) + text("\r\nmaster_repl_offset:0"),
{
    lemma_info_heads();
    lemma_info_tail();
    assert(dec_digits(0) =~= seq![48u8]);
    let id = vstd::utf8::encode_utf8(s.replication_id);
    if s.cfg.role == Role::Master {
        assert(info_text(s) =~= text("role:master\r\nmaster_replid:") + id + text(
            "\r\nmaster_repl_offset:0",
        ));
    } else {
        assert(info_text(s) =~= text("role:slave\r\nmaster_replid:") + id + text(
            "\r\nmaster_repl_offset:0",
        ));
    }
}

/// The first two lines of the report, up to the replication id, are made
/// of their parts.
proof fn lemma_info_heads()
    ensures
        text("role:") + vstd::utf8::encode_utf8("master"@) + crlf() + text("master_replid:")
            == text("role:master\r\nmaster_replid:"),
        text("role:") + vstd::utf8::encode_utf8("slave"@) + crlf() + text("master_replid:")
            == text("role:slave\r\nmaster_replid:"),
{
    reveal_strlit("role:");
    reveal_strlit("master");
    reveal_strlit("slave");
    reveal_strlit("master_replid:");
    reveal_strlit("role:master\r\nmaster_replid:");
    reveal_strlit("role:slave\r\nmaster_replid:");
    crate::commands::lemma_ascii_text("role:");
    crate::commands::lemma_ascii_text("master");
    crate::commands::lemma_ascii_text("slave");
    crate::commands::lemma_ascii_text("master_replid:");
    crate::commands::lemma_ascii_text("role:master\r\nmaster_replid:");
    crate::commands::lemma_ascii_text("role:slave\r\nmaster_replid:");
    assert(text("role:") + text("master") + crlf() + text("master_replid:") =~= text(
        "role:master\r\nmaster_replid:",
    ));
    assert(text("role:") + text("slave") + crlf() + text("master_replid:") =~= text(
        "role:slave\r\nmaster_replid:",
    ));
}

/// The last line of the report for the offset zero is made of its parts.
proof fn lemma_info_tail()
    ensures
        crlf() + text("master_repl_offset:") + seq![48u8] == text("\r\nmaster_repl_offset:0"),
{
    reveal_strlit("master_repl_offset:");
    reveal_strlit("\r\nmaster_repl_offset:0");
    crate::commands::lemma_ascii_text("master_repl_offset:");
    crate::commands::lemma_ascii_text("\r\nmaster_repl_offset:0");
    assert(crlf() + text("master_repl_offset:") + seq![48u8] =~= text("\r\nmaster_repl_offset:0"));
}

/// `REPLCONF` answers `OK` to `listening-port` and to `capa psync2`, and a
/// bulk error to everything else. It never changes the state: no replica
/// joins by it.
pub proof fn law_replconf(s: DbView, key: Seq<char>, val: Seq<char>, q: QueryView, now: u64)
    requires
        q.cmd == CommandView::ReplConf(key, val),
    ensures
        step(s, q, now).0 == s,
        handle(s, q, now).0.replicas == s.replicas,
        handle(s, q, now).0.kv == s.kv,
        handle(s, q, now).0.replication_offset == s.replication_offset,
        handle(s, q, now).1.result.vals.len() == 1,
        key == "listening-port"@ || (key == "capa"@ && val == "psync2"@) ==> handle(
            s,
            q,
            now,
        ).1.result.vals[0] == ok_value(),
        !(key == "listening-port"@ || (key == "capa"@ && val == "psync2"@)) ==> handle(
            s,
            q,
            now,
        ).1.result.vals[0] is BulkError,
{
    reveal_strlit("listening-port");
    reveal_strlit("capa");
}

// Queries one after the other

/// A query and the time at which the store takes it.
pub struct Arrival {
    pub query: QueryView,
    pub now: u64,
}

/// The state after the store has taken the queries that came in, one after
/// the other.
pub open spec fn run(s: DbView, arrivals: Seq<Arrival>) -> DbView
    decreases arrivals.len(),
{
    if arrivals.len() == 0 {
        s
    } else {
        handle(run(s, arrivals.drop_last()), arrivals.last().query, arrivals.last().now).0
    }
}

/// Whether every query is a `SET`.
pub open spec fn all_sets(arrivals: Seq<Arrival>) -> bool {
    forall|i: int| 0 <= i < arrivals.len() ==> (#[trigger] arrivals[i]).query.cmd is SetKV
}

/// The number of bytes that a command is sent as.
pub open spec fn wire_len(c: CommandView) -> nat {
    encode(to_value(c)).len()
}

/// The bytes that the commands of the queries are sent as, all told.
pub open spec fn sent_bytes(arrivals: Seq<Arrival>) -> nat
    decreases arrivals.len(),
{
    if arrivals.len() == 0 {
        0
    } else {
        sent_bytes(arrivals.drop_last()) + wire_len(arrivals.last().query.cmd)
    }
}

/// The bytes that the queries were read from, all told.
pub open spec fn read_bytes(arrivals: Seq<Arrival>) -> nat
    decreases arrivals.len(),
{
    if arrivals.len() == 0 {
        0
    } else {
        read_bytes(arrivals.drop_last()) + arrivals.last().query.deser_byte_cnt as nat
    }
}

/// On a master with replicas, after any run of `SET`s, the replication
/// offset has grown by the bytes that the commands are sent as, all told;
/// the replicas are who they were.
pub proof fn law_replication_offset(s: DbView, arrivals: Seq<Arrival>)
    requires
        s.replicas.len() > 0,
        all_sets(arrivals),
        s.replication_offset + sent_bytes(arrivals) <= u64::MAX,
    ensures
        run(s, arrivals).replication_offset == s.replication_offset + sent_bytes(arrivals),
        run(s, arrivals).replicas == s.replicas,
    decreases arrivals.len(),
{
    if arrivals.len() > 0 {
        let before = arrivals.drop_last();
        assert forall|i: int| 0 <= i < before.len() implies (#[trigger] before[i]).query.cmd is SetKV by {
            assert(before[i] == arrivals[i]);
        }
        law_replication_offset(s, before);
        assert(arrivals.last() == arrivals[arrivals.len() - 1]);
    }
}

/// Whether none of the queries is a `PSYNC`.
pub open spec fn no_psync(arrivals: Seq<Arrival>) -> bool {
    forall|i: int| 0 <= i < arrivals.len() ==> !((#[trigger] arrivals[i]).query.cmd is Psync)
}

/// After any run of queries other than `PSYNC`, the count of bytes taken
/// has grown by the bytes that the queries were read from, all told.
pub proof fn law_consumed_bytes(s: DbView, arrivals: Seq<Arrival>)
    requires
        no_psync(arrivals),
        s.repl_byte_cnt + read_bytes(arrivals) <= usize::MAX,
    ensures
        run(s, arrivals).repl_byte_cnt == s.repl_byte_cnt + read_bytes(arrivals),
    decreases arrivals.len(),
{
    if arrivals.len() > 0 {
        let before = arrivals.drop_last();
        assert forall|i: int| 0 <= i < before.len() implies !((#[trigger] before[i]).query.cmd is Psync) by {
            assert(before[i] == arrivals[i]);
        }
        law_consumed_bytes(s, before);
        assert(arrivals.last() == arrivals[arrivals.len() - 1]);
    }
}

/// The counts never go down: neither the replication offset nor the bytes
/// taken from the master, with a query that the store admits.
pub proof fn law_counts_grow(s: DbView, q: QueryView, now: u64)
    requires
        admits(s, q, now),
    ensures
        handle(s, q, now).0.replication_offset >= s.replication_offset,
        handle(s, q, now).0.repl_byte_cnt >= s.repl_byte_cnt,
{
}

/// Whether none of the queries is a `SET` of the key `k`.
pub open spec fn no_set_of(arrivals: Seq<Arrival>, k: Seq<u8>) -> bool {
    forall|i: int|
        0 <= i < arrivals.len() ==> !((#[trigger] arrivals[i]).query.cmd matches CommandView::SetKV(
            key,
            _,
            _,
        ) && key == k)
}

/// A run of queries without a `SET` of a key leaves the key with what it
/// had.
pub proof fn lemma_run_keeps_key(s: DbView, arrivals: Seq<Arrival>, k: Seq<u8>)
    requires
        no_set_of(arrivals, k),
    ensures
        run(s, arrivals).kv.dom().contains(k) == s.kv.dom().contains(k),
        run(s, arrivals).kv[k] == s.kv[k],
    decreases arrivals.len(),
{
    if arrivals.len() > 0 {
        let before = arrivals.drop_last();
        assert forall|i: int| 0 <= i < before.len() implies !((#[trigger] before[i]).query.cmd matches CommandView::SetKV(
            key,
            _,
            _,
        ) && key == k) by {
            assert(before[i] == arrivals[i]);
        }
        lemma_run_keeps_key(s, before, k);
        assert(arrivals.last() == arrivals[arrivals.len() - 1]);
    }
}

/// A key that was set without a time to live reads as its value at every
/// later time before the end of time, whatever queries come in between, as
/// long as none of them sets the key again.
pub proof fn law_get_after_set_and_more(
    s: DbView,
    k: Seq<u8>,
    v: Seq<u8>,
    set: QueryView,
    t0: u64,
    between: Seq<Arrival>,
    get: QueryView,
    t1: u64,
)
    requires
        set.cmd == CommandView::SetKV(k, v, None),
        no_set_of(between, k),
        get.cmd == CommandView::Get(k),
        t1 < u64::MAX,
    ensures
        handle(run(handle(s, set, t0).0, between), get, t1).1.result.vals == seq![
            ValueView::BulkString(v),
        ],
{
    lemma_run_keeps_key(handle(s, set, t0).0, between, k);
}

// What goes to the replicas

/// Whether the bytes of a `SET` fit in memory, key and value.
pub open spec fn in_memory(c: CommandView) -> bool {
    c matches CommandView::SetKV(k, v, _) && k.len() <= usize::MAX && v.len() <= usize::MAX
}

/// The array that a `SET` is sent as round-trips through the codec.
pub proof fn lemma_set_round_trips(c: CommandView)
    requires
        in_memory(c),
    ensures
        round_trips(to_value(c)),
{
    let elems = to_value(c)->Array_0;
    assert forall|i: int| 0 <= i < elems.len() implies round_trips(#[trigger] elems[i]) by {
        crate::commands::lemma_names();
        if i == 4 {
            let ex = c->SetKV_2->Some_0;
            crate::decimal::lemma_dec_digits_u64(ex as nat);
        }
    }
}

/// A `SET` that a master takes goes to every replica as the very bytes that
/// the command is written as; a replica that reads those bytes reads the
/// same command from all of them, and its count of bytes taken grows by
/// what the replication offset of the master has grown by.
pub proof fn law_propagation(
    master: DbView,
    replica: DbView,
    q: QueryView,
    now: u64,
    i: int,
    peer: ClientInfoView,
    later: u64,
)
    requires
        in_memory(q.cmd),
        canonical(q.cmd),
        accepts(master, q, now),
        0 <= i < master.replicas.len(),
        replica.repl_byte_cnt + wire_len(q.cmd) <= usize::MAX,
    ensures
        ({
            let (master1, out) = step(master, q, now);
            let bytes = encode(to_value(q.cmd));
            let fed = QueryView { cmd: q.cmd, deser_byte_cnt: bytes.len() as usize, client_info: peer };
            &&& out.outbox.len() == master.replicas.len()
            &&& out.outbox[i].to == master.replicas[i].addr
            &&& out.outbox[i].msg matches ToReplicaView::Bytes(sent, _) && sent == bytes
            &&& parse_value(bytes) == one(to_value(q.cmd), bytes.len())
            &&& parse_command(to_value(q.cmd)) == Ok::<CommandView, CommandErrorView>(q.cmd)
            &&& handle(replica, fed, later).0.repl_byte_cnt - replica.repl_byte_cnt
                == master1.replication_offset - master.replication_offset
        }),
{
    lemma_set_round_trips(q.cmd);
    law_codec_round_trip(to_value(q.cmd));
    law_command_round_trip(q.cmd);
}

/// The values that the commands of the queries are sent as, in order.
pub open spec fn sent_values(arrivals: Seq<Arrival>) -> Seq<ValueView> {
    Seq::new(arrivals.len(), |i: int| to_value(arrivals[i].query.cmd))
}

/// The queries that a replica makes of what its master sent for `arrivals`:
/// the same commands, each read from as many bytes as it was sent as, all
/// from the peer `master`, at the times `arrivals` name.
pub open spec fn fed(arrivals: Seq<Arrival>, master: ClientInfoView) -> Seq<Arrival> {
    Seq::new(
        arrivals.len(),
        |i: int|
            Arrival {
                query: QueryView {
                    cmd: arrivals[i].query.cmd,
                    deser_byte_cnt: wire_len(arrivals[i].query.cmd) as usize,
                    client_info: master,
                },
                now: arrivals[i].now,
            },
    )
}

/// The bytes of a message to a replica.
pub open spec fn bytes_of(msg: ToReplicaView) -> Seq<u8> {
    match msg {
        ToReplicaView::Bytes(bytes, _) => bytes,
    }
}

/// All that a master sends to the replica at `i` while it takes the queries
/// that come in, one after the other.
pub open spec fn sent_to(master: DbView, arrivals: Seq<Arrival>, i: int) -> Seq<u8>
    decreases arrivals.len(),
{
    if arrivals.len() == 0 {
        Seq::empty()
    } else {
        let before = run(master, arrivals.drop_last());
        let out = handle(before, arrivals.last().query, arrivals.last().now).1;
        sent_to(master, arrivals.drop_last(), i) + bytes_of(out.outbox[i].msg)
    }
}

/// All that a master with replicas sends to one of them during a run of
/// `SET`s is the values of the commands, written one after the other.
pub proof fn lemma_sent_to_is_feed(master: DbView, arrivals: Seq<Arrival>, i: int)
    requires
        0 <= i < master.replicas.len(),
        all_sets(arrivals),
        master.replication_offset + sent_bytes(arrivals) <= u64::MAX,
    ensures
        sent_to(master, arrivals, i) == encode_all(sent_values(arrivals)),
    decreases arrivals.len(),
{
    if arrivals.len() > 0 {
        let before = arrivals.drop_last();
        assert forall|j: int| 0 <= j < before.len() implies (#[trigger] before[j]).query.cmd is SetKV by {
            assert(before[j] == arrivals[j]);
        }
        lemma_sent_to_is_feed(master, before, i);
        law_replication_offset(master, before);
        assert(arrivals.last() == arrivals[arrivals.len() - 1]);
        assert(sent_values(arrivals) =~= sent_values(before).push(
            to_value(arrivals.last().query.cmd),
        ));
        lemma_encode_all_push(sent_values(before), to_value(arrivals.last().query.cmd));
    } else {
        assert(sent_values(arrivals) =~= Seq::<ValueView>::empty());
    }
}

/// Whether every command is canonical and fits in memory.
pub open spec fn all_plain_sets(arrivals: Seq<Arrival>) -> bool {
    forall|i: int|
        0 <= i < arrivals.len() ==> canonical((#[trigger] arrivals[i]).query.cmd) && in_memory(
            arrivals[i].query.cmd,
        )
}

/// The values of a run of `SET`s are written as many bytes as the commands
/// are sent as, all told.
proof fn lemma_feed_len(arrivals: Seq<Arrival>)
    ensures
        encode_all(sent_values(arrivals)).len() == sent_bytes(arrivals),
    decreases arrivals.len(),
{
    if arrivals.len() > 0 {
        let before = arrivals.drop_last();
        lemma_feed_len(before);
        assert(sent_values(arrivals).drop_last() =~= sent_values(before));
    }
}

/// The queries that a replica makes were read from as many bytes as the
/// commands were sent as, all told, and none of them is a `PSYNC`.
proof fn lemma_fed_bytes(arrivals: Seq<Arrival>, master: ClientInfoView)
    requires
        all_sets(arrivals),
        sent_bytes(arrivals) <= usize::MAX,
    ensures
        read_bytes(fed(arrivals, master)) == sent_bytes(arrivals),
        no_psync(fed(arrivals, master)),
    decreases arrivals.len(),
{
    if arrivals.len() > 0 {
        let before = arrivals.drop_last();
        assert forall|i: int| 0 <= i < before.len() implies (#[trigger] before[i]).query.cmd is SetKV by {
            assert(before[i] == arrivals[i]);
        }
        lemma_fed_bytes(before, master);
        assert(fed(arrivals, master).drop_last() =~= fed(before, master));
    }
    assert forall|i: int| 0 <= i < arrivals.len() implies !((#[trigger] fed(
        arrivals,
        master,
    )[i]).query.cmd is Psync) by {
        assert(arrivals[i].query.cmd is SetKV);
    }
}

/// What a master sends to one of its replicas during a run of `SET`s is
/// read by the replica, value for value and to the last byte, and the count
/// of bytes that the replica has taken grows by what the replication offset
/// of the master grows by.
pub proof fn law_feed(
    master: DbView,
    replica: DbView,
    arrivals: Seq<Arrival>,
    i: int,
    peer: ClientInfoView,
)
    requires
        0 <= i < master.replicas.len(),
        all_sets(arrivals),
        all_plain_sets(arrivals),
        master.replication_offset + sent_bytes(arrivals) <= u64::MAX,
        replica.repl_byte_cnt + sent_bytes(arrivals) <= usize::MAX,
    ensures
        ({
            let feed = sent_to(master, arrivals, i);
            &&& feed == encode_all(sent_values(arrivals))
            &&& parse_many(feed) == crate::round_trip::run(sent_values(arrivals), feed.len())
            &&& feed.len() == sent_bytes(arrivals)
            &&& run(replica, fed(arrivals, peer)).repl_byte_cnt - replica.repl_byte_cnt == run(
                master,
                arrivals,
            ).replication_offset - master.replication_offset
        }),
{
    assert forall|i: int| 0 <= i < sent_values(arrivals).len() implies round_trips(
        #[trigger] sent_values(arrivals)[i],
    ) by {
        assert(in_memory(arrivals[i].query.cmd));
        lemma_set_round_trips(arrivals[i].query.cmd);
    }
    lemma_sent_to_is_feed(master, arrivals, i);
    law_concatenation(sent_values(arrivals));
    lemma_feed_len(arrivals);
    lemma_fed_bytes(arrivals, peer);
    law_replication_offset(master, arrivals);
    law_consumed_bytes(replica, fed(arrivals, peer));
}

/// To `PING` and to `ECHO` the store answers what is answered without a
/// store.
pub proof fn law_answers_without_store(s: DbView, q: QueryView, now: u64)
    requires
        q.cmd is Ping || q.cmd is Echo,
    ensures
        handle(s, q, now).1.result.vals == seq![crate::cmd_proc::answer(Ok(q.cmd))],
        handle(s, q, now).0.kv == s.kv,
        handle(s, q, now).0.replicas == s.replicas,
        handle(s, q, now).0.replication_offset == s.replication_offset,
{
}

// A replica joins

/// A replica that joins is kept under its address with nothing
/// acknowledged, whether it is new or was known. Every other replica is
/// kept as it was, none is dropped, and a known replica stays in its place.
/// What is stored and the replication offset stay as they were.
pub proof fn law_join(s: DbView, addr: Seq<char>)
    ensures
        is_known(joined(s, addr), addr),
        forall|i: int|
            0 <= i < joined(s, addr).replicas.len() && (#[trigger] joined(s, addr).replicas[i]).addr
                == addr ==> joined(s, addr).replicas[i].acked == 0,
        joined(s, addr).replicas.len() >= s.replicas.len(),
        forall|i: int|
            0 <= i < s.replicas.len() ==> (#[trigger] joined(s, addr).replicas[i]).addr
                == s.replicas[i].addr && (s.replicas[i].addr != addr ==> joined(
                s,
                addr,
            ).replicas[i] == s.replicas[i]),
        is_known(s, addr) ==> joined(s, addr).replicas.len() == s.replicas.len(),
        !is_known(s, addr) ==> joined(s, addr).replicas == s.replicas.push(
            ReplicaView { addr, acked: 0 },
        ),
        joined(s, addr).kv == s.kv,
        joined(s, addr).replication_offset == s.replication_offset,
        joined(s, addr).repl_byte_cnt == s.repl_byte_cnt,
{
    let after = joined(s, addr);
    if is_known(s, addr) {
        let i = choose|i: int| 0 <= i < s.replicas.len() && s.replicas[i].addr == addr;
        assert(after.replicas[i].addr == addr);
    } else {
        assert(after.replicas[s.replicas.len() as int].addr == addr);
        assert forall|i: int|
            0 <= i < after.replicas.len() && (#[trigger] after.replicas[i]).addr
                == addr implies after.replicas[i].acked == 0 by {
            if i < s.replicas.len() {
                assert(s.replicas[i].addr == addr);
                assert(is_known(s, addr));
            }
        }
    }
}

/// The query that carries the command at `i` of the handshake.
pub open spec fn handshake_query(port: u32, i: int, read: usize, peer: ClientInfoView) -> QueryView {
    QueryView { cmd: handshake_plan(port)[i], deser_byte_cnt: read, client_info: peer }
}

/// A master answers the handshake of a replica as the replica expects:
/// `PONG`, `OK`, `OK`, and then `FULLRESYNC` with its replication id and
/// the offset zero, followed by the snapshot of an empty store, at which
/// point the connection is handed over. The master takes every one of the
/// commands, and none of them changes what it stores or whom it knows.
pub proof fn law_handshake(
    master: DbView,
    port: u32,
    i: int,
    read: usize,
    peer: ClientInfoView,
    now: u64,
)
    requires
        0 <= i < 4,
    ensures
        ({
            let q = handshake_query(port, i, read, peer);
            let (after, out) = step(master, q, now);
            &&& accepts(master, q, now)
            &&& after == master
            &&& out.outbox.len() == 0
            &&& out.retry is None
            &&& out.result.vals.len() >= 1
            &&& handshake_reply_expected(i as usize, out.result.vals[0])
            &&& out.result.pass_stream == (i == 3)
            &&& i == 0 ==> out.result.vals == seq![ValueView::SimpleString(text("PONG"))]
            &&& i == 1 || i == 2 ==> out.result.vals == seq![ok_value()]
            &&& i == 3 ==> out.result.vals == seq![
                ValueView::SimpleString(fullresync_text(master.replication_id)),
                ValueView::FileContents(empty_rdb()),
            ]
        }),
{
    reveal_strlit("listening-port");
    reveal_strlit("capa");
    let head = text("FULLRESYNC ");
    let line = fullresync_text(master.replication_id);
    assert(line.take(head.len() as int) =~= head);
}

/// The last answer of the handshake goes over the wire as a line and the
/// frame of the snapshot, which is 88 bytes long and has no line end behind
/// it.
pub proof fn law_fullresync_bytes(id: Seq<char>)
    ensures
        encode_all(
            seq![ValueView::SimpleString(fullresync_text(id)), ValueView::FileContents(empty_rdb())],
        ) == seq![TAG_SIMPLE_STRING] + fullresync_text(id) + crlf() + len_line(TAG_BULK, 88)
            + empty_rdb(),
        empty_rdb().len() == 88,
{
    let first = ValueView::SimpleString(fullresync_text(id));
    let second = ValueView::FileContents(empty_rdb());
    let none = Seq::<ValueView>::empty();
    assert(none.push(first).push(second) =~= seq![first, second]);
    lemma_encode_all_push(none, first);
    lemma_encode_all_push(none.push(first), second);
    assert(encode_all(none) =~= Seq::<u8>::empty());
    assert(encode_all(seq![first, second]) =~= encode(first) + encode(second));
}

// Acknowledgements and waiting

/// Whether no replica has acknowledged more than was sent.
pub open spec fn acks_within_offset(s: DbView) -> bool {
    forall|i: int| 0 <= i < s.replicas.len() ==> (#[trigger] s.replicas[i]).acked
        <= s.replication_offset
}

/// No replica is ahead of the master, as long as none acknowledges more
/// than was sent.
pub proof fn law_acks_within_offset(s: DbView, q: QueryView, now: u64)
    requires
        acks_within_offset(s),
        accepts(s, q, now),
        q.cmd matches CommandView::ReplConfAck(n) ==> 0 <= n <= s.replication_offset,
    ensures
        acks_within_offset(handle(s, q, now).0),
{
    let s1 = handle(s, q, now).0;
    assert forall|i: int| 0 <= i < s1.replicas.len() implies (#[trigger] s1.replicas[i]).acked
        <= s1.replication_offset by {
        assert(s.replicas[i].acked <= s.replication_offset);
    }
}

/// Where every replica has acknowledged the offset, all of them count.
pub proof fn lemma_all_acked(replicas: Seq<ReplicaView>, offset: u64)
    requires
        forall|i: int| 0 <= i < replicas.len() ==> (#[trigger] replicas[i]).acked >= offset,
    ensures
        acked_count(replicas, offset) == replicas.len(),
    decreases replicas.len(),
{
    if replicas.len() > 0 {
        let before = replicas.drop_last();
        assert forall|i: int| 0 <= i < before.len() implies (#[trigger] before[i]).acked >= offset by {
            assert(before[i] == replicas[i]);
        }
        lemma_all_acked(before, offset);
        assert(replicas.last() == replicas[replicas.len() - 1]);
        assert(before.push(replicas.last()) =~= replicas);
        lemma_acked_count_push(before, replicas.last(), offset);
    } else {
        reveal(Seq::filter);
    }
}

/// Where no replica has acknowledged the offset, none counts.
pub proof fn lemma_none_acked(replicas: Seq<ReplicaView>, offset: u64)
    requires
        forall|i: int| 0 <= i < replicas.len() ==> (#[trigger] replicas[i]).acked < offset,
    ensures
        acked_count(replicas, offset) == 0,
    decreases replicas.len(),
{
    if replicas.len() > 0 {
        let before = replicas.drop_last();
        assert forall|i: int| 0 <= i < before.len() implies (#[trigger] before[i]).acked < offset by {
            assert(before[i] == replicas[i]);
        }
        lemma_none_acked(before, offset);
        assert(replicas.last() == replicas[replicas.len() - 1]);
        assert(before.push(replicas.last()) =~= replicas);
        lemma_acked_count_push(before, replicas.last(), offset);
    } else {
        reveal(Seq::filter);
    }
}

/// What `WAIT` answers is the number of replicas that have acknowledged the
/// replication offset: at once where they are as many as asked for or no
/// time is given, and never with a change of state.
pub proof fn law_wait_answer(s: DbView, n: i64, t: i64, q: QueryView, now: u64)
    requires
        q.cmd == CommandView::Wait(n, t) || q.cmd == CommandView::WaitInternal(n, t),
    ensures
        step(s, q, now).0 == s,
        ({
            let out = step(s, q, now).1;
            let k = acked_count(s.replicas, s.replication_offset);
            if k >= n || t <= 0 {
                out.result.vals == seq![ValueView::Int(k as i64)] && out.retry is None
            } else {
                &&& out.result.vals == Seq::<ValueView>::empty()
                &&& out.retry matches Some(retry) && retry.delay_ms <= 100 && retry.delay_ms <= t
                    && retry.query.cmd == CommandView::WaitInternal(n, (t - 100) as i64)
            }
        }),
{
}

/// Only the first `WAIT` asks the replicas for acknowledgements, and it
/// asks every one of them once.
pub proof fn law_wait_probes_once(s: DbView, n: i64, t: i64, q: QueryView, now: u64)
    ensures
        q.cmd == CommandView::Wait(n, t) ==> step(s, q, now).1.outbox == broadcast(
            s.replicas,
            crate::db::getack_bytes(),
            "requesting getack"@,
        ),
        q.cmd == CommandView::WaitInternal(n, t) ==> step(s, q, now).1.outbox == Seq::<
            crate::db::OutboundView,
        >::empty(),
{
}

/// With every write acknowledged by every replica, `WAIT` answers the
/// number of replicas at once, where that many or fewer are asked for or no
/// time is given.
pub proof fn law_wait_all_acked(s: DbView, n: i64, t: i64, q: QueryView, now: u64)
    requires
        q.cmd == CommandView::Wait(n, t),
        forall|i: int| 0 <= i < s.replicas.len() ==> (#[trigger] s.replicas[i]).acked
            >= s.replication_offset,
        n <= s.replicas.len() || t <= 0,
    ensures
        step(s, q, now).1.result.vals == seq![ValueView::Int(s.replicas.len() as i64)],
        step(s, q, now).1.retry is None,
{
    lemma_all_acked(s.replicas, s.replication_offset);
}

/// With a write that no replica acknowledges, a `WAIT` for at least one
/// replica and with 100 milliseconds or less to go is put off once, for
/// that time, and then answers zero.
pub proof fn law_wait_times_out(s: DbView, n: i64, t: i64, q: QueryView, now: u64, later: u64)
    requires
        q.cmd == CommandView::Wait(n, t),
        forall|i: int| 0 <= i < s.replicas.len() ==> (#[trigger] s.replicas[i]).acked
            < s.replication_offset,
        n >= 1,
        0 < t <= 100,
    ensures
        ({
            let first = step(s, q, now);
            &&& first.1.result.vals == Seq::<ValueView>::empty()
            &&& first.1.retry matches Some(retry) && retry.delay_ms == t && ({
                let second = step(first.0, retry.query, later);
                second.1.result.vals == seq![ValueView::Int(0)] && second.1.retry is None
            })
        }),
{
    lemma_none_acked(s.replicas, s.replication_offset);
}

/// The number of times that a `WAIT` with `t` milliseconds to go can be put
/// off.
pub open spec fn rounds(t: int) -> nat
    decreases t,
{
    if t <= 0 {
        0
    } else if t <= 100 {
        1
    } else {
        1 + rounds(t - 100)
    }
}

/// The answer of a `WAIT` that is taken up again and again while nothing
/// else happens, or nothing after `rounds` times of being put off.
pub open spec fn wait_outcome(s: DbView, q: QueryView, rounds: nat) -> Option<Seq<ValueView>>
    decreases rounds,
{
    let out = step(s, q, 0).1;
    match out.retry {
        None => Some(out.result.vals),
        Some(retry) => if rounds == 0 {
            None
        } else {
            wait_outcome(s, retry.query, (rounds - 1) as nat)
        },
    }
}

/// A `WAIT` is answered in the end: put off no more often than its time
/// allows, in steps of 100 milliseconds, it answers a number.
pub proof fn law_wait_resolves(s: DbView, n: i64, t: i64, q: QueryView)
    requires
        q.cmd == CommandView::Wait(n, t) || q.cmd == CommandView::WaitInternal(n, t),
    ensures
        wait_outcome(s, q, rounds(t as int)) == Some(
            seq![ValueView::Int(acked_count(s.replicas, s.replication_offset) as i64)],
        ),
    decreases rounds(t as int),
{
    let out = step(s, q, 0).1;
    if out.retry is Some {
        let retry = out.retry->Some_0;
        law_wait_resolves(s, n, (t - 100) as i64, retry.query);
    }
}

} // verus!
