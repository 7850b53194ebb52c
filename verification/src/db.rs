//! The store as a state machine: the state, the step that one query takes it
//! through at one time, and the store in memory that takes this step.

use vstd::prelude::*;
use vstd::string::StringExecFns;
use vstd::utf8::*;

use crate::commands::{str_eq, to_value, word, wrapped, Command, CommandView};
use crate::common::{append_bytes, ascii_chars, lemma_ascii_is_utf8, text, Bytes};
use crate::config::{role_name, InstanceConfig, InstanceConfigView};
use crate::decimal::{dec_digits, is_digit, lemma_dec_digits_shape, push_u64};
use crate::misc_util::{
    colons_for_spaces, make_replication_id, replication_id_of, spaces_to_colons,
};
use crate::resp::{
    crlf, encode, lemma_array_view, serialize, views, QueryResult, QueryResultView, Value,
    ValueView, CR, LF,
};
use crate::svc::{ClientInfo, ClientInfoView, Query, QueryView, ToReplica, ToReplicaView};

verus! {

/// The canned snapshot of an empty store, which a master sends to a replica
/// that joins.
pub open spec fn empty_rdb() -> Seq<u8> {
    seq![
        0x52u8, 0x45u8, 0x44u8, 0x49u8, 0x53u8, 0x30u8, 0x30u8, 0x31u8,
        0x31u8, 0xfau8, 0x09u8, 0x72u8, 0x65u8, 0x64u8, 0x69u8, 0x73u8,
        0x2du8, 0x76u8, 0x65u8, 0x72u8, 0x05u8, 0x37u8, 0x2eu8, 0x32u8,
        0x2eu8, 0x30u8, 0xfau8, 0x0au8, 0x72u8, 0x65u8, 0x64u8, 0x69u8,
        0x73u8, 0x2du8, 0x62u8, 0x69u8, 0x74u8, 0x73u8, 0xc0u8, 0x40u8,
        0xfau8, 0x05u8, 0x63u8, 0x74u8, 0x69u8, 0x6du8, 0x65u8, 0xc2u8,
        0x6du8, 0x08u8, 0xbcu8, 0x65u8, 0xfau8, 0x08u8, 0x75u8, 0x73u8,
        0x65u8, 0x64u8, 0x2du8, 0x6du8, 0x65u8, 0x6du8, 0xc2u8, 0xb0u8,
        0xc4u8, 0x10u8, 0x00u8, 0xfau8, 0x08u8, 0x61u8, 0x6fu8, 0x66u8,
        0x2du8, 0x62u8, 0x61u8, 0x73u8, 0x65u8, 0xc0u8, 0x00u8, 0xffu8,
        0xf0u8, 0x6eu8, 0x3bu8, 0xfeu8, 0xc0u8, 0xffu8, 0x5au8, 0xa2u8,
    ]
}

/// The canned snapshot of an empty store: 88 bytes.
pub fn get_empty_rdb_bytes() -> (r: Vec<u8>)
    ensures
        r@ == empty_rdb(),
        r@.len() == 88,
{
    let r = vec![
        0x52u8, 0x45u8, 0x44u8, 0x49u8, 0x53u8, 0x30u8, 0x30u8, 0x31u8,
        0x31u8, 0xfau8, 0x09u8, 0x72u8, 0x65u8, 0x64u8, 0x69u8, 0x73u8,
        0x2du8, 0x76u8, 0x65u8, 0x72u8, 0x05u8, 0x37u8, 0x2eu8, 0x32u8,
        0x2eu8, 0x30u8, 0xfau8, 0x0au8, 0x72u8, 0x65u8, 0x64u8, 0x69u8,
        0x73u8, 0x2du8, 0x62u8, 0x69u8, 0x74u8, 0x73u8, 0xc0u8, 0x40u8,
        0xfau8, 0x05u8, 0x63u8, 0x74u8, 0x69u8, 0x6du8, 0x65u8, 0xc2u8,
        0x6du8, 0x08u8, 0xbcu8, 0x65u8, 0xfau8, 0x08u8, 0x75u8, 0x73u8,
        0x65u8, 0x64u8, 0x2du8, 0x6du8, 0x65u8, 0x6du8, 0xc2u8, 0xb0u8,
        0xc4u8, 0x10u8, 0x00u8, 0xfau8, 0x08u8, 0x61u8, 0x6fu8, 0x66u8,
        0x2du8, 0x62u8, 0x61u8, 0x73u8, 0x65u8, 0xc0u8, 0x00u8, 0xffu8,
        0xf0u8, 0x6eu8, 0x3bu8, 0xfeu8, 0xc0u8, 0xffu8, 0x5au8, 0xa2u8,
    ];
    assert(r@ =~= empty_rdb());
    r
}

/// A stored value and the time at which it runs out.
pub struct ValAndExpiry {
    val: Bytes,
    /// Milliseconds since the epoch; `u64::MAX` where the value never runs
    /// out.
    ex: u64,
}

/// What a [`ValAndExpiry`] stands for.
pub struct EntryView {
    pub val: Seq<u8>,
    pub ex: u64,
}

impl View for ValAndExpiry {
    type V = EntryView;

    closed spec fn view(&self) -> EntryView {
        EntryView { val: self.val@, ex: self.ex }
    }
}

/// The entry for a value stored at the time `now` with the time to live
/// `ex_interv`, both in milliseconds.
pub open spec fn entry_for(val: Seq<u8>, ex_interv: Option<u64>, now: u64) -> EntryView {
    EntryView {
        val,
        ex: match ex_interv {
            Some(interv) => (now + interv) as u64,
            None => u64::MAX,
        },
    }
}

impl ValAndExpiry {
    /// The entry for `val`, stored at the time `now_ms` with the time to
    /// live `ex_interv`.
    pub fn new(val: Bytes, ex_interv: Option<u64>, now_ms: u64) -> (r: ValAndExpiry)
        requires
            ex_interv matches Some(interv) ==> now_ms + interv <= u64::MAX,
        ensures
            r@ == entry_for(val@, ex_interv, now_ms),
    {
        match ex_interv {
            Some(interv) => ValAndExpiry { val, ex: now_ms + interv },
            None => ValAndExpiry { val, ex: u64::MAX },
        }
    }
}

/// What a master knows of one replica.
pub struct ReplicaView {
    /// Host and port of the replica, with a colon between them.
    pub addr: Seq<char>,
    /// The last offset that the replica has acknowledged.
    pub acked: u64,
}

/// The state of the store.
pub struct DbView {
    /// The entry of each key that was set.
    pub kv: Map<Seq<u8>, EntryView>,
    pub cfg: InstanceConfigView,
    /// On a replica: the bytes of commands taken from the master so far.
    pub repl_byte_cnt: usize,
    /// On a master: the replicas, in the order in which they joined.
    pub replicas: Seq<ReplicaView>,
    pub replication_id: Seq<char>,
    /// On a master: the bytes of writes sent to the replicas so far.
    pub replication_offset: u64,
}

/// Bytes on their way to the replica at `to`.
pub struct OutboundView {
    pub to: Seq<char>,
    pub msg: ToReplicaView,
}

/// A query to hand to the store again, once `delay_ms` milliseconds have
/// passed.
pub struct RetryView {
    pub delay_ms: u64,
    pub query: QueryView,
}

/// What the store asks of its surroundings after a query.
pub struct OutcomeView {
    /// The answer to the peer that asked.
    pub result: QueryResultView,
    /// What goes to the replicas, in order.
    pub outbox: Seq<OutboundView>,
    /// The query to take up later, where the answer is put off.
    pub retry: Option<RetryView>,
}

/// The simple string `OK`.
pub open spec fn ok_value() -> ValueView {
    ValueView::SimpleString(text("OK"))
}

/// The answer `vals` to the query `q`, which counts for the bytes that the
/// query was read from.
pub open spec fn answer(vals: Seq<ValueView>, q: QueryView) -> QueryResultView {
    QueryResultView { vals, pass_stream: false, repl_byte_cnt_inc: q.deser_byte_cnt }
}

/// A step that answers and does nothing else.
pub open spec fn quiet(s: DbView, vals: Seq<ValueView>, q: QueryView) -> (DbView, OutcomeView) {
    (s, OutcomeView { result: answer(vals, q), outbox: Seq::empty(), retry: None })
}

/// The same bytes for every replica, in the order of the replicas.
pub open spec fn broadcast(replicas: Seq<ReplicaView>, bytes: Seq<u8>, note: Seq<char>) -> Seq<
    OutboundView,
> {
    Seq::new(
        replicas.len(),
        |i: int| OutboundView { to: replicas[i].addr, msg: ToReplicaView::Bytes(bytes, note) },
    )
}

/// What `GET` answers at the time `now`: the value of a key that was set
/// and has not run out, a null otherwise.
pub open spec fn get_value(kv: Map<Seq<u8>, EntryView>, key: Seq<u8>, now: u64) -> ValueView {
    if kv.dom().contains(key) && kv[key].ex > now {
        ValueView::BulkString(kv[key].val)
    } else {
        ValueView::NullBulkString
    }
}

/// The bytes that a `SET` is passed on to the replicas as.
pub open spec fn set_bytes(k: Seq<u8>, v: Seq<u8>, ex: Option<u64>) -> Seq<u8> {
    encode(to_value(CommandView::SetKV(k, v, ex)))
}

/// Whether a `SET` fits at the time `now`: the time at which the value runs
/// out fits 64 bits, and so does the replication offset after the command
/// is sent on.
pub open spec fn set_fits(s: DbView, k: Seq<u8>, v: Seq<u8>, ex: Option<u64>, now: u64) -> bool {
    &&& ex matches Some(interv) ==> now + interv <= u64::MAX
    &&& s.replicas.len() > 0 ==> s.replication_offset + set_bytes(k, v, ex).len() <= u64::MAX
}

/// The state after a `SET`: the key has its entry, in the place of an older
/// one if there was one. Where there are replicas, the replication offset
/// has grown by the number of bytes that the command is sent on as.
pub open spec fn set_state(s: DbView, k: Seq<u8>, v: Seq<u8>, ex: Option<u64>, now: u64) -> DbView {
    DbView {
        kv: s.kv.insert(k, entry_for(v, ex, now)),
        replication_offset: if s.replicas.len() > 0 {
            (s.replication_offset + set_bytes(k, v, ex).len()) as u64
        } else {
            s.replication_offset
        },
        ..s
    }
}

/// What a `SET` sends to the replicas: the command to each, as the bytes of
/// its array of bulk strings; nothing where there is no replica.
pub open spec fn set_outbox(s: DbView, k: Seq<u8>, v: Seq<u8>, ex: Option<u64>) -> Seq<
    OutboundView,
> {
    if s.replicas.len() > 0 {
        broadcast(s.replicas, set_bytes(k, v, ex), "attempting replication"@)
    } else {
        Seq::empty()
    }
}

/// `SET`: the state after it, the answer `OK`, and what goes to the replicas.
pub open spec fn set_step(
    s: DbView,
    k: Seq<u8>,
    v: Seq<u8>,
    ex: Option<u64>,
    now: u64,
    q: QueryView,
) -> (DbView, OutcomeView) {
    (
        set_state(s, k, v, ex, now),
        OutcomeView {
            result: answer(seq![ok_value()], q),
            outbox: set_outbox(s, k, v, ex),
            retry: None,
        },
    )
}

/// The report on replication: role, replication id and replication offset,
/// a line each.
pub open spec fn info_text(s: DbView) -> Seq<u8> {
    text("role:") + encode_utf8(role_name(s.cfg.role)) + crlf() + text("master_replid:")
        + encode_utf8(s.replication_id) + crlf() + text("master_repl_offset:") + dec_digits(
        s.replication_offset as nat,
    )
}

/// What `INFO` answers: the report on replication for the section
/// `replication`, a null for every other.
pub open spec fn info_value(s: DbView, section: Seq<char>) -> ValueView {
    if section == "replication"@ {
        ValueView::BulkString(info_text(s))
    } else {
        ValueView::NullBulkString
    }
}

/// What `REPLCONF <key> <val>` answers.
pub open spec fn replconf_value(key: Seq<char>, val: Seq<char>) -> ValueView {
    if key == "listening-port"@ {
        ok_value()
    } else if key == "capa"@ {
        if val == "psync2"@ {
            ok_value()
        } else {
            ValueView::BulkError("Can't handle capa=`"@ + val + "`"@)
        }
    } else {
        ValueView::BulkError("Can't handle repl_conf key=`"@ + key + "`"@)
    }
}

/// What a replica answers to `REPLCONF GETACK`: the bytes of commands that
/// it has taken from its master so far.
pub open spec fn getack_value(s: DbView) -> ValueView {
    ValueView::Array(
        seq![word("REPLCONF"), word("ACK"), ValueView::BulkString(dec_digits(s.repl_byte_cnt as nat))],
    )
}

/// The name under which the replica at a peer is kept.
pub open spec fn replica_key(c: ClientInfoView) -> Seq<char> {
    c.host + seq![':'] + c.port
}

/// The replicas after the one at `addr` has acknowledged the offset `n`.
pub open spec fn acked(replicas: Seq<ReplicaView>, addr: Seq<char>, n: u64) -> Seq<ReplicaView> {
    Seq::new(
        replicas.len(),
        |i: int|
            if replicas[i].addr == addr {
                ReplicaView { acked: n, ..replicas[i] }
            } else {
                replicas[i]
            },
    )
}

/// The number of replicas that have acknowledged `offset` or more.
pub open spec fn acked_count(replicas: Seq<ReplicaView>, offset: u64) -> nat {
    replicas.filter(|r: ReplicaView| r.acked >= offset).len()
}

/// With one more replica, the count grows by one if that replica has
/// acknowledged the offset, and stays as it is if not.
pub proof fn lemma_acked_count_push(replicas: Seq<ReplicaView>, last: ReplicaView, offset: u64)
    ensures
        acked_count(replicas.push(last), offset) == acked_count(replicas, offset) + (if last.acked
            >= offset {
            1nat
        } else {
            0nat
        }),
{
    reveal(Seq::filter);
    assert(replicas.push(last).drop_last() =~= replicas);
}

/// The first line of the answer to `PSYNC ? -1`.
pub open spec fn fullresync_text(id: Seq<char>) -> Seq<u8> {
    text("FULLRESYNC ") + encode_utf8(id) + text(" 0")
}

/// The bytes that ask a replica for an acknowledgement.
pub open spec fn getack_bytes() -> Seq<u8> {
    encode(to_value(CommandView::ReplConfGetAck("*"@)))
}

/// `WAIT n t`, taken up for the first time or again.
///
/// The first time, every replica is asked for an acknowledgement. Then the
/// replicas that have acknowledged the replication offset are counted. If
/// they are `n` or more, or no time is left, their number is the answer.
/// Otherwise the answer is put off: after 100 milliseconds, or after `t` if
/// that is less, the store is to take the command up again with 100
/// milliseconds less to go.
pub open spec fn wait_step(s: DbView, n: i64, t: i64, first: bool, q: QueryView) -> (
    DbView,
    OutcomeView,
) {
    let k = acked_count(s.replicas, s.replication_offset);
    let outbox = if first {
        broadcast(s.replicas, getack_bytes(), "requesting getack"@)
    } else {
        Seq::empty()
    };
    if k >= n || t <= 0 {
        (s, OutcomeView { result: answer(seq![ValueView::Int(k as i64)], q), outbox, retry: None })
    } else {
        (
            s,
            OutcomeView {
                result: answer(Seq::empty(), q),
                outbox,
                retry: Some(
                    RetryView {
                        delay_ms: if t < 100 {
                            t as u64
                        } else {
                            100
                        },
                        query: QueryView { cmd: CommandView::WaitInternal(n, (t - 100) as i64), ..q },
                    },
                ),
            },
        )
    }
}

/// What the store does with one query at the time `now`: the state that
/// it goes to, and what it asks of its surroundings.
pub open spec fn step(s: DbView, q: QueryView, now: u64) -> (DbView, OutcomeView) {
    match q.cmd {
        CommandView::Ping => quiet(s, seq![ValueView::SimpleString(text("PONG"))], q),
        CommandView::Echo(a) => quiet(s, seq![ValueView::BulkString(a)], q),
        CommandView::SetKV(k, v, ex) => set_step(s, k, v, ex, now, q),
        CommandView::Get(k) => quiet(s, seq![get_value(s.kv, k, now)], q),
        CommandView::Info(section) => quiet(s, seq![info_value(s, section)], q),
        CommandView::Psync(_, _) => (
            s,
            OutcomeView {
                result: QueryResultView {
                    vals: seq![
                        ValueView::SimpleString(fullresync_text(s.replication_id)),
                        ValueView::FileContents(empty_rdb()),
                    ],
                    pass_stream: true,
                    repl_byte_cnt_inc: 0,
                },
                outbox: Seq::empty(),
                retry: None,
            },
        ),
        CommandView::ReplConf(key, val) => quiet(s, seq![replconf_value(key, val)], q),
        CommandView::ReplConfGetAck(_) => quiet(s, seq![getack_value(s)], q),
        CommandView::ReplConfAck(n) => quiet(
            DbView { replicas: acked(s.replicas, replica_key(q.client_info), wrapped(n)), ..s },
            Seq::empty(),
            q,
        ),
        CommandView::Wait(n, t) => wait_step(s, n, t, true, q),
        CommandView::WaitInternal(n, t) => wait_step(s, n, t, false, q),
    }
}

/// Whether the store can take a query at the time `now`: a `PSYNC` must ask
/// for everything (`? -1`), the time at which a value runs out must fit 64
/// bits, and so must the replication offset after a `SET` is sent on.
pub open spec fn accepts(s: DbView, q: QueryView, now: u64) -> bool {
    match q.cmd {
        CommandView::SetKV(k, v, ex) => set_fits(s, k, v, ex, now),
        CommandView::Psync(id, offset) => id == "?"@ && offset == -1,
        _ => true,
    }
}

/// What the store does with one query that comes in: the step, and then
/// the count of bytes taken from the master grows by what the answer says.
pub open spec fn handle(s: DbView, q: QueryView, now: u64) -> (DbView, OutcomeView) {
    let (s1, out) = step(s, q, now);
    (
        DbView {
            repl_byte_cnt: (s1.repl_byte_cnt + out.result.repl_byte_cnt_inc) as usize,
            ..s1
        },
        out,
    )
}

/// Whether the store can take a query that comes in: it accepts it, and
/// the count of bytes taken from the master stays within a `usize`.
pub open spec fn admits(s: DbView, q: QueryView, now: u64) -> bool {
    accepts(s, q, now) && s.repl_byte_cnt + step(s, q, now).1.result.repl_byte_cnt_inc
        <= usize::MAX
}

/// The state of a store that has just been set up.
pub open spec fn fresh(cfg: InstanceConfigView, seed: u64) -> DbView {
    DbView {
        kv: Map::empty(),
        cfg,
        repl_byte_cnt: 0,
        replicas: Seq::empty(),
        replication_id: replication_id_of(seed),
        replication_offset: 0,
    }
}

/// Whether a replica at `addr` is known.
pub open spec fn is_known(s: DbView, addr: Seq<char>) -> bool {
    exists|i: int| 0 <= i < s.replicas.len() && s.replicas[i].addr == addr
}

/// The state after the replica at `addr` has joined, with nothing
/// acknowledged: a replica that is new is put last; one that is known stays
/// in its place and starts from zero again.
pub open spec fn joined(s: DbView, addr: Seq<char>) -> DbView {
    if is_known(s, addr) {
        DbView { replicas: acked(s.replicas, addr, 0), ..s }
    } else {
        DbView { replicas: s.replicas.push(ReplicaView { addr, acked: 0 }), ..s }
    }
}

/// One key of the store with its entry.
struct Slot {
    key: Bytes,
    entry: ValAndExpiry,
}

/// What a master keeps of one replica.
struct ReplicaInfo {
    addr: String,
    acked_byte_cnt: u64,
}

impl View for ReplicaInfo {
    type V = ReplicaView;

    closed spec fn view(&self) -> ReplicaView {
        ReplicaView { addr: self.addr@, acked: self.acked_byte_cnt }
    }
}

/// The map that a run of slots stands for: each key with its entry.
spec fn kv_of(slots: Seq<Slot>) -> Map<Seq<u8>, EntryView>
    decreases slots.len(),
{
    if slots.len() == 0 {
        Map::empty()
    } else {
        kv_of(slots.drop_last()).insert(slots.last().key@, slots.last().entry@)
    }
}

/// Whether no key stands in two slots.
spec fn keys_distinct(slots: Seq<Slot>) -> bool {
    forall|i: int, j: int| 0 <= i < j < slots.len() ==> slots[i].key@ != slots[j].key@
}

/// Whether no address stands for two replicas.
spec fn addrs_distinct(replicas: Seq<ReplicaInfo>) -> bool {
    forall|i: int, j: int| 0 <= i < j < replicas.len() ==> replicas[i].addr@ != replicas[j].addr@
}

/// What a run of replicas stands for, one for one.
spec fn replicas_of(replicas: Seq<ReplicaInfo>) -> Seq<ReplicaView> {
    Seq::new(replicas.len(), |i: int| replicas[i]@)
}

/// A key that stands in no slot is not in the map.
proof fn lemma_kv_absent(slots: Seq<Slot>, key: Seq<u8>)
    requires
        forall|i: int| 0 <= i < slots.len() ==> slots[i].key@ != key,
    ensures
        !kv_of(slots).dom().contains(key),
    decreases slots.len(),
{
    if slots.len() > 0 {
        lemma_kv_absent(slots.drop_last(), key);
    }
}

/// The key of a slot is in the map, with the entry of the slot.
proof fn lemma_kv_present(slots: Seq<Slot>, i: int)
    requires
        keys_distinct(slots),
        0 <= i < slots.len(),
    ensures
        kv_of(slots).dom().contains(slots[i].key@),
        kv_of(slots)[slots[i].key@] == slots[i].entry@,
    decreases slots.len(),
{
    if i < slots.len() - 1 {
        lemma_kv_present(slots.drop_last(), i);
    }
}

/// A slot put in the place of one with the same key changes the entry of
/// that key and nothing else.
proof fn lemma_kv_update(slots: Seq<Slot>, i: int, slot: Slot)
    requires
        keys_distinct(slots),
        0 <= i < slots.len(),
        slot.key@ == slots[i].key@,
    ensures
        kv_of(slots.update(i, slot)) == kv_of(slots).insert(slot.key@, slot.entry@),
        keys_distinct(slots.update(i, slot)),
    decreases slots.len(),
{
    let changed = slots.update(i, slot);
    if i < slots.len() - 1 {
        lemma_kv_update(slots.drop_last(), i, slot);
        assert(changed.drop_last() =~= slots.drop_last().update(i, slot));
        assert(changed.last() == slots.last());
    } else {
        assert(changed.drop_last() =~= slots.drop_last());
    }
    assert(kv_of(changed) =~= kv_of(slots).insert(slot.key@, slot.entry@));
}

/// The store: keys with their entries, and what replication needs.
pub struct Db {
    h: Vec<Slot>,
    cfg: InstanceConfig,
    repl_byte_cnt: usize,
    replicas: Vec<ReplicaInfo>,
    replication_id: String,
    replication_offset: u64,
}

impl View for Db {
    type V = DbView;

    closed spec fn view(&self) -> DbView {
        DbView {
            kv: kv_of(self.h@),
            cfg: self.cfg@,
            repl_byte_cnt: self.repl_byte_cnt,
            replicas: replicas_of(self.replicas@),
            replication_id: self.replication_id@,
            replication_offset: self.replication_offset,
        }
    }
}

/// Bytes on their way to the replica at `to`.
#[derive(Debug)]
pub struct Outbound {
    pub to: String,
    pub msg: ToReplica,
}

impl View for Outbound {
    type V = OutboundView;

    open spec fn view(&self) -> OutboundView {
        OutboundView { to: self.to@, msg: self.msg@ }
    }
}

/// A query to hand to the store again, once `delay_ms` milliseconds have
/// passed.
#[derive(Debug)]
pub struct Retry {
    pub delay_ms: u64,
    pub query: Query,
}

impl View for Retry {
    type V = RetryView;

    open spec fn view(&self) -> RetryView {
        RetryView { delay_ms: self.delay_ms, query: self.query@ }
    }
}

/// What the store asks of its surroundings after a query.
#[derive(Debug)]
pub struct Outcome {
    /// The answer to the peer that asked; it is sent unless it holds no
    /// value.
    pub result: QueryResult,
    /// What goes to the replicas, in order.
    pub outbox: Vec<Outbound>,
    /// The query to take up later, where the answer is put off.
    pub retry: Option<Retry>,
}

/// What the store says of a replica that has joined.
#[derive(Debug)]
pub struct Registration {
    /// The name under which the replica is kept: host and port with a colon
    /// between them. What reaches the replica is kept under the same name,
    /// in the place of what was kept there before.
    pub key: String,
    /// Whether the replica was not known before.
    pub is_new: bool,
}

/// What a run of outbound messages stands for, one for one.
pub open spec fn outbox_view(outbox: Seq<Outbound>) -> Seq<OutboundView> {
    Seq::new(outbox.len(), |i: int| outbox[i]@)
}

impl View for Outcome {
    type V = OutcomeView;

    open spec fn view(&self) -> OutcomeView {
        OutcomeView {
            result: self.result@,
            outbox: outbox_view(self.outbox@),
            retry: match self.retry {
                Some(r) => Some(r@),
                None => None,
            },
        }
    }
}

/// Whether the answer of an outcome goes back to the peer that asked: it
/// does where it holds a value; an answer without values is one that is put
/// off or that is none, and nothing is sent for it.
pub fn answer_due(out: &Outcome) -> (b: bool)
    ensures
        b == (out@.result.vals.len() > 0),
{
    out.result.vals.len() > 0
}

/// The answer of one value to `query`, with nothing for the replicas and
/// nothing put off.
fn quiet_outcome(val: Value, query: &Query) -> (out: Outcome)
    ensures
        out@ == (OutcomeView {
            result: answer(seq![val@], query@),
            outbox: Seq::empty(),
            retry: None,
        }),
{
    let mut vals: Vec<Value> = Vec::new();
    vals.push(val);
    let out = Outcome {
        result: QueryResult {
            vals,
            pass_stream: false,
            repl_byte_cnt_inc: query.deser_byte_cnt,
        },
        outbox: Vec::new(),
        retry: None,
    };
    assert(out@.result.vals =~= seq![val@]);
    assert(out@.outbox =~= Seq::empty());
    out
}

impl Db {
    /// Whether the store is in order: no key is kept twice, no replica is
    /// kept twice, and the replicas can be counted in an `i64`.
    pub closed spec fn wf(&self) -> bool {
        &&& keys_distinct(self.h@)
        &&& addrs_distinct(self.replicas@)
        &&& self.replicas@.len() <= i64::MAX
    }

    /// A store that has just been set up, with the replication id of `seed`.
    pub fn new(cfg: InstanceConfig, seed: u64) -> (db: Db)
        ensures
            db.wf(),
            db@ == fresh(cfg@, seed),
    {
        let db = Db {
            h: Vec::new(),
            cfg,
            repl_byte_cnt: 0,
            replicas: Vec::new(),
            replication_id: make_replication_id(seed),
            replication_offset: 0,
        };
        assert(db@.replicas =~= Seq::empty());
        db
    }

    /// How the instance is set up.
    pub fn config(&self) -> (cfg: &InstanceConfig)
        ensures
            cfg@ == self@.cfg,
    {
        &self.cfg
    }

    /// The replication id.
    pub fn replication_id(&self) -> (id: &String)
        ensures
            id@ == self@.replication_id,
    {
        &self.replication_id
    }

    /// On a master: the bytes of writes sent to the replicas so far.
    pub fn replication_offset(&self) -> (n: u64)
        ensures
            n == self@.replication_offset,
    {
        self.replication_offset
    }

    /// On a replica: the bytes of commands taken from the master so far.
    pub fn repl_byte_cnt(&self) -> (n: usize)
        ensures
            n == self@.repl_byte_cnt,
    {
        self.repl_byte_cnt
    }

    /// The number of replicas that have joined.
    pub fn replica_count(&self) -> (n: usize)
        ensures
            n == self@.replicas.len(),
    {
        self.replicas.len()
    }

    /// The slot that holds `key`, where there is one.
    fn find_slot(&self, key: &Bytes) -> (r: Option<usize>)
        ensures
            match r {
                Some(i) => i < self.h@.len() && self.h@[i as int].key@ == key@,
                None => forall|i: int| 0 <= i < self.h@.len() ==> self.h@[i].key@ != key@,
            },
    {
        let mut i: usize = 0;
        while i < self.h.len()
            invariant
                i <= self.h@.len(),
                forall|j: int| 0 <= j < i ==> self.h@[j].key@ != key@,
            decreases self.h@.len() - i,
        {
            if self.h[i].key.same_as(key) {
                return Some(i);
            }
            i += 1;
        }
        None
    }

    /// The bytes `bytes` for every replica, in the order of the replicas.
    fn broadcast_bytes(&self, bytes: &Vec<u8>, note: &str) -> (outbox: Vec<Outbound>)
        ensures
            outbox_view(outbox@) == broadcast(self@.replicas, bytes@, note@),
    {
        let mut outbox: Vec<Outbound> = Vec::new();
        let mut i: usize = 0;
        while i < self.replicas.len()
            invariant
                i <= self.replicas@.len(),
                outbox@.len() == i,
                forall|j: int|
                    0 <= j < i ==> outbox@[j]@ == (OutboundView {
                        to: self.replicas@[j].addr@,
                        msg: ToReplicaView::Bytes(bytes@, note@),
                    }),
            decreases self.replicas@.len() - i,
        {
            outbox.push(
                Outbound {
                    to: self.replicas[i].addr.clone(),
                    msg: ToReplica::Bytes(bytes.clone(), String::from_str(note)),
                },
            );
            i += 1;
        }
        assert(outbox_view(outbox@) =~= broadcast(self@.replicas, bytes@, note@));
        outbox
    }

    /// `SET`: stores `val` under `key` at the time `now_ms`, with the time
    /// to live `ex`; gives the answer and what goes to the replicas.
    pub fn exec_set(&mut self, key: &Bytes, val: &Bytes, ex: &Option<u64>, now_ms: u64) -> (r: (
        Value,
        Vec<Outbound>,
    ))
        requires
            old(self).wf(),
            set_fits(old(self)@, key@, val@, *ex, now_ms),
        ensures
            final(self).wf(),
            final(self)@ == set_state(old(self)@, key@, val@, *ex, now_ms),
            r.0@ == ok_value(),
            outbox_view(r.1@) == set_outbox(old(self)@, key@, val@, *ex),
    {
        let slot = Slot { key: key.clone(), entry: ValAndExpiry::new(val.clone(), *ex, now_ms) };
        match self.find_slot(key) {
            Some(i) => {
                proof {
                    lemma_kv_update(self.h@, i as int, slot);
                }
                self.h[i] = slot;
            },
            None => {
                assert(self.h@.push(slot).drop_last() =~= self.h@);
                self.h.push(slot);
            },
        }
        assert(self@.kv == old(self)@.kv.insert(key@, entry_for(val@, *ex, now_ms)));
        let mut outbox: Vec<Outbound> = Vec::new();
        if self.replicas.len() > 0 {
            let cmd = Command::SetKV(key.clone(), val.clone(), *ex);
            let value = cmd.to_bulk_array();
            let bytes = serialize(&value).into_inner();
            self.replication_offset = self.replication_offset + bytes.len() as u64;
            outbox = self.broadcast_bytes(&bytes, "attempting replication");
        } else {
            assert(outbox_view(outbox@) =~= Seq::empty());
        }
        (Value::ok(), outbox)
    }

    /// `GET`: what `key` reads as at the time `now_ms`.
    pub fn exec_get(&self, key: &Bytes, now_ms: u64) -> (v: Value)
        requires
            self.wf(),
        ensures
            v@ == get_value(self@.kv, key@, now_ms),
    {
        match self.find_slot(key) {
            Some(i) => {
                proof {
                    lemma_kv_present(self.h@, i as int);
                }
                let val_ex = &self.h[i].entry;
                if val_ex.ex > now_ms {
                    Value::BulkString(val_ex.val.clone())
                } else {
                    Value::NullBulkString
                }
            },
            None => {
                proof {
                    lemma_kv_absent(self.h@, key@);
                }
                Value::NullBulkString
            },
        }
    }

    /// `INFO`: the report on the section `arg`.
    pub fn exec_info(&self, arg: &str) -> (v: Value)
        ensures
            v@ == info_value(self@, arg@),
    {
        if str_eq(arg, "replication") {
            let mut parts: Vec<u8> = Vec::new();
            append_bytes(&mut parts, "role:".as_bytes());
            append_bytes(&mut parts, self.cfg.role().as_str().as_bytes());
            parts.push(CR);
            parts.push(LF);
            append_bytes(&mut parts, "master_replid:".as_bytes());
            append_bytes(&mut parts, self.replication_id.as_str().as_bytes());
            parts.push(CR);
            parts.push(LF);
            append_bytes(&mut parts, "master_repl_offset:".as_bytes());
            push_u64(&mut parts, self.replication_offset);
            assert(parts@ =~= info_text(self@));
            Value::BulkString(Bytes::from_vec(parts))
        } else {
            Value::NullBulkString
        }
    }

    /// `REPLCONF <key> <val>`: the answer; the store takes no note of it.
    pub fn exec_repl_conf(&self, key: &String, val: &String) -> (v: Value)
        ensures
            v@ == replconf_value(key@, val@),
    {
        if str_eq(key.as_str(), "listening-port") {
            Value::ok()
        } else if str_eq(key.as_str(), "capa") {
            if str_eq(val.as_str(), "psync2") {
                Value::ok()
            } else {
                Value::BulkError(
                    String::from_str("Can't handle capa=`").concat(val.as_str()).concat("`"),
                )
            }
        } else {
            Value::BulkError(
                String::from_str("Can't handle repl_conf key=`").concat(key.as_str()).concat("`"),
            )
        }
    }

    /// `REPLCONF GETACK`: the acknowledgement that a replica owes.
    pub fn exec_repl_conf_get_ack(&self) -> (v: Value)
        ensures
            v@ == getack_value(self@),
    {
        let mut digits: Vec<u8> = Vec::new();
        push_u64(&mut digits, self.repl_byte_cnt as u64);
        assert(digits@ =~= dec_digits(self.repl_byte_cnt as nat));
        let mut elems: Vec<Value> = Vec::new();
        elems.push(crate::resp::b_str("REPLCONF"));
        elems.push(crate::resp::b_str("ACK"));
        elems.push(Value::BulkString(Bytes::from_vec(digits)));
        proof {
            lemma_array_view(elems);
            assert(views(elems@) =~= getack_value(self@)->Array_0);
        }
        Value::Array(elems)
    }

    /// Notes that the replica at `addr` has acknowledged `byte_cnt`; says
    /// whether there is such a replica.
    fn set_acked(&mut self, addr: &str, byte_cnt: u64) -> (known: bool)
        requires
            old(self).wf(),
        ensures
            final(self).wf(),
            final(self)@ == (DbView {
                replicas: acked(old(self)@.replicas, addr@, byte_cnt),
                ..old(self)@
            }),
            known == is_known(old(self)@, addr@),
    {
        let ghost before = self.replicas@;
        let mut known: bool = false;
        let mut i: usize = 0;
        while i < self.replicas.len()
            invariant
                i <= self.replicas@.len(),
                self.replicas@.len() == before.len(),
                self.h == old(self).h,
                self.cfg == old(self).cfg,
                self.repl_byte_cnt == old(self).repl_byte_cnt,
                self.replication_id == old(self).replication_id,
                self.replication_offset == old(self).replication_offset,
                before == old(self).replicas@,
                addrs_distinct(before),
                keys_distinct(self.h@),
                before.len() <= i64::MAX,
                forall|j: int| 0 <= j < before.len() ==> self.replicas@[j].addr@ == before[j].addr@,
                forall|j: int|
                    0 <= j < i ==> self.replicas@[j]@ == acked(replicas_of(before), addr@, byte_cnt)[j],
                forall|j: int| i <= j < before.len() ==> self.replicas@[j]@ == before[j]@,
                known == (exists|j: int| 0 <= j < i && before[j].addr@ == addr@),
            decreases self.replicas@.len() - i,
        {
            if str_eq(self.replicas[i].addr.as_str(), addr) {
                let same = self.replicas[i].addr.clone();
                self.replicas[i] = ReplicaInfo { addr: same, acked_byte_cnt: byte_cnt };
                known = true;
                assert(before[i as int].addr@ == addr@);
            }
            i += 1;
        }
        assert forall|a: int, b: int| 0 <= a < b < self.replicas@.len() implies self.replicas@[a].addr@
            != self.replicas@[b].addr@ by {
            assert(self.replicas@[a].addr@ == before[a].addr@);
            assert(self.replicas@[b].addr@ == before[b].addr@);
        }
        assert(self@.replicas =~= acked(old(self)@.replicas, addr@, byte_cnt));
        assert(known == is_known(old(self)@, addr@)) by {
            if is_known(old(self)@, addr@) {
                let j = choose|j: int|
                    0 <= j < old(self)@.replicas.len() && old(self)@.replicas[j].addr == addr@;
                assert(before[j].addr@ == addr@);
            }
            if known {
                let j = choose|j: int| 0 <= j < i && before[j].addr@ == addr@;
                assert(old(self)@.replicas[j].addr == addr@);
            }
        }
        known
    }

    /// `REPLCONF ACK`: the replica at the peer has acknowledged `byte_cnt`.
    pub fn exec_repl_conf_ack(&mut self, byte_cnt: u64, client_info: &ClientInfo)
        requires
            old(self).wf(),
        ensures
            final(self).wf(),
            final(self)@ == (DbView {
                replicas: acked(old(self)@.replicas, replica_key(client_info@), byte_cnt),
                ..old(self)@
            }),
    {
        proof {
            reveal_strlit(":");
        }
        let repl_key = client_info.host.clone().concat(":").concat(client_info.port.as_str());
        assert(repl_key@ =~= replica_key(client_info@));
        self.set_acked(repl_key.as_str(), byte_cnt);
    }

    /// The number of replicas that have acknowledged the replication
    /// offset.
    fn count_acked(&self) -> (k: usize)
        ensures
            k == acked_count(self@.replicas, self@.replication_offset),
            k <= self@.replicas.len(),
    {
        let mut k: usize = 0;
        let mut i: usize = 0;
        assert(acked_count(self@.replicas.take(0), self.replication_offset) == 0) by {
            reveal(Seq::filter);
        }
        while i < self.replicas.len()
            invariant
                i <= self.replicas@.len(),
                k <= i,
                k == acked_count(self@.replicas.take(i as int), self.replication_offset),
            decreases self.replicas@.len() - i,
        {
            proof {
                assert(self@.replicas.take(i + 1) =~= self@.replicas.take(i as int).push(
                    self.replicas@[i as int]@,
                ));
                lemma_acked_count_push(
                    self@.replicas.take(i as int),
                    self.replicas@[i as int]@,
                    self.replication_offset,
                );
            }
            if self.replicas[i].acked_byte_cnt >= self.replication_offset {
                k += 1;
            }
            i += 1;
        }
        assert(self@.replicas.take(i as int) =~= self@.replicas);
        k
    }

    /// `WAIT`, taken up for the first time (`req_acks`) or again.
    pub fn exec_wait(&self, n_repls: i64, req_acks: bool, timeout: i64, qry: &Query) -> (out: Outcome)
        requires
            self.wf(),
        ensures
            (self@, out@) == wait_step(self@, n_repls, timeout, req_acks, qry@),
    {
        let mut outbox: Vec<Outbound> = Vec::new();
        if req_acks {
            let get_ack_cmd = Command::ReplConfGetAck(String::from_str("*"));
            let cmd_bytes = serialize(&get_ack_cmd.to_bulk_array()).into_inner();
            outbox = self.broadcast_bytes(&cmd_bytes, "requesting getack");
        } else {
            assert(outbox_view(outbox@) =~= Seq::empty());
        }
        let acked_repl_cnt: usize = self.count_acked();
        let k: i64 = acked_repl_cnt as i64;
        let mut vals: Vec<Value> = Vec::new();
        if k >= n_repls || timeout <= 0 {
            vals.push(Value::Int(k));
            let out = Outcome {
                result: QueryResult {
                    vals,
                    pass_stream: false,
                    repl_byte_cnt_inc: qry.deser_byte_cnt,
                },
                outbox,
                retry: None,
            };
            assert(out@.result.vals =~= seq![ValueView::Int(k)]);
            out
        } else {
            let lapse: u64 = if timeout < 100 {
                timeout as u64
            } else {
                100
            };
            let mut new_qry = qry.clone();
            new_qry.cmd = Command::WaitInternal(n_repls, timeout - 100);
            let out = Outcome {
                result: QueryResult {
                    vals,
                    pass_stream: false,
                    repl_byte_cnt_inc: qry.deser_byte_cnt,
                },
                outbox,
                retry: Some(Retry { delay_ms: lapse, query: new_qry }),
            };
            assert(out@.result.vals =~= Seq::empty());
            out
        }
    }

    /// `PSYNC ? -1`.
    fn exec_psync(&self) -> (out: Outcome)
        ensures
            out@ == (OutcomeView {
                result: QueryResultView {
                    vals: seq![
                        ValueView::SimpleString(fullresync_text(self@.replication_id)),
                        ValueView::FileContents(empty_rdb()),
                    ],
                    pass_stream: true,
                    repl_byte_cnt_inc: 0,
                },
                outbox: Seq::empty(),
                retry: None,
            }),
    {
        let mut reply: Vec<u8> = Vec::new();
        append_bytes(&mut reply, "FULLRESYNC ".as_bytes());
        append_bytes(&mut reply, self.replication_id.as_str().as_bytes());
        append_bytes(&mut reply, " 0".as_bytes());
        assert(reply@ =~= fullresync_text(self@.replication_id));
        let mut vals: Vec<Value> = Vec::new();
        vals.push(Value::SimpleString(Bytes::from_vec(reply)));
        vals.push(Value::FileContents(Bytes::from_vec(get_empty_rdb_bytes())));
        let out = Outcome {
            result: QueryResult { vals, pass_stream: true, repl_byte_cnt_inc: 0 },
            outbox: Vec::new(),
            retry: None,
        };
        assert(out@.result.vals =~= seq![
            ValueView::SimpleString(fullresync_text(self@.replication_id)),
            ValueView::FileContents(empty_rdb()),
        ]);
        assert(out@.outbox =~= Seq::empty());
        out
    }

    /// Runs one query at the time `now_ms`.
    pub fn execute(&mut self, query: &Query, now_ms: u64) -> (out: Outcome)
        requires
            old(self).wf(),
            accepts(old(self)@, query@, now_ms),
        ensures
            final(self).wf(),
            (final(self)@, out@) == step(old(self)@, query@, now_ms),
    {
        match &query.cmd {
            Command::Ping => quiet_outcome(crate::resp::s_str("PONG"), query),
            Command::Echo(a) => quiet_outcome(Value::BulkString(a.clone()), query),
            Command::SetKV(key, val, ex) => {
                let (val, outbox) = self.exec_set(key, val, ex, now_ms);
                let mut vals: Vec<Value> = Vec::new();
                vals.push(val);
                let out = Outcome {
                    result: QueryResult {
                        vals,
                        pass_stream: false,
                        repl_byte_cnt_inc: query.deser_byte_cnt,
                    },
                    outbox,
                    retry: None,
                };
                assert(out@.result.vals =~= seq![ok_value()]);
                out
            },
            Command::Get(key) => quiet_outcome(self.exec_get(key, now_ms), query),
            Command::Info(arg) => quiet_outcome(self.exec_info(arg.as_str()), query),
            Command::Psync(_, _) => self.exec_psync(),
            Command::ReplConf(key, val) => quiet_outcome(self.exec_repl_conf(key, val), query),
            Command::ReplConfGetAck(_) => quiet_outcome(self.exec_repl_conf_get_ack(), query),
            Command::ReplConfAck(byte_cnt) => {
                self.exec_repl_conf_ack(crate::commands::wrap(*byte_cnt), &query.client_info);
                let out = Outcome {
                    result: QueryResult {
                        vals: Vec::new(),
                        pass_stream: false,
                        repl_byte_cnt_inc: query.deser_byte_cnt,
                    },
                    outbox: Vec::new(),
                    retry: None,
                };
                assert(out@.result.vals =~= Seq::empty());
                assert(out@.outbox =~= Seq::empty());
                out
            },
            Command::Wait(n_repls, timeout) => self.exec_wait(*n_repls, true, *timeout, query),
            Command::WaitInternal(n_repls, timeout) => self.exec_wait(
                *n_repls,
                false,
                *timeout,
                query,
            ),
        }
    }
}

/// The commands by which a replica that listens on `port` introduces
/// itself to its master, in order. A reply is awaited after each; after the
/// last, the master sends the frame of a file.
pub open spec fn handshake_plan(port: u32) -> Seq<CommandView> {
    seq![
        CommandView::Ping,
        CommandView::ReplConf("listening-port"@, ascii_chars(dec_digits(port as nat))),
        CommandView::ReplConf("capa"@, "psync2"@),
        CommandView::Psync("?"@, -1i64),
    ]
}

/// Whether `reply` is what a master answers to the command at `step` of
/// the handshake: `PONG`, `OK`, `OK`, and a simple string that starts with
/// `FULLRESYNC `.
pub open spec fn handshake_reply_expected(step: usize, reply: ValueView) -> bool {
    match reply {
        ValueView::SimpleString(b) => {
            ||| step == 0 && b == text("PONG")
            ||| (step == 1 || step == 2) && b == text("OK")
            ||| step == 3 && b.len() >= text("FULLRESYNC ").len() && b.take(
                text("FULLRESYNC ").len() as int,
            ) == text("FULLRESYNC ")
        },
        _ => false,
    }
}

/// The commands of a run, one for one.
pub open spec fn command_views(cmds: Seq<Command>) -> Seq<CommandView> {
    Seq::new(cmds.len(), |i: int| cmds[i]@)
}

/// The decimal numeral of `n`, as a text.
fn decimal_string(n: u64) -> (r: String)
    ensures
        r@ == ascii_chars(dec_digits(n as nat)),
{
    let mut digits: Vec<u8> = Vec::new();
    push_u64(&mut digits, n);
    proof {
        assert(digits@ =~= dec_digits(n as nat));
        lemma_dec_digits_shape(n as nat);
        assert forall|i: int| 0 <= i < digits@.len() implies #[trigger] digits@[i] < 128 by {
            assert(is_digit(digits@[i]));
        }
        lemma_ascii_is_utf8(digits@);
    }
    match String::from_utf8(digits) {
        Ok(s) => {
            proof {
                encode_utf8_decode_utf8(s@);
            }
            s
        },
        Err(_) => String::new(),
    }
}

/// Whether `reply` is what a master answers to the command at `step` of the
/// handshake.
pub fn handshake_reply_ok(step: usize, reply: &Value) -> (ok: bool)
    ensures
        ok == handshake_reply_expected(step, reply@),
{
    match reply {
        Value::SimpleString(b) => {
            if step == 0 {
                b.is_text("PONG")
            } else if step == 1 || step == 2 {
                b.is_text("OK")
            } else if step == 3 {
                let head = "FULLRESYNC ".as_bytes();
                if b.len() < head.len() {
                    false
                } else {
                    let start = vstd::slice::slice_subrange(b.as_bytes(), 0, head.len());
                    assert(start@ =~= b@.take(head@.len() as int));
                    crate::common::bytes_eq(start, head)
                }
            } else {
                false
            }
        },
        _ => false,
    }
}

impl Db {
    /// Whether the store can take `query` at the time `now_ms`.
    pub fn can_handle(&self, query: &Query, now_ms: u64) -> (b: bool)
        ensures
            b == admits(self@, query@, now_ms),
    {
        let fits: bool = match &query.cmd {
            Command::Psync(_, _) => true,
            _ => query.deser_byte_cnt <= usize::MAX - self.repl_byte_cnt,
        };
        let accepted: bool = match &query.cmd {
            Command::SetKV(key, val, ex) => {
                let in_time: bool = match ex {
                    Some(interv) => *interv <= u64::MAX - now_ms,
                    None => true,
                };
                if self.replicas.len() > 0 {
                    let bytes = serialize(&query.cmd.to_bulk_array());
                    in_time && bytes.len() as u64 <= u64::MAX - self.replication_offset
                } else {
                    in_time
                }
            },
            Command::Psync(id, offset) => str_eq(id.as_str(), "?") && *offset == -1,
            _ => true,
        };
        accepted && fits
    }

    /// Takes one query that comes in at the time `now_ms`: runs it, and
    /// lets the count of bytes taken from the master grow by what the
    /// answer says.
    pub fn handle_query(&mut self, query: &Query, now_ms: u64) -> (out: Outcome)
        requires
            old(self).wf(),
            admits(old(self)@, query@, now_ms),
        ensures
            final(self).wf(),
            (final(self)@, out@) == handle(old(self)@, query@, now_ms),
    {
        let out = self.execute(query, now_ms);
        self.repl_byte_cnt = self.repl_byte_cnt + out.result.repl_byte_cnt_inc;
        out
    }

    /// Takes note of the replica whose peer address is `peer_addr`, with a
    /// space or a colon between host and port. The replica starts with
    /// nothing acknowledged, whether it is new or has been here before. The
    /// result names the replica and says whether it is new; either way the
    /// connection that it has come with is the one to reach it by from now
    /// on.
    pub fn register_replica(&mut self, peer_addr: &str) -> (r: Registration)
        requires
            old(self).wf(),
            is_known(old(self)@, colons_for_spaces(peer_addr@)) || old(self)@.replicas.len()
                < i64::MAX,
        ensures
            final(self).wf(),
            final(self)@ == joined(old(self)@, colons_for_spaces(peer_addr@)),
            r.key@ == colons_for_spaces(peer_addr@),
            r.is_new == !is_known(old(self)@, colons_for_spaces(peer_addr@)),
    {
        let replica_addr = spaces_to_colons(peer_addr);
        let known = self.set_acked(replica_addr.as_str(), 0);
        if !known {
            proof {
                let was = old(self)@.replicas;
                assert forall|j: int| 0 <= j < was.len() implies was[j].addr != replica_addr@ by {
                    if was[j].addr == replica_addr@ {
                        assert(is_known(old(self)@, replica_addr@));
                    }
                }
                assert(self@.replicas =~= was);
                assert forall|j: int| 0 <= j < self.replicas@.len() implies self.replicas@[j].addr@
                    != replica_addr@ by {
                    assert(self@.replicas[j] == self.replicas@[j]@);
                    assert(was[j].addr != replica_addr@);
                }
            }
            self.replicas.push(ReplicaInfo { addr: replica_addr.clone(), acked_byte_cnt: 0 });
            assert(self@.replicas =~= old(self)@.replicas.push(
                ReplicaView { addr: replica_addr@, acked: 0 },
            ));
        }
        Registration { key: replica_addr, is_new: !known }
    }

    /// The address to reach the master at, where the instance is a replica:
    /// host and port with a colon between them.
    pub fn master_address(&self) -> (r: Option<String>)
        ensures
            match self@.cfg.replicaof {
                Some(host_port) => r is Some && r->Some_0@ == colons_for_spaces(host_port),
                None => r is None,
            },
    {
        match self.cfg.replicaof() {
            Some(host_port) => Some(spaces_to_colons(host_port.as_str())),
            None => None,
        }
    }

    /// The commands by which the instance introduces itself to its master,
    /// in order.
    pub fn handshake_commands(&self) -> (cmds: Vec<Command>)
        ensures
            command_views(cmds@) == handshake_plan(self@.cfg.port),
    {
        let mut cmds: Vec<Command> = Vec::new();
        cmds.push(Command::Ping);
        cmds.push(
            Command::ReplConf(
                String::from_str("listening-port"),
                decimal_string(self.cfg.port() as u64),
            ),
        );
        cmds.push(Command::ReplConf(String::from_str("capa"), String::from_str("psync2")));
        cmds.push(Command::Psync(String::from_str("?"), -1));
        assert(command_views(cmds@) =~= handshake_plan(self@.cfg.port));
        cmds
    }
}

} // verus!
