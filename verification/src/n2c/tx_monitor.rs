//! LocalTxMonitor: a client looks into the mempool.
//!
//! | Tag | Message          | Contents                        |
//! |-----|------------------|---------------------------------|
//! |   0 | MsgDone          | `[0]`                           |
//! |   1 | MsgAcquire       | `[1]`                           |
//! |   2 | MsgAcquired      | `[2, slot]`                     |
//! |   3 | MsgRelease       | `[3]`                           |
//! |   5 | MsgNextTx        | `[5]`                           |
//! |   6 | MsgReplyNextTx   | `[6, null]` or `[6, [era, tx]]` |
//! |   7 | MsgHasTx         | `[7, tx id]`                    |
//! |   8 | MsgReplyHasTx    | `[8, bool]`                     |
//! |   9 | MsgGetSizes      | `[9]`                           |
//! |  10 | MsgReplyGetSizes | `[10, [capacity, bytes, txs]]`  |
use crate::cbor;
use crate::cbor::{get_bytes, put_array, put_bool, put_bytes, put_null, put_u32, put_u64};
use crate::hash::to_hash;
use crate::mempool;
use crate::mempool::MempoolProvider;
use crate::multiplexer::Segment;
use crate::n2c::message;
use crate::n2c::message::{read_msg_tag, reply};
use crate::n2c::{N2CServerError, MINI_PROTOCOL_TX_MONITOR};
use crate::words;
use vstd::prelude::*;

verus! {

/// How far a client has gone through the mempool.
#[derive(Debug, Clone)]
pub struct TxMonitorCursor {
    /// The transactions that were there when the client acquired the mempool.
    pub snapshot: Vec<[u8; 32]>,
    /// Number of them that were looked at.
    pub position: usize,
    /// Whether the client holds a snapshot.
    pub acquired: bool,
}

/// A cursor by its contents.
pub struct CursorView {
    pub snapshot: Seq<[u8; 32]>,
    pub position: usize,
    pub acquired: bool,
}

impl View for TxMonitorCursor {
    type V = CursorView;

    open spec fn view(&self) -> CursorView {
        CursorView {
            snapshot: self.snapshot@,
            position: self.position,
            acquired: self.acquired,
        }
    }
}

impl TxMonitorCursor {
    /// A cursor that holds no snapshot.
    pub fn new() -> (r: TxMonitorCursor)
        ensures
            r@ == released(),
    {
        let r = TxMonitorCursor { snapshot: Vec::new(), position: 0, acquired: false };
        assert(r@.snapshot =~= Seq::empty());
        r
    }
}

/// A cursor that holds no snapshot.
pub open spec fn released() -> CursorView {
    CursorView { snapshot: Seq::empty(), position: 0, acquired: false }
}

/// MsgAcquired.
pub open spec fn acquired_bytes(slot: u64) -> Seq<u8> {
    cbor::array_head(2) + cbor::uint(2) + cbor::uint(slot as nat)
}

/// MsgReplyHasTx.
pub open spec fn has_tx_bytes(has: bool) -> Seq<u8> {
    cbor::array_head(2) + cbor::uint(8) + cbor::bool_item(has)
}

/// MsgReplyNextTx: the next transaction, as one of the Conway era, or `null`.
pub open spec fn next_tx_bytes(tx: Option<Seq<u8>>) -> Seq<u8> {
    cbor::array_head(2) + cbor::uint(6) + match tx {
        Some(t) => cbor::array_head(2) + cbor::uint(6) + cbor::bytes_item(t),
        None => cbor::null_item(),
    }
}

/// MsgReplyGetSizes.
pub open spec fn sizes_bytes(capacity: usize, bytes: usize, txs: usize) -> Seq<u8> {
    cbor::array_head(2)
        + cbor::uint(10)
        + (cbor::array_head(3)
            + cbor::uint(capacity as nat)
            + cbor::uint(bytes as nat)
            + cbor::uint(txs as nat))
}

/// The reply in this mini-protocol.
pub open spec fn monitor_reply(payload: Seq<u8>) -> message::Outcome {
    message::Outcome::Reply(message::reply_view(MINI_PROTOCOL_TX_MONITOR, payload))
}

/// What the mempool may answer to the questions that a message leads to.
pub struct Answers {
    /// The transactions that are there.
    pub hashes: Seq<[u8; 32]>,
    /// Whether the transaction asked for is there.
    pub has: bool,
    /// The bytes of the transactions of the snapshot from the position on.
    pub bodies: Seq<Option<Seq<u8>>>,
    pub capacity: usize,
    pub total_bytes: usize,
    pub len: usize,
}

/// Number of transactions that have to be looked at to find one that is still there,
/// starting with the `k`-th of `bodies`; all of them if there is none.
pub open spec fn looked_at(bodies: Seq<Option<Seq<u8>>>, k: int) -> int
    decreases bodies.len() - k,
{
    if k >= bodies.len() {
        bodies.len() as int
    } else if bodies[k] is Some {
        k + 1
    } else {
        looked_at(bodies, k + 1)
    }
}

/// The first transaction that is still there.
pub open spec fn first_body(bodies: Seq<Option<Seq<u8>>>) -> Option<Seq<u8>> {
    let n = looked_at(bodies, 0);
    if n > 0 {
        bodies[n - 1]
    } else {
        None
    }
}

/// The transaction id in a MsgHasTx, empty where there is none.
pub open spec fn asked_id(b: Seq<u8>, p: int) -> Seq<u8> {
    match cbor::bytes_at(b, p).value {
        Some(id) => id,
        None => Seq::empty(),
    }
}

/// What the message `b` leads to at the given tip, if the mempool gives these answers.
pub open spec fn monitor_step(b: Seq<u8>, tip_slot: u64, c: CursorView, a: Answers) -> (
    CursorView,
    message::Outcome,
) {
    match message::msg_tag(b) {
        message::MsgTag::Tag(tag, end) => if tag == 1 {
            (
                CursorView { snapshot: a.hashes, position: 0, acquired: true },
                monitor_reply(acquired_bytes(tip_slot)),
            )
        } else if tag == 3 {
            (released(), message::Outcome::Silent)
        } else if tag == 5 {
            (
                CursorView {
                    position: (c.position + looked_at(a.bodies, 0)) as usize,
                    ..c
                },
                monitor_reply(next_tx_bytes(first_body(a.bodies))),
            )
        } else if tag == 7 {
            (c, monitor_reply(has_tx_bytes(asked_id(b, end).len() == 32 && a.has)))
        } else if tag == 9 {
            (c, monitor_reply(sizes_bytes(a.capacity, a.total_bytes, a.len)))
        } else {
            (c, message::Outcome::Silent)
        },
        message::MsgTag::Invalid => (
            c,
            message::Outcome::ProtocolError("invalid tx monitor message"@),
        ),
        message::MsgTag::Bad(m) => (
            c,
            message::Outcome::ProtocolError("bad tx monitor msg tag: "@ + m),
        ),
    }
}

/// Whether the mempool may give these answers to the questions that the message `b`
/// leads to: about the hash in it, and about the transactions of the snapshot from the
/// position on, in their order.
pub open spec fn may_answer<M: MempoolProvider>(
    mempool: &M,
    b: Seq<u8>,
    c: CursorView,
    a: Answers,
) -> bool {
    match message::msg_tag(b) {
        message::MsgTag::Tag(tag, end) => {
            &&& tag == 1 ==> mempool.may_list(a.hashes)
            &&& tag == 5 ==> {
                &&& a.bodies.len() <= c.snapshot.len() - c.position || a.bodies.len() == 0
                &&& c.position < c.snapshot.len() && a.bodies.len() < c.snapshot.len()
                    - c.position ==> a.bodies.len() > 0 && a.bodies.last() is Some
                &&& forall|k: int|
                    0 <= k < a.bodies.len() ==> mempool.may_hold(
                        c.snapshot[c.position + k]@,
                        #[trigger] a.bodies[k],
                    )
            }
            &&& tag == 7 && asked_id(b, end).len() == 32 ==> mempool.may_contain(
                asked_id(b, end),
                a.has,
            )
            &&& tag == 9 ==> {
                &&& mempool.may_fit(a.capacity)
                &&& mempool.may_weigh(a.total_bytes)
                &&& mempool.may_count(a.len)
            }
        },
        _ => true,
    }
}

/// Whether the message `b` may lead from cursor `c` to `c2` and to `o`.
pub open spec fn may_lead<M: MempoolProvider>(
    mempool: &M,
    b: Seq<u8>,
    tip_slot: u64,
    c: CursorView,
    c2: CursorView,
    o: message::Outcome,
) -> bool {
    exists|a: Answers|
        {
            &&& (c2, o) == #[trigger] monitor_step(b, tip_slot, c, a)
            &&& may_answer(mempool, b, c, a)
        }
}

/// Whether MsgNextTx is answered with `tx`, moving the position of cursor `c` to `end`: it
/// is the transaction in front of the new position, or there is none up to the end of the
/// snapshot; those that were passed over are no longer there.
pub open spec fn walked<M: MempoolProvider>(
    mempool: &M,
    c: CursorView,
    end: int,
    tx: Option<Seq<u8>>,
) -> bool {
    let passed = if tx is Some {
        end - 1
    } else {
        end
    };
    &&& c.position <= passed
    &&& tx is Some ==> mempool.may_hold(c.snapshot[end - 1]@, tx)
    &&& tx is None ==> end == c.snapshot.len()
    &&& forall|k: int|
        c.position <= k < passed ==> mempool.may_hold(#[trigger] c.snapshot[k]@, None)
}

/// A client that asks for one transaction after another gets those of its snapshot that
/// are still there, each once and in the order of the snapshot.
pub proof fn lemma_next_tx_walks<M: MempoolProvider>(
    mempool: &M,
    b: Seq<u8>,
    tip_slot: u64,
    c: CursorView,
    c2: CursorView,
    o: message::Outcome,
)
    requires
        message::msg_tag(b) matches message::MsgTag::Tag(tag, _) && tag == 5,
        c.position <= c.snapshot.len() <= usize::MAX,
        may_lead(mempool, b, tip_slot, c, c2, o),
    ensures
        c2.snapshot == c.snapshot,
        c2.acquired == c.acquired,
        c.position <= c2.position <= c.snapshot.len(),
        exists|tx: Option<Seq<u8>>|
            o == monitor_reply(next_tx_bytes(tx)) && #[trigger] walked(
                mempool,
                c,
                c2.position as int,
                tx,
            ),
{
    let a = choose|a: Answers|
        {
            &&& (c2, o) == #[trigger] monitor_step(b, tip_slot, c, a)
            &&& may_answer(mempool, b, c, a)
        };
    let n = looked_at(a.bodies, 0);
    lemma_looked_at(a.bodies, 0);
    let tx = first_body(a.bodies);
    assert forall|k: int|
        c.position <= k < c.position + n && (tx is None || k < c.position + n - 1) implies
        mempool.may_hold(#[trigger] c.snapshot[k]@, None) by {
        assert(a.bodies[k - c.position] is None);
    }
    if n > 0 {
        assert(mempool.may_hold(c.snapshot[c.position + (n - 1)]@, a.bodies[n - 1]));
    }
    assert(walked(mempool, c, c2.position as int, tx));
}

proof fn lemma_looked_at(bodies: Seq<Option<Seq<u8>>>, k: int)
    requires
        0 <= k <= bodies.len(),
    ensures
        k <= looked_at(bodies, k) <= bodies.len(),
        forall|j: int| k <= j < looked_at(bodies, k) - 1 ==> #[trigger] bodies[j] is None,
        looked_at(bodies, k) < bodies.len() ==> looked_at(bodies, k) > k
            && bodies[looked_at(bodies, k) - 1] is Some,
    decreases bodies.len() - k,
{
    if k < bodies.len() && bodies[k] is None {
        lemma_looked_at(bodies, k + 1);
    }
}

spec fn no_answers() -> Answers {
    Answers {
        hashes: Seq::empty(),
        has: false,
        bodies: Seq::empty(),
        capacity: 0,
        total_bytes: 0,
        len: 0,
    }
}

/// MsgAcquired.
pub fn acquired_reply(tip_slot: u64) -> (r: Segment)
    ensures
        r@ == message::reply_view(MINI_PROTOCOL_TX_MONITOR, acquired_bytes(tip_slot)),
{
    let mut buf: Vec<u8> = Vec::new();
    put_array(&mut buf, 2);
    put_u32(&mut buf, 2);
    put_u64(&mut buf, tip_slot);
    assert(buf@ =~= acquired_bytes(tip_slot));
    reply(MINI_PROTOCOL_TX_MONITOR, buf)
}

/// MsgReplyHasTx.
pub fn has_tx_reply(has: bool) -> (r: Segment)
    ensures
        r@ == message::reply_view(MINI_PROTOCOL_TX_MONITOR, has_tx_bytes(has)),
{
    let mut buf: Vec<u8> = Vec::new();
    put_array(&mut buf, 2);
    put_u32(&mut buf, 8);
    put_bool(&mut buf, has);
    assert(buf@ =~= has_tx_bytes(has));
    reply(MINI_PROTOCOL_TX_MONITOR, buf)
}

/// MsgReplyNextTx.
pub fn next_tx_reply(tx: &Option<Vec<u8>>) -> (r: Segment)
    ensures
        r@ == message::reply_view(
            MINI_PROTOCOL_TX_MONITOR,
            next_tx_bytes(mempool::opt_bytes(*tx)),
        ),
{
    let mut buf: Vec<u8> = Vec::new();
    put_array(&mut buf, 2);
    put_u32(&mut buf, 6);
    match tx {
        Some(t) => {
            put_array(&mut buf, 2);
            put_u32(&mut buf, 6);
            put_bytes(&mut buf, t);
        },
        None => put_null(&mut buf),
    }
    assert(buf@ =~= next_tx_bytes(mempool::opt_bytes(*tx)));
    reply(MINI_PROTOCOL_TX_MONITOR, buf)
}

/// MsgReplyGetSizes.
pub fn sizes_reply(capacity: usize, total_bytes: usize, len: usize) -> (r: Segment)
    ensures
        r@ == message::reply_view(
            MINI_PROTOCOL_TX_MONITOR,
            sizes_bytes(capacity, total_bytes, len),
        ),
{
    let mut buf: Vec<u8> = Vec::new();
    put_array(&mut buf, 2);
    put_u32(&mut buf, 10);
    put_array(&mut buf, 3);
    put_u64(&mut buf, capacity as u64);
    put_u64(&mut buf, total_bytes as u64);
    put_u64(&mut buf, len as u64);
    assert(buf@ =~= sizes_bytes(capacity, total_bytes, len));
    reply(MINI_PROTOCOL_TX_MONITOR, buf)
}

proof fn lemma_looked_at_none(bodies: Seq<Option<Seq<u8>>>, k: int)
    requires
        0 <= k <= bodies.len(),
        forall|j: int| k <= j < bodies.len() ==> #[trigger] bodies[j] is None,
    ensures
        looked_at(bodies, k) == bodies.len(),
    decreases bodies.len() - k,
{
    if k < bodies.len() {
        lemma_looked_at_none(bodies, k + 1);
    }
}

proof fn lemma_looked_at_last(bodies: Seq<Option<Seq<u8>>>, k: int)
    requires
        0 <= k < bodies.len(),
        forall|j: int| k <= j < bodies.len() - 1 ==> #[trigger] bodies[j] is None,
    ensures
        looked_at(bodies, k) == bodies.len(),
    decreases bodies.len() - k,
{
    if bodies[k] is None {
        if k + 1 < bodies.len() {
            lemma_looked_at_last(bodies, k + 1);
        }
    }
}

/// Finds the next transaction of the snapshot that is still in the mempool, and moves
/// the position past it.
fn next_tx<M: MempoolProvider>(mempool: &M, cursor: &mut TxMonitorCursor) -> (r: (
    Option<Vec<u8>>,
    Ghost<Seq<Option<Seq<u8>>>>,
))
    ensures
        ({
            let bodies = r.1@;
            &&& mempool::opt_bytes(r.0) == first_body(bodies)
            &&& final(cursor)@ == CursorView {
                position: (old(cursor).position + looked_at(bodies, 0)) as usize,
                ..old(cursor)@
            }
            &&& bodies.len() <= old(cursor).snapshot@.len() - old(cursor).position || bodies.len()
                == 0
            &&& old(cursor).position < old(cursor).snapshot@.len() && bodies.len() < old(
                cursor,
            ).snapshot@.len() - old(cursor).position ==> bodies.len() > 0 && bodies.last() is Some
            &&& forall|k: int|
                0 <= k < bodies.len() ==> mempool.may_hold(
                    old(cursor).snapshot@[old(cursor).position + k]@,
                    #[trigger] bodies[k],
                )
        }),
{
    let ghost start = cursor.position as int;
    let ghost mut bodies: Seq<Option<Seq<u8>>> = Seq::empty();
    while cursor.position < cursor.snapshot.len()
        invariant
            start <= cursor.position,
            cursor.position <= cursor.snapshot@.len() || cursor.position == start,
            bodies.len() == cursor.position - start,
            cursor.snapshot@ == old(cursor).snapshot@,
            cursor.acquired == old(cursor).acquired,
            start == old(cursor).position,
            forall|k: int| 0 <= k < bodies.len() ==> #[trigger] bodies[k] is None,
            forall|k: int|
                0 <= k < bodies.len() ==> mempool.may_hold(
                    cursor.snapshot@[start + k]@,
                    #[trigger] bodies[k],
                ),
        decreases cursor.snapshot@.len() - cursor.position,
    {
        let hash: [u8; 32] = cursor.snapshot[cursor.position];
        cursor.position = cursor.position + 1;
        let tx = mempool.get_tx_cbor(&hash);
        proof {
            bodies = bodies.push(mempool::opt_bytes(tx));
        }
        if tx.is_some() {
            proof {
                lemma_looked_at_last(bodies, 0);
            }
            return (tx, Ghost(bodies));
        }
    }
    proof {
        lemma_looked_at_none(bodies, 0);
    }
    (None, Ghost(bodies))
}

/// Answers a message of LocalTxMonitor. `tip_slot` is the slot of the ledger's tip.
pub fn handle_tx_monitor<M: MempoolProvider>(
    payload: &[u8],
    mempool: &M,
    tip_slot: u64,
    cursor: &mut TxMonitorCursor,
) -> (r: Result<Option<Segment>, N2CServerError>)
    ensures
        may_lead(
            mempool,
            payload@,
            tip_slot,
            old(cursor)@,
            final(cursor)@,
            message::outcome(r),
        ),
{
    let mut pos: usize = 0;
    let tag: u32 = match read_msg_tag(
        payload,
        &mut pos,
        "invalid tx monitor message",
        "bad tx monitor msg tag: ",
    ) {
        Ok(tag) => tag,
        Err(e) => {
            assert((cursor@, message::failure(e)) == monitor_step(
                payload@,
                tip_slot,
                old(cursor)@,
                no_answers(),
            ));
            return Err(e);
        },
    };
    let ghost mut a = no_answers();
    let r: Option<Segment> = if tag == 1 {
        let hashes = mempool.tx_hashes_ordered();
        proof {
            a = Answers { hashes: hashes@, ..a };
        }
        cursor.snapshot = hashes;
        cursor.position = 0;
        cursor.acquired = true;
        Some(acquired_reply(tip_slot))
    } else if tag == 3 {
        cursor.snapshot = Vec::new();
        cursor.position = 0;
        cursor.acquired = false;
        assert(cursor@.snapshot =~= Seq::empty());
        None
    } else if tag == 5 {
        let (tx, Ghost(bodies)) = next_tx(mempool, cursor);
        proof {
            a = Answers { bodies, ..a };
        }
        Some(next_tx_reply(&tx))
    } else if tag == 7 {
        let mut has: bool = false;
        if let Ok(id) = get_bytes(payload, &mut pos) {
            if id.len() == 32 {
                has = mempool.contains(&to_hash(id));
            }
        }
        proof {
            a = Answers { has, ..a };
        }
        Some(has_tx_reply(has))
    } else if tag == 9 {
        let len: usize = mempool.len();
        let total_bytes: usize = mempool.total_bytes();
        let capacity: usize = mempool.capacity();
        proof {
            a = Answers { capacity, total_bytes, len, ..a };
        }
        Some(sizes_reply(capacity, total_bytes, len))
    } else {
        None
    };
    let r: Result<Option<Segment>, N2CServerError> = Ok(r);
    assert((cursor@, message::outcome(r)) == monitor_step(payload@, tip_slot, old(cursor)@, a));
    r
}

/// The replies of the monitor are read as they are meant: the slot of the snapshot, whether a
/// transaction is there, the next transaction as one of the era with index 6, and the three
/// sizes: what fits, the bytes, and the number of transactions.
pub proof fn lemma_replies_are_read(
    slot: u64,
    has: bool,
    tx: Seq<u8>,
    capacity: usize,
    bytes: usize,
    txs: usize,
)
    requires
        tx.len() <= u64::MAX,
    ensures
        words::spells(
            acquired_bytes(slot),
            words::arr(2) + words::num(2) + words::num(slot as nat),
        ),
        words::spells(has_tx_bytes(has), words::arr(2) + words::num(8) + words::truth(has)),
        words::spells(
            next_tx_bytes(Some(tx)),
            words::arr(2) + words::num(6) + (words::arr(2) + words::num(6) + words::bin(tx)),
        ),
        words::spells(next_tx_bytes(None), words::arr(2) + words::num(6) + words::null()),
        words::spells(
            sizes_bytes(capacity, bytes, txs),
            words::arr(2) + words::num(10) + (words::arr(3) + words::num(capacity as nat)
                + words::num(bytes as nat) + words::num(txs as nat)),
        ),
{
    broadcast use words::group_words;

}

/// Acquiring takes a snapshot of what the mempool lists and starts at its front; releasing
/// drops it; asking for the sizes or for an unknown tag changes nothing.
pub proof fn lemma_bare_messages<M: MempoolProvider>(
    mempool: &M,
    b: Seq<u8>,
    tag: nat,
    tip_slot: u64,
    c: CursorView,
    c2: CursorView,
    o: message::Outcome,
)
    requires
        words::spells(b, words::arr(1) + words::num(tag)),
        tag <= u32::MAX,
        may_lead(mempool, b, tip_slot, c, c2, o),
    ensures
        tag == 1 ==> {
            &&& c2.acquired && c2.position == 0 && mempool.may_list(c2.snapshot)
            &&& o matches message::Outcome::Reply(g) && g.protocol_id == 9 && words::spells(
                g.payload,
                words::arr(2) + words::num(2) + words::num(tip_slot as nat),
            )
        },
        tag == 3 ==> !c2.acquired && c2.position == 0 && c2.snapshot.len() == 0 && o
            == message::Outcome::Silent,
        tag == 9 ==> c2 == c && (o matches message::Outcome::Reply(g) && g.protocol_id == 9 && exists|
            capacity: usize,
            bytes: usize,
            txs: usize,
        |
            #![trigger mempool.may_fit(capacity), mempool.may_weigh(bytes), mempool.may_count(txs)]
            {
                &&& mempool.may_fit(capacity) && mempool.may_weigh(bytes) && mempool.may_count(txs)
                &&& words::spells(
                    g.payload,
                    words::arr(2) + words::num(10) + (words::arr(3) + words::num(capacity as nat)
                        + words::num(bytes as nat) + words::num(txs as nat)),
                )
            }),
        tag == 0 || tag == 2 || tag == 4 || tag == 6 || tag == 8 || tag > 9 ==> c2 == c && o
            == message::Outcome::Silent,
{
    message::lemma_bare_tag_is_read(b, tag);
    let a = choose|a: Answers|
        {
            &&& (c2, o) == #[trigger] monitor_step(b, tip_slot, c, a)
            &&& may_answer(mempool, b, c, a)
        };
    lemma_replies_are_read(tip_slot, true, Seq::empty(), a.capacity, a.total_bytes, a.len);
    if tag == 9 {
        assert(mempool.may_fit(a.capacity) && mempool.may_weigh(a.total_bytes)
            && mempool.may_count(a.len));
    }
}

/// Whoever asks for a transaction is told whether the mempool has it; an id that is not of 32
/// bytes is of none.
pub proof fn lemma_has_tx<M: MempoolProvider>(
    mempool: &M,
    b: Seq<u8>,
    id: Seq<u8>,
    tip_slot: u64,
    c: CursorView,
    c2: CursorView,
    o: message::Outcome,
)
    requires
        words::spells(b, words::arr(2) + words::num(7) + words::bin(id)),
        may_lead(mempool, b, tip_slot, c, c2, o),
    ensures
        c2 == c,
        o matches message::Outcome::Reply(g) && g.protocol_id == 9 && exists|has: bool|
            {
                &&& if id.len() == 32 {
                    mempool.may_contain(id, has)
                } else {
                    has == false
                }
                &&& g.payload == #[trigger] has_tx_bytes(has)
            },
{
    reveal(words::spells);
    let q = b.len() as int;
    let m = words::lemma_reads_split(b, 0, words::arr(2) + words::num(7), words::bin(id), q);
    message::lemma_tag_is_read(b, 2, 7, m);
    words::lemma_bytes_at(b, m, id, q);
    let a = choose|a: Answers|
        {
            &&& (c2, o) == #[trigger] monitor_step(b, tip_slot, c, a)
            &&& may_answer(mempool, b, c, a)
        };
    assert(asked_id(b, m) == id);
    assert(o == monitor_reply(has_tx_bytes(id.len() == 32 && a.has)));
}

} // verus!
