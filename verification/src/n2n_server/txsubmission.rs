//! TxSubmission2: peers tell each other which transactions they have, and hand over
//! those that the other lacks.
//!
//! | Tag | Message         | Contents                        |
//! |-----|-----------------|---------------------------------|
//! |   0 | MsgRequestTxIds | `[0, blocking, ack, request]`   |
//! |   1 | MsgReplyTxIds   | `[1, [[id, size], ..]]`         |
//! |   2 | MsgRequestTxs   | `[2, [id, ..]]`                 |
//! |   3 | MsgReplyTxs     | `[3, [tx, ..]]`                 |
//! |   4 | MsgDone         | `[4]`                           |
//! |   6 | MsgInit         | `[6]`                           |
use crate::cbor;
use crate::cbor::{
    get_array, get_bool, get_bytes, get_u16, get_u32, put_array, put_bytes, put_u32,
};
use crate::hash::{same_hash, to_hash};
use crate::mempool;
use crate::mempool::{AddTxOutcome, MempoolProvider};
use crate::multiplexer::Segment;
use crate::n2n_server::message;
use crate::n2n_server::message::{read_msg_tag, reply, request_tx_ids};
use crate::n2n_server::{N2NServerError, PeerState, PeerStateView, MINI_PROTOCOL_TXSUBMISSION};
use crate::words;
use vstd::prelude::*;

verus! {

/// Most transactions of which a peer may have been told without acknowledging them.
pub const MAX_TX_INFLIGHT: usize = 1000;

/// Most transactions of which a peer is told at once.
pub const MAX_TX_IDS_PER_REQUEST: usize = 100;

/// Most transactions that are handed over at once.
pub const MAX_TX_BODY_REQUEST: u64 = 1000;

/// Hashes by their contents.
pub open spec fn hash_views(s: Seq<[u8; 32]>) -> Seq<Seq<u8>> {
    s.map_values(|h: [u8; 32]| h@)
}

// ---------------------------------------------------------------------------
// MsgRequestTxIds
// ---------------------------------------------------------------------------

/// What stays in flight when a peer acknowledges `ack` transactions: the oldest ones
/// leave, or all where there are fewer.
pub open spec fn acknowledged(inflight: Seq<[u8; 32]>, ack: nat) -> Seq<[u8; 32]> {
    if ack <= inflight.len() {
        inflight.skip(ack as int)
    } else {
        Seq::empty()
    }
}

/// The first `n` of `hashes` that are not in flight.
pub open spec fn fresh(hashes: Seq<[u8; 32]>, inflight: Seq<[u8; 32]>, n: nat) -> Seq<[u8; 32]>
    decreases hashes.len(),
{
    if hashes.len() == 0 {
        Seq::empty()
    } else {
        let before = fresh(hashes.drop_last(), inflight, n);
        if before.len() < n && !inflight.contains(hashes.last()) {
            before.push(hashes.last())
        } else {
            before
        }
    }
}

/// The hashes that have a size, each with it.
pub open spec fn sized(hashes: Seq<[u8; 32]>, sizes: Seq<Option<usize>>) -> Seq<([u8; 32], usize)>
    decreases hashes.len(),
{
    if hashes.len() == 0 {
        Seq::empty()
    } else {
        let before = sized(hashes.drop_last(), sizes.drop_last());
        match sizes.last() {
            Some(n) => before.push((hashes.last(), n)),
            None => before,
        }
    }
}

/// A transaction of which a peer is told: `[id, size]`, the size cut to 32 bits.
pub open spec fn tx_id_bytes(t: ([u8; 32], usize)) -> Seq<u8> {
    cbor::array_head(2) + cbor::bytes_item(t.0@) + cbor::uint((t.1 as nat) % 0x1_0000_0000)
}

/// MsgReplyTxIds.
pub open spec fn reply_tx_ids_bytes(txs: Seq<([u8; 32], usize)>) -> Seq<u8> {
    cbor::array_head(2) + cbor::uint(1) + cbor::array_of(
        txs,
        |t: ([u8; 32], usize)| tx_id_bytes(t),
    )
}

/// The number at `p`, 0 where there is none.
pub open spec fn count_at(b: Seq<u8>, p: int) -> cbor::Read<nat> {
    let r = cbor::uint_at(b, p, u16::MAX as nat);
    cbor::Read {
        value: Some(
            match r.value {
                Some(n) => n,
                None => 0,
            },
        ),
        end: r.end,
    }
}

/// How many transactions are acknowledged, and how many are asked for, by the request
/// whose contents start at `p`.
pub open spec fn request_at(b: Seq<u8>, p: int) -> (nat, nat) {
    let blocking = cbor::bool_at(b, p);
    let ack = count_at(b, blocking.end);
    let req = count_at(b, ack.end);
    (ack.value->0, req.value->0)
}

/// Of how many transactions a peer is told that asks for `req`, where `inflight` are in
/// flight.
pub open spec fn allowance(req: nat, inflight: nat) -> nat {
    let capped = if req < MAX_TX_IDS_PER_REQUEST {
        req
    } else {
        MAX_TX_IDS_PER_REQUEST as nat
    };
    if inflight >= MAX_TX_INFLIGHT {
        0
    } else if capped < MAX_TX_INFLIGHT - inflight {
        capped
    } else {
        (MAX_TX_INFLIGHT - inflight) as nat
    }
}

/// The transactions of which a peer is told, where `hashes` are in the mempool, `kept`
/// stay in flight, `req` are asked for, and `sizes` are those of the fresh ones.
pub open spec fn told(
    hashes: Seq<[u8; 32]>,
    kept: Seq<[u8; 32]>,
    req: nat,
    sizes: Seq<Option<usize>>,
) -> Seq<([u8; 32], usize)> {
    sized(fresh(hashes, kept, allowance(req, kept.len())), sizes)
}

// ---------------------------------------------------------------------------
// MsgReplyTxIds
// ---------------------------------------------------------------------------

/// Transactions of which a peer tells, or what is wrong with the message.
pub enum Ids {
    Entries(Seq<Seq<u8>>),
    Broken(Seq<char>),
}

/// The ids of the `n` entries `[id, size]` from `p` on.
pub open spec fn ids_from(b: Seq<u8>, p: int, n: nat) -> Ids
    decreases n,
{
    let a = cbor::len_at(b, p, 4);
    let id = cbor::bytes_at(b, a.end);
    let size = cbor::uint_at(b, id.end, u32::MAX as nat);
    if n == 0 {
        Ids::Entries(Seq::empty())
    } else if a.value is None {
        Ids::Broken(cbor::array_error_text(b, p))
    } else if id.value is None {
        Ids::Broken(cbor::bytes_error_text(b, a.end))
    } else {
        match ids_from(b, size.end, (n - 1) as nat) {
            Ids::Entries(rest) => Ids::Entries(seq![id.value->0] + rest),
            broken => broken,
        }
    }
}

/// The number of items of the array at `p`, 0 where it is indefinite, and where they
/// start; `None` where there is no array.
pub open spec fn items_at(b: Seq<u8>, p: int) -> Option<(nat, int)> {
    let a = cbor::len_at(b, p, 4);
    match a.value {
        Some(Some(n)) => Some((n, a.end)),
        Some(None) => Some((0nat, a.end)),
        None => None,
    }
}

/// The hashes among `ids` that are not known.
pub open spec fn unknown(ids: Seq<Seq<u8>>, known: Seq<bool>) -> Seq<Seq<u8>>
    decreases ids.len(),
{
    if ids.len() == 0 {
        Seq::empty()
    } else {
        let before = unknown(ids.drop_last(), known.drop_last());
        if ids.last().len() == 32 && !known.last() {
            before.push(ids.last())
        } else {
            before
        }
    }
}

/// MsgRequestTxs.
pub open spec fn request_txs_bytes(ids: Seq<Seq<u8>>) -> Seq<u8> {
    cbor::array_head(2) + cbor::uint(2) + cbor::array_of(ids, |h: Seq<u8>| cbor::bytes_item(h))
}

/// The count of unacknowledged transactions with `n` more. It is kept in 16 bits.
pub open spec fn counted(unacked: u16, n: nat) -> u16 {
    ((unacked + n) % 0x1_0000) as u16
}

// ---------------------------------------------------------------------------
// MsgRequestTxs
// ---------------------------------------------------------------------------

/// The `n` byte strings from `p` on, `None` for what is none.
pub open spec fn wanted_from(b: Seq<u8>, p: int, n: nat) -> Seq<Option<Seq<u8>>>
    decreases n,
{
    if n == 0 {
        Seq::empty()
    } else {
        let id = cbor::bytes_at(b, p);
        seq![id.value] + wanted_from(b, id.end, (n - 1) as nat)
    }
}

/// What a mempool has of a transaction: its bytes, and those that it was decoded from.
pub struct Body {
    pub cbor: Option<Seq<u8>>,
    pub raw: Option<Seq<u8>>,
}

/// The bytes of a transaction.
pub open spec fn body_bytes(x: Body) -> Option<Seq<u8>> {
    match x.cbor {
        Some(c) => Some(c),
        None => x.raw,
    }
}

/// The bodies that are there.
pub open spec fn bodies(s: Seq<Body>) -> Seq<Seq<u8>>
    decreases s.len(),
{
    if s.len() == 0 {
        Seq::empty()
    } else {
        let before = bodies(s.drop_last());
        match body_bytes(s.last()) {
            Some(x) => before.push(x),
            None => before,
        }
    }
}

/// MsgReplyTxs.
pub open spec fn reply_txs_bytes(txs: Seq<Seq<u8>>) -> Seq<u8> {
    cbor::array_head(2) + cbor::uint(3) + cbor::array_of(txs, |t: Seq<u8>| cbor::bytes_item(t))
}

/// The number of transactions that are handed over at most, where `n` are asked for.
pub open spec fn capped(n: nat) -> nat {
    if n < MAX_TX_BODY_REQUEST {
        n
    } else {
        MAX_TX_BODY_REQUEST as nat
    }
}

// ---------------------------------------------------------------------------
// MsgReplyTxs
// ---------------------------------------------------------------------------

/// At most `n` byte strings from `p` on, up to what is none.
pub open spec fn received_from(b: Seq<u8>, p: int, n: nat) -> Seq<Seq<u8>>
    decreases n,
{
    let x = cbor::bytes_at(b, p);
    if n == 0 || x.value is None {
        Seq::empty()
    } else {
        seq![x.value->0] + received_from(b, x.end, (n - 1) as nat)
    }
}

/// The transactions that a peer hands over: no more than were requested.
pub open spec fn received(b: Seq<u8>, p: int, requested: nat) -> Seq<Seq<u8>> {
    match items_at(b, p) {
        Some((n, start)) => received_from(
            b,
            start,
            if n < requested {
                n
            } else {
                requested
            },
        ),
        None => Seq::empty(),
    }
}

/// Whether a transaction may have been handed to the mempool as `tries` says: as one of
/// era 6, and of each era before down to 2, until it decodes.
pub open spec fn may_try<M: MempoolProvider>(
    mempool: &M,
    hash: Seq<u8>,
    tx: Seq<u8>,
    tries: Seq<AddTxOutcome>,
) -> bool {
    &&& 0 < tries.len() <= 5
    &&& forall|j: int|
        0 <= j < tries.len() ==> mempool.may_add_with_fee(
            hash,
            (6 - j) as u16,
            tx,
            #[trigger] tries[j],
        )
    &&& forall|j: int| 0 <= j < tries.len() - 1 ==> (#[trigger] tries[j]) is Undecodable
    &&& tries.len() == 5 || !(tries.last() is Undecodable)
}

// ---------------------------------------------------------------------------
// Steps
// ---------------------------------------------------------------------------

/// What a mempool may answer to the questions that a message leads to.
pub struct Answers {
    /// The transactions that are there, and the sizes of the fresh ones.
    pub hashes: Seq<[u8; 32]>,
    pub sizes: Seq<Option<usize>>,
    /// For each transaction of which the peer tells, whether it is there.
    pub known: Seq<bool>,
    /// For each transaction that the peer asks for, what there is of it.
    pub bodies: Seq<Body>,
    /// For each transaction that the peer hands over, what became of it.
    pub tries: Seq<Seq<AddTxOutcome>>,
}

/// What MsgRequestTxIds leads to.
pub open spec fn request_ids_step(b: Seq<u8>, p: int, s: PeerStateView, a: Answers) -> (
    PeerStateView,
    message::Outcome,
) {
    let (ack, req) = request_at(b, p);
    let kept = acknowledged(s.tx_inflight, ack);
    let txs = told(a.hashes, kept, req, a.sizes);
    if kept.len() >= MAX_TX_INFLIGHT {
        (
            PeerStateView { tx_inflight: kept, ..s },
            message::replied(MINI_PROTOCOL_TXSUBMISSION, reply_tx_ids_bytes(Seq::empty())),
        )
    } else {
        (
            PeerStateView {
                tx_inflight: kept + txs.map_values(|t: ([u8; 32], usize)| t.0),
                ..s
            },
            message::replied(MINI_PROTOCOL_TXSUBMISSION, reply_tx_ids_bytes(txs)),
        )
    }
}

/// Whether MsgReplyTxIds may lead from state `s` to `s2` and to `o`.
pub open spec fn reply_ids_step(
    b: Seq<u8>,
    p: int,
    s: PeerStateView,
    s2: PeerStateView,
    a: Answers,
    o: message::Outcome,
) -> bool {
    match items_at(b, p) {
        Some((n, start)) => match ids_from(b, start, n) {
            Ids::Entries(ids) => {
                let new = unknown(ids, a.known);
                let unacked = counted(s.tx_peer_unacked, n);
                if new.len() == 0 {
                    &&& s2 == (PeerStateView { tx_peer_unacked: 0, ..s })
                    &&& o == message::replied(
                        MINI_PROTOCOL_TXSUBMISSION,
                        message::request_tx_ids_bytes(unacked),
                    )
                } else {
                    &&& hash_views(s2.tx_requested_from_peer) == new
                    &&& s2 == (PeerStateView {
                        tx_peer_unacked: unacked,
                        tx_requested_from_peer: s2.tx_requested_from_peer,
                        ..s
                    })
                    &&& o == message::replied(MINI_PROTOCOL_TXSUBMISSION, request_txs_bytes(new))
                }
            },
            Ids::Broken(m) => {
                &&& s2 == s
                &&& o == message::Outcome::Failed(message::ErrorView::Protocol(m))
            },
        },
        None => {
            &&& s2 == s
            &&& o == message::Outcome::Failed(
                message::ErrorView::Protocol(cbor::array_error_text(b, p)),
            )
        },
    }
}

/// What MsgRequestTxs leads to.
pub open spec fn request_txs_outcome(b: Seq<u8>, p: int, a: Answers) -> message::Outcome {
    match items_at(b, p) {
        Some(_) => message::replied(MINI_PROTOCOL_TXSUBMISSION, reply_txs_bytes(bodies(a.bodies))),
        None => message::Outcome::Failed(
            message::ErrorView::Protocol(cbor::array_error_text(b, p)),
        ),
    }
}

/// What MsgReplyTxs leads to.
pub open spec fn reply_txs_step(b: Seq<u8>, p: int, s: PeerStateView) -> (
    PeerStateView,
    message::Outcome,
) {
    match items_at(b, p) {
        Some(_) => (
            PeerStateView { tx_requested_from_peer: Seq::empty(), tx_peer_unacked: 0, ..s },
            message::replied(
                MINI_PROTOCOL_TXSUBMISSION,
                message::request_tx_ids_bytes(s.tx_peer_unacked),
            ),
        ),
        None => (
            s,
            message::Outcome::Failed(message::ErrorView::Protocol(cbor::array_error_text(b, p))),
        ),
    }
}

/// Whether the message `b` may lead from state `s` to `s2` and to `o`, if the mempool
/// gives the answers `a`.
pub open spec fn tx_step(
    b: Seq<u8>,
    s: PeerStateView,
    s2: PeerStateView,
    a: Answers,
    o: message::Outcome,
) -> bool {
    match message::msg_tag(b) {
        message::MsgTag::Tag(tag, end) => if tag == 6 {
            &&& s2 == (PeerStateView { tx_submission_init_sent: true, ..s })
            &&& o == message::replied(
                MINI_PROTOCOL_TXSUBMISSION,
                message::request_tx_ids_bytes(0),
            )
        } else if tag == 0 {
            (s2, o) == request_ids_step(b, end, s, a)
        } else if tag == 1 {
            reply_ids_step(b, end, s, s2, a, o)
        } else if tag == 2 {
            s2 == s && o == request_txs_outcome(b, end, a)
        } else if tag == 3 {
            (s2, o) == reply_txs_step(b, end, s)
        } else {
            s2 == s && o == message::silent()
        },
        message::MsgTag::Broken(m) => {
            &&& s2 == s
            &&& o == message::Outcome::Failed(message::ErrorView::Protocol(m))
        },
    }
}

/// Whether the mempool may list `hashes` and give `sizes` for the fresh ones. Without a
/// mempool there are none.
pub open spec fn may_tell<M: MempoolProvider>(
    mempool: Option<&M>,
    kept: Seq<[u8; 32]>,
    req: nat,
    hashes: Seq<[u8; 32]>,
    sizes: Seq<Option<usize>>,
) -> bool {
    let candidates = fresh(hashes, kept, allowance(req, kept.len()));
    match mempool {
        Some(m) => {
            &&& m.may_list(hashes)
            &&& sizes.len() == candidates.len()
            &&& forall|k: int|
                0 <= k < sizes.len() ==> m.may_measure(candidates[k]@, #[trigger] sizes[k])
        },
        None => hashes.len() == 0 && sizes.len() == 0,
    }
}

/// Whether the mempool may know those of `ids` that `known` says. Without a mempool none
/// is known.
pub open spec fn may_know<M: MempoolProvider>(
    mempool: Option<&M>,
    ids: Seq<Seq<u8>>,
    known: Seq<bool>,
) -> bool {
    &&& known.len() == ids.len()
    &&& forall|k: int|
        #![trigger known[k]]
        0 <= k < known.len() ==> match mempool {
            Some(m) => ids[k].len() == 32 ==> m.may_contain(ids[k], known[k]),
            None => !known[k],
        }
}

/// Whether the mempool may have `found` of the transactions that are asked for. Without
/// a mempool it has nothing.
pub open spec fn may_find<M: MempoolProvider>(
    mempool: Option<&M>,
    wanted: Seq<Option<Seq<u8>>>,
    found: Seq<Body>,
) -> bool {
    match mempool {
        Some(m) => {
            &&& found.len() == wanted.len()
            &&& forall|k: int|
                #![trigger found[k]]
                0 <= k < found.len() ==> match wanted[k] {
                    Some(h) if h.len() == 32 => {
                        &&& m.may_hold(h, found[k].cbor)
                        &&& found[k].cbor is None ==> m.may_keep(h, found[k].raw)
                    },
                    _ => body_bytes(found[k]) is None,
                }
        },
        None => found.len() == 0,
    }
}

/// Whether the transactions that a peer hands over may have been handed to the mempool
/// as `tries` says, each under the hash under which it was requested.
pub open spec fn may_take<M: MempoolProvider>(
    mempool: Option<&M>,
    requested: Seq<[u8; 32]>,
    txs: Seq<Seq<u8>>,
    tries: Seq<Seq<AddTxOutcome>>,
) -> bool {
    match mempool {
        Some(m) => {
            &&& tries.len() == txs.len()
            &&& forall|k: int|
                0 <= k < tries.len() ==> may_try(m, requested[k]@, txs[k], #[trigger] tries[k])
        },
        None => true,
    }
}

/// Whether the mempool may give these answers to the questions that the message `b`
/// leads to.
pub open spec fn may_answer<M: MempoolProvider>(
    mempool: Option<&M>,
    b: Seq<u8>,
    s: PeerStateView,
    a: Answers,
) -> bool {
    match message::msg_tag(b) {
        message::MsgTag::Tag(tag, end) => {
            &&& tag == 0 ==> {
                let (ack, req) = request_at(b, end);
                let kept = acknowledged(s.tx_inflight, ack);
                kept.len() < MAX_TX_INFLIGHT ==> may_tell(mempool, kept, req, a.hashes, a.sizes)
            }
            &&& tag == 1 && items_at(b, end) is Some ==> {
                let (n, start) = items_at(b, end)->0;
                ids_from(b, start, n) matches Ids::Entries(ids) ==> may_know(
                    mempool,
                    ids,
                    a.known,
                )
            }
            &&& tag == 2 && items_at(b, end) is Some ==> {
                let (n, start) = items_at(b, end)->0;
                may_find(mempool, wanted_from(b, start, capped(n)), a.bodies)
            }
            &&& tag == 3 && items_at(b, end) is Some ==> may_take(
                mempool,
                s.tx_requested_from_peer,
                received(b, end, s.tx_requested_from_peer.len()),
                a.tries,
            )
        },
        _ => true,
    }
}

/// Whether the mempool may say that a transaction does not decode in an era.
pub open spec fn may_not_decode<M: MempoolProvider>(
    mempool: &M,
    hash: Seq<u8>,
    era_id: u16,
    tx: Seq<u8>,
) -> bool {
    exists|m: String| #[trigger]
        mempool.may_add_with_fee(hash, era_id, tx, AddTxOutcome::Undecodable(m))
}

/// Whether the mempool may be given a transaction under `hash`: as one of era 6, and of
/// each era before down to 2 where it may not decode in any later one.
pub open spec fn may_give<M: MempoolProvider>(mempool: &M, hash: Seq<u8>, tx: Seq<u8>) -> bool {
    forall|era_id: u16|
        2 <= era_id <= 6 && (forall|later: u16|
            era_id < later <= 6 ==> #[trigger] may_not_decode(mempool, hash, later, tx))
            ==> #[trigger] mempool.may_be_given(hash, era_id, tx)
}

/// Whether the mempool may be given each transaction under the hash in the same place.
pub open spec fn may_give_all<M: MempoolProvider>(
    mempool: &M,
    requested: Seq<[u8; 32]>,
    txs: Seq<Seq<u8>>,
) -> bool {
    forall|k: int| 0 <= k < txs.len() ==> may_give(mempool, requested[k]@, #[trigger] txs[k])
}

/// Whether the mempool may be given the transactions that the message `b` hands over, each
/// under the hash under which it was requested. Nothing else may be given to it on account
/// of the message.
pub open spec fn admits<M: MempoolProvider>(
    mempool: Option<&M>,
    b: Seq<u8>,
    s: PeerStateView,
) -> bool {
    match (mempool, message::msg_tag(b)) {
        (Some(m), message::MsgTag::Tag(tag, end)) if tag == 3 => may_give_all(
            m,
            s.tx_requested_from_peer,
            received(b, end, s.tx_requested_from_peer.len()),
        ),
        _ => true,
    }
}

/// Whether the message `b` may lead from state `s` to `s2` and to `o`.
pub open spec fn may_lead<M: MempoolProvider>(
    mempool: Option<&M>,
    b: Seq<u8>,
    s: PeerStateView,
    s2: PeerStateView,
    o: message::Outcome,
) -> bool {
    exists|a: Answers| #[trigger] may_answer(mempool, b, s, a) && tx_step(b, s, s2, a, o)
}

// ---------------------------------------------------------------------------
// Handlers
// ---------------------------------------------------------------------------

/// Whether `h` is among `v`.
fn holds(v: &Vec<[u8; 32]>, h: &[u8; 32]) -> (r: bool)
    ensures
        r == v@.contains(*h),
{
    let mut i: usize = 0;
    while i < v.len()
        invariant
            i <= v.len(),
            forall|j: int| 0 <= j < i ==> v@[j] != *h,
        decreases v.len() - i,
    {
        if same_hash(&v[i], h) {
            assert(v@[i as int] == *h);
            return true;
        }
        i += 1;
    }
    false
}

/// Takes the acknowledged transactions out of those in flight.
pub fn acknowledge(inflight: &mut Vec<[u8; 32]>, ack: usize)
    ensures
        final(inflight)@ == acknowledged(old(inflight)@, ack as nat),
{
    if ack <= inflight.len() {
        let kept = inflight.split_off(ack);
        *inflight = kept;
        assert(inflight@ =~= old(inflight)@.skip(ack as int));
    } else {
        inflight.clear();
    }
}

/// MsgReplyTxIds.
pub fn reply_tx_ids(txs: &Vec<([u8; 32], usize)>) -> (r: Segment)
    ensures
        r@ == message::reply_view(MINI_PROTOCOL_TXSUBMISSION, reply_tx_ids_bytes(txs@)),
{
    let mut buf: Vec<u8> = Vec::new();
    let ghost f = |t: ([u8; 32], usize)| tx_id_bytes(t);
    put_array(&mut buf, 2);
    put_u32(&mut buf, 1);
    put_array(&mut buf, txs.len() as u64);
    let ghost pre = buf@;
    let mut i: usize = 0;
    assert(pre + cbor::concat_map(txs@.take(0), f) =~= pre);
    while i < txs.len()
        invariant
            i <= txs.len(),
            f == (|t: ([u8; 32], usize)| tx_id_bytes(t)),
            buf@ == pre + cbor::concat_map(txs@.take(i as int), f),
        decreases txs.len() - i,
    {
        let ghost so_far = buf@;
        let size: usize = txs[i].1;
        put_array(&mut buf, 2);
        put_bytes(&mut buf, txs[i].0.as_slice());
        let cut: u64 = (size as u64) % 0x1_0000_0000;
        put_u32(&mut buf, cut as u32);
        proof {
            assert(buf@ =~= so_far + tx_id_bytes(txs@[i as int]));
            cbor::lemma_concat_map_step(txs@, f, i as int);
            cbor::lemma_append_assoc(
                pre,
                cbor::concat_map(txs@.take(i as int), f),
                tx_id_bytes(txs@[i as int]),
            );
        }
        i += 1;
    }
    assert(txs@.take(i as int) =~= txs@);
    assert(buf@ =~= reply_tx_ids_bytes(txs@));
    reply(MINI_PROTOCOL_TXSUBMISSION, buf)
}

proof fn lemma_hash_list(s: Seq<[u8; 32]>)
    ensures
        cbor::concat_map(s, |h: [u8; 32]| cbor::bytes_item(h@)) == cbor::concat_map(
            hash_views(s),
            |h: Seq<u8>| cbor::bytes_item(h),
        ),
    decreases s.len(),
{
    if s.len() > 0 {
        lemma_hash_list(s.drop_last());
        assert(hash_views(s).drop_last() =~= hash_views(s.drop_last()));
    }
}

/// MsgRequestTxs.
pub fn request_txs(ids: &Vec<[u8; 32]>) -> (r: Segment)
    ensures
        r@ == message::reply_view(
            MINI_PROTOCOL_TXSUBMISSION,
            request_txs_bytes(hash_views(ids@)),
        ),
{
    let mut buf: Vec<u8> = Vec::new();
    let ghost f = |h: [u8; 32]| cbor::bytes_item(h@);
    put_array(&mut buf, 2);
    put_u32(&mut buf, 2);
    put_array(&mut buf, ids.len() as u64);
    let ghost pre = buf@;
    let mut i: usize = 0;
    assert(pre + cbor::concat_map(ids@.take(0), f) =~= pre);
    while i < ids.len()
        invariant
            i <= ids.len(),
            f == (|h: [u8; 32]| cbor::bytes_item(h@)),
            buf@ == pre + cbor::concat_map(ids@.take(i as int), f),
        decreases ids.len() - i,
    {
        put_bytes(&mut buf, ids[i].as_slice());
        proof {
            cbor::lemma_concat_map_step(ids@, f, i as int);
            cbor::lemma_append_assoc(
                pre,
                cbor::concat_map(ids@.take(i as int), f),
                cbor::bytes_item(ids@[i as int]@),
            );
        }
        i += 1;
    }
    assert(ids@.take(i as int) =~= ids@);
    proof {
        lemma_hash_list(ids@);
    }
    assert(buf@ =~= request_txs_bytes(hash_views(ids@)));
    reply(MINI_PROTOCOL_TXSUBMISSION, buf)
}

/// Byte strings by their contents.
pub open spec fn vec_views(s: Seq<Vec<u8>>) -> Seq<Seq<u8>> {
    s.map_values(|v: Vec<u8>| v@)
}

proof fn lemma_vec_list(s: Seq<Vec<u8>>)
    ensures
        cbor::concat_map(s, |v: Vec<u8>| cbor::bytes_item(v@)) == cbor::concat_map(
            vec_views(s),
            |v: Seq<u8>| cbor::bytes_item(v),
        ),
    decreases s.len(),
{
    if s.len() > 0 {
        lemma_vec_list(s.drop_last());
        assert(vec_views(s).drop_last() =~= vec_views(s.drop_last()));
    }
}

/// MsgReplyTxs.
pub fn reply_txs(txs: &Vec<Vec<u8>>) -> (r: Segment)
    ensures
        r@ == message::reply_view(MINI_PROTOCOL_TXSUBMISSION, reply_txs_bytes(vec_views(txs@))),
{
    let mut buf: Vec<u8> = Vec::new();
    let ghost f = |v: Vec<u8>| cbor::bytes_item(v@);
    put_array(&mut buf, 2);
    put_u32(&mut buf, 3);
    put_array(&mut buf, txs.len() as u64);
    let ghost pre = buf@;
    let mut i: usize = 0;
    assert(pre + cbor::concat_map(txs@.take(0), f) =~= pre);
    while i < txs.len()
        invariant
            i <= txs.len(),
            f == (|v: Vec<u8>| cbor::bytes_item(v@)),
            buf@ == pre + cbor::concat_map(txs@.take(i as int), f),
        decreases txs.len() - i,
    {
        put_bytes(&mut buf, txs[i].as_slice());
        proof {
            cbor::lemma_concat_map_step(txs@, f, i as int);
            cbor::lemma_append_assoc(
                pre,
                cbor::concat_map(txs@.take(i as int), f),
                cbor::bytes_item(txs@[i as int]@),
            );
        }
        i += 1;
    }
    assert(txs@.take(i as int) =~= txs@);
    proof {
        lemma_vec_list(txs@);
    }
    assert(buf@ =~= reply_txs_bytes(vec_views(txs@)));
    reply(MINI_PROTOCOL_TXSUBMISSION, buf)
}

/// The first `n` transactions of the mempool that are not in flight, those that have a
/// size.
fn fresh_txs<M: MempoolProvider>(mempool: &M, inflight: &Vec<[u8; 32]>, n: usize) -> (r: (
    Vec<([u8; 32], usize)>,
    Ghost<(Seq<[u8; 32]>, Seq<Option<usize>>)>,
))
    ensures
        ({
            let candidates = fresh(r.1@.0, inflight@, n as nat);
            &&& r.0@ == sized(candidates, r.1@.1)
            &&& r.0@.len() <= n
            &&& mempool.may_list(r.1@.0)
            &&& r.1@.1.len() == candidates.len()
            &&& forall|k: int|
                0 <= k < r.1@.1.len() ==> mempool.may_measure(
                    candidates[k]@,
                    #[trigger] r.1@.1[k],
                )
        }),
{
    let hashes = mempool.tx_hashes_ordered();
    let mut txs: Vec<([u8; 32], usize)> = Vec::new();
    let mut taken: usize = 0;
    let ghost mut sizes: Seq<Option<usize>> = Seq::empty();
    let mut i: usize = 0;
    while i < hashes.len()
        invariant
            i <= hashes.len(),
            taken <= n,
            taken == fresh(hashes@.take(i as int), inflight@, n as nat).len(),
            sizes.len() == taken,
            txs@.len() <= taken,
            txs@ == sized(fresh(hashes@.take(i as int), inflight@, n as nat), sizes),
            forall|k: int|
                0 <= k < sizes.len() ==> mempool.may_measure(
                    fresh(hashes@.take(i as int), inflight@, n as nat)[k]@,
                    #[trigger] sizes[k],
                ),
        decreases hashes.len() - i,
    {
        let ghost before = fresh(hashes@.take(i as int), inflight@, n as nat);
        proof {
            assert(hashes@.take(i + 1).drop_last() =~= hashes@.take(i as int));
        }
        if taken < n && !holds(inflight, &hashes[i]) {
            let size = mempool.get_tx_size(&hashes[i]);
            proof {
                let after = fresh(hashes@.take(i + 1), inflight@, n as nat);
                assert(after == before.push(hashes@[i as int]));
                assert(after.drop_last() =~= before);
                assert(sizes.push(size).drop_last() =~= sizes);
                assert forall|k: int| 0 <= k < sizes.len() + 1 implies mempool.may_measure(
                    after[k]@,
                    #[trigger] sizes.push(size)[k],
                ) by {
                    if k < sizes.len() {
                        assert(sizes.push(size)[k] == sizes[k]);
                        assert(after[k] == before[k]);
                    }
                }
                sizes = sizes.push(size);
            }
            if let Some(s) = size {
                txs.push((hashes[i], s));
            }
            taken += 1;
        }
        i += 1;
    }
    assert(hashes@.take(i as int) =~= hashes@);
    (txs, Ghost((hashes@, sizes)))
}

/// Answers MsgRequestTxIds.
fn handle_request_ids<M: MempoolProvider>(
    payload: &[u8],
    start: usize,
    peer_state: &mut PeerState,
    mempool: Option<&M>,
) -> (r: (Segment, Ghost<Answers>))
    ensures
        (final(peer_state)@, message::Outcome::Replies(seq![r.0@])) == request_ids_step(
            payload@,
            start as int,
            old(peer_state)@,
            r.1@,
        ),
        ({
            let (ack, req) = request_at(payload@, start as int);
            let kept = acknowledged(old(peer_state)@.tx_inflight, ack);
            kept.len() < MAX_TX_INFLIGHT ==> may_tell(
                mempool,
                kept,
                req,
                r.1@.hashes,
                r.1@.sizes,
            )
        }),
{
    let mut pos: usize = start;
    let _ = get_bool(payload, &mut pos);
    let ack: u16 = match get_u16(payload, &mut pos) {
        Some(n) => n,
        None => 0,
    };
    let req: u16 = match get_u16(payload, &mut pos) {
        Some(n) => n,
        None => 0,
    };
    let ghost mut a: Answers = Answers {
        hashes: Seq::empty(),
        sizes: Seq::empty(),
        ..arbitrary()
    };
    assert(request_at(payload@, start as int) == (ack as nat, req as nat));
    acknowledge(&mut peer_state.tx_inflight, ack as usize);
    let ghost kept = peer_state.tx_inflight@;
    let mut txs: Vec<([u8; 32], usize)> = Vec::new();
    if peer_state.tx_inflight.len() >= MAX_TX_INFLIGHT {
        assert(txs@ =~= Seq::empty());
        return (reply_tx_ids(&txs), Ghost(a));
    }
    let mut count: usize = req as usize;
    if count > MAX_TX_IDS_PER_REQUEST {
        count = MAX_TX_IDS_PER_REQUEST;
    }
    let room: usize = MAX_TX_INFLIGHT - peer_state.tx_inflight.len();
    if count > room {
        count = room;
    }
    assert(count == allowance(req as nat, kept.len()));
    if let Some(m) = mempool {
        let (found, Ghost(g)) = fresh_txs(m, &peer_state.tx_inflight, count);
        txs = found;
        proof {
            a = Answers { hashes: g.0, sizes: g.1, ..a };
        }
    }
    let ghost f = |t: ([u8; 32], usize)| t.0;
    let mut i: usize = 0;
    assert(kept + txs@.take(0).map_values(f) =~= kept);
    assert(txs@ =~= told(a.hashes, kept, req as nat, a.sizes));
    let ghost s = peer_state@;
    while i < txs.len()
        invariant
            i <= txs.len(),
            f == (|t: ([u8; 32], usize)| t.0),
            peer_state@ == (PeerStateView {
                tx_inflight: kept + txs@.take(i as int).map_values(f),
                ..s
            }),
        decreases txs.len() - i,
    {
        peer_state.tx_inflight.push(txs[i].0);
        proof {
            assert(txs@.take(i + 1).map_values(f) =~= txs@.take(i as int).map_values(f).push(
                txs@[i as int].0,
            ));
            assert(peer_state.tx_inflight@ =~= kept + txs@.take(i + 1).map_values(f));
        }
        i += 1;
    }
    assert(txs@.take(i as int) =~= txs@);
    assert(peer_state@ =~= request_ids_step(payload@, start as int, old(peer_state)@, a).0);
    (reply_tx_ids(&txs), Ghost(a))
}

/// Reads the ids of which a peer tells, and keeps those that are not known.
fn new_ids<M: MempoolProvider>(b: &[u8], start: usize, n: u64, mempool: Option<&M>) -> (r: (
    Result<Vec<[u8; 32]>, String>,
    Ghost<Seq<bool>>,
))
    ensures
        match ids_from(b@, start as int, n as nat) {
            Ids::Entries(ids) => {
                &&& r.0 is Ok
                &&& hash_views(r.0->Ok_0@) == unknown(ids, r.1@)
                &&& may_know(mempool, ids, r.1@)
            },
            Ids::Broken(m) => r.0 is Err && r.0->Err_0@ == m,
        },
{
    let mut pos: usize = start;
    let mut new: Vec<[u8; 32]> = Vec::new();
    let ghost mut seen: Seq<Seq<u8>> = Seq::empty();
    let ghost mut known: Seq<bool> = Seq::empty();
    let mut i: u64 = 0;
    proof {
        if let Ids::Entries(rest) = ids_from(b@, pos as int, n as nat) {
            assert(seen + rest =~= rest);
        }
        assert(hash_views(new@) =~= Seq::empty());
    }
    while i < n
        invariant
            i <= n,
            seen.len() == i,
            hash_views(new@) == unknown(seen, known),
            may_know(mempool, seen, known),
            ids_from(b@, start as int, n as nat) == (match ids_from(
                b@,
                pos as int,
                (n - i) as nat,
            ) {
                Ids::Entries(rest) => Ids::Entries(seen + rest),
                broken => broken,
            }),
        decreases n - i,
    {
        if let Err(e) = get_array(b, &mut pos) {
            return (Err(e), Ghost(known));
        }
        let id = match get_bytes(b, &mut pos) {
            Ok(id) => id,
            Err(e) => {
                return (Err(e), Ghost(known));
            },
        };
        let _ = get_u32(b, &mut pos);
        let ghost before = known;
        let mut is_known: bool = false;
        let ghost so_far = new@;
        if id.len() == 32 {
            let hash: [u8; 32] = to_hash(id);
            if let Some(m) = mempool {
                is_known = m.contains(&hash);
            }
            if !is_known {
                new.push(hash);
                assert(hash_views(new@) =~= hash_views(so_far).push(id@));
            }
        }
        proof {
            if let Ids::Entries(rest) = ids_from(b@, pos as int, (n - i - 1) as nat) {
                assert(seen + (seq![id@] + rest) =~= seen.push(id@) + rest);
            }
            known = known.push(is_known);
            assert(seen.push(id@).drop_last() =~= seen);
            assert(known.drop_last() =~= before);
            assert forall|k: int| #![trigger known[k]] 0 <= k < known.len() implies match mempool {
                Some(m) => seen.push(id@)[k].len() == 32 ==> m.may_contain(
                    seen.push(id@)[k],
                    known[k],
                ),
                None => !known[k],
            } by {
                if k < before.len() {
                    assert(known[k] == before[k]);
                }
            }
            seen = seen.push(id@);
        }
        i += 1;
    }
    assert(seen + Seq::<Seq<u8>>::empty() =~= seen);
    (Ok(new), Ghost(known))
}

/// The 16 bit sum of a count and the low 16 bits of another.
fn add_count(unacked: u16, n: u64) -> (r: u16)
    ensures
        r == counted(unacked, n as nat),
{
    let low: u32 = (n % 0x1_0000) as u32;
    let sum: u32 = (unacked as u32 + low) % 0x1_0000;
    assert((unacked + n % 0x1_0000) % 0x1_0000 == (unacked + n) % 0x1_0000) by {
        vstd::arithmetic::div_mod::lemma_add_mod_noop_right(
            unacked as int,
            n as int,
            0x1_0000,
        );
    }
    sum as u16
}

/// Answers MsgReplyTxIds.
fn handle_reply_ids<M: MempoolProvider>(
    payload: &[u8],
    start: usize,
    peer_state: &mut PeerState,
    mempool: Option<&M>,
) -> (r: (Result<Option<Segment>, N2NServerError>, Ghost<Answers>))
    ensures
        reply_ids_step(
            payload@,
            start as int,
            old(peer_state)@,
            final(peer_state)@,
            r.1@,
            message::outcome(r.0),
        ),
        items_at(payload@, start as int) matches Some((n, p)) ==> (ids_from(
            payload@,
            p,
            n,
        ) matches Ids::Entries(ids) ==> may_know(mempool, ids, r.1@.known)),
{
    let mut pos: usize = start;
    let ghost mut a: Answers = arbitrary();
    let n: u64 = match get_array(payload, &mut pos) {
        Ok(Some(n)) => n,
        Ok(None) => 0,
        Err(e) => {
            return (Err(N2NServerError::Protocol(e)), Ghost(a));
        },
    };
    let (new, Ghost(known)) = new_ids(payload, pos, n, mempool);
    proof {
        a = Answers { known, ..a };
    }
    let new: Vec<[u8; 32]> = match new {
        Ok(new) => new,
        Err(e) => {
            return (Err(N2NServerError::Protocol(e)), Ghost(a));
        },
    };
    let unacked: u16 = add_count(peer_state.tx_peer_unacked, n);
    assert(hash_views(new@).len() == new@.len());
    if new.len() == 0 {
        peer_state.tx_peer_unacked = 0;
        (Ok(Some(request_tx_ids(unacked))), Ghost(a))
    } else {
        peer_state.tx_peer_unacked = unacked;
        let segment = request_txs(&new);
        peer_state.tx_requested_from_peer = new;
        (Ok(Some(segment)), Ghost(a))
    }
}

/// The bytes of the transactions that a peer asks for.
fn find_bodies<M: MempoolProvider>(b: &[u8], start: usize, n: u64, mempool: &M) -> (r: (
    Vec<Vec<u8>>,
    Ghost<Seq<Body>>,
))
    ensures
        vec_views(r.0@) == bodies(r.1@),
        may_find(Some(mempool), wanted_from(b@, start as int, n as nat), r.1@),
{
    let mut pos: usize = start;
    let mut txs: Vec<Vec<u8>> = Vec::new();
    let ghost wanted = wanted_from(b@, start as int, n as nat);
    let ghost mut found: Seq<Body> = Seq::empty();
    let mut i: u64 = 0;
    assert(wanted.skip(0) =~= wanted);
    assert(vec_views(txs@) =~= bodies(found));
    while i < n
        invariant
            i <= n,
            found.len() == i,
            wanted.len() >= i,
            wanted.skip(i as int) == wanted_from(b@, pos as int, (n - i) as nat),
            vec_views(txs@) == bodies(found),
            forall|k: int|
                #![trigger found[k]]
                0 <= k < found.len() ==> match wanted[k] {
                    Some(h) if h.len() == 32 => {
                        &&& mempool.may_hold(h, found[k].cbor)
                        &&& found[k].cbor is None ==> mempool.may_keep(h, found[k].raw)
                    },
                    _ => body_bytes(found[k]) is None,
                },
        decreases n - i,
    {
        let ghost rest = wanted.skip(i as int);
        let id = get_bytes(b, &mut pos);
        let ghost wanted_id: Option<Seq<u8>> = match id {
            Ok(x) => Some(x@),
            Err(_) => None,
        };
        proof {
            assert(rest.len() > 0);
            assert(rest[0] == wanted_id);
            assert(wanted[i as int] == wanted_id);
            assert(wanted.skip(i + 1) =~= rest.skip(1));
            assert(rest.skip(1) =~= wanted_from(b@, pos as int, (n - i - 1) as nat));
        }
        let ghost mut body = Body { cbor: None, raw: None };
        let ghost so_far = txs@;
        let ghost before = found;
        if let Ok(id) = id {
            if id.len() == 32 {
                let hash: [u8; 32] = to_hash(id);
                let cbor = mempool.get_tx_cbor(&hash);
                proof {
                    body = Body { cbor: mempool::opt_bytes(cbor), raw: None };
                }
                let bytes: Option<Vec<u8>> = match cbor {
                    Some(c) => Some(c),
                    None => {
                        let raw = mempool.get_tx_raw(&hash);
                        proof {
                            body = Body { cbor: None, raw: mempool::opt_bytes(raw) };
                        }
                        raw
                    },
                };
                if let Some(x) = bytes {
                    txs.push(x);
                    assert(vec_views(txs@) =~= vec_views(so_far).push(x@));
                }
            }
        }
        proof {
            found = found.push(body);
            assert(found.drop_last() =~= before);
            assert(vec_views(txs@) =~= bodies(found));
        }
        i += 1;
    }
    assert(wanted.skip(i as int).len() == 0);
    (txs, Ghost(found))
}

/// Answers MsgRequestTxs.
fn handle_request_txs<M: MempoolProvider>(
    payload: &[u8],
    start: usize,
    mempool: Option<&M>,
) -> (r: (Result<Option<Segment>, N2NServerError>, Ghost<Answers>))
    ensures
        message::outcome(r.0) == request_txs_outcome(payload@, start as int, r.1@),
        items_at(payload@, start as int) matches Some((n, p)) ==> may_find(
            mempool,
            wanted_from(payload@, p, capped(n)),
            r.1@.bodies,
        ),
{
    let mut pos: usize = start;
    let ghost mut a: Answers = arbitrary();
    let n: u64 = match get_array(payload, &mut pos) {
        Ok(Some(n)) => n,
        Ok(None) => 0,
        Err(e) => {
            return (Err(N2NServerError::Protocol(e)), Ghost(a));
        },
    };
    let count: u64 = if n < MAX_TX_BODY_REQUEST {
        n
    } else {
        MAX_TX_BODY_REQUEST
    };
    let mut txs: Vec<Vec<u8>> = Vec::new();
    let ghost mut found: Seq<Body> = Seq::empty();
    assert(vec_views(txs@) =~= bodies(found));
    if let Some(m) = mempool {
        let (t, Ghost(g)) = find_bodies(payload, pos, count, m);
        txs = t;
        proof {
            found = g;
        }
    }
    proof {
        a = Answers { bodies: found, ..a };
    }
    (Ok(Some(reply_txs(&txs))), Ghost(a))
}

/// Hands a transaction to the mempool as one of the latest era in which it decodes, and
/// says what became of it.
fn add_in_some_era<M: MempoolProvider>(mempool: &M, hash: &[u8; 32], tx: &[u8]) -> (r: (
    AddTxOutcome,
    Ghost<Seq<AddTxOutcome>>,
))
    requires
        may_give(mempool, hash@, tx@),
    ensures
        may_try(mempool, hash@, tx@, r.1@),
        r.0 == r.1@.last(),
{
    let ghost mut tries: Seq<AddTxOutcome> = Seq::empty();
    let mut era: u16 = 6;
    loop
        invariant
            2 <= era <= 6,
            may_give(mempool, hash@, tx@),
            tries.len() == 6 - era,
            forall|j: int|
                0 <= j < tries.len() ==> mempool.may_add_with_fee(
                    hash@,
                    (6 - j) as u16,
                    tx@,
                    #[trigger] tries[j],
                ),
            forall|j: int| 0 <= j < tries.len() ==> (#[trigger] tries[j]) is Undecodable,
        decreases era,
    {
        assert forall|later: u16| era < later <= 6 implies #[trigger] may_not_decode(
            mempool,
            hash@,
            later,
            tx@,
        ) by {
            let last = tries[6 - later];
            assert(last == AddTxOutcome::Undecodable(last->Undecodable_0));
        }
        let r = mempool.add_tx_with_fee(hash, era, tx);
        let ghost before = tries;
        proof {
            tries = tries.push(r);
        }
        let decoded: bool = match &r {
            AddTxOutcome::Undecodable(_) => false,
            _ => true,
        };
        if decoded || era == 2 {
            return (r, Ghost(tries));
        }
        era -= 1;
    }
}

/// Hands over to the mempool the transactions that a peer sent.
fn take_bodies<M: MempoolProvider>(
    b: &[u8],
    start: usize,
    n: u64,
    requested: &Vec<[u8; 32]>,
    mempool: &M,
) -> (r: Ghost<Seq<Seq<AddTxOutcome>>>)
    requires
        may_give_all(
            mempool,
            requested@,
            received_from(
                b@,
                start as int,
                if (n as nat) < requested@.len() {
                    n as nat
                } else {
                    requested@.len()
                },
            ),
        ),
    ensures
        may_take(
            Some(mempool),
            requested@,
            received_from(
                b@,
                start as int,
                if (n as nat) < requested@.len() {
                    n as nat
                } else {
                    requested@.len()
                },
            ),
            r@,
        ),
{
    let mut pos: usize = start;
    let count: usize = if n < requested.len() as u64 {
        n as usize
    } else {
        requested.len()
    };
    let ghost txs = received_from(b@, start as int, count as nat);
    let ghost mut tries: Seq<Seq<AddTxOutcome>> = Seq::empty();
    let mut i: usize = 0;
    assert(txs.skip(0) =~= txs);
    while i < count
        invariant
            i <= count,
            count <= requested.len(),
            tries.len() == i,
            txs.len() >= i,
            txs == received_from(b@, start as int, count as nat),
            count as nat == (if (n as nat) < requested@.len() {
                n as nat
            } else {
                requested@.len()
            }),
            txs.skip(i as int) == received_from(b@, pos as int, (count - i) as nat),
            may_give_all(mempool, requested@, txs),
            forall|k: int|
                0 <= k < tries.len() ==> may_try(
                    mempool,
                    requested@[k]@,
                    txs[k],
                    #[trigger] tries[k],
                ),
        decreases count - i,
    {
        let ghost rest = txs.skip(i as int);
        let tx = match get_bytes(b, &mut pos) {
            Ok(tx) => tx,
            Err(_) => {
                assert(rest.len() == 0);
                return Ghost(tries);
            },
        };
        proof {
            assert(rest.len() > 0);
            assert(rest[0] == tx@);
            assert(txs[i as int] == tx@);
            assert(txs.skip(i + 1) =~= rest.skip(1));
            assert(rest.skip(1) =~= received_from(b@, pos as int, (count - i - 1) as nat));
        }
        let (_, Ghost(t)) = add_in_some_era(mempool, &requested[i], tx);
        proof {
            tries = tries.push(t);
        }
        i += 1;
    }
    assert(txs.skip(i as int).len() == 0);
    Ghost(tries)
}

/// Answers MsgReplyTxs.
fn handle_reply_txs<M: MempoolProvider>(
    payload: &[u8],
    start: usize,
    peer_state: &mut PeerState,
    mempool: Option<&M>,
) -> (r: (Result<Option<Segment>, N2NServerError>, Ghost<Answers>))
    requires
        mempool matches Some(m) ==> may_give_all(
            m,
            old(peer_state)@.tx_requested_from_peer,
            received(payload@, start as int, old(peer_state)@.tx_requested_from_peer.len()),
        ),
    ensures
        (final(peer_state)@, message::outcome(r.0)) == reply_txs_step(
            payload@,
            start as int,
            old(peer_state)@,
        ),
        items_at(payload@, start as int) is Some ==> may_take(
            mempool,
            old(peer_state)@.tx_requested_from_peer,
            received(
                payload@,
                start as int,
                old(peer_state)@.tx_requested_from_peer.len(),
            ),
            r.1@.tries,
        ),
{
    let mut pos: usize = start;
    let ghost mut a: Answers = arbitrary();
    let n: u64 = match get_array(payload, &mut pos) {
        Ok(Some(n)) => n,
        Ok(None) => 0,
        Err(e) => {
            return (Err(N2NServerError::Protocol(e)), Ghost(a));
        },
    };
    if let Some(m) = mempool {
        let Ghost(tries) = take_bodies(payload, pos, n, &peer_state.tx_requested_from_peer, m);
        proof {
            a = Answers { tries, ..a };
        }
    }
    peer_state.tx_requested_from_peer = Vec::new();
    let ack: u16 = peer_state.tx_peer_unacked;
    peer_state.tx_peer_unacked = 0;
    assert(peer_state@ =~= reply_txs_step(payload@, start as int, old(peer_state)@).0);
    (Ok(Some(request_tx_ids(ack))), Ghost(a))
}

/// Answers a message of TxSubmission2.
pub fn handle_n2n_txsubmission<M: MempoolProvider>(
    payload: &[u8],
    peer_state: &mut PeerState,
    mempool: Option<&M>,
) -> (r: Result<Option<Segment>, N2NServerError>)
    requires
        admits(mempool, payload@, old(peer_state)@),
    ensures
        may_lead(
            mempool,
            payload@,
            old(peer_state)@,
            final(peer_state)@,
            message::outcome(r),
        ),
{
    let mut pos: usize = 0;
    let ghost s = peer_state@;
    let ghost nothing: Answers = arbitrary();
    let tag: u32 = match read_msg_tag(payload, &mut pos) {
        Ok(tag) => tag,
        Err(e) => {
            assert(may_answer(mempool, payload@, s, nothing));
            return Err(N2NServerError::Protocol(e));
        },
    };
    if tag == 6 {
        peer_state.tx_submission_init_sent = true;
        assert(may_answer(mempool, payload@, s, nothing));
        Ok(Some(request_tx_ids(0)))
    } else if tag == 0 {
        let (segment, Ghost(a)) = handle_request_ids(payload, pos, peer_state, mempool);
        assert(may_answer(mempool, payload@, s, a));
        Ok(Some(segment))
    } else if tag == 1 {
        let (r, Ghost(a)) = handle_reply_ids(payload, pos, peer_state, mempool);
        assert(may_answer(mempool, payload@, s, a));
        r
    } else if tag == 2 {
        let (r, Ghost(a)) = handle_request_txs(payload, pos, mempool);
        assert(may_answer(mempool, payload@, s, a));
        r
    } else if tag == 3 {
        let (r, Ghost(a)) = handle_reply_txs(payload, pos, peer_state, mempool);
        assert(may_answer(mempool, payload@, s, a));
        r
    } else {
        assert(may_answer(mempool, payload@, s, nothing));
        Ok(None)
    }
}

// ---------------------------------------------------------------------------
// Laws
// ---------------------------------------------------------------------------

proof fn lemma_fresh(hashes: Seq<[u8; 32]>, inflight: Seq<[u8; 32]>, n: nat)
    ensures
        fresh(hashes, inflight, n).len() <= n,
        forall|i: int|
            0 <= i < fresh(hashes, inflight, n).len() ==> {
                &&& hashes.contains(#[trigger] fresh(hashes, inflight, n)[i])
                &&& !inflight.contains(fresh(hashes, inflight, n)[i])
            },
        hashes.no_duplicates() ==> fresh(hashes, inflight, n).no_duplicates(),
    decreases hashes.len(),
{
    if hashes.len() > 0 {
        let init = hashes.drop_last();
        let before = fresh(init, inflight, n);
        lemma_fresh(init, inflight, n);
        assert(hashes[hashes.len() - 1] == hashes.last());
        assert forall|i: int| 0 <= i < before.len() implies hashes.contains(
            #[trigger] before[i],
        ) by {
            let j = choose|j: int| 0 <= j < init.len() && init[j] == before[i];
            assert(hashes[j] == before[i]);
        }
        if hashes.no_duplicates() {
            assert(init.no_duplicates()) by {
                assert forall|i: int, j: int|
                    0 <= i < init.len() && 0 <= j < init.len() && i != j implies init[i]
                    != init[j] by {
                    assert(hashes[i] == init[i] && hashes[j] == init[j]);
                }
            }
            assert forall|i: int| 0 <= i < before.len() implies #[trigger] before[i]
                != hashes.last() by {
                assert(init.contains(before[i]));
                let j = choose|j: int| 0 <= j < init.len() && init[j] == before[i];
                assert(hashes[j] == before[i]);
            }
        }
    }
}

proof fn lemma_sized(hashes: Seq<[u8; 32]>, sizes: Seq<Option<usize>>)
    requires
        sizes.len() == hashes.len(),
    ensures
        sized(hashes, sizes).len() <= hashes.len(),
        forall|i: int|
            0 <= i < sized(hashes, sizes).len() ==> hashes.contains(
                (#[trigger] sized(hashes, sizes)[i]).0,
            ),
        hashes.no_duplicates() ==> sized(hashes, sizes).map_values(
            |t: ([u8; 32], usize)| t.0,
        ).no_duplicates(),
    decreases hashes.len(),
{
    if hashes.len() > 0 {
        let init = hashes.drop_last();
        let before = sized(init, sizes.drop_last());
        let f = |t: ([u8; 32], usize)| t.0;
        lemma_sized(init, sizes.drop_last());
        assert(hashes[hashes.len() - 1] == hashes.last());
        assert forall|i: int| 0 <= i < before.len() implies hashes.contains(
            (#[trigger] before[i]).0,
        ) by {
            let j = choose|j: int| 0 <= j < init.len() && init[j] == before[i].0;
            assert(hashes[j] == before[i].0);
        }
        if hashes.no_duplicates() {
            assert(init.no_duplicates()) by {
                assert forall|i: int, j: int|
                    0 <= i < init.len() && 0 <= j < init.len() && i != j implies init[i]
                    != init[j] by {
                    assert(hashes[i] == init[i] && hashes[j] == init[j]);
                }
            }
            let firsts = sized(hashes, sizes).map_values(f);
            assert forall|i: int, j: int|
                0 <= i < firsts.len() && 0 <= j < firsts.len() && i != j implies firsts[i]
                != firsts[j] by {
                let k = if i < j {
                    i
                } else {
                    j
                };
                assert(before.map_values(f).no_duplicates());
                if i < before.len() && j < before.len() {
                    assert(before.map_values(f)[i] == firsts[i]);
                    assert(before.map_values(f)[j] == firsts[j]);
                } else {
                    assert(init.contains(before[k].0));
                    let m = choose|m: int| 0 <= m < init.len() && init[m] == before[k].0;
                    assert(hashes[m] == before[k].0);
                }
            }
        }
    }
}

/// Whatever message comes, no more than `MAX_TX_INFLIGHT` transactions are in flight
/// after it, if there were no more before.
pub proof fn lemma_inflight_is_bounded<M: MempoolProvider>(
    mempool: Option<&M>,
    b: Seq<u8>,
    s: PeerStateView,
    s2: PeerStateView,
    a: Answers,
    o: message::Outcome,
)
    requires
        s.tx_inflight.len() <= MAX_TX_INFLIGHT,
        may_answer(mempool, b, s, a),
        tx_step(b, s, s2, a, o),
    ensures
        s2.tx_inflight.len() <= MAX_TX_INFLIGHT,
{
    if let message::MsgTag::Tag(tag, end) = message::msg_tag(b) {
        if tag == 0 {
            let (ack, req) = request_at(b, end);
            let kept = acknowledged(s.tx_inflight, ack);
            if kept.len() < MAX_TX_INFLIGHT {
                let candidates = fresh(a.hashes, kept, allowance(req, kept.len()));
                lemma_fresh(a.hashes, kept, allowance(req, kept.len()));
                assert(a.sizes.len() == candidates.len());
                lemma_sized(candidates, a.sizes);
            }
        }
    }
}

/// A peer is told of no transaction that is still in flight: if none is in flight twice
/// and the mempool lists none twice, then none is in flight twice after any message.
pub proof fn lemma_none_in_flight_twice<M: MempoolProvider>(
    mempool: Option<&M>,
    b: Seq<u8>,
    s: PeerStateView,
    s2: PeerStateView,
    a: Answers,
    o: message::Outcome,
)
    requires
        s.tx_inflight.no_duplicates(),
        a.hashes.no_duplicates(),
        may_answer(mempool, b, s, a),
        tx_step(b, s, s2, a, o),
    ensures
        s2.tx_inflight.no_duplicates(),
{
    if let message::MsgTag::Tag(tag, end) = message::msg_tag(b) {
        if tag == 0 {
            let (ack, req) = request_at(b, end);
            let kept = acknowledged(s.tx_inflight, ack);
            assert(kept.no_duplicates());
            if kept.len() < MAX_TX_INFLIGHT {
                let n = allowance(req, kept.len());
                let candidates = fresh(a.hashes, kept, n);
                let f = |t: ([u8; 32], usize)| t.0;
                lemma_fresh(a.hashes, kept, n);
                assert(a.sizes.len() == candidates.len());
                lemma_sized(candidates, a.sizes);
                let txs = sized(candidates, a.sizes);
                let more = txs.map_values(f);
                assert forall|i: int, j: int|
                    0 <= i < kept.len() && 0 <= j < more.len() implies kept[i] != more[j] by {
                    assert(candidates.contains(txs[j].0));
                    let k = choose|k: int| 0 <= k < candidates.len() && candidates[k] == txs[j].0;
                    assert(!kept.contains(candidates[k]));
                }
                assert(s2.tx_inflight == kept + more);
                assert forall|i: int, j: int|
                    0 <= i < s2.tx_inflight.len() && 0 <= j < s2.tx_inflight.len() && i
                        != j implies s2.tx_inflight[i] != s2.tx_inflight[j] by {
                    if i >= kept.len() && j >= kept.len() {
                        assert(more[i - kept.len()] != more[j - kept.len()]);
                    }
                }
            }
        }
    }
}

/// A peer that acknowledges all of its transactions has none in flight afterwards but
/// those of which it is then told.
pub proof fn lemma_all_acknowledged(inflight: Seq<[u8; 32]>, ack: nat)
    requires
        ack >= inflight.len(),
    ensures
        acknowledged(inflight, ack) == Seq::<[u8; 32]>::empty(),
{
    assert(acknowledged(inflight, ack) =~= Seq::empty());
}

// ---------------------------------------------------------------------------
// What a peer reads, and what is read of a peer
// ---------------------------------------------------------------------------

/// The first `n` of `s`, or all where there are fewer.
pub open spec fn at_most<T>(s: Seq<T>, n: nat) -> Seq<T> {
    if n < s.len() {
        s.take(n as int)
    } else {
        s
    }
}

/// A peer is told only of transactions that are not in flight, in the order of the mempool,
/// and of the first ones of them.
pub proof fn lemma_fresh_ones_come_first(
    hashes: Seq<[u8; 32]>,
    inflight: Seq<[u8; 32]>,
    n: nat,
)
    ensures
        fresh(hashes, inflight, n) == at_most(
            hashes.filter(|h: [u8; 32]| !inflight.contains(h)),
            n,
        ),
    decreases hashes.len(),
{
    let f = |h: [u8; 32]| !inflight.contains(h);
    reveal(Seq::filter);
    if hashes.len() == 0 {
        assert(fresh(hashes, inflight, n) =~= at_most(hashes.filter(f), n));
    } else {
        lemma_fresh_ones_come_first(hashes.drop_last(), inflight, n);
        let before = hashes.drop_last().filter(f);
        assert(fresh(hashes, inflight, n) =~= at_most(hashes.filter(f), n));
    }
}

/// A peer is told of as many transactions as it asks for, but of no more than a hundred at
/// once, and of no more than may still be in flight, which are a thousand.
pub proof fn lemma_allowance(req: nat, inflight: nat)
    ensures
        allowance(req, inflight) <= req,
        allowance(req, inflight) <= 100,
        inflight <= 1000 ==> inflight + allowance(req, inflight) <= 1000,
        inflight >= 1000 ==> allowance(req, inflight) == 0,
        inflight < 1000 && allowance(req, inflight) < req && allowance(req, inflight) < 100
            ==> inflight + allowance(req, inflight) == 1000,
{
}

/// The oldest transactions in flight are the ones that are acknowledged.
pub proof fn lemma_oldest_are_acknowledged(inflight: Seq<[u8; 32]>, ack: nat, i: int)
    requires
        ack <= inflight.len(),
    ensures
        acknowledged(inflight, ack).len() == inflight.len() - ack,
        ack <= i < inflight.len() ==> acknowledged(inflight, ack)[i - ack] == inflight[i],
{
}

/// Exactly the transactions that have a size are told of, each with its own, in their order.
pub proof fn lemma_sizes_go_with_ids(hashes: Seq<[u8; 32]>, sizes: Seq<Option<usize>>)
    requires
        sizes.len() == hashes.len(),
    ensures
        sized(hashes, sizes) == Seq::new(
            hashes.len(),
            |i: int| (hashes[i], sizes[i]),
        ).filter(|t: ([u8; 32], Option<usize>)| t.1 is Some).map_values(
            |t: ([u8; 32], Option<usize>)| (t.0, t.1->0),
        ),
    decreases hashes.len(),
{
    reveal(Seq::filter);
    let p = |t: ([u8; 32], Option<usize>)| t.1 is Some;
    let g = |t: ([u8; 32], Option<usize>)| (t.0, t.1->0);
    let pairs = Seq::new(hashes.len(), |i: int| (hashes[i], sizes[i]));
    if hashes.len() == 0 {
        assert(sized(hashes, sizes) =~= pairs.filter(p).map_values(g));
    } else {
        let init = Seq::new(
            hashes.drop_last().len(),
            |i: int| (hashes.drop_last()[i], sizes.drop_last()[i]),
        );
        lemma_sizes_go_with_ids(hashes.drop_last(), sizes.drop_last());
        assert(pairs.drop_last() =~= init);
        assert(pairs.last() == (hashes.last(), sizes.last()));
        assert(sized(hashes, sizes) =~= pairs.filter(p).map_values(g));
    }
}

/// Exactly the ids of 32 bytes that are not known are asked for, in their order.
pub proof fn lemma_unknown_ones_are_asked_for(ids: Seq<Seq<u8>>, known: Seq<bool>)
    requires
        known.len() == ids.len(),
    ensures
        unknown(ids, known) == Seq::new(ids.len(), |i: int| (ids[i], known[i])).filter(
            |t: (Seq<u8>, bool)| t.0.len() == 32 && t.1 == false,
        ).map_values(|t: (Seq<u8>, bool)| t.0),
    decreases ids.len(),
{
    reveal(Seq::filter);
    let p = |t: (Seq<u8>, bool)| t.0.len() == 32 && t.1 == false;
    let g = |t: (Seq<u8>, bool)| t.0;
    let pairs = Seq::new(ids.len(), |i: int| (ids[i], known[i]));
    if ids.len() == 0 {
        assert(unknown(ids, known) =~= pairs.filter(p).map_values(g));
    } else {
        let init = Seq::new(
            ids.drop_last().len(),
            |i: int| (ids.drop_last()[i], known.drop_last()[i]),
        );
        lemma_unknown_ones_are_asked_for(ids.drop_last(), known.drop_last());
        assert(pairs.drop_last() =~= init);
        assert(pairs.last() == (ids.last(), known.last()));
        assert(unknown(ids, known) =~= pairs.filter(p).map_values(g));
    }
}

/// The bodies that are handed over are those that are there, in the order in which they were
/// asked for; the bytes of a transaction come before those that it was decoded from.
pub proof fn lemma_bodies_in_order(s: Seq<Body>)
    ensures
        bodies(s) == s.filter(|x: Body| x.cbor is Some || x.raw is Some).map_values(
            |x: Body|
                if x.cbor is Some {
                    x.cbor->0
                } else {
                    x.raw->0
                },
        ),
    decreases s.len(),
{
    reveal(Seq::filter);
    let p = |x: Body| x.cbor is Some || x.raw is Some;
    let g = |x: Body|
        if x.cbor is Some {
            x.cbor->0
        } else {
            x.raw->0
        };
    if s.len() > 0 {
        lemma_bodies_in_order(s.drop_last());
    }
    assert(bodies(s) =~= s.filter(p).map_values(g));
}

/// The three messages with lists are read as they are meant: ids with sizes, ids, and bodies.
pub proof fn lemma_lists_are_read(
    told: Seq<([u8; 32], usize)>,
    ids: Seq<Seq<u8>>,
    txs: Seq<Seq<u8>>,
)
    requires
        told.len() <= u64::MAX,
        ids.len() <= u64::MAX,
        txs.len() <= u64::MAX,
        forall|i: int| 0 <= i < ids.len() ==> (#[trigger] ids[i]).len() <= u64::MAX,
        forall|i: int| 0 <= i < txs.len() ==> (#[trigger] txs[i]).len() <= u64::MAX,
    ensures
        words::spells(
            reply_tx_ids_bytes(told),
            words::arr(2) + words::num(1) + words::arr_of(
                told,
                |t: ([u8; 32], usize)|
                    words::arr(2) + words::bin(t.0@) + words::num((t.1 as nat) % 0x1_0000_0000),
            ),
        ),
        words::spells(
            request_txs_bytes(ids),
            words::arr(2) + words::num(2) + words::arr_of(ids, |h: Seq<u8>| words::bin(h)),
        ),
        words::spells(
            reply_txs_bytes(txs),
            words::arr(2) + words::num(3) + words::arr_of(txs, |t: Seq<u8>| words::bin(t)),
        ),
{
    broadcast use words::group_words;

    let f = |t: ([u8; 32], usize)| tx_id_bytes(t);
    let g = |t: ([u8; 32], usize)|
        words::arr(2) + words::bin(t.0@) + words::num((t.1 as nat) % 0x1_0000_0000);
    assert forall|i: int| 0 <= i < told.len() implies words::spells(
        f(#[trigger] told[i]),
        g(told[i]),
    ) by {
        assert(told[i].0@.len() == 32);
    }
    words::lemma_arr_of(told, f, g);
    words::lemma_arr_of(ids, |h: Seq<u8>| cbor::bytes_item(h), |h: Seq<u8>| words::bin(h));
    words::lemma_arr_of(txs, |t: Seq<u8>| cbor::bytes_item(t), |t: Seq<u8>| words::bin(t));
}

/// A request for ids is read as how many are acknowledged and how many are asked for.
pub proof fn lemma_request_is_read(
    b: Seq<u8>,
    blocking: bool,
    ack: u16,
    req: u16,
) -> (end: int)
    requires
        words::spells(
            b,
            words::arr(4) + words::num(0) + (words::truth(blocking) + words::num(ack as nat)
                + words::num(req as nat)),
        ),
    ensures
        message::msg_tag(b) == message::MsgTag::Tag(0, end),
        request_at(b, end) == (ack as nat, req as nat),
{
    reveal(words::spells);
    let q = b.len() as int;
    let m = words::lemma_reads_split(
        b,
        0,
        words::arr(4) + words::num(0),
        words::truth(blocking) + words::num(ack as nat) + words::num(req as nat),
        q,
    );
    message::lemma_tag_is_read(b, 4, 0, m);
    let k = words::lemma_reads_split(
        b,
        m,
        words::truth(blocking) + words::num(ack as nat),
        words::num(req as nat),
        q,
    );
    let j = words::lemma_reads_split(b, m, words::truth(blocking), words::num(ack as nat), k);
    words::lemma_truth_at(b, m, blocking, j);
    words::lemma_number_at(b, j, ack as nat, k);
    words::lemma_number_at(b, k, req as nat, q);
    m
}

proof fn lemma_ids_are_read(b: Seq<u8>, p: int, ids: Seq<(Seq<u8>, u32)>, q: int)
    requires
        words::reads(
            b,
            p,
            words::each(
                ids,
                |t: (Seq<u8>, u32)| words::arr(2) + words::bin(t.0) + words::num(t.1 as nat),
            ),
            q,
        ),
    ensures
        ids_from(b, p, ids.len()) == Ids::Entries(ids.map_values(|t: (Seq<u8>, u32)| t.0)),
    decreases ids.len(),
{
    let g = |t: (Seq<u8>, u32)| words::arr(2) + words::bin(t.0) + words::num(t.1 as nat);
    let f = |t: (Seq<u8>, u32)| t.0;
    if ids.len() == 0 {
        assert(ids.map_values(f) =~= Seq::empty());
    } else {
        let x = ids[0];
        words::lemma_each_first(ids, g);
        let m = words::lemma_reads_split(b, p, g(x), words::each(ids.skip(1), g), q);
        let k = words::lemma_reads_split(
            b,
            p,
            words::arr(2) + words::bin(x.0),
            words::num(x.1 as nat),
            m,
        );
        let j = words::lemma_reads_split(b, p, words::arr(2), words::bin(x.0), k);
        words::lemma_array_at(b, p, 2, j);
        words::lemma_bytes_at(b, j, x.0, k);
        words::lemma_number_at(b, k, x.1 as nat, m);
        lemma_ids_are_read(b, m, ids.skip(1), q);
        assert(ids.map_values(f) =~= seq![x.0] + ids.skip(1).map_values(f));
    }
}

/// A list of ids with sizes that a peer tells of is read as these ids, in their order.
pub proof fn lemma_told_ids_are_read(b: Seq<u8>, ids: Seq<(Seq<u8>, u32)>) -> (r: (int, int))
    requires
        words::spells(
            b,
            words::arr(2) + words::num(1) + (words::arr(ids.len()) + words::each(
                ids,
                |t: (Seq<u8>, u32)| words::arr(2) + words::bin(t.0) + words::num(t.1 as nat),
            )),
        ),
    ensures
        message::msg_tag(b) == message::MsgTag::Tag(1, r.0),
        items_at(b, r.0) == Some((ids.len(), r.1)),
        ids_from(b, r.1, ids.len()) == Ids::Entries(ids.map_values(|t: (Seq<u8>, u32)| t.0)),
{
    reveal(words::spells);
    let q = b.len() as int;
    let list = words::each(
        ids,
        |t: (Seq<u8>, u32)| words::arr(2) + words::bin(t.0) + words::num(t.1 as nat),
    );
    let m = words::lemma_reads_split(
        b,
        0,
        words::arr(2) + words::num(1),
        words::arr(ids.len()) + list,
        q,
    );
    message::lemma_tag_is_read(b, 2, 1, m);
    let k = words::lemma_reads_split(b, m, words::arr(ids.len()), list, q);
    words::lemma_array_at(b, m, ids.len(), k);
    lemma_ids_are_read(b, k, ids, q);
    (m, k)
}

proof fn lemma_strings_are_read(b: Seq<u8>, p: int, s: Seq<Seq<u8>>, n: nat, q: int)
    requires
        words::reads(b, p, words::each(s, |x: Seq<u8>| words::bin(x)), q),
        n <= s.len(),
    ensures
        wanted_from(b, p, n) == s.take(n as int).map_values(|x: Seq<u8>| Some(x)),
        received_from(b, p, n) == s.take(n as int),
    decreases s.len(),
{
    let g = |x: Seq<u8>| words::bin(x);
    let f = |x: Seq<u8>| Some(x);
    if n == 0 {
        assert(wanted_from(b, p, n) =~= s.take(0).map_values(f));
        assert(received_from(b, p, n) =~= s.take(0));
    } else {
        words::lemma_each_first(s, g);
        let m = words::lemma_reads_split(b, p, g(s[0]), words::each(s.skip(1), g), q);
        words::lemma_bytes_at(b, p, s[0], m);
        lemma_strings_are_read(b, m, s.skip(1), (n - 1) as nat, q);
        assert(s.take(n as int) =~= seq![s[0]] + s.skip(1).take(n - 1));
        assert(s.take(n as int).map_values(f) =~= seq![Some(s[0])] + s.skip(1).take(
            n - 1,
        ).map_values(f));
    }
}

/// The ids that a peer asks for, up to a thousand of them, and the transactions that it hands
/// over, up to as many as were requested, are read in their order.
pub proof fn lemma_asked_and_handed_over(
    b: Seq<u8>,
    tag: nat,
    s: Seq<Seq<u8>>,
    requested: nat,
) -> (r: (int, int))
    requires
        tag == 2 || tag == 3,
        words::spells(
            b,
            words::arr(2) + words::num(tag) + (words::arr(s.len()) + words::each(
                s,
                |x: Seq<u8>| words::bin(x),
            )),
        ),
    ensures
        message::msg_tag(b) == message::MsgTag::Tag(tag, r.0),
        items_at(b, r.0) == Some((s.len(), r.1)),
        wanted_from(b, r.1, capped(s.len())) == at_most(s, 1000).map_values(
            |x: Seq<u8>| Some(x),
        ),
        received(b, r.0, requested) == at_most(s, requested),
{
    reveal(words::spells);
    let q = b.len() as int;
    let list = words::each(s, |x: Seq<u8>| words::bin(x));
    let m = words::lemma_reads_split(
        b,
        0,
        words::arr(2) + words::num(tag),
        words::arr(s.len()) + list,
        q,
    );
    message::lemma_tag_is_read(b, 2, tag, m);
    let k = words::lemma_reads_split(b, m, words::arr(s.len()), list, q);
    words::lemma_array_at(b, m, s.len(), k);
    lemma_strings_are_read(b, k, s, capped(s.len()), q);
    let n = if s.len() < requested {
        s.len()
    } else {
        requested
    };
    lemma_strings_are_read(b, k, s, n, q);
    assert(s.take(capped(s.len()) as int) =~= at_most(s, 1000));
    assert(s.take(n as int) =~= at_most(s, requested));
    (m, k)
}

/// What each message does to the state of a peer: a request for ids takes what is acknowledged
/// out of flight and puts in what the peer is told of; ids of which the peer tells are counted
/// until they are acknowledged, and what is asked for is remembered; handing over ends that,
/// and acknowledges; a peer that starts is asked for transactions.
pub proof fn lemma_steps(
    b: Seq<u8>,
    tag: nat,
    end: int,
    s: PeerStateView,
    s2: PeerStateView,
    a: Answers,
    o: message::Outcome,
)
    requires
        message::msg_tag(b) == message::MsgTag::Tag(tag, end),
        tx_step(b, s, s2, a, o),
    ensures
        s2.chainsync_cursor_slot == s.chainsync_cursor_slot,
        s2.chainsync_must_reply == s.chainsync_must_reply,
        tag != 0 ==> s2.tx_inflight == s.tx_inflight,
        tag != 6 ==> s2.tx_submission_init_sent == s.tx_submission_init_sent,
        tag == 6 ==> s2.tx_submission_init_sent && o == message::replied(
            4,
            message::request_tx_ids_bytes(0),
        ),
        tag == 0 ==> {
            let (ack, req) = request_at(b, end);
            let kept = acknowledged(s.tx_inflight, ack);
            let more = sized(fresh(a.hashes, kept, allowance(req, kept.len())), a.sizes);
            if kept.len() >= 1000 {
                &&& s2.tx_inflight == kept
                &&& o == message::replied(4, reply_tx_ids_bytes(Seq::empty()))
            } else {
                &&& s2.tx_inflight == kept + more.map_values(|t: ([u8; 32], usize)| t.0)
                &&& o == message::replied(4, reply_tx_ids_bytes(more))
            }
        },
        tag == 1 ==> (items_at(b, end) matches Some((n, start)) ==> (ids_from(
            b,
            start,
            n,
        ) matches Ids::Entries(ids) ==> {
            let new = unknown(ids, a.known);
            if new.len() == 0 {
                &&& s2.tx_requested_from_peer == s.tx_requested_from_peer
                &&& s2.tx_peer_unacked == 0
                &&& s.tx_peer_unacked + n < 0x1_0000 ==> o == message::replied(
                    4,
                    message::request_tx_ids_bytes((s.tx_peer_unacked + n) as u16),
                )
            } else {
                &&& hash_views(s2.tx_requested_from_peer) == new
                &&& s.tx_peer_unacked + n < 0x1_0000 ==> s2.tx_peer_unacked == s.tx_peer_unacked
                    + n
                &&& o == message::replied(4, request_txs_bytes(new))
            }
        })),
        tag == 2 ==> s2 == s && (items_at(b, end) is Some ==> o == message::replied(
            4,
            reply_txs_bytes(bodies(a.bodies)),
        )),
        tag == 3 && items_at(b, end) is Some ==> s2.tx_requested_from_peer.len() == 0
            && s2.tx_peer_unacked == 0 && o == message::replied(
            4,
            message::request_tx_ids_bytes(s.tx_peer_unacked),
        ),
        tag == 4 || tag == 5 || tag > 6 ==> s2 == s && o == message::Outcome::Replies(
            Seq::empty(),
        ),
{
}

/// All that a mempool has to be ready for on account of a message are the transactions that the
/// message hands over, each under the hash in the same place of those that were requested, in
/// the eras from 6 down to 2.
pub proof fn lemma_only_what_was_requested_is_given<M: MempoolProvider>(
    mempool: &M,
    b: Seq<u8>,
    end: int,
    s: PeerStateView,
)
    requires
        message::msg_tag(b) == message::MsgTag::Tag(3, end),
        forall|k: int, era_id: u16|
            0 <= k < received(b, end, s.tx_requested_from_peer.len()).len() && 2 <= era_id <= 6
                ==> #[trigger] mempool.may_be_given(
                s.tx_requested_from_peer[k]@,
                era_id,
                received(b, end, s.tx_requested_from_peer.len())[k],
            ),
    ensures
        admits(Some(mempool), b, s),
{
}

/// Nothing has to be given to a mempool on account of any other message.
pub proof fn lemma_nothing_else_is_given<M: MempoolProvider>(
    mempool: &M,
    b: Seq<u8>,
    tag: nat,
    end: int,
    s: PeerStateView,
)
    requires
        message::msg_tag(b) == message::MsgTag::Tag(tag, end),
        tag != 3,
    ensures
        admits(Some(mempool), b, s),
{
}

/// What a mempool is asked on account of each message: which transactions it lists, and how
/// large the fresh ones are; whether it has those of which the peer tells; what it holds of
/// those for which the peer asks; and what becomes of each that the peer hands over, under the
/// hash under which it was requested, first in era 6.
pub proof fn lemma_what_the_mempool_is_asked<M: MempoolProvider>(
    mempool: &M,
    b: Seq<u8>,
    tag: nat,
    end: int,
    s: PeerStateView,
    a: Answers,
    k: int,
)
    requires
        message::msg_tag(b) == message::MsgTag::Tag(tag, end),
        may_answer(Some(mempool), b, s, a),
    ensures
        tag == 0 ==> {
            let (ack, req) = request_at(b, end);
            let kept = acknowledged(s.tx_inflight, ack);
            let candidates = fresh(a.hashes, kept, allowance(req, kept.len()));
            kept.len() < 1000 ==> mempool.may_list(a.hashes) && a.sizes.len() == candidates.len()
                && (0 <= k < candidates.len() ==> mempool.may_measure(
                candidates[k]@,
                a.sizes[k],
            ))
        },
        tag == 1 ==> (items_at(b, end) matches Some((n, p)) ==> (ids_from(
            b,
            p,
            n,
        ) matches Ids::Entries(ids) ==> a.known.len() == ids.len() && (0 <= k < ids.len()
            && ids[k].len() == 32 ==> mempool.may_contain(ids[k], a.known[k])))),
        tag == 2 ==> (items_at(b, end) matches Some((n, p)) ==> {
            let wanted = wanted_from(b, p, capped(n));
            a.bodies.len() == wanted.len() && (0 <= k < wanted.len() ==> if wanted[k] is Some
                && wanted[k]->0.len() == 32 {
                mempool.may_hold(wanted[k]->0, a.bodies[k].cbor) && (a.bodies[k].cbor is None
                    ==> mempool.may_keep(wanted[k]->0, a.bodies[k].raw))
            } else {
                a.bodies[k].cbor is None && a.bodies[k].raw is None
            })
        }),
        tag == 3 && items_at(b, end) is Some ==> {
            let txs = received(b, end, s.tx_requested_from_peer.len());
            a.tries.len() == txs.len() && (0 <= k < txs.len() ==> a.tries[k].len() > 0
                && mempool.may_add_with_fee(
                s.tx_requested_from_peer[k]@,
                6,
                txs[k],
                a.tries[k][0],
            ))
        },
{
    if tag == 2 && items_at(b, end) is Some && 0 <= k < a.bodies.len() {
        assert(body_bytes(a.bodies[k]) is None || a.bodies[k].cbor is Some || a.bodies[k].raw
            is Some);
    }
    if tag == 3 && items_at(b, end) is Some {
        let txs = received(b, end, s.tx_requested_from_peer.len());
        if 0 <= k < txs.len() {
            assert(may_try(mempool, s.tx_requested_from_peer[k]@, txs[k], a.tries[k]));
            assert(mempool.may_add_with_fee(
                s.tx_requested_from_peer[k]@,
                (6 - 0) as u16,
                txs[k],
                a.tries[k][0],
            ));
        }
    }
}

/// A transaction is tried in one era after the other, from 6 down to 2, until it decodes: every
/// try but the last finds that it does not, and only behind era 2 is it given up.
pub proof fn lemma_tries<M: MempoolProvider>(
    mempool: &M,
    hash: Seq<u8>,
    tx: Seq<u8>,
    tries: Seq<AddTxOutcome>,
    j: int,
)
    requires
        may_try(mempool, hash, tx, tries),
        0 <= j < tries.len(),
    ensures
        1 <= tries.len() <= 5,
        mempool.may_add_with_fee(hash, (6 - j) as u16, tx, tries[j]),
        j < tries.len() - 1 ==> tries[j] is Undecodable,
        tries.len() < 5 ==> !(tries[tries.len() - 1] is Undecodable),
{
}

} // verus!
