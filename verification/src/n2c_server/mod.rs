//! A plain node-to-client server: text for rejections, no blocks for followers of the
//! chain, and one transaction at a time for monitors of the mempool.
use crate::cbor;
use crate::cbor::{
    get_array, get_bytes, get_map, get_u32, put_array, put_bool, put_bytes, put_null, put_str,
    put_u32, put_u64, skip_item,
};
use crate::hash::to_hash;
use crate::mempool;
use crate::mempool::{AddTxOutcome, MempoolProvider};
use crate::multiplexer;
use crate::multiplexer::{Segment, SegmentView};
use crate::n2c::chain_sync;
use crate::n2c::chain_sync::find_tip;
use crate::n2c::connection;
use crate::n2c::connection::{client_step, stepped, ClientStep};
use crate::n2c::handshake;
use crate::n2c::handshake::parse_handshake_magic;
use crate::n2c::message;
use crate::n2c::message::{read_msg_tag, reply};
use crate::n2c::state_query;
use crate::n2c::state_query::StateQueryStep;
use crate::n2n_server::TipInfo;
use crate::receive::ReceiveBuffer;
use crate::text::push_text;
use crate::words;
use vstd::prelude::*;
use vstd::slice::slice_to_vec;
use vstd::string::StringExecFns;

pub mod params;
pub mod query;
pub mod reading;
pub mod snapshot;

pub use crate::n2c::N2CServerError;
use crate::n2c_server::query::encode_query_result;
use crate::n2c_server::snapshot::QueryResult;

verus! {

/// Validates transactions before they are admitted to the mempool, in both phases.
pub trait TxValidator: Send + Sync + 'static {
    /// Which complaints `validate_tx` may make, `None` standing for success. A
    /// validator that does not define this may make any.
    open spec fn may_judge(&self, era_id: u16, tx: Seq<u8>, complaint: Option<Seq<char>>) -> bool {
        true
    }

    /// `Ok(())` if the transaction passes every check, else why it does not.
    fn validate_tx(&self, era_id: u16, tx_bytes: &[u8]) -> (r: Result<(), String>)
        ensures
            self.may_judge(
                era_id,
                tx_bytes@,
                match r {
                    Ok(_) => None,
                    Err(e) => Some(e@),
                },
            ),
    ;
}

/// Version negotiation.
pub const MINI_PROTOCOL_HANDSHAKE: u16 = 0;

/// LocalChainSync.
pub const MINI_PROTOCOL_CHAINSYNC: u16 = 5;

/// LocalTxSubmission.
pub const MINI_PROTOCOL_TX_SUBMISSION: u16 = 6;

/// LocalStateQuery.
pub const MINI_PROTOCOL_STATE_QUERY: u16 = 7;

/// LocalTxMonitor.
pub const MINI_PROTOCOL_TX_MONITOR: u16 = 12;

/// The highest version that the server accepts.
pub const MAX_VERSION: u32 = 17;

/// The version that is accepted if none is proposed that the server knows.
pub const DEFAULT_VERSION: u16 = 16;

/// The network magic that is assumed if none is proposed: that of mainnet.
pub const DEFAULT_MAGIC: u64 = 764824073;

// ---------------------------------------------------------------------------
// Version negotiation
// ---------------------------------------------------------------------------

/// The highest of the proposed versions up to `MAX_VERSION`, 0 where there is none.
pub open spec fn highest_of(wires: Seq<u32>) -> u16
    decreases wires.len(),
{
    if wires.len() == 0 {
        0
    } else {
        let best = highest_of(wires.drop_last());
        let v = wires.last();
        if v <= MAX_VERSION && v > best {
            v as u16
        } else {
            best
        }
    }
}

/// The highest version of the proposal `b` that the server knows.
pub open spec fn highest_version(b: Seq<u8>) -> Option<u16> {
    match handshake::proposal_entries(b) {
        Some((n, p)) => match handshake::proposed(b, p, n) {
            Some(wires) if highest_of(wires) > 0 => Some(highest_of(wires)),
            _ => None,
        },
        None => None,
    }
}

/// No proposed version that the server knows is higher than the highest one, which is
/// itself proposed if there is any above 0.
pub proof fn lemma_highest_of(wires: Seq<u32>)
    ensures
        forall|i: int|
            0 <= i < wires.len() && #[trigger] wires[i] <= MAX_VERSION ==> wires[i] <= highest_of(
                wires,
            ),
        highest_of(wires) > 0 ==> wires.contains(highest_of(wires) as u32),
        highest_of(wires) <= MAX_VERSION,
    decreases wires.len(),
{
    if wires.len() > 0 {
        let init = wires.drop_last();
        lemma_highest_of(init);
        assert(wires[wires.len() - 1] == wires.last());
        assert forall|i: int| 0 <= i < wires.len() && #[trigger] wires[i]
            <= MAX_VERSION implies wires[i] <= highest_of(wires) by {
            if i < init.len() {
                assert(init[i] == wires[i]);
            }
        }
        if highest_of(init) > 0 {
            let j = choose|j: int| 0 <= j < init.len() && init[j] == highest_of(init) as u32;
            assert(wires[j] == highest_of(init) as u32);
        }
    }
}

/// The highest proposed version that the server knows.
pub fn parse_highest_version(payload: &[u8]) -> (r: Option<u16>)
    ensures
        r == highest_version(payload@),
{
    let mut pos: usize = 0;
    if get_array(payload, &mut pos).is_err() {
        return None;
    }
    if get_u32(payload, &mut pos).is_err() {
        return None;
    }
    let n: u64 = match get_map(payload, &mut pos) {
        Ok(Some(n)) => n,
        _ => {
            return None;
        },
    };
    let mut highest: u16 = 0;
    let mut i: u64 = 0;
    let ghost mut seen: Seq<u32> = Seq::empty();
    proof {
        if let Some(wires) = handshake::proposed(payload@, pos as int, n as nat) {
            assert(seen + wires =~= wires);
        }
    }
    while i < n
        invariant
            i <= n,
            highest == highest_of(seen),
            highest <= MAX_VERSION,
            highest_version(payload@) == (match handshake::proposed(
                payload@,
                pos as int,
                (n - i) as nat,
            ) {
                Some(rest) if highest_of(seen + rest) > 0 => Some(highest_of(seen + rest)),
                _ => None,
            }),
        decreases n - i,
    {
        let ghost before = seen;
        if let Ok(v) = get_u32(payload, &mut pos) {
            if v <= MAX_VERSION && v > highest as u32 {
                highest = v as u16;
            }
            proof {
                seen = seen.push(v);
                assert(seen.drop_last() =~= before);
            }
        }
        if skip_item(payload, &mut pos).is_err() {
            return None;
        }
        proof {
            if let Some(rest) = handshake::proposed(payload@, pos as int, (n - i - 1) as nat) {
                if seen.len() > before.len() {
                    assert(before + (seq![seen.last()] + rest) =~= seen + rest);
                }
            }
        }
        i += 1;
    }
    assert(seen + Seq::<u32>::empty() =~= seen);
    if highest > 0 {
        Some(highest)
    } else {
        None
    }
}

/// MsgAcceptVersion: `[1, version, [magic, false]]`.
pub open spec fn accept_version_bytes(version: u16, magic: u64) -> Seq<u8> {
    cbor::array_head(3)
        + cbor::uint(1)
        + cbor::uint(version as nat)
        + (cbor::array_head(2) + cbor::uint(magic as nat) + cbor::bool_item(false))
}

/// The answer to the proposal `b`.
pub open spec fn handshake_bytes(b: Seq<u8>) -> Seq<u8> {
    accept_version_bytes(
        match highest_version(b) {
            Some(v) => v,
            None => DEFAULT_VERSION,
        },
        match handshake::magic(b) {
            Some(m) => m,
            None => DEFAULT_MAGIC,
        },
    )
}

/// Answers the message with which a client proposes versions. It is always accepted.
pub fn handle_handshake(payload: &[u8]) -> (r: Result<Option<Segment>, N2CServerError>)
    ensures
        message::outcome(r) == message::Outcome::Reply(
            message::reply_view(MINI_PROTOCOL_HANDSHAKE, handshake_bytes(payload@)),
        ),
{
    let magic: u64 = match parse_handshake_magic(payload) {
        Some(m) => m,
        None => DEFAULT_MAGIC,
    };
    let version: u16 = match parse_highest_version(payload) {
        Some(v) => v,
        None => DEFAULT_VERSION,
    };
    let mut buf: Vec<u8> = Vec::new();
    put_array(&mut buf, 3);
    put_u32(&mut buf, 1);
    put_u32(&mut buf, version as u32);
    put_array(&mut buf, 2);
    put_u64(&mut buf, magic);
    put_bool(&mut buf, false);
    assert(buf@ =~= handshake_bytes(payload@));
    Ok(Some(reply(MINI_PROTOCOL_HANDSHAKE, buf)))
}

// ---------------------------------------------------------------------------
// LocalTxSubmission
// ---------------------------------------------------------------------------

/// The transaction `[era, tx]` at `p`, the era cut to 16 bits.
pub open spec fn submitted_tx(b: Seq<u8>, p: int) -> Option<(u16, Seq<u8>)> {
    let a = cbor::len_at(b, p, 4);
    let era = cbor::uint_at(b, a.end, u32::MAX as nat);
    let tx = cbor::bytes_at(b, era.end);
    if a.value is Some && era.value is Some && tx.value is Some {
        Some(((era.value->0 % 0x1_0000) as u16, tx.value->0))
    } else {
        None
    }
}

/// Reads a submitted transaction.
pub fn extract_submitted_tx(payload: &[u8], start: usize) -> (r: Option<(u16, Vec<u8>)>)
    ensures
        match r {
            Some(t) => submitted_tx(payload@, start as int) == Some((t.0, t.1@)),
            None => submitted_tx(payload@, start as int) is None,
        },
{
    let mut pos: usize = start;
    if get_array(payload, &mut pos).is_err() {
        return None;
    }
    let era: u32 = match get_u32(payload, &mut pos) {
        Ok(n) => n,
        Err(_) => {
            return None;
        },
    };
    match get_bytes(payload, &mut pos) {
        Ok(tx) => {
            let cut: u32 = era % 0x1_0000;
            Some((cut as u16, slice_to_vec(tx)))
        },
        Err(_) => None,
    }
}

/// MsgAcceptTx: `[1]`.
pub open spec fn accept_bytes() -> Seq<u8> {
    cbor::array_head(1) + cbor::uint(1)
}

/// MsgRejectTx: `[2, [reason]]`.
pub open spec fn reject_bytes(reason: Seq<char>) -> Seq<u8> {
    cbor::array_head(2) + cbor::uint(2) + (cbor::array_head(1) + cbor::text_item(reason))
}

/// MsgAcceptTx.
pub fn encode_tx_accept() -> (r: Result<Option<Segment>, N2CServerError>)
    ensures
        message::outcome(r) == message::Outcome::Reply(
            message::reply_view(MINI_PROTOCOL_TX_SUBMISSION, accept_bytes()),
        ),
{
    let mut buf: Vec<u8> = Vec::new();
    put_array(&mut buf, 1);
    put_u32(&mut buf, 1);
    assert(buf@ =~= accept_bytes());
    Ok(Some(reply(MINI_PROTOCOL_TX_SUBMISSION, buf)))
}

/// MsgRejectTx.
pub fn encode_tx_reject(reason: &str) -> (r: Result<Option<Segment>, N2CServerError>)
    ensures
        message::outcome(r) == message::Outcome::Reply(
            message::reply_view(MINI_PROTOCOL_TX_SUBMISSION, reject_bytes(reason@)),
        ),
{
    let mut buf: Vec<u8> = Vec::new();
    put_array(&mut buf, 2);
    put_u32(&mut buf, 2);
    put_array(&mut buf, 1);
    put_str(&mut buf, reason);
    assert(buf@ =~= reject_bytes(reason@));
    Ok(Some(reply(MINI_PROTOCOL_TX_SUBMISSION, buf)))
}

/// What validator and mempool make of a transaction.
pub enum Verdict {
    /// The validator complains.
    Invalid(Seq<char>),
    /// What the mempool says.
    Pooled(AddTxOutcome),
}

/// The answer to a submitted transaction.
pub open spec fn verdict_bytes(v: Verdict) -> Seq<u8> {
    match v {
        Verdict::Invalid(m) => reject_bytes(m),
        Verdict::Pooled(AddTxOutcome::Added) => accept_bytes(),
        Verdict::Pooled(AddTxOutcome::AlreadyExists) => accept_bytes(),
        Verdict::Pooled(AddTxOutcome::Undecodable(m)) => reject_bytes(
            "Failed to decode transaction: "@ + m@,
        ),
        Verdict::Pooled(AddTxOutcome::Refused(m)) => reject_bytes(m@),
    }
}

/// What the message `b` leads to, if a transaction in it gets the verdict `v`.
pub open spec fn submission_outcome(b: Seq<u8>, v: Verdict) -> message::Outcome {
    match message::msg_tag(b) {
        message::MsgTag::Tag(tag, end) => if tag == 0 {
            message::Outcome::Reply(
                message::reply_view(
                    MINI_PROTOCOL_TX_SUBMISSION,
                    match submitted_tx(b, end) {
                        Some(_) => verdict_bytes(v),
                        None => reject_bytes("Failed to decode submitted transaction"@),
                    },
                ),
            )
        } else {
            message::Outcome::Silent
        },
        message::MsgTag::Invalid => message::Outcome::ProtocolError(
            "invalid tx submission message"@,
        ),
        message::MsgTag::Bad(m) => message::Outcome::ProtocolError(
            "bad tx submission msg tag: "@ + m,
        ),
    }
}

/// The transaction that the message `b` submits, if it submits one.
pub open spec fn submission_in(b: Seq<u8>) -> Option<(u16, Seq<u8>)> {
    match message::msg_tag(b) {
        message::MsgTag::Tag(tag, end) if tag == 0 => submitted_tx(b, end),
        _ => None,
    }
}

/// Whether validator and mempool may come to the verdict `v`. The mempool is asked only
/// if the validator, if there is one, does not complain.
pub open spec fn may_decide<V: TxValidator, M: MempoolProvider>(
    mempool: &M,
    tx_validator: Option<&V>,
    era_id: u16,
    tx: Seq<u8>,
    v: Verdict,
) -> bool {
    match v {
        Verdict::Invalid(m) => tx_validator matches Some(x) && x.may_judge(era_id, tx, Some(m)),
        Verdict::Pooled(o) => {
            &&& tx_validator matches Some(x) ==> x.may_judge(era_id, tx, None)
            &&& mempool.may_add(era_id, tx, o)
        },
    }
}

/// Whether the mempool may be offered the transaction that the message `b` submits, if it
/// submits one, once the validator, if there is one, has let it pass. Nothing else may be
/// offered on account of the message.
pub open spec fn admits<V: TxValidator, M: MempoolProvider>(
    mempool: &M,
    tx_validator: Option<&V>,
    b: Seq<u8>,
) -> bool {
    submission_in(b) matches Some(t) ==> {
        (tx_validator matches Some(v) ==> v.may_judge(t.0, t.1, None))
            ==> mempool.may_be_offered(t.0, t.1)
    }
}

/// Answers a message of LocalTxSubmission. A submitted transaction is validated, if
/// there is a validator, and handed to the mempool if it passes.
pub fn handle_tx_submission<V: TxValidator, M: MempoolProvider>(
    payload: &[u8],
    mempool: &M,
    tx_validator: Option<&V>,
) -> (r: Result<Option<Segment>, N2CServerError>)
    requires
        admits(mempool, tx_validator, payload@),
    ensures
        exists|v: Verdict|
            {
                &&& message::outcome(r) == #[trigger] submission_outcome(payload@, v)
                &&& submission_in(payload@) matches Some(tx) ==> may_decide(
                    mempool,
                    tx_validator,
                    tx.0,
                    tx.1,
                    v,
                )
            },
{
    let mut pos: usize = 0;
    let tag: u32 = match read_msg_tag(
        payload,
        &mut pos,
        "invalid tx submission message",
        "bad tx submission msg tag: ",
    ) {
        Ok(tag) => tag,
        Err(e) => {
            assert(message::failure(e) == submission_outcome(
                payload@,
                Verdict::Invalid(Seq::empty()),
            ));
            return Err(e);
        },
    };
    if tag != 0 {
        assert(submission_outcome(payload@, Verdict::Invalid(Seq::empty()))
            == message::Outcome::Silent);
        return Ok(None);
    }
    let (era_id, tx) = match extract_submitted_tx(payload, pos) {
        Some(t) => t,
        None => {
            let r = encode_tx_reject("Failed to decode submitted transaction");
            assert(message::outcome(r) == submission_outcome(
                payload@,
                Verdict::Invalid(Seq::empty()),
            ));
            return r;
        },
    };
    if let Some(v) = tx_validator {
        if let Err(e) = v.validate_tx(era_id, tx.as_slice()) {
            let r = encode_tx_reject(e.as_str());
            assert(message::outcome(r) == submission_outcome(payload@, Verdict::Invalid(e@)));
            return r;
        }
    }
    let o = mempool.add_tx(era_id, tx.as_slice());
    let r = match &o {
        AddTxOutcome::Added => encode_tx_accept(),
        AddTxOutcome::AlreadyExists => encode_tx_accept(),
        AddTxOutcome::Undecodable(m) => {
            let mut reason = String::from_str("Failed to decode transaction: ");
            push_text(&mut reason, m.as_str());
            encode_tx_reject(reason.as_str())
        },
        AddTxOutcome::Refused(m) => encode_tx_reject(m.as_str()),
    };
    assert(message::outcome(r) == submission_outcome(payload@, Verdict::Pooled(o)));
    r
}

// ---------------------------------------------------------------------------
// LocalTxMonitor
// ---------------------------------------------------------------------------

/// MsgAcquired: `[1, 0]`.
pub open spec fn acquired_bytes() -> Seq<u8> {
    cbor::array_head(2) + cbor::uint(1) + cbor::uint(0)
}

/// MsgHasTxReply: `[5, bool]`.
pub open spec fn has_tx_bytes(has: bool) -> Seq<u8> {
    cbor::array_head(2) + cbor::uint(5) + cbor::bool_item(has)
}

/// MsgNextTxReply: `[7, null]` or `[7, [6, tx]]`.
pub open spec fn next_tx_bytes(tx: Option<Seq<u8>>) -> Seq<u8> {
    cbor::array_head(2) + cbor::uint(7) + match tx {
        Some(t) => cbor::array_head(2) + cbor::uint(6) + cbor::bytes_item(t),
        None => cbor::null_item(),
    }
}

/// MsgGetSizesReply: `[9, [capacity, bytes, txs]]`.
pub open spec fn sizes_bytes(capacity: usize, bytes: usize, txs: usize) -> Seq<u8> {
    cbor::array_head(2)
        + cbor::uint(9)
        + (cbor::array_head(3)
            + cbor::uint(capacity as nat)
            + cbor::uint(bytes as nat)
            + cbor::uint(txs as nat))
}

/// What a mempool may answer to the questions that a message leads to.
pub struct MonitorAnswers {
    pub has: bool,
    /// The first transaction, and its bytes.
    pub first: Option<[u8; 32]>,
    pub body: Option<Seq<u8>>,
    pub capacity: usize,
    pub total_bytes: usize,
    pub len: usize,
}

/// The transaction id at `p`, empty where there is none.
pub open spec fn asked_id(b: Seq<u8>, p: int) -> Seq<u8> {
    match cbor::bytes_at(b, p).value {
        Some(id) => id,
        None => Seq::empty(),
    }
}

/// What the message `b` leads to, if the mempool gives the answers `a`.
pub open spec fn monitor_outcome(b: Seq<u8>, a: MonitorAnswers) -> message::Outcome {
    match message::msg_tag(b) {
        message::MsgTag::Tag(tag, end) => if tag == 0 {
            message::Outcome::Reply(message::reply_view(MINI_PROTOCOL_TX_MONITOR, acquired_bytes()))
        } else if tag == 4 {
            message::Outcome::Reply(
                message::reply_view(
                    MINI_PROTOCOL_TX_MONITOR,
                    has_tx_bytes(asked_id(b, end).len() == 32 && a.has),
                ),
            )
        } else if tag == 6 {
            message::Outcome::Reply(
                message::reply_view(
                    MINI_PROTOCOL_TX_MONITOR,
                    next_tx_bytes(
                        if a.first is Some {
                            a.body
                        } else {
                            None
                        },
                    ),
                ),
            )
        } else if tag == 8 {
            message::Outcome::Reply(
                message::reply_view(
                    MINI_PROTOCOL_TX_MONITOR,
                    sizes_bytes(a.capacity, a.total_bytes, a.len),
                ),
            )
        } else {
            message::Outcome::Silent
        },
        message::MsgTag::Invalid => message::Outcome::ProtocolError("invalid tx monitor message"@),
        message::MsgTag::Bad(m) => message::Outcome::ProtocolError("bad tx monitor msg tag: "@ + m),
    }
}

/// Whether the mempool may give these answers to the questions that the message `b`
/// leads to.
pub open spec fn may_monitor<M: MempoolProvider>(
    mempool: &M,
    b: Seq<u8>,
    a: MonitorAnswers,
) -> bool {
    match message::msg_tag(b) {
        message::MsgTag::Tag(tag, end) => {
            &&& tag == 4 && asked_id(b, end).len() == 32 ==> mempool.may_contain(
                asked_id(b, end),
                a.has,
            )
            &&& tag == 6 ==> {
                &&& mempool.may_start_with(a.first)
                &&& a.first matches Some(h) ==> mempool.may_hold(h@, a.body)
            }
            &&& tag == 8 ==> {
                &&& mempool.may_fit(a.capacity)
                &&& mempool.may_weigh(a.total_bytes)
                &&& mempool.may_count(a.len)
            }
        },
        _ => true,
    }
}

/// Answers a message of LocalTxMonitor.
pub fn handle_tx_monitor<M: MempoolProvider>(payload: &[u8], mempool: &M) -> (r: Result<
    Option<Segment>,
    N2CServerError,
>)
    ensures
        exists|a: MonitorAnswers|
            {
                &&& message::outcome(r) == #[trigger] monitor_outcome(payload@, a)
                &&& may_monitor(mempool, payload@, a)
            },
{
    let mut pos: usize = 0;
    let ghost mut a = MonitorAnswers {
        has: false,
        first: None,
        body: None,
        capacity: 0,
        total_bytes: 0,
        len: 0,
    };
    let tag: u32 = match read_msg_tag(
        payload,
        &mut pos,
        "invalid tx monitor message",
        "bad tx monitor msg tag: ",
    ) {
        Ok(tag) => tag,
        Err(e) => {
            assert(message::failure(e) == monitor_outcome(payload@, a));
            return Err(e);
        },
    };
    let mut buf: Vec<u8> = Vec::new();
    if tag == 0 {
        put_array(&mut buf, 2);
        put_u32(&mut buf, 1);
        put_u64(&mut buf, 0);
        assert(buf@ =~= acquired_bytes());
    } else if tag == 4 {
        let mut has: bool = false;
        if let Ok(id) = get_bytes(payload, &mut pos) {
            if id.len() == 32 {
                has = mempool.contains(&to_hash(id));
            }
        }
        proof {
            a = MonitorAnswers { has, ..a };
        }
        put_array(&mut buf, 2);
        put_u32(&mut buf, 5);
        put_bool(&mut buf, has);
        assert(buf@ =~= has_tx_bytes(has));
    } else if tag == 6 {
        let first = mempool.first_tx_hash();
        let mut body: Option<Vec<u8>> = None;
        if let Some(h) = first {
            body = mempool.get_tx_cbor(&h);
        }
        proof {
            a = MonitorAnswers { first, body: mempool::opt_bytes(body), ..a };
        }
        put_array(&mut buf, 2);
        put_u32(&mut buf, 7);
        match &body {
            Some(t) => {
                put_array(&mut buf, 2);
                put_u32(&mut buf, 6);
                put_bytes(&mut buf, t.as_slice());
            },
            None => put_null(&mut buf),
        }
        assert(buf@ =~= next_tx_bytes(mempool::opt_bytes(body)));
    } else if tag == 8 {
        let len: usize = mempool.len();
        let total_bytes: usize = mempool.total_bytes();
        let capacity: usize = mempool.capacity();
        proof {
            a = MonitorAnswers { capacity, total_bytes, len, ..a };
        }
        put_array(&mut buf, 2);
        put_u32(&mut buf, 9);
        put_array(&mut buf, 3);
        put_u64(&mut buf, capacity as u64);
        put_u64(&mut buf, total_bytes as u64);
        put_u64(&mut buf, len as u64);
        assert(buf@ =~= sizes_bytes(capacity, total_bytes, len));
    } else {
        assert(monitor_outcome(payload@, a) == message::Outcome::Silent);
        return Ok(None);
    }
    let r: Result<Option<Segment>, N2CServerError> = Ok(Some(reply(MINI_PROTOCOL_TX_MONITOR, buf)));
    assert(message::outcome(r) == monitor_outcome(payload@, a));
    r
}

// ---------------------------------------------------------------------------
// LocalChainSync
// ---------------------------------------------------------------------------

/// What the message `b` leads to. A client always waits for the next block.
pub open spec fn chainsync_outcome(b: Seq<u8>, tip: TipInfo) -> message::Outcome {
    match message::msg_tag(b) {
        message::MsgTag::Tag(tag, end) => if tag == 0 {
            chain_sync::sync_reply(chain_sync::await_bytes())
        } else if tag == 4 {
            chain_sync::sync_reply(
                chain_sync::intersect_bytes(
                    chain_sync::at_tip(chain_sync::client_points(b, end), tip.slot, tip.hash@),
                    tip,
                ),
            )
        } else {
            message::Outcome::Silent
        },
        message::MsgTag::Invalid => message::Outcome::ProtocolError("invalid chainsync message"@),
        message::MsgTag::Bad(m) => message::Outcome::ProtocolError("bad chainsync msg tag: "@ + m),
    }
}

/// Answers a message of LocalChainSync. `tip` is the tip of the ledger.
pub fn handle_local_chainsync(payload: &[u8], tip: &TipInfo) -> (r: Result<
    Option<Segment>,
    N2CServerError,
>)
    ensures
        message::outcome(r) == chainsync_outcome(payload@, *tip),
{
    let mut pos: usize = 0;
    let tag: u32 = match read_msg_tag(
        payload,
        &mut pos,
        "invalid chainsync message",
        "bad chainsync msg tag: ",
    ) {
        Ok(tag) => tag,
        Err(e) => {
            return Err(e);
        },
    };
    if tag == 0 {
        Ok(Some(chain_sync::await_reply()))
    } else if tag == 4 {
        let found = find_tip(payload, pos, tip);
        Ok(Some(chain_sync::intersect_reply(&found, tip)))
    } else {
        Ok(None)
    }
}

// ---------------------------------------------------------------------------
// LocalStateQuery
// ---------------------------------------------------------------------------

/// What the message `b` leads to. Tag 0 acquires, 5 acquires again, 3 asks, and any
/// other tag needs no answer.
pub open spec fn state_query_step(b: Seq<u8>, r: Result<StateQueryStep, N2CServerError>) -> bool {
    match message::msg_tag(b) {
        message::MsgTag::Tag(tag, _) => if tag == 0 || tag == 5 {
            r matches Ok(StateQueryStep::Reply(s)) && s@ == message::reply_view(
                MINI_PROTOCOL_STATE_QUERY,
                state_query::acquired_bytes(),
            )
        } else if tag == 3 {
            r matches Ok(StateQueryStep::Query)
        } else {
            r matches Ok(StateQueryStep::Silent)
        },
        message::MsgTag::Invalid => r matches Err(e) && message::failure(e)
            == message::Outcome::ProtocolError("invalid state query message"@),
        message::MsgTag::Bad(m) => r matches Err(e) && message::failure(e)
            == message::Outcome::ProtocolError("bad msg tag: "@ + m),
    }
}

/// Decides what a message of LocalStateQuery leads to.
pub fn handle_state_query(payload: &[u8]) -> (r: Result<StateQueryStep, N2CServerError>)
    ensures
        state_query_step(payload@, r),
{
    let mut pos: usize = 0;
    let tag: u32 = match read_msg_tag(
        payload,
        &mut pos,
        "invalid state query message",
        "bad msg tag: ",
    ) {
        Ok(tag) => tag,
        Err(e) => {
            return Err(e);
        },
    };
    if tag == 0 || tag == 5 {
        let mut buf: Vec<u8> = Vec::new();
        put_array(&mut buf, 1);
        put_u32(&mut buf, 1);
        assert(buf@ =~= state_query::acquired_bytes());
        Ok(StateQueryStep::Reply(reply(MINI_PROTOCOL_STATE_QUERY, buf)))
    } else if tag == 3 {
        Ok(StateQueryStep::Query)
    } else {
        Ok(StateQueryStep::Silent)
    }
}

/// The reply that carries the result of a query.
pub fn query_reply(result: &QueryResult) -> (r: Segment)
    ensures
        r@ == message::reply_view(MINI_PROTOCOL_STATE_QUERY, query::result_bytes(*result)),
{
    reply(MINI_PROTOCOL_STATE_QUERY, encode_query_result(result))
}

// ---------------------------------------------------------------------------
// Segments
// ---------------------------------------------------------------------------

/// Whether a segment may lead to `r`.
pub open spec fn may_lead<M: MempoolProvider, V: TxValidator>(
    g: SegmentView,
    tip: TipInfo,
    mempool: &M,
    tx_validator: Option<&V>,
    r: Result<StateQueryStep, N2CServerError>,
) -> bool {
    let o = connection::step_outcome(r);
    let b = g.payload;
    &&& g.protocol_id != MINI_PROTOCOL_STATE_QUERY ==> !(r matches Ok(StateQueryStep::Query))
    &&& if g.protocol_id == MINI_PROTOCOL_HANDSHAKE {
        o == message::Outcome::Reply(
            message::reply_view(MINI_PROTOCOL_HANDSHAKE, handshake_bytes(b)),
        )
    } else if g.protocol_id == MINI_PROTOCOL_STATE_QUERY {
        state_query_step(b, r)
    } else if g.protocol_id == MINI_PROTOCOL_TX_SUBMISSION {
        exists|v: Verdict|
            {
                &&& o == #[trigger] submission_outcome(b, v)
                &&& submission_in(b) matches Some(tx) ==> may_decide(
                    mempool,
                    tx_validator,
                    tx.0,
                    tx.1,
                    v,
                )
            }
    } else if g.protocol_id == MINI_PROTOCOL_TX_MONITOR {
        exists|a: MonitorAnswers|
            {
                &&& o == #[trigger] monitor_outcome(b, a)
                &&& may_monitor(mempool, b, a)
            }
    } else if g.protocol_id == MINI_PROTOCOL_CHAINSYNC {
        o == chainsync_outcome(b, tip)
    } else {
        o == message::Outcome::Silent
    }
}

/// Whether the mempool may be offered what a segment submits, if it submits something
/// and the validator lets it pass.
pub open spec fn admits_segment<M: MempoolProvider, V: TxValidator>(
    mempool: &M,
    tx_validator: Option<&V>,
    g: SegmentView,
) -> bool {
    g.protocol_id == MINI_PROTOCOL_TX_SUBMISSION ==> admits(mempool, tx_validator, g.payload)
}

/// Hands a segment of a client to its mini-protocol. Segments of unknown mini-protocols
/// are passed over.
pub fn process_segment<M: MempoolProvider, V: TxValidator>(
    segment: &Segment,
    tip: &TipInfo,
    mempool: &M,
    tx_validator: Option<&V>,
) -> (r: Result<StateQueryStep, N2CServerError>)
    requires
        admits_segment(mempool, tx_validator, segment@),
    ensures
        may_lead(segment@, *tip, mempool, tx_validator, r),
{
    let payload = segment.payload.as_slice();
    if segment.protocol_id == MINI_PROTOCOL_HANDSHAKE {
        stepped(handle_handshake(payload))
    } else if segment.protocol_id == MINI_PROTOCOL_STATE_QUERY {
        handle_state_query(payload)
    } else if segment.protocol_id == MINI_PROTOCOL_TX_SUBMISSION {
        stepped(handle_tx_submission(payload, mempool, tx_validator))
    } else if segment.protocol_id == MINI_PROTOCOL_TX_MONITOR {
        stepped(handle_tx_monitor(payload, mempool))
    } else if segment.protocol_id == MINI_PROTOCOL_CHAINSYNC {
        stepped(handle_local_chainsync(payload, tip))
    } else {
        stepped(Ok(None))
    }
}

// ---------------------------------------------------------------------------
// The life of a connection
// ---------------------------------------------------------------------------

/// A connection to a client. A segment has to arrive in one piece.
#[derive(Debug)]
pub struct PlainConnection {
    pub buffer: ReceiveBuffer,
}

/// Whether going on with the bytes `b` may leave `b2` and lead to `r`: the first segment
/// is taken out and handed to its mini-protocol, and where there is none, there is nothing
/// to do but wait.
pub open spec fn may_go_on<M: MempoolProvider, V: TxValidator>(
    tip: TipInfo,
    mempool: &M,
    tx_validator: Option<&V>,
    b: Seq<u8>,
    b2: Seq<u8>,
    r: Result<ClientStep, N2CServerError>,
) -> bool {
    match multiplexer::segment_at(b) {
        Some((g, n)) => {
            &&& b2 == b.skip(n)
            &&& may_lead(g, tip, mempool, tx_validator, connection::segment_step(r))
            &&& connection::handles(r, g.payload)
        },
        None => b2 == b && r matches Ok(ClientStep::Wait),
    }
}

impl PlainConnection {
    /// A connection that was just opened.
    pub fn new() -> (r: PlainConnection)
        ensures
            r.buffer.pending@ == Seq::<u8>::empty(),
    {
        PlainConnection { buffer: ReceiveBuffer::new() }
    }

    /// Goes on with what the client sent.
    pub fn go_on<M: MempoolProvider, V: TxValidator>(
        &mut self,
        tip: &TipInfo,
        mempool: &M,
        tx_validator: Option<&V>,
    ) -> (r: Result<ClientStep, N2CServerError>)
        requires
            multiplexer::segment_at(old(self).buffer.pending@) matches Some((g, _))
                ==> admits_segment(mempool, tx_validator, g),
        ensures
            may_go_on(
                *tip,
                mempool,
                tx_validator,
                old(self).buffer.pending@,
                final(self).buffer.pending@,
                r,
            ),
    {
        match self.buffer.next_segment() {
            Some(segment) => {
                let r = process_segment(&segment, tip, mempool, tx_validator);
                client_step(r, segment.payload)
            },
            None => Ok(ClientStep::Wait),
        }
    }

    /// Takes on what the client sent, in place of anything that was left of what it sent
    /// before. A client that sends nothing has closed the connection.
    pub fn received<M: MempoolProvider, V: TxValidator>(
        &mut self,
        data: &[u8],
        tip: &TipInfo,
        mempool: &M,
        tx_validator: Option<&V>,
    ) -> (r: Result<ClientStep, N2CServerError>)
        requires
            multiplexer::segment_at(data@) matches Some((g, _)) ==> admits_segment(
                mempool,
                tx_validator,
                g,
            ),
        ensures
            if data@.len() == 0 {
                &&& r matches Ok(ClientStep::End)
                &&& *final(self) == *old(self)
            } else {
                may_go_on(*tip, mempool, tx_validator, data@, final(self).buffer.pending@, r)
            },
    {
        if data.len() == 0 {
            return Ok(ClientStep::End);
        }
        self.buffer = ReceiveBuffer::new();
        self.buffer.push(data);
        assert(self.buffer.pending@ =~= data@);
        self.go_on(tip, mempool, tx_validator)
    }
}

// ---------------------------------------------------------------------------
// Laws
// ---------------------------------------------------------------------------

/// The answers of the plain server are read as they are meant: an acceptance of a version, of a
/// transaction, its rejection with a reason, and what the monitor tells.
pub proof fn lemma_answers_are_read(
    version: u16,
    magic: u64,
    reason: Seq<char>,
    has: bool,
    tx: Seq<u8>,
    capacity: usize,
    bytes: usize,
    txs: usize,
)
    requires
        vstd::utf8::encode_utf8(reason).len() <= u64::MAX,
        tx.len() <= u64::MAX,
    ensures
        words::spells(
            accept_version_bytes(version, magic),
            words::arr(3) + words::num(1) + words::num(version as nat) + (words::arr(2)
                + words::num(magic as nat) + words::truth(false)),
        ),
        words::spells(accept_bytes(), words::arr(1) + words::num(1)),
        words::spells(
            reject_bytes(reason),
            words::arr(2) + words::num(2) + (words::arr(1) + words::txt(reason)),
        ),
        words::spells(acquired_bytes(), words::arr(2) + words::num(1) + words::num(0)),
        words::spells(has_tx_bytes(has), words::arr(2) + words::num(5) + words::truth(has)),
        words::spells(
            next_tx_bytes(Some(tx)),
            words::arr(2) + words::num(7) + (words::arr(2) + words::num(6) + words::bin(tx)),
        ),
        words::spells(next_tx_bytes(None), words::arr(2) + words::num(7) + words::null()),
        words::spells(
            sizes_bytes(capacity, bytes, txs),
            words::arr(2) + words::num(9) + (words::arr(3) + words::num(capacity as nat)
                + words::num(bytes as nat) + words::num(txs as nat)),
        ),
{
    broadcast use words::group_words;

}

/// A proposal is accepted with the highest proposed version up to 17, or with 16 where there is
/// none, and with the magic that the client sent, or that of mainnet where it sent none.
pub proof fn lemma_which_version_is_accepted(b: Seq<u8>, p: int, wires: Seq<u32>)
    requires
        words::reads(b, 0, words::arr(2) + words::num(0) + words::dict(wires.len()), p),
        handshake::are_proposed(b, p, wires),
    ensures
        exists|version: u16, magic: u64|
            {
                &&& handshake_bytes(b) == #[trigger] accept_version_bytes(version, magic)
                &&& magic == (match handshake::magic(b) {
                    Some(m) => m,
                    None => 764824073,
                })
                &&& if exists|i: int| 0 <= i < wires.len() && 0 < (#[trigger] wires[i]) <= 17 {
                    &&& wires.contains(version as u32) && version <= 17
                    &&& forall|i: int|
                        0 <= i < wires.len() && (#[trigger] wires[i]) <= 17 ==> wires[i] <= version
                } else {
                    version == 16
                }
            },
{
    handshake::lemma_proposal_is_read(b, p, wires);
    lemma_highest_of(wires);
    let version = match highest_version(b) {
        Some(v) => v,
        None => 16,
    };
    let magic = match handshake::magic(b) {
        Some(m) => m,
        None => 764824073,
    };
    assert(handshake_bytes(b) == accept_version_bytes(version, magic));
    if exists|i: int| 0 <= i < wires.len() && 0 < (#[trigger] wires[i]) <= 17 {
        let i = choose|i: int| 0 <= i < wires.len() && 0 < (#[trigger] wires[i]) <= 17;
        assert(wires[i] <= highest_of(wires));
    } else if highest_of(wires) > 0 {
        let j = choose|j: int| 0 <= j < wires.len() && wires[j] == highest_of(wires) as u32;
        assert(0 < wires[j] <= 17);
    }
}

/// A message that submits a transaction in its era submits just that transaction; an era beyond
/// 16 bits is cut.
pub proof fn lemma_submission_is_read(b: Seq<u8>, era: u32, tx: Seq<u8>)
    requires
        words::spells(
            b,
            words::arr(2) + words::num(0) + (words::arr(2) + words::num(era as nat) + words::bin(
                tx,
            )),
        ),
    ensures
        submission_in(b) == Some(((era % 0x1_0000) as u16, tx)),
{
    reveal(words::spells);
    let q = b.len() as int;
    let m = words::lemma_reads_split(
        b,
        0,
        words::arr(2) + words::num(0),
        words::arr(2) + words::num(era as nat) + words::bin(tx),
        q,
    );
    message::lemma_tag_is_read(b, 2, 0, m);
    let k = words::lemma_reads_split(
        b,
        m,
        words::arr(2) + words::num(era as nat),
        words::bin(tx),
        q,
    );
    let j = words::lemma_reads_split(b, m, words::arr(2), words::num(era as nat), k);
    words::lemma_array_at(b, m, 2, j);
    words::lemma_number_at(b, j, era as nat, k);
    words::lemma_bytes_at(b, k, tx, q);
}

/// A submitted transaction is accepted exactly where the mempool added it or had it; else it is
/// rejected with the complaint of the validator, or with what the mempool says.
pub proof fn lemma_verdicts(v: Verdict)
    ensures
        match v {
            Verdict::Invalid(m) => verdict_bytes(v) == reject_bytes(m),
            Verdict::Pooled(AddTxOutcome::Added) => verdict_bytes(v) == accept_bytes(),
            Verdict::Pooled(AddTxOutcome::AlreadyExists) => verdict_bytes(v) == accept_bytes(),
            Verdict::Pooled(AddTxOutcome::Undecodable(m)) => verdict_bytes(v) == reject_bytes(
                "Failed to decode transaction: "@ + m@,
            ),
            Verdict::Pooled(AddTxOutcome::Refused(m)) => verdict_bytes(v) == reject_bytes(m@),
        },
{
}

/// A client that asks for the next block always has to wait; one that asks for an intersection
/// is told of the tip exactly where that is in its list.
pub proof fn lemma_only_the_tip_is_known(
    b: Seq<u8>,
    points: Seq<chain_sync::ClientPoint>,
    tip: TipInfo,
)
    requires
        forall|i: int| 0 <= i < points.len() ==> !((#[trigger] points[i]) is Malformed),
        words::spells(b, chain_sync::find_intersect_words(points)),
    ensures
        chainsync_outcome(b, tip) matches message::Outcome::Reply(g) && g.protocol_id == 5 && if points.contains(
            chain_sync::ClientPoint::At(tip.slot, tip.hash@),
        ) {
            chain_sync::names_point(g.payload, tip.slot, tip.hash@, tip)
        } else {
            chain_sync::names_no_point(g.payload, tip)
        },
{
    let end = chain_sync::lemma_request_is_read(b, points);
    chain_sync::lemma_intersection_is_read(
        chain_sync::at_tip(points, tip.slot, tip.hash@),
        tip,
    );
}

/// All that a mempool has to be ready for on account of a message is the transaction that the
/// message submits, and that only if the validator, if there is one, may let it pass.
pub proof fn lemma_only_what_passed_is_offered<V: TxValidator, M: MempoolProvider>(
    mempool: &M,
    tx_validator: Option<&V>,
    b: Seq<u8>,
)
    requires
        forall|era_id: u16, tx: Seq<u8>|
            submission_in(b) == Some((era_id, tx)) && (tx_validator matches Some(v)
                ==> v.may_judge(era_id, tx, None)) ==> #[trigger] mempool.may_be_offered(
                era_id,
                tx,
            ),
    ensures
        admits(mempool, tx_validator, b),
{
}

/// What decides on a submitted transaction: the validator where it complains, else the mempool.
pub proof fn lemma_who_decides<V: TxValidator, M: MempoolProvider>(
    mempool: &M,
    tx_validator: Option<&V>,
    era_id: u16,
    tx: Seq<u8>,
    v: Verdict,
)
    requires
        may_decide(mempool, tx_validator, era_id, tx, v),
    ensures
        v matches Verdict::Invalid(m) ==> tx_validator is Some && tx_validator->0.may_judge(
            era_id,
            tx,
            Some(m),
        ),
        v matches Verdict::Pooled(o) ==> mempool.may_add(era_id, tx, o) && (tx_validator is Some
            ==> tx_validator->0.may_judge(era_id, tx, None)),
{
}

/// The monitor acquires with 0, tells whether a transaction is there with 4, hands out the first
/// transaction with 6 and the sizes with 8; nothing else is answered.
pub proof fn lemma_monitor<M: MempoolProvider>(
    mempool: &M,
    b: Seq<u8>,
    tag: nat,
    end: int,
    a: MonitorAnswers,
)
    requires
        message::msg_tag(b) == message::MsgTag::Tag(tag, end),
        may_monitor(mempool, b, a),
    ensures
        ({
            let o = monitor_outcome(b, a);
            let id = cbor::bytes_at(b, end).value;
            &&& tag == 0 ==> o == message::Outcome::Reply(
                message::reply_view(12, acquired_bytes()),
            )
            &&& tag == 4 ==> exists|has: bool|
                {
                    &&& o == message::Outcome::Reply(
                        message::reply_view(12, #[trigger] has_tx_bytes(has)),
                    )
                    &&& if id matches Some(x) && x.len() == 32 {
                        mempool.may_contain(id->0, has)
                    } else {
                        has == false
                    }
                }
            &&& tag == 6 ==> mempool.may_start_with(a.first) && if a.first is Some {
                mempool.may_hold(a.first->0@, a.body) && o == message::Outcome::Reply(
                    message::reply_view(12, next_tx_bytes(a.body)),
                )
            } else {
                o == message::Outcome::Reply(message::reply_view(12, next_tx_bytes(None)))
            }
            &&& tag == 8 ==> mempool.may_fit(a.capacity) && mempool.may_weigh(a.total_bytes)
                && mempool.may_count(a.len) && o == message::Outcome::Reply(
                message::reply_view(12, sizes_bytes(a.capacity, a.total_bytes, a.len)),
            )
            &&& tag != 0 && tag != 4 && tag != 6 && tag != 8 ==> o == message::Outcome::Silent
        }),
{
    if tag == 4 {
        let has = asked_id(b, end).len() == 32 && a.has;
        assert(monitor_outcome(b, a) == message::Outcome::Reply(
            message::reply_view(12, has_tx_bytes(has)),
        ));
    }
}

/// A segment goes to the mini-protocol with its number: 0 negotiates, 5 follows the chain, 6
/// submits transactions, 7 queries the state and 12 watches the mempool.
pub proof fn lemma_routes<M: MempoolProvider, V: TxValidator>(
    g: SegmentView,
    tip: TipInfo,
    mempool: &M,
    tx_validator: Option<&V>,
    r: Result<StateQueryStep, N2CServerError>,
)
    requires
        may_lead(g, tip, mempool, tx_validator, r),
    ensures
        ({
            let o = connection::step_outcome(r);
            &&& g.protocol_id == 0 ==> o == message::Outcome::Reply(
                message::reply_view(0, handshake_bytes(g.payload)),
            )
            &&& g.protocol_id == 5 ==> o == chainsync_outcome(g.payload, tip)
            &&& g.protocol_id == 6 ==> exists|v: Verdict| o == #[trigger] submission_outcome(
                g.payload,
                v,
            )
            &&& g.protocol_id == 7 ==> state_query_step(g.payload, r)
            &&& g.protocol_id == 12 ==> exists|a: MonitorAnswers|
                o == #[trigger] monitor_outcome(g.payload, a) && may_monitor(mempool, g.payload, a)
            &&& g.protocol_id != 0 && g.protocol_id != 5 && g.protocol_id != 6 && g.protocol_id
                != 7 && g.protocol_id != 12 ==> o == message::Outcome::Silent
        }),
{
}

/// A message that submits a transaction is answered with what was decided on it, one that holds
/// none is rejected, and any other is not answered.
pub proof fn lemma_submissions_are_answered(b: Seq<u8>, tag: nat, end: int, v: Verdict)
    requires
        message::msg_tag(b) == message::MsgTag::Tag(tag, end),
    ensures
        tag != 0 ==> submission_outcome(b, v) == message::Outcome::Silent,
        tag == 0 && submission_in(b) is Some ==> submission_outcome(b, v)
            == message::Outcome::Reply(message::reply_view(6, verdict_bytes(v))),
        tag == 0 && submission_in(b) is None ==> submission_outcome(b, v)
            == message::Outcome::Reply(
            message::reply_view(6, reject_bytes("Failed to decode submitted transaction"@)),
        ),
{
}

/// Acquiring, by either of its tags, is answered with 1; 3 asks a query; nothing else is
/// answered.
pub proof fn lemma_state_query_tags(
    b: Seq<u8>,
    tag: nat,
    end: int,
    r: Result<StateQueryStep, N2CServerError>,
)
    requires
        message::msg_tag(b) == message::MsgTag::Tag(tag, end),
        state_query_step(b, r),
    ensures
        tag == 0 || tag == 5 <==> r matches Ok(StateQueryStep::Reply(s)),
        r matches Ok(StateQueryStep::Reply(s)) ==> s@ == message::reply_view(
            7,
            state_query::acquired_bytes(),
        ),
        tag == 3 <==> r matches Ok(StateQueryStep::Query),
        r is Ok,
{
}

} // verus!
