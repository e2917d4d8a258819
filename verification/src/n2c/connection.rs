//! A connection to a client: each of its segments goes to its mini-protocol.
use crate::mempool::MempoolProvider;
use crate::multiplexer;
use crate::multiplexer::{Segment, SegmentView};
use crate::n2c::chain_sync;
use crate::n2c::chain_sync::{handle_local_chainsync, ChainSyncCursor};
use crate::n2c::handshake;
use crate::n2c::handshake::handle_handshake;
use crate::n2c::message;
use crate::n2c::state_query;
use crate::n2c::state_query::{handle_state_query, StateQueryStep};
use crate::n2c::tx_monitor;
use crate::n2c::tx_monitor::{handle_tx_monitor, TxMonitorCursor};
use crate::n2c::tx_submission;
use crate::n2c::tx_submission::handle_tx_submission;
use crate::n2c::{
    N2CServerError, TxValidator, MINI_PROTOCOL_CHAINSYNC, MINI_PROTOCOL_HANDSHAKE,
    MINI_PROTOCOL_STATE_QUERY, MINI_PROTOCOL_TX_MONITOR, MINI_PROTOCOL_TX_SUBMISSION,
};
use crate::n2n_server::{BlockProvider, TipInfo};
use crate::receive::ReceiveBuffer;
use vstd::prelude::*;

verus! {

/// How far a client has come in each mini-protocol.
#[derive(Debug)]
pub struct ClientState {
    pub chainsync: ChainSyncCursor,
    pub tx_monitor: TxMonitorCursor,
    /// Number of transactions of the client that were rejected.
    pub rejections: u64,
}

impl ClientState {
    /// The state of a client that has just connected.
    pub fn new() -> (r: ClientState)
        ensures
            r.chainsync == (ChainSyncCursor { cursor_slot: 0, has_intersection: false }),
            r.tx_monitor@ == tx_monitor::released(),
            r.rejections == 0,
    {
        ClientState {
            chainsync: ChainSyncCursor { cursor_slot: 0, has_intersection: false },
            tx_monitor: TxMonitorCursor::new(),
            rejections: 0,
        }
    }
}

/// The outcome of a step, where it is not to run a query.
pub open spec fn step_outcome(r: Result<StateQueryStep, N2CServerError>) -> message::Outcome {
    match r {
        Ok(StateQueryStep::Reply(s)) => message::Outcome::Reply(s@),
        Ok(_) => message::Outcome::Silent,
        Err(e) => message::failure(e),
    }
}

/// Whether a segment may lead from state `s` to `s2` and to `r`.
pub open spec fn may_lead<P: BlockProvider, M: MempoolProvider, V: TxValidator>(
    g: SegmentView,
    ledger_tip: TipInfo,
    mempool: &M,
    tx_validator: Option<&V>,
    block_provider: Option<&P>,
    s: ClientState,
    s2: ClientState,
    r: Result<StateQueryStep, N2CServerError>,
) -> bool {
    let o = step_outcome(r);
    &&& g.protocol_id != MINI_PROTOCOL_CHAINSYNC ==> s2.chainsync == s.chainsync
    &&& g.protocol_id != MINI_PROTOCOL_TX_MONITOR ==> s2.tx_monitor@ == s.tx_monitor@
    &&& g.protocol_id != MINI_PROTOCOL_TX_SUBMISSION ==> s2.rejections == s.rejections
    &&& g.protocol_id != MINI_PROTOCOL_STATE_QUERY ==> !(r matches Ok(StateQueryStep::Query))
    &&& if g.protocol_id == MINI_PROTOCOL_HANDSHAKE {
        o == handshake::handshake_outcome(g.payload)
    } else if g.protocol_id == MINI_PROTOCOL_STATE_QUERY {
        state_query::state_query_step(g.payload, r)
    } else if g.protocol_id == MINI_PROTOCOL_TX_SUBMISSION {
        tx_submission::may_lead(g.payload, mempool, tx_validator, s.rejections, s2.rejections, o)
    } else if g.protocol_id == MINI_PROTOCOL_TX_MONITOR {
        tx_monitor::may_lead(
            mempool,
            g.payload,
            ledger_tip.slot,
            s.tx_monitor@,
            s2.tx_monitor@,
            o,
        )
    } else if g.protocol_id == MINI_PROTOCOL_CHAINSYNC {
        chain_sync::may_lead(block_provider, g.payload, ledger_tip, s.chainsync, s2.chainsync, o)
    } else {
        o == message::Outcome::Silent
    }
}

/// Whether the mempool may be offered what a segment submits, if it submits something
/// and the validator lets it pass.
pub open spec fn admits<M: MempoolProvider, V: TxValidator>(
    mempool: &M,
    tx_validator: Option<&V>,
    g: SegmentView,
) -> bool {
    g.protocol_id == MINI_PROTOCOL_TX_SUBMISSION ==> tx_submission::admits(
        mempool,
        tx_validator,
        g.payload,
    )
}

/// A reply, or none, as a step.
pub(crate) fn stepped(r: Result<Option<Segment>, N2CServerError>) -> (q: Result<
    StateQueryStep,
    N2CServerError,
>)
    ensures
        step_outcome(q) == message::outcome(r),
        !(q matches Ok(StateQueryStep::Query)),
{
    match r {
        Ok(Some(s)) => Ok(StateQueryStep::Reply(s)),
        Ok(None) => Ok(StateQueryStep::Silent),
        Err(e) => Err(e),
    }
}

/// Hands a segment of a client to its mini-protocol. Segments of unknown mini-protocols
/// are passed over.
pub fn process_segment<P: BlockProvider, M: MempoolProvider, V: TxValidator>(
    segment: &Segment,
    ledger_tip: &TipInfo,
    mempool: &M,
    tx_validator: Option<&V>,
    block_provider: Option<&P>,
    state: &mut ClientState,
) -> (r: Result<StateQueryStep, N2CServerError>)
    requires
        admits(mempool, tx_validator, segment@),
    ensures
        may_lead(
            segment@,
            *ledger_tip,
            mempool,
            tx_validator,
            block_provider,
            *old(state),
            *final(state),
            r,
        ),
{
    let payload = segment.payload.as_slice();
    if segment.protocol_id == MINI_PROTOCOL_HANDSHAKE {
        stepped(handle_handshake(payload))
    } else if segment.protocol_id == MINI_PROTOCOL_STATE_QUERY {
        handle_state_query(payload)
    } else if segment.protocol_id == MINI_PROTOCOL_TX_SUBMISSION {
        stepped(handle_tx_submission(payload, mempool, tx_validator, &mut state.rejections))
    } else if segment.protocol_id == MINI_PROTOCOL_TX_MONITOR {
        stepped(handle_tx_monitor(payload, mempool, ledger_tip.slot, &mut state.tx_monitor))
    } else if segment.protocol_id == MINI_PROTOCOL_CHAINSYNC {
        stepped(
            handle_local_chainsync(payload, ledger_tip, block_provider, &mut state.chainsync),
        )
    } else {
        stepped(Ok(None))
    }
}

// ---------------------------------------------------------------------------
// The life of a connection
// ---------------------------------------------------------------------------

/// What is to be done about a connection.
#[derive(Debug)]
pub enum ClientStep {
    /// Send this reply, then go on.
    Reply(Segment),
    /// Run the query in this message and send its result, then go on.
    Query(Vec<u8>),
    /// Go on.
    Silent,
    /// Wait for the client.
    Wait,
    /// Close the connection.
    End,
}

/// What a step does about a segment.
pub open spec fn segment_step(r: Result<ClientStep, N2CServerError>) -> Result<
    StateQueryStep,
    N2CServerError,
> {
    match r {
        Ok(ClientStep::Reply(s)) => Ok(StateQueryStep::Reply(s)),
        Ok(ClientStep::Query(_)) => Ok(StateQueryStep::Query),
        Ok(_) => Ok(StateQueryStep::Silent),
        Err(e) => Err(e),
    }
}

/// Whether `r` is what handling a segment with the given payload comes to, and neither
/// waits nor ends.
pub open spec fn handles(r: Result<ClientStep, N2CServerError>, payload: Seq<u8>) -> bool {
    match r {
        Ok(ClientStep::Query(p)) => p@ == payload,
        Ok(ClientStep::Wait) => false,
        Ok(ClientStep::End) => false,
        _ => true,
    }
}

/// What a segment with the given payload comes to.
pub(crate) fn client_step(r: Result<StateQueryStep, N2CServerError>, payload: Vec<u8>) -> (q: Result<
    ClientStep,
    N2CServerError,
>)
    ensures
        segment_step(q) == r,
        handles(q, payload@),
{
    match r {
        Ok(StateQueryStep::Reply(s)) => Ok(ClientStep::Reply(s)),
        Ok(StateQueryStep::Query) => Ok(ClientStep::Query(payload)),
        Ok(StateQueryStep::Silent) => Ok(ClientStep::Silent),
        Err(e) => Err(e),
    }
}

/// A connection to a client.
#[derive(Debug)]
pub struct ClientConnection {
    pub buffer: ReceiveBuffer,
    pub state: ClientState,
}

/// Whether going on with the bytes `b` in state `s` may leave `b2` and `s2` and lead to
/// `r`: the first segment is taken out and handed to its mini-protocol, and where there
/// is none, there is nothing to do but wait.
pub open spec fn may_go_on<P: BlockProvider, M: MempoolProvider, V: TxValidator>(
    ledger_tip: TipInfo,
    mempool: &M,
    tx_validator: Option<&V>,
    block_provider: Option<&P>,
    b: Seq<u8>,
    s: ClientState,
    b2: Seq<u8>,
    s2: ClientState,
    r: Result<ClientStep, N2CServerError>,
) -> bool {
    match multiplexer::segment_at(b) {
        Some((g, n)) => {
            &&& b2 == b.skip(n)
            &&& may_lead(
                g,
                ledger_tip,
                mempool,
                tx_validator,
                block_provider,
                s,
                s2,
                segment_step(r),
            )
            &&& handles(r, g.payload)
        },
        None => b2 == b && s2 == s && r matches Ok(ClientStep::Wait),
    }
}

impl ClientConnection {
    /// A connection that was just opened.
    pub fn new() -> (r: ClientConnection)
        ensures
            r.buffer.pending@ == Seq::<u8>::empty(),
            r.state.chainsync == (ChainSyncCursor { cursor_slot: 0, has_intersection: false }),
            r.state.tx_monitor@ == tx_monitor::released(),
            r.state.rejections == 0,
    {
        ClientConnection { buffer: ReceiveBuffer::new(), state: ClientState::new() }
    }

    /// Goes on with what the client sent.
    pub fn go_on<P: BlockProvider, M: MempoolProvider, V: TxValidator>(
        &mut self,
        ledger_tip: &TipInfo,
        mempool: &M,
        tx_validator: Option<&V>,
        block_provider: Option<&P>,
    ) -> (r: Result<ClientStep, N2CServerError>)
        requires
            multiplexer::segment_at(old(self).buffer.pending@) matches Some((g, _)) ==> admits(
                mempool,
                tx_validator,
                g,
            ),
        ensures
            may_go_on(
                *ledger_tip,
                mempool,
                tx_validator,
                block_provider,
                old(self).buffer.pending@,
                old(self).state,
                final(self).buffer.pending@,
                final(self).state,
                r,
            ),
    {
        match self.buffer.next_segment() {
            Some(segment) => {
                let r = process_segment(
                    &segment,
                    ledger_tip,
                    mempool,
                    tx_validator,
                    block_provider,
                    &mut self.state,
                );
                client_step(r, segment.payload)
            },
            None => Ok(ClientStep::Wait),
        }
    }

    /// Takes on what the client sent. A client that sends nothing has closed the
    /// connection.
    pub fn received<P: BlockProvider, M: MempoolProvider, V: TxValidator>(
        &mut self,
        data: &[u8],
        ledger_tip: &TipInfo,
        mempool: &M,
        tx_validator: Option<&V>,
        block_provider: Option<&P>,
    ) -> (r: Result<ClientStep, N2CServerError>)
        requires
            multiplexer::segment_at(old(self).buffer.pending@ + data@) matches Some((g, _))
                ==> admits(mempool, tx_validator, g),
        ensures
            if data@.len() == 0 {
                &&& r matches Ok(ClientStep::End)
                &&& *final(self) == *old(self)
            } else {
                may_go_on(
                    *ledger_tip,
                    mempool,
                    tx_validator,
                    block_provider,
                    old(self).buffer.pending@ + data@,
                    old(self).state,
                    final(self).buffer.pending@,
                    final(self).state,
                    r,
                )
            },
    {
        if data.len() == 0 {
            return Ok(ClientStep::End);
        }
        self.buffer.push(data);
        self.go_on(ledger_tip, mempool, tx_validator, block_provider)
    }
}

/// Each segment goes to the mini-protocol with its number: 0 negotiates, 5 follows the chain, 6
/// submits transactions, 7 queries the state and 9 watches the mempool. Segments of any other
/// are passed over, and no mini-protocol changes the state of another.
pub proof fn lemma_routes<P: BlockProvider, M: MempoolProvider, V: TxValidator>(
    g: SegmentView,
    ledger_tip: TipInfo,
    mempool: &M,
    tx_validator: Option<&V>,
    block_provider: Option<&P>,
    s: ClientState,
    s2: ClientState,
    r: Result<StateQueryStep, N2CServerError>,
)
    requires
        may_lead(g, ledger_tip, mempool, tx_validator, block_provider, s, s2, r),
    ensures
        ({
            let o = step_outcome(r);
            &&& g.protocol_id == 0 ==> o == handshake::handshake_outcome(g.payload)
            &&& g.protocol_id == 5 ==> chain_sync::may_lead(
                block_provider,
                g.payload,
                ledger_tip,
                s.chainsync,
                s2.chainsync,
                o,
            )
            &&& g.protocol_id == 6 ==> tx_submission::may_lead(
                g.payload,
                mempool,
                tx_validator,
                s.rejections,
                s2.rejections,
                o,
            )
            &&& g.protocol_id == 7 ==> state_query::state_query_step(g.payload, r)
            &&& g.protocol_id == 9 ==> tx_monitor::may_lead(
                mempool,
                g.payload,
                ledger_tip.slot,
                s.tx_monitor@,
                s2.tx_monitor@,
                o,
            )
            &&& g.protocol_id != 5 ==> s2.chainsync == s.chainsync
            &&& g.protocol_id != 6 ==> s2.rejections == s.rejections
            &&& g.protocol_id != 9 ==> s2.tx_monitor@ == s.tx_monitor@
            &&& g.protocol_id != 0 && g.protocol_id != 5 && g.protocol_id != 6 && g.protocol_id
                != 7 && g.protocol_id != 9 ==> o == message::Outcome::Silent
        }),
{
}

} // verus!
