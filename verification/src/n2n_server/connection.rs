//! A connection to a peer: what is received is cut into segments, and each goes to its
//! mini-protocol.
use crate::mempool::MempoolProvider;
use crate::multiplexer;
use crate::multiplexer::{Segment, SegmentView};
use crate::n2n_server;
use crate::n2n_server::blockfetch;
use crate::n2n_server::blockfetch::handle_n2n_blockfetch;
use crate::n2n_server::chainsync;
use crate::n2n_server::chainsync::{handle_n2n_chainsync, push_block, push_rollback};
use crate::n2n_server::handshake;
use crate::n2n_server::handshake::negotiate;
use crate::n2n_server::keepalive;
use crate::n2n_server::keepalive::handle_keepalive;
use crate::n2n_server::message;
use crate::n2n_server::message::request_tx_ids;
use crate::n2n_server::txsubmission;
use crate::n2n_server::txsubmission::handle_n2n_txsubmission;
use crate::n2n_server::{
    BlockAnnouncement, BlockProvider, N2NServerError, PeerSharingMode, PeerState, PeerStateView,
    RollbackAnnouncement, MINI_PROTOCOL_BLOCKFETCH, MINI_PROTOCOL_CHAINSYNC,
    MINI_PROTOCOL_HANDSHAKE, MINI_PROTOCOL_KEEPALIVE, MINI_PROTOCOL_PEERSHARING,
    MINI_PROTOCOL_TXSUBMISSION,
};
use crate::receive::ReceiveBuffer;
use vstd::prelude::*;
use vstd::string::StringExecFns;

verus! {

/// Most bytes that may wait for the rest of a segment.
pub const MAX_PARTIAL_BUFFER: usize = 16_777_216;

/// Appends what a peer sent to what is left of its earlier bytes. A peer that lets too
/// much accumulate breaks the protocol.
pub fn receive_from_peer(buffer: &mut ReceiveBuffer, data: &[u8]) -> (r: Result<
    (),
    N2NServerError,
>)
    ensures
        final(buffer).pending@ == old(buffer).pending@ + data@,
        r is Err <==> old(buffer).pending@.len() + data@.len() > MAX_PARTIAL_BUFFER,
        r matches Err(e) ==> e@ == message::ErrorView::Protocol("accumulated buffer too large"@),
{
    buffer.push(data);
    if buffer.pending.len() > MAX_PARTIAL_BUFFER {
        return Err(N2NServerError::Protocol(String::from_str("accumulated buffer too large")));
    }
    Ok(())
}

/// What to do about a segment.
#[derive(Debug)]
pub enum N2NStep {
    /// Send these segments, in order.
    Replies(Vec<Segment>),
    /// Answer the message of PeerSharing that the segment carries.
    SharePeers,
}

/// What a mini-protocol's handler came to.
pub open spec fn step_outcome(r: Result<N2NStep, N2NServerError>) -> message::Outcome {
    match r {
        Ok(N2NStep::Replies(v)) => message::Outcome::Replies(message::segment_views(v@)),
        Ok(N2NStep::SharePeers) => message::silent(),
        Err(e) => message::Outcome::Failed(e@),
    }
}

/// What version negotiation leads to. Where a version is accepted, a peer with which the
/// connection is used in both directions is asked for transactions at once, as it is for
/// the server to start that.
pub open spec fn negotiated(
    s: PeerStateView,
    initiator_and_responder: bool,
    accepted: bool,
    o: message::Outcome,
) -> (PeerStateView, message::Outcome) {
    match o {
        message::Outcome::Replies(replies) if initiator_and_responder && accepted => (
            PeerStateView { tx_submission_init_sent: true, ..s },
            message::Outcome::Replies(
                replies.push(
                    message::reply_view(
                        MINI_PROTOCOL_TXSUBMISSION,
                        message::request_tx_ids_bytes(0),
                    ),
                ),
            ),
        ),
        _ => (s, o),
    }
}

/// What the connection was set up with.
#[derive(Debug, Clone, Copy, PartialEq, Eq, Structural)]
pub struct N2NSettings {
    pub network_magic: u64,
    /// Whether the connection is used in both directions.
    pub initiator_and_responder: bool,
    pub peer_sharing: PeerSharingMode,
    /// Most blocks of a range that a peer may ask for.
    pub max_blockfetch_range: u64,
}

/// Whether a segment may lead from state `s` to `s2` and to `o`.
pub open spec fn may_lead<P: BlockProvider, M: MempoolProvider>(
    g: SegmentView,
    c: N2NSettings,
    provider: &P,
    mempool: Option<&M>,
    s: PeerStateView,
    s2: PeerStateView,
    o: message::Outcome,
) -> bool {
    if g.protocol_id == MINI_PROTOCOL_HANDSHAKE {
        (s2, o) == negotiated(
            s,
            c.initiator_and_responder,
            handshake::accepts(g.payload, c.network_magic),
            handshake::handshake_outcome(
                g.payload,
                c.network_magic,
                c.initiator_and_responder,
                c.peer_sharing,
            ),
        )
    } else if g.protocol_id == MINI_PROTOCOL_CHAINSYNC {
        chainsync::may_lead(provider, g.payload, s, s2, o)
    } else if g.protocol_id == MINI_PROTOCOL_BLOCKFETCH {
        s2 == s && blockfetch::may_lead(provider, g.payload, c.max_blockfetch_range, o)
    } else if g.protocol_id == MINI_PROTOCOL_TXSUBMISSION {
        txsubmission::may_lead(mempool, g.payload, s, s2, o)
    } else if g.protocol_id == MINI_PROTOCOL_KEEPALIVE {
        s2 == s && o == keepalive::keepalive_outcome(g.payload)
    } else {
        s2 == s && o == message::silent()
    }
}

/// Whether the mempool may be given the transactions that a segment hands over, if it
/// does, each under the hash under which it was requested.
pub open spec fn admits<M: MempoolProvider>(
    mempool: Option<&M>,
    g: SegmentView,
    s: PeerStateView,
) -> bool {
    g.protocol_id == MINI_PROTOCOL_TXSUBMISSION ==> txsubmission::admits(mempool, g.payload, s)
}

/// A single reply, or none, as a list.
fn listed(r: Result<Option<Segment>, N2NServerError>) -> (l: Result<N2NStep, N2NServerError>)
    ensures
        step_outcome(l) == message::outcome(r),
        !(l matches Ok(N2NStep::SharePeers)),
{
    match r {
        Ok(Some(s)) => {
            let mut v: Vec<Segment> = Vec::new();
            v.push(s);
            assert(message::segment_views(v@) =~= seq![s@]);
            Ok(N2NStep::Replies(v))
        },
        Ok(None) => {
            let v: Vec<Segment> = Vec::new();
            assert(message::segment_views(v@) =~= Seq::empty());
            Ok(N2NStep::Replies(v))
        },
        Err(e) => Err(e),
    }
}

/// Hands a segment of a peer to its mini-protocol. Segments of unknown mini-protocols
/// are passed over.
pub fn process_n2n_segment<P: BlockProvider, M: MempoolProvider>(
    segment: &Segment,
    settings: &N2NSettings,
    block_provider: &P,
    mempool: Option<&M>,
    peer_state: &mut PeerState,
) -> (r: Result<N2NStep, N2NServerError>)
    requires
        admits(mempool, segment@, old(peer_state)@),
    ensures
        may_lead(
            segment@,
            *settings,
            block_provider,
            mempool,
            old(peer_state)@,
            final(peer_state)@,
            step_outcome(r),
        ),
        r matches Ok(N2NStep::SharePeers) <==> segment.protocol_id == MINI_PROTOCOL_PEERSHARING,
{
    let payload = segment.payload.as_slice();
    if segment.protocol_id == MINI_PROTOCOL_HANDSHAKE {
        let (r, accepted) = negotiate(
            payload,
            settings.network_magic,
            settings.initiator_and_responder,
            settings.peer_sharing,
        );
        match r {
            Ok(Some(reply)) => {
                let mut v: Vec<Segment> = Vec::new();
                v.push(reply);
                assert(message::segment_views(v@) =~= seq![reply@]);
                if settings.initiator_and_responder && accepted {
                    let ghost so_far = v@;
                    v.push(request_tx_ids(0));
                    peer_state.tx_submission_init_sent = true;
                    assert(message::segment_views(v@) =~= message::segment_views(so_far).push(
                        v@[1]@,
                    ));
                }
                Ok(N2NStep::Replies(v))
            },
            other => listed(other),
        }
    } else if segment.protocol_id == MINI_PROTOCOL_CHAINSYNC {
        listed(handle_n2n_chainsync(payload, block_provider, peer_state))
    } else if segment.protocol_id == MINI_PROTOCOL_BLOCKFETCH {
        match handle_n2n_blockfetch(payload, block_provider, settings.max_blockfetch_range) {
            Ok(v) => Ok(N2NStep::Replies(v)),
            Err(e) => Err(e),
        }
    } else if segment.protocol_id == MINI_PROTOCOL_TXSUBMISSION {
        listed(handle_n2n_txsubmission(payload, peer_state, mempool))
    } else if segment.protocol_id == MINI_PROTOCOL_KEEPALIVE {
        listed(handle_keepalive(payload))
    } else if segment.protocol_id == MINI_PROTOCOL_PEERSHARING {
        Ok(N2NStep::SharePeers)
    } else {
        listed(Ok(None))
    }
}

// ---------------------------------------------------------------------------
// The life of a connection
// ---------------------------------------------------------------------------

/// What is to be done about a connection.
#[derive(Debug)]
pub enum ConnectionStep {
    /// Send these segments, in order, then go on.
    Send(Vec<Segment>),
    /// Answer this message of PeerSharing, then go on.
    SharePeers(Vec<u8>),
    /// Wait for the peer, or for an announcement.
    Wait,
    /// Close the connection.
    End,
}

/// What is heard from the node.
#[derive(Debug, Clone, Copy)]
pub enum Announcement<T> {
    /// It announces something.
    Made(T),
    /// It announced more than could be kept.
    Missed,
    /// It shuts down.
    Closed,
}

/// A connection to a peer.
#[derive(Debug)]
pub struct N2NConnection {
    pub buffer: ReceiveBuffer,
    pub state: PeerState,
}

/// What a step sends.
pub open spec fn sent_by(r: Result<ConnectionStep, N2NServerError>) -> message::Outcome {
    match r {
        Ok(ConnectionStep::Send(v)) => message::Outcome::Replies(message::segment_views(v@)),
        Ok(_) => message::silent(),
        Err(e) => message::Outcome::Failed(e@),
    }
}

/// Whether going on with the bytes `b` in state `s` may leave `b2` and `s2` and lead to
/// `r`: the first segment is taken out and handed to its mini-protocol, and where there
/// is none, there is nothing to do but wait.
pub open spec fn may_go_on<P: BlockProvider, M: MempoolProvider>(
    c: N2NSettings,
    provider: &P,
    mempool: Option<&M>,
    b: Seq<u8>,
    s: PeerStateView,
    b2: Seq<u8>,
    s2: PeerStateView,
    r: Result<ConnectionStep, N2NServerError>,
) -> bool {
    match multiplexer::segment_at(b) {
        Some((g, n)) => {
            &&& b2 == b.skip(n)
            &&& may_lead(g, c, provider, mempool, s, s2, sent_by(r))
            &&& if g.protocol_id == MINI_PROTOCOL_PEERSHARING {
                r matches Ok(ConnectionStep::SharePeers(p)) && p@ == g.payload
            } else {
                r is Err || r->Ok_0 is Send
            }
        },
        None => b2 == b && s2 == s && r matches Ok(ConnectionStep::Wait),
    }
}

impl N2NConnection {
    /// A connection that was just opened.
    pub fn new() -> (r: N2NConnection)
        ensures
            r.buffer.pending@ == Seq::<u8>::empty(),
            r.state@ == n2n_server::fresh_peer(),
    {
        N2NConnection { buffer: ReceiveBuffer::new(), state: PeerState::new() }
    }

    /// Goes on with what the peer sent.
    pub fn go_on<P: BlockProvider, M: MempoolProvider>(
        &mut self,
        settings: &N2NSettings,
        block_provider: &P,
        mempool: Option<&M>,
    ) -> (r: Result<ConnectionStep, N2NServerError>)
        requires
            multiplexer::segment_at(old(self).buffer.pending@) matches Some((g, _)) ==> admits(
                mempool,
                g,
                old(self).state@,
            ),
        ensures
            may_go_on(
                *settings,
                block_provider,
                mempool,
                old(self).buffer.pending@,
                old(self).state@,
                final(self).buffer.pending@,
                final(self).state@,
                r,
            ),
    {
        match self.buffer.next_segment() {
            Some(segment) => {
                match process_n2n_segment(
                    &segment,
                    settings,
                    block_provider,
                    mempool,
                    &mut self.state,
                ) {
                    Ok(N2NStep::Replies(v)) => Ok(ConnectionStep::Send(v)),
                    Ok(N2NStep::SharePeers) => Ok(ConnectionStep::SharePeers(segment.payload)),
                    Err(e) => Err(e),
                }
            },
            None => Ok(ConnectionStep::Wait),
        }
    }

    /// Takes on what the peer sent. A peer that sends nothing has closed the connection.
    pub fn received<P: BlockProvider, M: MempoolProvider>(
        &mut self,
        data: &[u8],
        settings: &N2NSettings,
        block_provider: &P,
        mempool: Option<&M>,
    ) -> (r: Result<ConnectionStep, N2NServerError>)
        requires
            multiplexer::segment_at(old(self).buffer.pending@ + data@) matches Some((g, _))
                ==> admits(mempool, g, old(self).state@),
        ensures
            if data@.len() == 0 {
                &&& r matches Ok(ConnectionStep::End)
                &&& *final(self) == *old(self)
            } else if old(self).buffer.pending@.len() + data@.len() > MAX_PARTIAL_BUFFER {
                &&& r matches Err(e) && e@ == message::ErrorView::Protocol(
                    "accumulated buffer too large"@,
                )
                &&& final(self).state@ == old(self).state@
            } else {
                may_go_on(
                    *settings,
                    block_provider,
                    mempool,
                    old(self).buffer.pending@ + data@,
                    old(self).state@,
                    final(self).buffer.pending@,
                    final(self).state@,
                    r,
                )
            },
    {
        if data.len() == 0 {
            return Ok(ConnectionStep::End);
        }
        match receive_from_peer(&mut self.buffer, data) {
            Ok(_) => self.go_on(settings, block_provider, mempool),
            Err(e) => Err(e),
        }
    }

    /// At most one segment to send.
    fn sends(segment: Option<Segment>) -> (r: ConnectionStep)
        ensures
            match segment {
                Some(s) => r matches ConnectionStep::Send(v) && message::segment_views(v@) == seq![
                    s@,
                ],
                None => r is Wait,
            },
    {
        match segment {
            Some(s) => {
                let mut v: Vec<Segment> = Vec::new();
                v.push(s);
                assert(message::segment_views(v@) =~= seq![s@]);
                ConnectionStep::Send(v)
            },
            None => ConnectionStep::Wait,
        }
    }

    /// Tells the peer of a new block, if it waits for one.
    pub fn block_announced<P: BlockProvider>(
        &mut self,
        announcement: &Announcement<BlockAnnouncement>,
        block_provider: &P,
    ) -> (r: ConnectionStep)
        ensures
            final(self).buffer == old(self).buffer,
            match *announcement {
                Announcement::Made(ann) => may_announce(
                    block_provider,
                    ann,
                    old(self).state@,
                    final(self).state@,
                    r,
                ),
                Announcement::Missed => r is Wait && final(self).state == old(self).state,
                Announcement::Closed => r is End && final(self).state == old(self).state,
            },
    {
        match announcement {
            Announcement::Made(ann) => {
                let pushed = push_block(ann, block_provider, &mut self.state);
                let ghost next = choose|next: Option<(u64, [u8; 32], Seq<u8>)>|
                    {
                        &&& (self.state@, chainsync::sent(pushed))
                            == #[trigger] chainsync::announce_step(old(self).state@, *ann, next)
                        &&& chainsync::wants_block(old(self).state@, *ann)
                            ==> block_provider.may_follow(
                            old(self).state@.chainsync_cursor_slot->0,
                            next,
                        )
                    };
                let r = Self::sends(pushed);
                assert((self.state@, pushed_by(r)) == chainsync::announce_step(
                    old(self).state@,
                    *ann,
                    next,
                ));
                r
            },
            Announcement::Missed => ConnectionStep::Wait,
            Announcement::Closed => ConnectionStep::End,
        }
    }

    /// Tells the peer that the chain was rolled back, if it waits for news.
    pub fn rollback_announced(&mut self, announcement: &Announcement<RollbackAnnouncement>) -> (r:
        ConnectionStep)
        ensures
            final(self).buffer == old(self).buffer,
            match *announcement {
                Announcement::Made(rb) => {
                    &&& (final(self).state@, pushed_by(r)) == chainsync::rollback_step(
                        old(self).state@,
                        rb,
                    )
                    &&& r is Send || r is Wait
                },
                Announcement::Missed => r is Wait && final(self).state == old(self).state,
                Announcement::Closed => r is End && final(self).state == old(self).state,
            },
    {
        match announcement {
            Announcement::Made(rb) => Self::sends(push_rollback(rb, &mut self.state)),
            Announcement::Missed => ConnectionStep::Wait,
            Announcement::Closed => ConnectionStep::End,
        }
    }
}

/// What a step pushes to the peer.
pub open spec fn pushed_by(r: ConnectionStep) -> Seq<SegmentView> {
    match r {
        ConnectionStep::Send(v) => message::segment_views(v@),
        _ => Seq::empty(),
    }
}

/// Whether the announcement of a block may lead from state `s` to `s2` and to `r`.
pub open spec fn may_announce<P: BlockProvider>(
    provider: &P,
    ann: BlockAnnouncement,
    s: PeerStateView,
    s2: PeerStateView,
    r: ConnectionStep,
) -> bool {
    &&& r is Send || r is Wait
    &&& exists|next: Option<(u64, [u8; 32], Seq<u8>)>|
        {
            &&& (s2, pushed_by(r)) == #[trigger] chainsync::announce_step(s, ann, next)
            &&& chainsync::wants_block(s, ann) ==> provider.may_follow(
                s.chainsync_cursor_slot->0,
                next,
            )
        }
}

/// Sixteen mebibytes may wait for the rest of a segment: more than any segment takes.
pub proof fn lemma_room_for_segments(b: Seq<u8>)
    requires
        b.len() > MAX_PARTIAL_BUFFER,
    ensures
        b.len() > 16 * 1024 * 1024,
        multiplexer::segment_at(b) is Some,
{
}

/// What is kept of the bytes of a peer is bounded: it never grows while the server goes
/// on, and once the server waits, no whole segment is left in it.
pub proof fn lemma_pending_is_bounded<P: BlockProvider, M: MempoolProvider>(
    c: N2NSettings,
    provider: &P,
    mempool: Option<&M>,
    b: Seq<u8>,
    s: PeerStateView,
    b2: Seq<u8>,
    s2: PeerStateView,
    r: Result<ConnectionStep, N2NServerError>,
)
    requires
        may_go_on(c, provider, mempool, b, s, b2, s2, r),
    ensures
        b2.len() <= b.len(),
        r matches Ok(ConnectionStep::Wait) ==> multiplexer::segment_at(b2) is None && b2.len()
            < 8 + 65536,
        !(r matches Ok(ConnectionStep::Wait)) ==> b2.len() + 8 <= b.len(),
{
}

/// A peer whose proposals are refused is told so, and not asked for transactions.
pub proof fn lemma_refused_peers_are_not_asked<P: BlockProvider, M: MempoolProvider>(
    g: SegmentView,
    c: N2NSettings,
    provider: &P,
    mempool: Option<&M>,
    s: PeerStateView,
    s2: PeerStateView,
    o: message::Outcome,
)
    requires
        g.protocol_id == MINI_PROTOCOL_HANDSHAKE,
        !handshake::accepts(g.payload, c.network_magic),
        may_lead(g, c, provider, mempool, s, s2, o),
    ensures
        s2 == s,
        o == handshake::handshake_outcome(
            g.payload,
            c.network_magic,
            c.initiator_and_responder,
            c.peer_sharing,
        ),
        o matches message::Outcome::Replies(replies) ==> replies.len() == 1,
{
}

/// Nothing is pushed to a peer that does not wait for the next block.
pub proof fn lemma_only_waiting_peers_are_told<P: BlockProvider>(
    provider: &P,
    ann: BlockAnnouncement,
    s: PeerStateView,
    s2: PeerStateView,
    r: ConnectionStep,
)
    requires
        may_announce(provider, ann, s, s2, r),
        !s.chainsync_must_reply,
    ensures
        s2 == s,
        pushed_by(r).len() == 0,
{
}

// ---------------------------------------------------------------------------
// Runs
// ---------------------------------------------------------------------------

/// Something that happens on a connection, with what it leads to.
pub enum Event {
    /// The server goes on with the bytes that it has from the peer, and some are left.
    Peer(Seq<u8>, Seq<u8>, Result<ConnectionStep, N2NServerError>),
    /// The node is heard about a new block.
    Block(Announcement<BlockAnnouncement>, ConnectionStep),
    /// The node is heard about a rollback.
    Rollback(Announcement<RollbackAnnouncement>, ConnectionStep),
}

/// Whether an event may lead from state `s` to `s2`.
pub open spec fn may_happen<P: BlockProvider, M: MempoolProvider>(
    c: N2NSettings,
    provider: &P,
    mempool: Option<&M>,
    e: Event,
    s: PeerStateView,
    s2: PeerStateView,
) -> bool {
    match e {
        Event::Peer(b, b2, r) => may_go_on(c, provider, mempool, b, s, b2, s2, r),
        Event::Block(Announcement::Made(ann), r) => may_announce(provider, ann, s, s2, r),
        Event::Rollback(Announcement::Made(rb), r) => (s2, pushed_by(r))
            == chainsync::rollback_step(s, rb),
        Event::Block(_, r) => s2 == s && (r is Wait || r is End),
        Event::Rollback(_, r) => s2 == s && (r is Wait || r is End),
    }
}

/// Whether a connection may run through these events, and be in these states before,
/// between and after them.
pub open spec fn is_run<P: BlockProvider, M: MempoolProvider>(
    c: N2NSettings,
    provider: &P,
    mempool: Option<&M>,
    events: Seq<Event>,
    states: Seq<PeerStateView>,
) -> bool {
    &&& states.len() == events.len() + 1
    &&& states[0] == n2n_server::fresh_peer()
    &&& forall|i: int|
        0 <= i < events.len() ==> may_happen(
            c,
            provider,
            mempool,
            #[trigger] events[i],
            states[i],
            states[i + 1],
        )
}

/// Whether the peer is told in the event to wait for the next block.
pub open spec fn tells_to_wait(e: Event) -> bool {
    e matches Event::Peer(_, _, r) && sent_by(r) == message::replied(
        MINI_PROTOCOL_CHAINSYNC,
        chainsync::await_bytes(),
    )
}

/// Whether something is sent to the peer on account of an announcement.
pub open spec fn is_push(e: Event) -> bool {
    match e {
        Event::Peer(_, _, _) => false,
        Event::Block(_, r) => pushed_by(r).len() > 0,
        Event::Rollback(_, r) => pushed_by(r).len() > 0,
    }
}

/// Whether the peer was told to wait before the `j`-th event, and nothing was sent to it
/// since on account of an announcement.
pub open spec fn is_waiting(events: Seq<Event>, j: int) -> bool {
    exists|i: int|
        {
            &&& 0 <= i < j
            &&& tells_to_wait(#[trigger] events[i])
            &&& forall|k: int| i < k < j ==> !is_push(#[trigger] events[k])
        }
}

proof fn lemma_wait_starts_with_a_reply<P: BlockProvider, M: MempoolProvider>(
    c: N2NSettings,
    provider: &P,
    mempool: Option<&M>,
    e: Event,
    s: PeerStateView,
    s2: PeerStateView,
)
    requires
        may_happen(c, provider, mempool, e, s, s2),
        s2.chainsync_must_reply,
    ensures
        s.chainsync_must_reply || tells_to_wait(e),
        !is_push(e),
{
}

proof fn lemma_waiting_peers_were_told<P: BlockProvider, M: MempoolProvider>(
    c: N2NSettings,
    provider: &P,
    mempool: Option<&M>,
    events: Seq<Event>,
    states: Seq<PeerStateView>,
    j: int,
)
    requires
        is_run(c, provider, mempool, events, states),
        0 <= j <= events.len(),
        states[j].chainsync_must_reply,
    ensures
        is_waiting(events, j),
    decreases j,
{
    if j > 0 {
        lemma_wait_starts_with_a_reply(
            c,
            provider,
            mempool,
            events[j - 1],
            states[j - 1],
            states[j],
        );
        if states[j - 1].chainsync_must_reply {
            lemma_waiting_peers_were_told(c, provider, mempool, events, states, j - 1);
            let i = choose|i: int|
                {
                    &&& 0 <= i < j - 1
                    &&& tells_to_wait(#[trigger] events[i])
                    &&& forall|k: int| i < k < j - 1 ==> !is_push(#[trigger] events[k])
                };
            assert forall|k: int| i < k < j implies !is_push(#[trigger] events[k]) by {}
        }
    }
}

/// In whatever order messages of the peer and announcements of the node come, what is
/// sent on account of an announcement answers a wait: before it the peer was told to wait,
/// and nothing was sent since on account of another announcement. An announcement for
/// which no peer waits leads to nothing.
pub proof fn lemma_every_push_answers_a_wait<P: BlockProvider, M: MempoolProvider>(
    c: N2NSettings,
    provider: &P,
    mempool: Option<&M>,
    events: Seq<Event>,
    states: Seq<PeerStateView>,
)
    requires
        is_run(c, provider, mempool, events, states),
    ensures
        forall|j: int|
            0 <= j < events.len() && is_push(#[trigger] events[j]) ==> is_waiting(events, j),
        forall|j: int|
            0 <= j < events.len() && !is_waiting(events, j) && !(events[j] is Peer)
                ==> !is_push(#[trigger] events[j]) && states[j + 1] == states[j],
{
    assert forall|j: int|
        0 <= j < events.len() && !(events[j] is Peer) && !is_waiting(events, j) implies !is_push(
        #[trigger] events[j],
    ) && states[j + 1] == states[j] by {
        if states[j].chainsync_must_reply {
            lemma_waiting_peers_were_told(c, provider, mempool, events, states, j);
        }
        assert(may_happen(c, provider, mempool, events[j], states[j], states[j + 1]));
    }
}

/// Between two things that are sent on account of announcements the peer is told to wait.
pub proof fn lemma_a_wait_stands_between_pushes<P: BlockProvider, M: MempoolProvider>(
    c: N2NSettings,
    provider: &P,
    mempool: Option<&M>,
    events: Seq<Event>,
    states: Seq<PeerStateView>,
    j: int,
    j2: int,
)
    requires
        is_run(c, provider, mempool, events, states),
        0 <= j < j2 < events.len(),
        is_push(events[j]),
        is_push(events[j2]),
    ensures
        exists|i: int| j < i < j2 && tells_to_wait(#[trigger] events[i]),
{
    lemma_every_push_answers_a_wait(c, provider, mempool, events, states);
    let i = choose|i: int|
        {
            &&& 0 <= i < j2
            &&& tells_to_wait(#[trigger] events[i])
            &&& forall|k: int| i < k < j2 ==> !is_push(#[trigger] events[k])
        };
    assert(!is_push(events[i]));
}

/// Each segment goes to the mini-protocol with its number: 0 negotiates, 2 follows the chain, 3
/// fetches blocks, 4 exchanges transactions and 8 keeps the connection alive; 10 shares peers,
/// which needs the peer manager. Segments of any other are passed over.
pub proof fn lemma_routes<P: BlockProvider, M: MempoolProvider>(
    g: SegmentView,
    c: N2NSettings,
    provider: &P,
    mempool: Option<&M>,
    s: PeerStateView,
    s2: PeerStateView,
    o: message::Outcome,
)
    requires
        may_lead(g, c, provider, mempool, s, s2, o),
    ensures
        g.protocol_id == 2 ==> chainsync::may_lead(provider, g.payload, s, s2, o),
        g.protocol_id == 3 ==> s2 == s && blockfetch::may_lead(
            provider,
            g.payload,
            c.max_blockfetch_range,
            o,
        ),
        g.protocol_id == 4 ==> txsubmission::may_lead(mempool, g.payload, s, s2, o),
        g.protocol_id == 8 ==> s2 == s && o == keepalive::keepalive_outcome(g.payload),
        g.protocol_id == 10 || !(g.protocol_id == 0 || g.protocol_id == 2 || g.protocol_id == 3
            || g.protocol_id == 4 || g.protocol_id == 8) ==> s2 == s && o
            == message::Outcome::Replies(Seq::empty()),
{
}

/// A peer that is accepted, and with which the connection is used in both directions, is asked
/// for transactions right behind the acceptance; any other gets the answer alone, and nothing
/// else of its state changes.
pub proof fn lemma_who_is_asked_for_transactions<P: BlockProvider, M: MempoolProvider>(
    g: SegmentView,
    c: N2NSettings,
    provider: &P,
    mempool: Option<&M>,
    s: PeerStateView,
    s2: PeerStateView,
    o: message::Outcome,
)
    requires
        g.protocol_id == 0,
        may_lead(g, c, provider, mempool, s, s2, o),
    ensures
        ({
            let answer = handshake::handshake_outcome(
                g.payload,
                c.network_magic,
                c.initiator_and_responder,
                c.peer_sharing,
            );
            if handshake::accepts(g.payload, c.network_magic) && c.initiator_and_responder {
                &&& answer matches message::Outcome::Replies(r)
                &&& o == message::Outcome::Replies(
                    answer->Replies_0.push(
                        message::reply_view(4, message::request_tx_ids_bytes(0)),
                    ),
                )
                &&& s2 == (PeerStateView { tx_submission_init_sent: true, ..s })
            } else {
                o == answer && s2 == s
            }
        }),
{
}

} // verus!
