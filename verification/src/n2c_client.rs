//! The client side of a node-to-client connection: the channels that it uses.
use crate::mux::channel::MuxChannel;
use crate::mux::ingress::IngressRoute;
use crate::mux::segment::Direction;
use crate::mux::{ChannelKey, Mux};
use vstd::prelude::*;

verus! {

/// Most bytes that may wait in the channel of the handshake.
pub const HANDSHAKE_LIMIT: usize = 65_536;

/// Most bytes that may wait in the channel of LocalStateQuery.
pub const STATE_QUERY_LIMIT: usize = 1_048_576;

/// Most bytes that may wait in the channel of LocalTxSubmission.
pub const TX_SUBMISSION_LIMIT: usize = 65_536;

/// Most bytes that may wait in the channel of LocalTxMonitor.
pub const TX_MONITOR_LIMIT: usize = 65_536;

/// Most bytes that may wait in the channel of LocalChainSync.
pub const CHAIN_SYNC_LIMIT: usize = 4_194_304;

/// A client. It has a version once the handshake is through.
#[derive(Debug)]
pub struct N2CClient {
    pub version: u16,
    pub state_query_channel: MuxChannel,
    pub tx_submission_channel: MuxChannel,
    pub tx_monitor_channel: MuxChannel,
    pub chain_sync_channel: MuxChannel,
}

/// The channels of a client before the handshake.
#[derive(Debug)]
pub struct ClientChannels {
    pub handshake: MuxChannel,
    pub state_query: MuxChannel,
    pub tx_submission: MuxChannel,
    pub tx_monitor: MuxChannel,
    pub chain_sync: MuxChannel,
}

/// Whether the channel belongs to the mini-protocol, on the side that opened the
/// connection, may hold `limit` bytes and holds none.
pub open spec fn opened(c: MuxChannel, protocol_id: u16, limit: usize) -> bool {
    &&& c.protocol_id == protocol_id
    &&& c.direction == Direction::InitiatorDir
    &&& c.ingress_limit == limit
    &&& c.reassembly_buf@.len() == 0
}

/// The route to a channel of the client.
pub open spec fn client_route(
    routes: Map<ChannelKey, IngressRoute>,
    protocol_id: u16,
    limit: usize,
) -> Map<ChannelKey, IngressRoute> {
    routes.insert(
        ChannelKey { protocol_id, direction: Direction::InitiatorDir },
        IngressRoute { limit, buffered: 0 },
    )
}

impl ClientChannels {
    /// Opens the channels of a client.
    pub fn open(mux: &mut Mux) -> (r: ClientChannels)
        requires
            old(mux).ingress.wf(),
        ensures
            opened(r.handshake, 0, HANDSHAKE_LIMIT),
            opened(r.state_query, 7, STATE_QUERY_LIMIT),
            opened(r.tx_submission, 6, TX_SUBMISSION_LIMIT),
            opened(r.tx_monitor, 9, TX_MONITOR_LIMIT),
            opened(r.chain_sync, 5, CHAIN_SYNC_LIMIT),
            final(mux).ingress.wf(),
            final(mux).egress == old(mux).egress,
            final(mux).is_initiator == old(mux).is_initiator,
            final(mux).ingress.routes@ == client_route(
                client_route(
                    client_route(
                        client_route(
                            client_route(old(mux).ingress.routes@, 0, HANDSHAKE_LIMIT),
                            7,
                            STATE_QUERY_LIMIT,
                        ),
                        6,
                        TX_SUBMISSION_LIMIT,
                    ),
                    9,
                    TX_MONITOR_LIMIT,
                ),
                5,
                CHAIN_SYNC_LIMIT,
            ),
    {
        let handshake = mux.subscribe(0, Direction::InitiatorDir, HANDSHAKE_LIMIT);
        let state_query = mux.subscribe(7, Direction::InitiatorDir, STATE_QUERY_LIMIT);
        let tx_submission = mux.subscribe(6, Direction::InitiatorDir, TX_SUBMISSION_LIMIT);
        let tx_monitor = mux.subscribe(9, Direction::InitiatorDir, TX_MONITOR_LIMIT);
        let chain_sync = mux.subscribe(5, Direction::InitiatorDir, CHAIN_SYNC_LIMIT);
        ClientChannels { handshake, state_query, tx_submission, tx_monitor, chain_sync }
    }
}

impl N2CClient {
    /// The client that a handshake with the given version leads to.
    pub fn connected(
        version: u16,
        state_query: MuxChannel,
        tx_submission: MuxChannel,
        tx_monitor: MuxChannel,
        chain_sync: MuxChannel,
    ) -> (r: N2CClient)
        ensures
            r.version == version,
            r.state_query_channel == state_query,
            r.tx_submission_channel == tx_submission,
            r.tx_monitor_channel == tx_monitor,
            r.chain_sync_channel == chain_sync,
    {
        N2CClient {
            version,
            state_query_channel: state_query,
            tx_submission_channel: tx_submission,
            tx_monitor_channel: tx_monitor,
            chain_sync_channel: chain_sync,
        }
    }

    /// The version that was agreed on.
    pub fn version(&self) -> (r: u16)
        ensures
            r == self.version,
    {
        self.version
    }
}

/// A channel of a client is one of the side that opened the connection, of its own
/// mini-protocol, with its own limit; nothing has been received on it, and opening it changes no
/// other route.
pub proof fn lemma_client_channels(
    c: MuxChannel,
    protocol_id: u16,
    limit: usize,
    routes: Map<ChannelKey, IngressRoute>,
    other: ChannelKey,
)
    ensures
        opened(c, protocol_id, limit) ==> c.protocol_id == protocol_id && c.ingress_limit == limit
            && c.direction == Direction::InitiatorDir && c.reassembly_buf@ == Seq::<u8>::empty(),
        ({
            let k = ChannelKey { protocol_id, direction: Direction::InitiatorDir };
            let r = client_route(routes, protocol_id, limit);
            &&& r.dom() == routes.dom().insert(k)
            &&& r[k].limit == limit && r[k].buffered == 0
            &&& other != k ==> r[other] == routes[other]
        }),
{
    if opened(c, protocol_id, limit) {
        assert(c.reassembly_buf@ =~= Seq::<u8>::empty());
    }
}

} // verus!
