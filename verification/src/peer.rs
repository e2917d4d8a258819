//! Connections to peers, and which of them to keep.
use crate::address::SocketAddr;
use crate::n2n_server::TipInfo;
use vstd::prelude::*;

pub mod governor;
pub mod selection;

verus! {

/// State of a connection.
#[derive(Debug, Clone, Copy, PartialEq, Eq, Structural)]
pub enum PeerState {
    /// It is being opened.
    Connecting,
    /// Versions are being negotiated.
    Handshaking,
    /// It is in use.
    Connected,
    /// It is being closed.
    Disconnecting,
    /// It is closed.
    Disconnected,
}

/// A connection to a peer. Times are readings, in milliseconds, of a clock that is never
/// set back.
#[derive(Debug, Clone, Copy)]
pub struct PeerConnection {
    pub address: SocketAddr,
    pub state: PeerState,
    pub remote_tip: Option<TipInfo>,
    pub negotiated_version: Option<u32>,
    pub connected_at: Option<u64>,
    pub bytes_sent: u64,
    pub bytes_received: u64,
    /// Whether this node opened the connection.
    pub is_initiator: bool,
}

/// A connection that is being opened.
pub open spec fn new_connection(address: SocketAddr, is_initiator: bool) -> PeerConnection {
    PeerConnection {
        address,
        state: PeerState::Connecting,
        remote_tip: None,
        negotiated_version: None,
        connected_at: None,
        bytes_sent: 0,
        bytes_received: 0,
        is_initiator,
    }
}

impl PeerConnection {
    /// A connection that this node opens.
    pub fn new_outbound(address: SocketAddr) -> (r: PeerConnection)
        ensures
            r == new_connection(address, true),
    {
        PeerConnection {
            address,
            state: PeerState::Connecting,
            remote_tip: None,
            negotiated_version: None,
            connected_at: None,
            bytes_sent: 0,
            bytes_received: 0,
            is_initiator: true,
        }
    }

    /// A connection that the peer opens.
    pub fn new_inbound(address: SocketAddr) -> (r: PeerConnection)
        ensures
            r == new_connection(address, false),
    {
        PeerConnection {
            address,
            state: PeerState::Connecting,
            remote_tip: None,
            negotiated_version: None,
            connected_at: None,
            bytes_sent: 0,
            bytes_received: 0,
            is_initiator: false,
        }
    }

    /// Whether the connection is in use.
    pub fn is_connected(&self) -> (r: bool)
        ensures
            r == (self.state == PeerState::Connected),
    {
        self.state == PeerState::Connected
    }

    /// For how many seconds the connection has been in use at the given time.
    pub fn uptime_secs(&self, now: u64) -> (r: Option<u64>)
        ensures
            r == match self.connected_at {
                Some(t) => Some(
                    if t <= now {
                        ((now - t) / 1000) as u64
                    } else {
                        0
                    },
                ),
                None => None,
            },
    {
        match self.connected_at {
            Some(t) => Some(
                if t <= now {
                    (now - t) / 1000
                } else {
                    0
                },
            ),
            None => None,
        }
    }
}

/// How many peers to keep.
#[derive(Debug, Clone, Copy, PartialEq, Eq, Structural)]
pub struct PeerSelectionConfig {
    pub target_active_peers: usize,
    pub target_established_peers: usize,
    pub target_known_peers: usize,
    pub max_inbound_peers: usize,
}

impl Default for PeerSelectionConfig {
    fn default() -> (r: PeerSelectionConfig)
        ensures
            r == (PeerSelectionConfig {
                target_active_peers: 15,
                target_established_peers: 40,
                target_known_peers: 85,
                max_inbound_peers: 100,
            }),
    {
        PeerSelectionConfig {
            target_active_peers: 15,
            target_established_peers: 40,
            target_known_peers: 85,
            max_inbound_peers: 100,
        }
    }
}

/// A connection that is being opened is not in use, has no version and has moved no bytes; who
/// opens it is all that tells the two kinds apart.
pub proof fn lemma_new_connections(address: SocketAddr, is_initiator: bool)
    ensures
        ({
            let c = new_connection(address, is_initiator);
            &&& c.address == address && c.is_initiator == is_initiator
            &&& c.state == PeerState::Connecting
            &&& c.remote_tip is None && c.negotiated_version is None && c.connected_at is None
            &&& c.bytes_sent == 0 && c.bytes_received == 0
        }),
{
}

} // verus!
