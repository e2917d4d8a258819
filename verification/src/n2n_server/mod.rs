//! Node-to-node server: the mini-protocols that other nodes speak.
use crate::mempool;
use crate::text::push_text;
use vstd::prelude::*;

pub mod blockfetch;
pub mod chainsync;
pub mod connection;
pub mod handshake;
pub mod keepalive;
pub mod message;
pub mod peersharing;
pub mod rate_limit;
pub mod txsubmission;

verus! {

/// A new block at the tip of the chain.
#[derive(Debug, Clone, Copy)]
pub struct BlockAnnouncement {
    pub slot: u64,
    pub hash: [u8; 32],
    pub block_number: u64,
}

/// The chain was rolled back to an earlier block.
#[derive(Debug, Clone, Copy)]
pub struct RollbackAnnouncement {
    pub slot: u64,
    pub hash: [u8; 32],
    /// The tip of the chain after the rollback.
    pub tip_slot: u64,
    pub tip_hash: [u8; 32],
    pub tip_block_number: u64,
}

/// The tip of the chain.
#[derive(Debug, Clone, Copy)]
pub struct TipInfo {
    pub slot: u64,
    pub hash: [u8; 32],
    pub block_number: u64,
}

/// Gives access to the blocks of the chain. The chain may change between any two
/// calls, so each method comes with a relation that says which answers it may give; where
/// a relation is not defined, it may give any. A block behind a slot has a later slot.
pub trait BlockProvider: Send + Sync + 'static {
    /// What `get_block` may return.
    open spec fn may_get(&self, hash: Seq<u8>, r: Option<Seq<u8>>) -> bool {
        true
    }

    /// What `has_block` may return.
    open spec fn may_have(&self, hash: Seq<u8>, r: bool) -> bool {
        true
    }

    /// What `get_tip` may return.
    open spec fn may_end_at(&self, r: TipInfo) -> bool {
        true
    }

    /// What `get_next_block_after_slot` may return.
    open spec fn may_follow(&self, after_slot: u64, r: Option<(u64, [u8; 32], Seq<u8>)>) -> bool {
        true
    }

    /// The block with the given hash.
    fn get_block(&self, hash: &[u8; 32]) -> (r: Option<Vec<u8>>)
        ensures
            self.may_get(hash@, mempool::opt_bytes(r)),
    ;

    /// Whether there is a block with the given hash.
    fn has_block(&self, hash: &[u8; 32]) -> (r: bool)
        ensures
            self.may_have(hash@, r),
    ;

    /// The tip of the chain.
    fn get_tip(&self) -> (r: TipInfo)
        ensures
            self.may_end_at(r),
    ;

    /// The first block behind the given slot: its slot, hash and bytes.
    fn get_next_block_after_slot(&self, after_slot: u64) -> (r: Option<(u64, [u8; 32], Vec<u8>)>)
        ensures
            self.may_follow(after_slot, next_block(r)),
            r matches Some(b) ==> b.0 > after_slot,
    ;
}

/// A block behind a slot, by its contents.
pub open spec fn next_block(r: Option<(u64, [u8; 32], Vec<u8>)>) -> Option<
    (u64, [u8; 32], Seq<u8>),
> {
    match r {
        Some(b) => Some((b.0, b.1, b.2@)),
        None => None,
    }
}

/// Why a peer connection ends.
#[derive(Debug)]
pub enum N2NServerError {
    /// Reading or writing failed.
    Io(String),
    /// No version could be negotiated.
    HandshakeFailed(String),
    /// The peer sent what the protocol does not allow.
    Protocol(String),
}

/// What a server error says.
pub open spec fn server_error_text(e: N2NServerError) -> Seq<char> {
    match e {
        N2NServerError::Io(s) => "IO error: "@ + s@,
        N2NServerError::HandshakeFailed(s) => "Handshake failed: "@ + s@,
        N2NServerError::Protocol(s) => "Protocol error: "@ + s@,
    }
}

impl N2NServerError {
    /// What the error says.
    pub fn to_string(&self) -> (r: String)
        ensures
            r@ == server_error_text(*self),
    {
        let mut s = String::new();
        match self {
            N2NServerError::Io(m) => {
                push_text(&mut s, "IO error: ");
                push_text(&mut s, m.as_str());
            },
            N2NServerError::HandshakeFailed(m) => {
                push_text(&mut s, "Handshake failed: ");
                push_text(&mut s, m.as_str());
            },
            N2NServerError::Protocol(m) => {
                push_text(&mut s, "Protocol error: ");
                push_text(&mut s, m.as_str());
            },
        }
        assert(s@ =~= server_error_text(*self));
        s
    }
}

/// Version negotiation.
pub const MINI_PROTOCOL_HANDSHAKE: u16 = 0;

/// ChainSync.
pub const MINI_PROTOCOL_CHAINSYNC: u16 = 2;

/// BlockFetch.
pub const MINI_PROTOCOL_BLOCKFETCH: u16 = 3;

/// TxSubmission2.
pub const MINI_PROTOCOL_TXSUBMISSION: u16 = 4;

/// KeepAlive.
pub const MINI_PROTOCOL_KEEPALIVE: u16 = 8;

/// PeerSharing.
pub const MINI_PROTOCOL_PEERSHARING: u16 = 10;

/// Whether the node tells peers about other peers.
#[derive(Debug, Clone, Copy, PartialEq, Eq, Structural)]
pub enum PeerSharingMode {
    /// It does not.
    NoPeerSharing,
    /// It does.
    PeerSharingEnabled,
}

/// How far a peer has come in each mini-protocol.
#[derive(Debug)]
pub struct PeerState {
    /// The point up to which the peer has followed the chain.
    pub chainsync_cursor_slot: Option<u64>,
    pub chainsync_cursor_hash: Option<[u8; 32]>,
    /// Whether the peer was told to wait: only then may the server send it a
    /// MsgRollForward or a MsgRollBackward that answers no message.
    pub chainsync_must_reply: bool,
    /// Whether TxSubmission2 was started.
    pub tx_submission_init_sent: bool,
    /// Transactions of which the peer was told and that it has not acknowledged.
    pub tx_inflight: Vec<[u8; 32]>,
    /// Transactions that were requested from the peer.
    pub tx_requested_from_peer: Vec<[u8; 32]>,
    /// Number of transactions of which the peer told and that were not acknowledged.
    pub tx_peer_unacked: u16,
}

/// A peer's state by its contents.
#[verifier::ext_equal]
pub struct PeerStateView {
    pub chainsync_cursor_slot: Option<u64>,
    pub chainsync_cursor_hash: Option<[u8; 32]>,
    pub chainsync_must_reply: bool,
    pub tx_submission_init_sent: bool,
    pub tx_inflight: Seq<[u8; 32]>,
    pub tx_requested_from_peer: Seq<[u8; 32]>,
    pub tx_peer_unacked: u16,
}

impl View for PeerState {
    type V = PeerStateView;

    open spec fn view(&self) -> PeerStateView {
        PeerStateView {
            chainsync_cursor_slot: self.chainsync_cursor_slot,
            chainsync_cursor_hash: self.chainsync_cursor_hash,
            chainsync_must_reply: self.chainsync_must_reply,
            tx_submission_init_sent: self.tx_submission_init_sent,
            tx_inflight: self.tx_inflight@,
            tx_requested_from_peer: self.tx_requested_from_peer@,
            tx_peer_unacked: self.tx_peer_unacked,
        }
    }
}

/// The state of a peer that has just connected.
pub open spec fn fresh_peer() -> PeerStateView {
    PeerStateView {
        chainsync_cursor_slot: None,
        chainsync_cursor_hash: None,
        chainsync_must_reply: false,
        tx_submission_init_sent: false,
        tx_inflight: Seq::empty(),
        tx_requested_from_peer: Seq::empty(),
        tx_peer_unacked: 0,
    }
}

impl PeerState {
    /// The state of a peer that has just connected.
    pub fn new() -> (r: PeerState)
        ensures
            r@ == fresh_peer(),
    {
        let r = PeerState {
            chainsync_cursor_slot: None,
            chainsync_cursor_hash: None,
            chainsync_must_reply: false,
            tx_submission_init_sent: false,
            tx_inflight: Vec::new(),
            tx_requested_from_peer: Vec::new(),
            tx_peer_unacked: 0,
        };
        assert(r@ =~= fresh_peer());
        r
    }
}

/// What a server error says starts with its kind.
pub proof fn lemma_server_error_texts(m: String)
    ensures
        server_error_text(N2NServerError::Io(m)) == "IO error: "@ + m@,
        server_error_text(N2NServerError::HandshakeFailed(m)) == "Handshake failed: "@ + m@,
        server_error_text(N2NServerError::Protocol(m)) == "Protocol error: "@ + m@,
{
}

/// A peer that has just connected has no cursor, waits for nothing, and has neither told of
/// transactions nor been asked for any.
pub proof fn lemma_fresh_peer()
    ensures
        fresh_peer().chainsync_cursor_slot is None,
        fresh_peer().chainsync_cursor_hash is None,
        !fresh_peer().chainsync_must_reply,
        !fresh_peer().tx_submission_init_sent,
        fresh_peer().tx_inflight.len() == 0,
        fresh_peer().tx_requested_from_peer.len() == 0,
        fresh_peer().tx_peer_unacked == 0,
{
}

} // verus!
