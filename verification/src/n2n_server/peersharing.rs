//! PeerSharing: a peer asks for the addresses of other peers.
use crate::address::SocketAddr;
use crate::multiplexer::Segment;
use crate::n2n_server::message;
use crate::n2n_server::message::reply;
use crate::n2n_server::{N2NServerError, PeerSharingMode, MINI_PROTOCOL_PEERSHARING};
use crate::peer_manager;
use crate::peer_manager::PeerManager;
use crate::text::push_text;
use crate::address;
use crate::peer_manager::PeerTemperature;
use vstd::prelude::*;

verus! {

/// A message of PeerSharing.
#[derive(Debug)]
pub enum PeerSharingMessage {
    /// The peer asks for at most so many addresses.
    ShareRequest(u64),
    /// The addresses.
    SharePeers(Vec<SocketAddr>),
    /// The peer is done.
    Done,
}

/// Whether `r` may be the answer to a request for `amount` addresses: addresses of peers
/// that may be shared, none of them twice, as many as there are up to `amount`. Nothing
/// is shared if that is switched off, or if no peer is known.
pub open spec fn may_share(
    amount: u64,
    mode: PeerSharingMode,
    peer_manager: Option<&PeerManager>,
    r: Seq<SocketAddr>,
) -> bool {
    match peer_manager {
        Some(pm) if mode == PeerSharingMode::PeerSharingEnabled
            && pm@.config.peer_sharing_enabled => {
            let shareable = peer_manager::shareable_peers(pm@);
            &&& r.no_duplicates()
            &&& forall|i: int| 0 <= i < r.len() ==> shareable.contains(#[trigger] r[i])
            &&& r.len() == peer_manager::lesser(amount as nat, shareable.len())
        },
        _ => r.len() == 0,
    }
}

/// Answers a message of PeerSharing. Only a request is answered.
pub fn answer_peersharing(
    msg: &PeerSharingMessage,
    mode: PeerSharingMode,
    peer_manager: Option<&PeerManager>,
) -> (r: Option<PeerSharingMessage>)
    requires
        peer_manager matches Some(pm) ==> pm.wf(),
    ensures
        match *msg {
            PeerSharingMessage::ShareRequest(amount) => r matches Some(
                PeerSharingMessage::SharePeers(v),
            ) && may_share(amount, mode, peer_manager, v@),
            _ => r is None,
        },
{
    match msg {
        PeerSharingMessage::ShareRequest(amount) => {
            let mut peers: Vec<SocketAddr> = Vec::new();
            if mode == PeerSharingMode::PeerSharingEnabled {
                if let Some(pm) = peer_manager {
                    let known: usize = pm.peers.len();
                    let n: usize = if *amount < known as u64 {
                        *amount as usize
                    } else {
                        known
                    };
                    peers = pm.peers_for_sharing(n);
                    proof {
                        let shareable = peer_manager::shareable_peers(pm@);
                        crate::table::lemma_entries(pm.peers.entries@);
                        vstd::set_lib::lemma_len_subset(shareable, pm@.known.dom());
                    }
                }
            }
            Some(PeerSharingMessage::SharePeers(peers))
        },
        _ => None,
    }
}

/// The segment that carries an encoded message of PeerSharing.
pub fn peersharing_segment(payload: Vec<u8>) -> (r: Segment)
    ensures
        r@ == message::reply_view(MINI_PROTOCOL_PEERSHARING, payload@),
{
    reply(MINI_PROTOCOL_PEERSHARING, payload)
}

/// The error of a message that does not decode.
pub fn peersharing_decode_error(e: &str) -> (r: N2NServerError)
    ensures
        r@ == message::ErrorView::Protocol("PeerSharing decode error: "@ + e@),
{
    let mut m = String::new();
    push_text(&mut m, "PeerSharing decode error: ");
    push_text(&mut m, e);
    assert(m@ =~= "PeerSharing decode error: "@ + e@);
    N2NServerError::Protocol(m)
}

/// The error of a message that does not encode.
pub fn peersharing_encode_error(e: &str) -> (r: N2NServerError)
    ensures
        r@ == message::ErrorView::Protocol("PeerSharing encode error: "@ + e@),
{
    let mut m = String::new();
    push_text(&mut m, "PeerSharing encode error: ");
    push_text(&mut m, e);
    assert(m@ =~= "PeerSharing encode error: "@ + e@);
    N2NServerError::Protocol(m)
}

/// Nothing is shared where that is switched off on either side, or no peer is known. Else only
/// peers are shared that are to be advertised, are connected and are on the public network, none
/// of them twice, and no more than were asked for; fewer only where there are no more.
pub proof fn lemma_what_is_shared(
    amount: u64,
    mode: PeerSharingMode,
    pm: &PeerManager,
    r: Seq<SocketAddr>,
    i: int,
)
    requires
        may_share(amount, mode, Some(pm), r),
        0 <= i < r.len(),
    ensures
        mode == PeerSharingMode::PeerSharingEnabled,
        pm@.config.peer_sharing_enabled,
        r.len() <= amount,
        r.no_duplicates(),
        pm@.known.dom().contains(r[i]) && pm@.known[r[i]].advertise,
        pm@.known[r[i]].temperature != PeerTemperature::Cold,
        address::routable(r[i].ip),
        r.len() < amount ==> r.len() == peer_manager::shareable_peers(pm@).len(),
{
    assert(peer_manager::shareable_peers(pm@).contains(r[i]));
    peer_manager::lemma_only_public_peers_are_shared(pm@, r[i]);
}

/// Where sharing is on and peers may be shared, some are.
pub proof fn lemma_something_is_shared(
    amount: u64,
    pm: &PeerManager,
    r: Seq<SocketAddr>,
)
    requires
        may_share(amount, PeerSharingMode::PeerSharingEnabled, Some(pm), r),
        pm@.config.peer_sharing_enabled,
        r.len() < amount,
    ensures
        r.len() == peer_manager::shareable_peers(pm@).len(),
{
}

} // verus!
