//! Which peer to promote next, and which one to demote. Scores come as integers of which
//! the larger is the better.
use crate::address::SocketAddr;
use crate::rank::Scored;
use vstd::prelude::*;

verus! {

/// A cold peer that may be promoted.
#[derive(Debug, Clone, Copy)]
pub struct ColdPeer {
    pub address: SocketAddr,
    pub score: i64,
    /// Whether another peer told of it, and neither the configuration nor the ledger.
    pub shared: bool,
}

/// Whether `a` is the better choice than `b`, or as good a one.
pub open spec fn preferred(a: ColdPeer, b: ColdPeer) -> bool {
    a.score > b.score || (a.score == b.score && (!a.shared || b.shared))
}

/// The cold peer with the highest score; among equals, one of which the configuration or
/// the ledger told comes before one of which another peer told, and then the last one.
pub fn select_best_cold(peers: &Vec<ColdPeer>) -> (r: Option<SocketAddr>)
    ensures
        match r {
            Some(a) => exists|i: int|
                0 <= i < peers@.len() && (#[trigger] peers@[i]).address == a && (forall|j: int|
                    0 <= j < peers@.len() ==> preferred(peers@[i], #[trigger] peers@[j])) && (forall|
                    j: int,
                |
                    i < j < peers@.len() ==> !preferred(#[trigger] peers@[j], peers@[i])),
            None => peers@.len() == 0,
        },
{
    if peers.len() == 0 {
        return None;
    }
    let mut b: usize = 0;
    let mut i: usize = 1;
    while i < peers.len()
        invariant
            1 <= i <= peers@.len(),
            b < i,
            forall|j: int| 0 <= j < i ==> preferred(peers@[b as int], #[trigger] peers@[j]),
            forall|j: int| b < j < i ==> !preferred(#[trigger] peers@[j], peers@[b as int]),
        decreases peers@.len() - i,
    {
        let better: bool = peers[i].score > peers[b].score || (peers[i].score == peers[b].score && (
        !peers[i].shared || peers[b].shared));
        if better {
            b = i;
        }
        i += 1;
    }
    assert(peers@[b as int].address == peers@[b as int].address);
    Some(peers[b].address)
}

/// The first of the hot peers with the lowest score.
pub fn select_worst_hot(peers: &Vec<Scored>) -> (r: Option<SocketAddr>)
    ensures
        match r {
            Some(a) => exists|i: int|
                0 <= i < peers@.len() && (#[trigger] peers@[i]).0 == a && (forall|j: int|
                    0 <= j < peers@.len() ==> peers@[i].1 <= (#[trigger] peers@[j]).1) && (forall|
                    j: int,
                |
                    0 <= j < i ==> peers@[i].1 < (#[trigger] peers@[j]).1),
            None => peers@.len() == 0,
        },
{
    if peers.len() == 0 {
        return None;
    }
    let mut w: usize = 0;
    let mut i: usize = 1;
    while i < peers.len()
        invariant
            1 <= i <= peers@.len(),
            w < i,
            forall|j: int| 0 <= j < i ==> peers@[w as int].1 <= (#[trigger] peers@[j]).1,
            forall|j: int| 0 <= j < w ==> peers@[w as int].1 < (#[trigger] peers@[j]).1,
        decreases peers@.len() - i,
    {
        if peers[i].1 < peers[w].1 {
            w = i;
        }
        i += 1;
    }
    assert(peers@[w as int].0 == peers@[w as int].0);
    Some(peers[w].0)
}

/// The higher score is always the better choice; of two with the same score the one of which
/// another peer told is the worse one, and else they are as good as each other.
pub proof fn lemma_preferences(a: ColdPeer, b: ColdPeer)
    ensures
        a.score > b.score ==> preferred(a, b) && !preferred(b, a),
        a.score == b.score && !a.shared && b.shared ==> preferred(a, b) && !preferred(b, a),
        a.score == b.score && a.shared == b.shared ==> preferred(a, b) && preferred(b, a),
{
}

} // verus!
