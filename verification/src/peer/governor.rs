//! The governor compares how many peers there are with how many there should be, and says
//! which ones to promote and which ones to demote. From time to time it also exchanges a
//! hot peer for a warm one.
use crate::address::SocketAddr;
use vstd::prelude::*;

verus! {

/// How many peers there should be.
#[derive(Debug, Clone, Copy, PartialEq, Eq, Structural)]
pub struct PeerTargets {
    /// Connected peers, hot ones included in the count.
    pub target_warm: usize,
    pub target_hot: usize,
    /// Most cold peers to keep track of.
    pub max_cold: usize,
}

impl Default for PeerTargets {
    fn default() -> (r: PeerTargets)
        ensures
            r == (PeerTargets { target_warm: 10, target_hot: 5, max_cold: 100 }),
    {
        PeerTargets { target_warm: 10, target_hot: 5, max_cold: 100 }
    }
}

/// What the governor goes by.
#[derive(Debug, Clone, Copy, PartialEq, Eq, Structural)]
pub struct GovernorConfig {
    pub targets: PeerTargets,
    /// Shortest time between two exchanges of peers, in milliseconds.
    pub churn_interval: u64,
}

impl Default for GovernorConfig {
    fn default() -> (r: GovernorConfig)
        ensures
            r == (GovernorConfig {
                targets: PeerTargets { target_warm: 10, target_hot: 5, max_cold: 100 },
                churn_interval: 600_000,
            }),
    {
        GovernorConfig { targets: PeerTargets::default(), churn_interval: 600_000 }
    }
}

/// What is to be done.
#[derive(Debug, Clone, Copy, PartialEq, Eq)]
pub enum GovernorAction {
    /// Connect to a cold peer.
    PromoteToWarm(SocketAddr),
    /// Exchange data with a warm peer.
    PromoteToHot(SocketAddr),
    /// Stop exchanging data with a hot peer.
    DemoteToWarm(SocketAddr),
    /// Disconnect from a warm peer.
    DemoteToCold(SocketAddr),
    /// Look for more peers.
    DiscoverMore,
}

/// The peers by their state.
#[derive(Debug)]
pub struct PeerLists {
    /// Number of cold peers.
    pub cold_count: usize,
    /// The cold peers that may be tried now.
    pub eligible: Vec<SocketAddr>,
    pub warm: Vec<SocketAddr>,
    pub hot: Vec<SocketAddr>,
}

/// The peers by their state, by contents.
pub struct PeersByState {
    pub cold_count: nat,
    pub eligible: Seq<SocketAddr>,
    pub warm: Seq<SocketAddr>,
    pub hot: Seq<SocketAddr>,
}

impl View for PeerLists {
    type V = PeersByState;

    open spec fn view(&self) -> PeersByState {
        PeersByState {
            cold_count: self.cold_count as nat,
            eligible: self.eligible@,
            warm: self.warm@,
            hot: self.hot@,
        }
    }
}

/// The first `n` of `s`, or all of them where there are fewer.
pub open spec fn first(s: Seq<SocketAddr>, n: int) -> Seq<SocketAddr> {
    if n <= 0 {
        Seq::empty()
    } else if n < s.len() {
        s.take(n)
    } else {
        s
    }
}

/// Connect to cold peers while there are too few connected ones.
pub open spec fn connect_actions(t: PeerTargets, p: PeersByState) -> Seq<GovernorAction> {
    first(p.eligible, t.target_warm - (p.warm.len() + p.hot.len())).map_values(
        |a: SocketAddr| GovernorAction::PromoteToWarm(a),
    )
}

/// Promote warm peers while there are too few hot ones.
pub open spec fn promote_actions(t: PeerTargets, p: PeersByState) -> Seq<GovernorAction> {
    first(p.warm, t.target_hot - p.hot.len()).map_values(
        |a: SocketAddr| GovernorAction::PromoteToHot(a),
    )
}

/// Demote hot peers while there are too many.
pub open spec fn demote_actions(t: PeerTargets, p: PeersByState) -> Seq<GovernorAction> {
    first(p.hot, p.hot.len() - t.target_hot).map_values(
        |a: SocketAddr| GovernorAction::DemoteToWarm(a),
    )
}

/// Look for more peers while fewer than half of the cold ones are known.
pub open spec fn discover_actions(t: PeerTargets, p: PeersByState) -> Seq<GovernorAction> {
    if p.cold_count < t.max_cold / 2 {
        seq![GovernorAction::DiscoverMore]
    } else {
        Seq::empty()
    }
}

/// Whether it is time to exchange a hot peer for a warm one.
pub open spec fn churn_due(g: Governor, p: PeersByState, now: u64) -> bool {
    &&& (if g.last_churn <= now {
        now - g.last_churn
    } else {
        0
    }) >= g.config.churn_interval
    &&& p.hot.len() > 1
}

/// Exchange the first hot peer for the first warm one.
pub open spec fn churn_actions(p: PeersByState) -> Seq<GovernorAction> {
    seq![GovernorAction::DemoteToWarm(p.hot[0])] + first(p.warm, 1).map_values(
        |a: SocketAddr| GovernorAction::PromoteToHot(a),
    )
}

/// What is to be done now.
pub open spec fn actions(g: Governor, p: PeersByState, now: u64) -> Seq<GovernorAction> {
    let t = g.config.targets;
    connect_actions(t, p) + promote_actions(t, p) + demote_actions(t, p) + discover_actions(t, p)
        + if churn_due(g, p, now) {
        churn_actions(p)
    } else {
        Seq::empty()
    }
}

/// Decides what is to be done about the peers. Times are readings, in milliseconds, of a
/// clock that is never set back.
#[derive(Debug, Clone, Copy, PartialEq, Eq, Structural)]
pub struct Governor {
    pub config: GovernorConfig,
    /// When a hot peer was last exchanged for a warm one.
    pub last_churn: u64,
}

/// The lesser of a difference, 0 where it is negative, and a length.
fn needed(want: u128, have: u128, len: usize) -> (r: usize)
    ensures
        r == if want <= have {
            0
        } else if want - have < len {
            want - have
        } else {
            len as int
        },
{
    if want <= have {
        0
    } else if want - have < len as u128 {
        (want - have) as usize
    } else {
        len
    }
}

impl Governor {
    /// A governor that starts at the given time.
    pub fn new(config: GovernorConfig, now: u64) -> (r: Governor)
        ensures
            r == (Governor { config, last_churn: now }),
    {
        Governor { config, last_churn: now }
    }

    /// Says what is to be done about the peers.
    pub fn compute_actions(&mut self, peers: &PeerLists, now: u64) -> (r: Vec<GovernorAction>)
        ensures
            r@ == actions(*old(self), peers@, now),
            *final(self) == (Governor {
                last_churn: if churn_due(*old(self), peers@, now) {
                    now
                } else {
                    old(self).last_churn
                },
                ..*old(self)
            }),
    {
        let ghost g = *self;
        let ghost p = peers@;
        let t = self.config.targets;
        let mut r: Vec<GovernorAction> = Vec::new();
        let warm: usize = peers.warm.len();
        let hot: usize = peers.hot.len();

        let n: usize = needed(
            t.target_warm as u128,
            warm as u128 + hot as u128,
            peers.eligible.len(),
        );
        let mut i: usize = 0;
        while i < n
            invariant
                i <= n <= peers.eligible@.len(),
                r@ == peers.eligible@.take(i as int).map_values(
                    |a: SocketAddr| GovernorAction::PromoteToWarm(a),
                ),
            decreases n - i,
        {
            r.push(GovernorAction::PromoteToWarm(peers.eligible[i]));
            i += 1;
            assert(r@ =~= peers.eligible@.take(i as int).map_values(
                |a: SocketAddr| GovernorAction::PromoteToWarm(a),
            ));
        }
        assert(r@ =~= connect_actions(t, p));

        let ghost before = r@;
        let n: usize = needed(t.target_hot as u128, hot as u128, warm);
        let mut i: usize = 0;
        while i < n
            invariant
                i <= n <= peers.warm@.len(),
                r@ == before + peers.warm@.take(i as int).map_values(
                    |a: SocketAddr| GovernorAction::PromoteToHot(a),
                ),
            decreases n - i,
        {
            r.push(GovernorAction::PromoteToHot(peers.warm[i]));
            i += 1;
            assert(r@ =~= before + peers.warm@.take(i as int).map_values(
                |a: SocketAddr| GovernorAction::PromoteToHot(a),
            ));
        }
        assert(r@ =~= before + promote_actions(t, p));

        let ghost before = r@;
        let n: usize = needed(hot as u128, t.target_hot as u128, hot);
        let mut i: usize = 0;
        while i < n
            invariant
                i <= n <= peers.hot@.len(),
                r@ == before + peers.hot@.take(i as int).map_values(
                    |a: SocketAddr| GovernorAction::DemoteToWarm(a),
                ),
            decreases n - i,
        {
            r.push(GovernorAction::DemoteToWarm(peers.hot[i]));
            i += 1;
            assert(r@ =~= before + peers.hot@.take(i as int).map_values(
                |a: SocketAddr| GovernorAction::DemoteToWarm(a),
            ));
        }
        assert(r@ =~= before + demote_actions(t, p));

        let ghost before = r@;
        if peers.cold_count < t.max_cold / 2 {
            r.push(GovernorAction::DiscoverMore);
        }
        assert(r@ =~= before + discover_actions(t, p));

        let ghost before = r@;
        let gone: u64 = if self.last_churn <= now {
            now - self.last_churn
        } else {
            0
        };
        if gone >= self.config.churn_interval && hot > 1 {
            r.push(GovernorAction::DemoteToWarm(peers.hot[0]));
            if warm > 0 {
                r.push(GovernorAction::PromoteToHot(peers.warm[0]));
            }
            self.last_churn = now;
            assert(r@ =~= before + churn_actions(p));
        }
        assert(r@ =~= actions(g, p, now));
        r
    }
}

/// The governor never connects to more peers than are missing, never promotes more than
/// are missing, never demotes more than are too many, and does not promote and demote
/// for the sake of the numbers at once.
pub proof fn lemma_no_overshoot(t: PeerTargets, p: PeersByState)
    ensures
        connect_actions(t, p).len() > 0 ==> p.warm.len() + p.hot.len() + connect_actions(
            t,
            p,
        ).len() <= t.target_warm,
        promote_actions(t, p).len() > 0 ==> p.hot.len() + promote_actions(t, p).len()
            <= t.target_hot,
        demote_actions(t, p).len() > 0 ==> p.hot.len() - demote_actions(t, p).len()
            == t.target_hot,
        promote_actions(t, p).len() == 0 || demote_actions(t, p).len() == 0,
{
}

/// Where there are as many peers as there should be, nothing is to be done but an
/// exchange, if one is due.
pub proof fn lemma_on_target(g: Governor, p: PeersByState, now: u64)
    requires
        p.warm.len() + p.hot.len() >= g.config.targets.target_warm,
        p.hot.len() == g.config.targets.target_hot,
        p.cold_count >= g.config.targets.max_cold / 2,
    ensures
        actions(g, p, now) == if churn_due(g, p, now) {
            churn_actions(p)
        } else {
            Seq::empty()
        },
{
    assert(actions(g, p, now) =~= if churn_due(g, p, now) {
        churn_actions(p)
    } else {
        Seq::empty()
    });
}

proof fn lemma_filter_all(s: Seq<GovernorAction>, f: spec_fn(GovernorAction) -> bool)
    requires
        forall|i: int| 0 <= i < s.len() ==> f(#[trigger] s[i]),
    ensures
        s.filter(f) == s,
    decreases s.len(),
{
    reveal(Seq::filter);
    if s.len() > 0 {
        assert(f(s[s.len() - 1]));
        assert forall|i: int| 0 <= i < s.len() - 1 implies f(#[trigger] s.drop_last()[i]) by {
            assert(f(s[i]));
        }
        lemma_filter_all(s.drop_last(), f);
        assert(s.drop_last().push(s.last()) =~= s);
    }
}

proof fn lemma_filter_none(s: Seq<GovernorAction>, f: spec_fn(GovernorAction) -> bool)
    requires
        forall|i: int| 0 <= i < s.len() ==> !f(#[trigger] s[i]),
    ensures
        s.filter(f) == Seq::<GovernorAction>::empty(),
    decreases s.len(),
{
    reveal(Seq::filter);
    if s.len() > 0 {
        assert(!f(s[s.len() - 1]));
        assert forall|i: int| 0 <= i < s.len() - 1 implies !f(#[trigger] s.drop_last()[i]) by {
            assert(!f(s[i]));
        }
        lemma_filter_none(s.drop_last(), f);
    }
}

proof fn lemma_filter_parts(
    a: Seq<GovernorAction>,
    b: Seq<GovernorAction>,
    c: Seq<GovernorAction>,
    d: Seq<GovernorAction>,
    e: Seq<GovernorAction>,
    f: spec_fn(GovernorAction) -> bool,
)
    ensures
        (a + b + c + d + e).filter(f) == a.filter(f) + b.filter(f) + c.filter(f) + d.filter(f)
            + e.filter(f),
{
    Seq::filter_distributes_over_add(a, b, f);
    Seq::filter_distributes_over_add(a + b, c, f);
    Seq::filter_distributes_over_add(a + b + c, d, f);
    Seq::filter_distributes_over_add(a + b + c + d, e, f);
}

/// The lesser of a number, 0 where it is negative, and a length.
pub open spec fn up_to(n: int, len: nat) -> nat {
    if n <= 0 {
        0
    } else if n <= len {
        n as nat
    } else {
        len
    }
}

/// The governor connects to as many peers as are missing among the connected ones, hot ones
/// counted once, or to all that may be tried where there are fewer: afterwards the target is
/// reached, or every such peer has been named. It names them in their order.
pub proof fn lemma_missing_connections_are_made(g: Governor, p: PeersByState, now: u64)
    ensures
        ({
            let made = actions(g, p, now).filter(|a: GovernorAction| a is PromoteToWarm);
            let target = g.config.targets.target_warm;
            &&& made.len() == up_to(target - p.warm.len() - p.hot.len(), p.eligible.len())
            &&& p.warm.len() + p.hot.len() < target ==> p.warm.len() + p.hot.len() + made.len()
                == target || made.len() == p.eligible.len()
            &&& p.warm.len() + p.hot.len() >= target ==> made.len() == 0
            &&& forall|i: int|
                0 <= i < made.len() ==> #[trigger] made[i] == GovernorAction::PromoteToWarm(
                    p.eligible[i],
                )
        }),
{
    let f = |a: GovernorAction| a is PromoteToWarm;
    let t = g.config.targets;
    let churn = if churn_due(g, p, now) {
        churn_actions(p)
    } else {
        Seq::empty()
    };
    lemma_filter_parts(
        connect_actions(t, p),
        promote_actions(t, p),
        demote_actions(t, p),
        discover_actions(t, p),
        churn,
        f,
    );
    lemma_filter_all(connect_actions(t, p), f);
    lemma_filter_none(promote_actions(t, p), f);
    lemma_filter_none(demote_actions(t, p), f);
    lemma_filter_none(discover_actions(t, p), f);
    lemma_filter_none(churn, f);
    assert(actions(g, p, now).filter(f) =~= connect_actions(t, p));
}

/// While no exchange is due, the governor promotes as many warm peers as hot ones are
/// missing, or all of them where there are fewer, and demotes as many hot peers as there are
/// too many; it takes the first ones of each.
pub proof fn lemma_hot_peers_are_brought_to_target(g: Governor, p: PeersByState, now: u64)
    requires
        p.hot.len() <= 1 || now < g.last_churn + g.config.churn_interval,
        g.config.churn_interval > 0,
    ensures
        ({
            let up = actions(g, p, now).filter(|a: GovernorAction| a is PromoteToHot);
            let down = actions(g, p, now).filter(|a: GovernorAction| a is DemoteToWarm);
            let target = g.config.targets.target_hot;
            &&& up.len() == up_to(target - p.hot.len(), p.warm.len())
            &&& down.len() == up_to(p.hot.len() - target, p.hot.len())
            &&& p.hot.len() < target ==> p.hot.len() + up.len() == target || up.len()
                == p.warm.len()
            &&& p.hot.len() >= target ==> p.hot.len() - down.len() == target
            &&& forall|i: int|
                0 <= i < up.len() ==> #[trigger] up[i] == GovernorAction::PromoteToHot(p.warm[i])
            &&& forall|i: int|
                0 <= i < down.len() ==> #[trigger] down[i] == GovernorAction::DemoteToWarm(p.hot[i])
        }),
{
    let f = |a: GovernorAction| a is PromoteToHot;
    let h = |a: GovernorAction| a is DemoteToWarm;
    let t = g.config.targets;
    let none = Seq::<GovernorAction>::empty();
    assert(!churn_due(g, p, now));
    let (c, u, d, m) = (
        connect_actions(t, p),
        promote_actions(t, p),
        demote_actions(t, p),
        discover_actions(t, p),
    );
    lemma_filter_parts(c, u, d, m, none, f);
    lemma_filter_parts(c, u, d, m, none, h);
    lemma_filter_none(c, f);
    lemma_filter_none(c, h);
    lemma_filter_all(u, f);
    lemma_filter_none(u, h);
    lemma_filter_none(d, f);
    lemma_filter_all(d, h);
    lemma_filter_none(m, f);
    lemma_filter_none(m, h);
    lemma_filter_none(none, f);
    lemma_filter_none(none, h);
    assert(actions(g, p, now).filter(f) =~= u);
    assert(actions(g, p, now).filter(h) =~= d);
}

/// More peers are looked for, once, exactly where fewer than half of the cold peers are
/// known that may be; and no peer is disconnected.
pub proof fn lemma_more_peers_are_looked_for(g: Governor, p: PeersByState, now: u64)
    ensures
        ({
            let r = actions(g, p, now);
            &&& r.filter(|a: GovernorAction| a is DiscoverMore).len() == if 2 * p.cold_count + 2
                <= g.config.targets.max_cold {
                1nat
            } else {
                0
            }
            &&& forall|i: int| 0 <= i < r.len() ==> !((#[trigger] r[i]) is DemoteToCold)
        }),
{
    let f = |a: GovernorAction| a is DiscoverMore;
    let t = g.config.targets;
    let churn = if churn_due(g, p, now) {
        churn_actions(p)
    } else {
        Seq::empty()
    };
    let (c, u, d, m) = (
        connect_actions(t, p),
        promote_actions(t, p),
        demote_actions(t, p),
        discover_actions(t, p),
    );
    lemma_filter_parts(c, u, d, m, churn, f);
    lemma_filter_none(c, f);
    lemma_filter_none(u, f);
    lemma_filter_none(d, f);
    lemma_filter_all(m, f);
    lemma_filter_none(churn, f);
    assert(actions(g, p, now).filter(f) =~= m);
}

/// An exchange is due once the interval has passed and there is more than one hot peer. It
/// adds to what else is to be done that the first hot peer is demoted and the first warm
/// peer, if there is one, is promoted, and changes nothing of the rest.
pub proof fn lemma_exchange(g: Governor, p: PeersByState, now: u64, later: u64)
    requires
        g.last_churn <= now < g.last_churn + g.config.churn_interval <= later,
    ensures
        p.hot.len() > 1 ==> actions(g, p, later) == actions(g, p, now) + seq![
            GovernorAction::DemoteToWarm(p.hot[0]),
        ] + if p.warm.len() > 0 {
            seq![GovernorAction::PromoteToHot(p.warm[0])]
        } else {
            Seq::empty()
        },
        p.hot.len() <= 1 ==> actions(g, p, later) == actions(g, p, now),
{
    assert(!churn_due(g, p, now));
    if p.hot.len() > 1 {
        assert(churn_due(g, p, later));
        assert(actions(g, p, later) =~= actions(g, p, now) + seq![
            GovernorAction::DemoteToWarm(p.hot[0]),
        ] + if p.warm.len() > 0 {
            seq![GovernorAction::PromoteToHot(p.warm[0])]
        } else {
            Seq::empty()
        });
    } else {
        assert(!churn_due(g, p, later));
    }
}

} // verus!
