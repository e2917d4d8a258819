//! Which peers are known, and which of them the node is connected to.
//!
//! A peer is cold while it is only known, warm once it is connected, and hot while data
//! is exchanged with it. Times are readings, in milliseconds, of a clock that is never
//! set back.
use crate::address;
use crate::address::{is_routable, subnet_key, SocketAddr};
use crate::rank;
use crate::rank::{best_of, Scored};
use crate::table;
use crate::table::{KeySet, Table};
use vstd::prelude::*;

verus! {

/// Who may open connections.
#[derive(Debug, Clone, Copy, PartialEq, Eq, Structural)]
pub enum DiffusionMode {
    /// Only this node.
    InitiatorOnly,
    /// This node and its peers.
    InitiatorAndResponder,
}

impl Default for DiffusionMode {
    fn default() -> (r: DiffusionMode)
        ensures
            r == DiffusionMode::InitiatorAndResponder,
    {
        DiffusionMode::InitiatorAndResponder
    }
}

/// How closely the node deals with a peer.
#[derive(Debug, Clone, Copy, PartialEq, Eq, Hash, Structural)]
pub enum PeerTemperature {
    /// It is known.
    Cold,
    /// It is connected.
    Warm,
    /// Data is exchanged with it.
    Hot,
}

/// Where the node learned of a peer.
#[derive(Debug, Clone, Copy, PartialEq, Eq, Structural)]
pub enum PeerSource {
    /// From its configuration.
    Config,
    /// From another peer.
    PeerSharing,
    /// From the ledger.
    Ledger,
}

/// What kind of peer it is.
#[derive(Debug, Clone, Copy, PartialEq, Eq, Hash, Structural)]
pub enum PeerCategory {
    /// A local root of the configuration.
    LocalRoot,
    /// A public root of the configuration.
    PublicRoot,
    /// A relay of one of the pools that hold most of the stake.
    BigLedgerPeer,
    /// A relay of another pool.
    LedgerPeer,
    /// A peer of which another peer told.
    Shared,
    /// A bootstrap peer of the configuration.
    Bootstrap,
}

/// The reputation of a peer of which nothing is known: one half.
pub const NEUTRAL_REPUTATION: i64 = 0x3FE0_0000_0000_0000;

/// A peer with a lower reputation may have to make room for another: three tenths.
pub const EVICTION_REPUTATION_THRESHOLD: i64 = 0x3FD3_3333_3333_3333;

/// Connected peers of one network from which on more of them are held against a
/// candidate of that network.
pub const MAX_PEERS_PER_SUBNET: usize = 3;

/// Time in which the failures of a peer are halved: five minutes.
pub const FAILURE_HALF_LIFE_MS: u64 = 300_000;

/// What was measured of a peer.
#[derive(Debug, Clone, Copy, PartialEq, Eq, Structural)]
pub struct PeerPerformance {
    pub bytes_received: u64,
    pub blocks_fetched: u64,
    /// Number of handshakes and fetches that succeeded.
    pub success_count: u64,
    /// When blocks were last fetched.
    pub last_good_fetch: Option<u64>,
    /// A number between 0 and 1, as its IEEE 754 double bits: of two such numbers, the
    /// larger one has the larger bits.
    pub reputation: i64,
}

impl Default for PeerPerformance {
    fn default() -> (r: PeerPerformance)
        ensures
            r == unmeasured(),
    {
        PeerPerformance {
            bytes_received: 0,
            blocks_fetched: 0,
            success_count: 0,
            last_good_fetch: None,
            reputation: NEUTRAL_REPUTATION,
        }
    }
}

/// Nothing was measured yet.
pub open spec fn unmeasured() -> PeerPerformance {
    PeerPerformance {
        bytes_received: 0,
        blocks_fetched: 0,
        success_count: 0,
        last_good_fetch: None,
        reputation: NEUTRAL_REPUTATION,
    }
}

/// What is known of a peer.
#[derive(Debug, Clone, Copy)]
pub struct PeerInfo {
    pub address: SocketAddr,
    pub temperature: PeerTemperature,
    pub source: PeerSource,
    pub category: PeerCategory,
    pub last_connected: Option<u64>,
    pub last_failed: Option<u64>,
    pub failure_count: u32,
    pub is_trustable: bool,
    /// Whether other peers may be told of it.
    pub advertise: bool,
    /// The negotiated version, while it is connected.
    pub version: Option<u32>,
    pub remote_tip_slot: Option<u64>,
    /// Whether this node opened the connection.
    pub is_initiator: Option<bool>,
    pub performance: PeerPerformance,
}

/// The category of a peer from the given source.
pub open spec fn category_of(source: PeerSource) -> PeerCategory {
    match source {
        PeerSource::Config => PeerCategory::PublicRoot,
        PeerSource::PeerSharing => PeerCategory::Shared,
        PeerSource::Ledger => PeerCategory::LedgerPeer,
    }
}

/// A peer of which the node has just learned.
pub open spec fn new_peer(address: SocketAddr, source: PeerSource) -> PeerInfo {
    PeerInfo {
        address,
        temperature: PeerTemperature::Cold,
        source,
        category: category_of(source),
        last_connected: None,
        last_failed: None,
        failure_count: 0,
        is_trustable: false,
        advertise: false,
        version: None,
        remote_tip_slot: None,
        is_initiator: None,
        performance: unmeasured(),
    }
}

/// Seconds for which a peer that failed `failures` times is left alone: 5, 10, 20 and 40,
/// then 60.
pub open spec fn retry_delay_secs(failures: u32) -> u64 {
    if failures == 0 {
        5
    } else if failures == 1 {
        10
    } else if failures == 2 {
        20
    } else if failures == 3 {
        40
    } else {
        60
    }
}

/// Time that went by since `t`.
pub open spec fn elapsed(t: u64, now: u64) -> nat {
    if t <= now {
        (now - t) as nat
    } else {
        0
    }
}

/// Whether a peer may be tried now.
pub open spec fn retry_due(p: PeerInfo, now: u64) -> bool {
    match p.last_failed {
        None => true,
        Some(t) => elapsed(t, now) >= retry_delay_secs(p.failure_count) * 1000,
    }
}

impl PeerInfo {
    /// A peer of which the node has just learned.
    pub fn new(address: SocketAddr, source: PeerSource) -> (r: PeerInfo)
        ensures
            r == new_peer(address, source),
    {
        let category = match source {
            PeerSource::Config => PeerCategory::PublicRoot,
            PeerSource::PeerSharing => PeerCategory::Shared,
            PeerSource::Ledger => PeerCategory::LedgerPeer,
        };
        PeerInfo {
            address,
            temperature: PeerTemperature::Cold,
            source,
            category,
            last_connected: None,
            last_failed: None,
            failure_count: 0,
            is_trustable: false,
            advertise: false,
            version: None,
            remote_tip_slot: None,
            is_initiator: None,
            performance: PeerPerformance::default(),
        }
    }

    /// Whether the peer may be tried now.
    pub fn should_retry(&self, now: u64) -> (r: bool)
        ensures
            r == retry_due(*self, now),
    {
        match self.last_failed {
            None => true,
            Some(t) => {
                let delay: u64 = match self.failure_count {
                    0 => 5,
                    1 => 10,
                    2 => 20,
                    3 => 40,
                    _ => 60,
                };
                let gone: u64 = if t <= now {
                    now - t
                } else {
                    0
                };
                gone >= delay * 1000
            },
        }
    }
}

/// What the peer manager aims at.
#[derive(Debug, Clone, Copy, PartialEq, Eq, Structural)]
pub struct PeerManagerConfig {
    pub target_hot_peers: usize,
    pub target_warm_peers: usize,
    /// Most peers of which the node learns by itself.
    pub target_known_peers: usize,
    pub max_inbound_peers: usize,
    pub peer_sharing_enabled: bool,
    pub diffusion_mode: DiffusionMode,
    /// How often connections are changed, in seconds.
    pub churn_interval_secs: u64,
}

impl Default for PeerManagerConfig {
    fn default() -> (r: PeerManagerConfig)
        ensures
            r == (PeerManagerConfig {
                target_hot_peers: 20,
                target_warm_peers: 20,
                target_known_peers: 100,
                max_inbound_peers: 100,
                peer_sharing_enabled: true,
                diffusion_mode: DiffusionMode::InitiatorAndResponder,
                churn_interval_secs: 300,
            }),
    {
        PeerManagerConfig {
            target_hot_peers: 20,
            target_warm_peers: 20,
            target_known_peers: 100,
            max_inbound_peers: 100,
            peer_sharing_enabled: true,
            diffusion_mode: DiffusionMode::InitiatorAndResponder,
            churn_interval_secs: 300,
        }
    }
}

/// What the peer manager asks for.
#[derive(Debug, Clone, Copy)]
pub enum PeerManagerEvent {
    Connect(SocketAddr),
    Disconnect(SocketAddr),
    PromoteToHot(SocketAddr),
    DemoteToWarm(SocketAddr),
}

/// The known peers, and those that are hot, warm and cold.
#[derive(Debug)]
pub struct PeerManager {
    pub config: PeerManagerConfig,
    pub peers: Table<SocketAddr, PeerInfo>,
    pub hot_peers: KeySet<SocketAddr>,
    pub warm_peers: KeySet<SocketAddr>,
    pub cold_peers: KeySet<SocketAddr>,
    /// Number of connections that peers opened.
    pub inbound_count: usize,
}

/// A peer manager by its contents.
#[verifier::ext_equal]
pub struct Peers {
    pub config: PeerManagerConfig,
    pub known: Map<SocketAddr, PeerInfo>,
    pub hot: Set<SocketAddr>,
    pub warm: Set<SocketAddr>,
    pub cold: Set<SocketAddr>,
    pub inbound: usize,
}

impl View for PeerManager {
    type V = Peers;

    open spec fn view(&self) -> Peers {
        Peers {
            config: self.config,
            known: self.peers@,
            hot: self.hot_peers@,
            warm: self.warm_peers@,
            cold: self.cold_peers@,
            inbound: self.inbound_count,
        }
    }
}

// ---------------------------------------------------------------------------
// Steps
// ---------------------------------------------------------------------------

/// With a cold peer more.
pub open spec fn added(s: Peers, addr: SocketAddr, info: PeerInfo) -> Peers {
    Peers { known: s.known.insert(addr, info), cold: s.cold.insert(addr), ..s }
}

/// Without the cold peer.
pub open spec fn evicted(s: Peers, addr: SocketAddr) -> Peers {
    Peers { known: s.known.remove(addr), cold: s.cold.remove(addr), ..s }
}

/// Whether a peer may have to make room, if its reputation is bad: a cold one that is
/// not from the configuration.
pub open spec fn dispensable(s: Peers, addr: SocketAddr) -> bool {
    &&& s.cold.contains(addr)
    &&& s.known.dom().contains(addr)
    &&& s.known[addr].source != PeerSource::Config
}

/// The reputation of a known peer.
pub open spec fn reputation(s: Peers, addr: SocketAddr) -> i64 {
    s.known[addr].performance.reputation
}

/// The reputation of each known peer.
pub open spec fn reputations(s: Peers) -> spec_fn(SocketAddr) -> i64 {
    |a: SocketAddr| reputation(s, a)
}

/// Whether the peer has to make room: its reputation is below the threshold, and no
/// dispensable peer has a lower one.
pub open spec fn gives_way(s: Peers, addr: SocketAddr) -> bool {
    &&& dispensable(s, addr)
    &&& reputation(s, addr) < EVICTION_REPUTATION_THRESHOLD
    &&& forall|b: SocketAddr| #[trigger]
        dispensable(s, b) ==> reputation(s, addr) <= reputation(s, b)
}

/// Whether there is a dispensable peer with a bad reputation.
pub open spec fn has_bad_peer(s: Peers) -> bool {
    exists|a: SocketAddr| #[trigger]
        dispensable(s, a) && reputation(s, a) < EVICTION_REPUTATION_THRESHOLD
}

/// Whether the peer manager may come from `s` to `s2` by learning of a new peer. If it
/// knows as many as it should, one with a bad reputation gives way, or nothing happens.
pub open spec fn learned(s: Peers, s2: Peers, addr: SocketAddr, info: PeerInfo) -> bool {
    if s.known.dom().len() < s.config.target_known_peers {
        s2 == added(s, addr, info)
    } else if has_bad_peer(s) {
        exists|a: SocketAddr| #[trigger]
            gives_way(s, a) && s2 == added(evicted(s, a), addr, info)
    } else {
        s2 == s
    }
}

/// With other facts about a known peer.
pub open spec fn updated(s: Peers, addr: SocketAddr, info: PeerInfo) -> Peers {
    Peers { known: s.known.insert(addr, info), ..s }
}

/// A peer of the configuration.
pub open spec fn config_peer(addr: SocketAddr, trustable: bool, advertise: bool) -> PeerInfo {
    PeerInfo {
        is_trustable: trustable,
        advertise,
        category: if trustable {
            PeerCategory::LocalRoot
        } else {
            PeerCategory::PublicRoot
        },
        ..new_peer(addr, PeerSource::Config)
    }
}

/// A peer that was connected becomes warm.
pub open spec fn connected(
    s: Peers,
    addr: SocketAddr,
    version: u32,
    is_initiator: bool,
    now: u64,
) -> Peers {
    if s.known.dom().contains(addr) {
        Peers {
            known: s.known.insert(
                addr,
                PeerInfo {
                    temperature: PeerTemperature::Warm,
                    last_connected: Some(now),
                    failure_count: 0,
                    version: Some(version),
                    is_initiator: Some(is_initiator),
                    ..s.known[addr]
                },
            ),
            cold: s.cold.remove(addr),
            warm: s.warm.insert(addr),
            inbound: if is_initiator {
                s.inbound
            } else {
                (s.inbound + 1) as usize
            },
            ..s
        }
    } else {
        s
    }
}

/// A warm peer becomes hot.
pub open spec fn promoted(s: Peers, addr: SocketAddr) -> Peers {
    if s.known.dom().contains(addr) && s.known[addr].temperature == PeerTemperature::Warm {
        Peers {
            known: s.known.insert(
                addr,
                PeerInfo { temperature: PeerTemperature::Hot, ..s.known[addr] },
            ),
            warm: s.warm.remove(addr),
            hot: s.hot.insert(addr),
            ..s
        }
    } else {
        s
    }
}

/// A hot peer becomes warm, unless it is a local root.
pub open spec fn demoted(s: Peers, addr: SocketAddr) -> Peers {
    if s.known.dom().contains(addr) && s.known[addr].temperature == PeerTemperature::Hot
        && s.known[addr].category != PeerCategory::LocalRoot {
        Peers {
            known: s.known.insert(
                addr,
                PeerInfo { temperature: PeerTemperature::Warm, ..s.known[addr] },
            ),
            hot: s.hot.remove(addr),
            warm: s.warm.insert(addr),
            ..s
        }
    } else {
        s
    }
}

/// A peer that is no longer connected becomes cold.
pub open spec fn cooled(s: Peers, addr: SocketAddr, info: PeerInfo) -> Peers {
    Peers {
        known: s.known.insert(
            addr,
            PeerInfo {
                temperature: PeerTemperature::Cold,
                version: None,
                is_initiator: None,
                ..info
            },
        ),
        hot: s.hot.remove(addr),
        warm: s.warm.remove(addr),
        cold: s.cold.insert(addr),
        ..s
    }
}

/// A peer was disconnected.
pub open spec fn disconnected(s: Peers, addr: SocketAddr) -> Peers {
    if s.known.dom().contains(addr) {
        Peers {
            inbound: if s.known[addr].is_initiator == Some(false) && s.inbound > 0 {
                (s.inbound - 1) as usize
            } else {
                s.inbound
            },
            ..cooled(s, addr, s.known[addr])
        }
    } else {
        s
    }
}

/// A peer that opened a connection. It is shared with others while it stays.
pub open spec fn visitor(addr: SocketAddr) -> PeerInfo {
    PeerInfo { advertise: true, ..new_peer(addr, PeerSource::PeerSharing) }
}

/// A peer opened a connection: it is known then, and counts as inbound.
pub open spec fn registered(s: Peers, addr: SocketAddr, now: u64) -> Peers {
    if s.known.dom().contains(addr) {
        connected(s, addr, 0, false, now)
    } else {
        connected(added(s, addr, visitor(addr)), addr, 0, false, now)
    }
}

/// Without any trace of the peer.
pub open spec fn forgotten(s: Peers, addr: SocketAddr) -> Peers {
    Peers {
        known: s.known.remove(addr),
        hot: s.hot.remove(addr),
        warm: s.warm.remove(addr),
        cold: s.cold.remove(addr),
        ..s
    }
}

/// A peer that opened a connection has left. It is forgotten, unless the configuration or
/// the ledger tells of it.
pub open spec fn deregistered(s: Peers, addr: SocketAddr) -> Peers {
    if s.known.dom().contains(addr) && s.known[addr].is_initiator == Some(false)
        && s.known[addr].source == PeerSource::PeerSharing {
        forgotten(disconnected(s, addr), addr)
    } else {
        disconnected(s, addr)
    }
}

/// A peer failed.
pub open spec fn failed(s: Peers, addr: SocketAddr, now: u64) -> Peers {
    if s.known.dom().contains(addr) {
        cooled(
            s,
            addr,
            PeerInfo {
                last_failed: Some(now),
                failure_count: (s.known[addr].failure_count + 1) as u32,
                ..s.known[addr]
            },
        )
    } else {
        s
    }
}

/// The failures that still count after `spans` times five minutes without another one:
/// they are halved for each.
pub open spec fn decayed(failures: u32, spans: nat) -> u32
    decreases spans,
{
    if spans == 0 {
        failures
    } else {
        decayed((failures / 2) as u32, (spans - 1) as nat)
    }
}

/// A peer with the failures that still count, going by the number there is and the time
/// since the last one. When they were last halved is not kept.
pub open spec fn forgiven(p: PeerInfo, now: u64) -> PeerInfo {
    match p.last_failed {
        Some(t) => PeerInfo {
            failure_count: decayed(p.failure_count, elapsed(t, now) / FAILURE_HALF_LIFE_MS as nat),
            ..p
        },
        None => p,
    }
}

// ---------------------------------------------------------------------------
// Selections
// ---------------------------------------------------------------------------

/// Kinds of peers to select.
#[derive(Debug, Clone, Copy)]
pub enum Kind {
    /// All of them.
    Any,
    /// Those that are not from the configuration.
    NotConfig,
    /// Relays of pools that hold much stake.
    BigLedger,
    /// Those that may be demoted: all but local roots.
    Demotable,
    /// Those that may be tried at the given time.
    RetryDue(u64),
}

/// Whether a peer is of the given kind.
pub open spec fn of_kind(p: PeerInfo, kind: Kind) -> bool {
    match kind {
        Kind::Any => true,
        Kind::NotConfig => p.source != PeerSource::Config,
        Kind::BigLedger => p.category == PeerCategory::BigLedgerPeer,
        Kind::Demotable => p.category != PeerCategory::LocalRoot,
        Kind::RetryDue(now) => retry_due(p, now),
    }
}

/// The members of `a` that are known and of the given kind.
pub open spec fn among(s: Peers, a: Set<SocketAddr>, kind: Kind) -> Set<SocketAddr> {
    a.filter(|x: SocketAddr| s.known.dom().contains(x) && of_kind(s.known[x], kind))
}

/// Number of connected peers of a network. A peer that is both hot and warm counts
/// twice.
pub open spec fn connected_in(s: Peers, network: nat) -> nat {
    s.hot.filter(|x: SocketAddr| address::subnet(x.ip) == network).len() + s.warm.filter(
        |x: SocketAddr| address::subnet(x.ip) == network,
    ).len()
}

/// How much is held against a candidate for being of the same network as connected
/// peers.
pub open spec fn crowding(s: Peers, addr: SocketAddr) -> int {
    let n = connected_in(s, address::subnet(addr.ip));
    if n >= MAX_PEERS_PER_SUBNET {
        n - MAX_PEERS_PER_SUBNET + 1
    } else {
        0
    }
}

/// Whether other peers may be told of a peer.
pub open spec fn shareable(p: PeerInfo, addr: SocketAddr) -> bool {
    p.advertise && p.temperature != PeerTemperature::Cold && address::routable(addr.ip)
}

/// The peers of which other peers may be told.
pub open spec fn shareable_peers(s: Peers) -> Set<SocketAddr> {
    s.known.dom().filter(|x: SocketAddr| shareable(s.known[x], x))
}

/// The lesser of two numbers.
pub open spec fn lesser(a: nat, b: nat) -> nat {
    if a < b {
        a
    } else {
        b
    }
}

/// Number of peers that are missing among those that should be connected.
pub open spec fn connections_needed(s: Peers) -> nat {
    let target = s.config.target_hot_peers + s.config.target_warm_peers;
    let have = s.hot.len() + s.warm.len();
    if have < target {
        (target - have) as nat
    } else {
        0
    }
}

/// Number of peers that are missing among those that should be hot.
pub open spec fn promotions_needed(s: Peers) -> nat {
    if s.hot.len() < s.config.target_hot_peers {
        (s.config.target_hot_peers - s.hot.len()) as nat
    } else {
        0
    }
}

/// The networks of the connected peers.
pub open spec fn connected_networks(s: Peers) -> Set<u64> {
    s.hot.union(s.warm).map(|x: SocketAddr| address::subnet(x.ip) as u64)
}

/// Numbers of peers.
#[derive(Debug, Clone, Copy, PartialEq, Eq, Structural)]
pub struct PeerManagerStats {
    pub known_peers: usize,
    pub cold_peers: usize,
    pub warm_peers: usize,
    pub hot_peers: usize,
    pub inbound_count: usize,
    /// Number of networks to which connected peers belong.
    pub unique_subnets: usize,
}

/// Whether a peer is of the given kind.
fn is_of_kind(p: &PeerInfo, kind: Kind) -> (r: bool)
    ensures
        r == of_kind(*p, kind),
{
    match kind {
        Kind::Any => true,
        Kind::NotConfig => p.source != PeerSource::Config,
        Kind::BigLedger => p.category == PeerCategory::BigLedgerPeer,
        Kind::Demotable => p.category != PeerCategory::LocalRoot,
        Kind::RetryDue(now) => p.should_retry(now),
    }
}

/// The members of a list that are known and of the given kind.
fn pick(items: &Vec<SocketAddr>, peers: &Table<SocketAddr, PeerInfo>, kind: Kind) -> (r: Vec<
    SocketAddr,
>)
    requires
        peers.wf(),
        items@.no_duplicates(),
    ensures
        r@.no_duplicates(),
        r@.to_set() == items@.to_set().filter(
            |x: SocketAddr| peers@.dom().contains(x) && of_kind(peers@[x], kind),
        ),
{
    let mut r: Vec<SocketAddr> = Vec::new();
    let mut i: usize = 0;
    while i < items.len()
        invariant
            peers.wf(),
            items@.no_duplicates(),
            i <= items@.len(),
            r@.no_duplicates(),
            forall|x: SocketAddr|
                #![trigger r@.contains(x)]
                r@.contains(x) <==> items@.take(i as int).contains(x) && peers@.dom().contains(x)
                    && of_kind(peers@[x], kind),
        decreases items@.len() - i,
    {
        let x = items[i];
        let ghost t = items@.take(i as int);
        let ghost before = r@;
        proof {
            assert(items@.take(i + 1) =~= t.push(x));
            assert forall|y: SocketAddr| t.push(x).contains(y) <==> t.contains(y) || y == x by {
                if t.contains(y) {
                    let j = choose|j: int| 0 <= j < t.len() && t[j] == y;
                    assert(t.push(x)[j] == y);
                }
                assert(t.push(x)[t.len() as int] == x);
            }
            assert(!t.contains(x));
        }
        let mut take: bool = false;
        if let Some(p) = peers.get(&x) {
            take = is_of_kind(p, kind);
        }
        if take {
            r.push(x);
            proof {
                assert forall|y: SocketAddr| r@.contains(y) <==> before.contains(y) || y == x by {
                    if before.contains(y) {
                        let j = choose|j: int| 0 <= j < before.len() && before[j] == y;
                        assert(r@[j] == y);
                    }
                    assert(r@[before.len() as int] == x);
                }
                assert(!before.contains(x));
                assert forall|a: int, b: int|
                    0 <= a < r@.len() && 0 <= b < r@.len() && a != b implies r@[a] != r@[b] by {
                    if a == before.len() {
                        assert(before.contains(r@[b]));
                    } else if b == before.len() {
                        assert(before.contains(r@[a]));
                    }
                }
            }
        }
        proof {
            assert forall|y: SocketAddr|
                #![trigger r@.contains(y)]
                r@.contains(y) <==> items@.take(i + 1).contains(y) && peers@.dom().contains(y)
                    && of_kind(peers@[y], kind) by {
                assert(t.push(x).contains(y) <==> t.contains(y) || y == x);
                assert(before.contains(y) <==> t.contains(y) && peers@.dom().contains(y)
                    && of_kind(peers@[y], kind));
            }
        }
        i += 1;
    }
    assert(items@.take(i as int) =~= items@);
    assert(r@.to_set() =~= items@.to_set().filter(
        |x: SocketAddr| peers@.dom().contains(x) && of_kind(peers@[x], kind),
    ));
    r
}

/// The keys of a table.
fn known_addresses(peers: &Table<SocketAddr, PeerInfo>) -> (r: Vec<SocketAddr>)
    requires
        peers.wf(),
    ensures
        r@.no_duplicates(),
        r@.to_set() == peers@.dom(),
{
    let mut r: Vec<SocketAddr> = Vec::new();
    let mut i: usize = 0;
    while i < peers.entries.len()
        invariant
            i <= peers.entries@.len(),
            r@.len() == i,
            forall|j: int| 0 <= j < i ==> #[trigger] r@[j] == table::keys(peers.entries@)[j],
        decreases peers.entries@.len() - i,
    {
        r.push(peers.entries[i].0);
        i += 1;
    }
    proof {
        assert(r@ =~= table::keys(peers.entries@));
        table::lemma_entries(peers.entries@);
    }
    r
}

/// Number of the members of a set that belong to the given network.
fn count_in_subnet(items: &KeySet<SocketAddr>, network: u64) -> (r: usize)
    requires
        items.wf(),
    ensures
        r == items@.filter(|x: SocketAddr| address::subnet(x.ip) == network).len(),
{
    let mut r: usize = 0;
    let mut i: usize = 0;
    let ghost f = |x: SocketAddr| address::subnet(x.ip) == network;
    assert(items.items@.take(0).to_set().filter(f) =~= Set::empty());
    while i < items.items.len()
        invariant
            items.wf(),
            f == (|x: SocketAddr| address::subnet(x.ip) == network),
            i <= items.items@.len(),
            r <= i,
            items.items@.take(i as int).to_set().filter(f).finite(),
            r == items.items@.take(i as int).to_set().filter(f).len(),
        decreases items.items@.len() - i,
    {
        let x = items.items[i];
        let ghost t = items.items@.take(i as int);
        proof {
            assert(items.items@.take(i + 1) =~= t.push(x));
            assert forall|y: SocketAddr| t.push(x).contains(y) <==> t.contains(y) || y == x by {
                if t.contains(y) {
                    let j = choose|j: int| 0 <= j < t.len() && t[j] == y;
                    assert(t.push(x)[j] == y);
                }
                assert(t.push(x)[t.len() as int] == x);
            }
            assert(!t.contains(x));
            if f(x) {
                assert(t.push(x).to_set().filter(f) =~= t.to_set().filter(f).insert(x));
            } else {
                assert(t.push(x).to_set().filter(f) =~= t.to_set().filter(f));
            }
        }
        if subnet_key(&x) == network {
            r += 1;
        }
        i += 1;
    }
    assert(items.items@.take(i as int) =~= items.items@);
    r
}

/// Puts the networks of the members of a list into a set.
fn add_networks(networks: &mut KeySet<u64>, items: &Vec<SocketAddr>)
    requires
        old(networks).wf(),
    ensures
        final(networks).wf(),
        forall|k: u64|
            #![trigger final(networks)@.contains(k)]
            final(networks)@.contains(k) <==> old(networks)@.contains(k) || exists|j: int|
                0 <= j < items@.len() && address::subnet((#[trigger] items@[j]).ip) == k,
{
    let mut i: usize = 0;
    while i < items.len()
        invariant
            networks.wf(),
            i <= items@.len(),
            forall|k: u64|
                #![trigger networks@.contains(k)]
                networks@.contains(k) <==> old(networks)@.contains(k) || exists|j: int|
                    0 <= j < i && address::subnet((#[trigger] items@[j]).ip) == k,
        decreases items@.len() - i,
    {
        let ghost before = networks@;
        let key: u64 = subnet_key(&items[i]);
        networks.insert(key);
        proof {
            assert forall|k: u64|
                #![trigger networks@.contains(k)]
                networks@.contains(k) <==> old(networks)@.contains(k) || exists|j: int|
                    0 <= j < i + 1 && address::subnet((#[trigger] items@[j]).ip) == k by {
                if k == key {
                    assert(address::subnet(items@[i as int].ip) == k);
                }
                if before.contains(k) && !old(networks)@.contains(k) {
                    let j = choose|j: int|
                        0 <= j < i && address::subnet((#[trigger] items@[j]).ip) == k;
                    assert(address::subnet(items@[j].ip) == k);
                }
            }
        }
        i += 1;
    }
}

impl PeerManager {
    /// Whether no list holds an address twice.
    pub open spec fn wf(&self) -> bool {
        &&& self.peers.wf()
        &&& self.hot_peers.wf()
        &&& self.warm_peers.wf()
        &&& self.cold_peers.wf()
    }

    /// A peer manager that knows no peer.
    pub fn new(config: PeerManagerConfig) -> (r: PeerManager)
        ensures
            r.wf(),
            r@ == (Peers {
                config,
                known: Map::empty(),
                hot: Set::empty(),
                warm: Set::empty(),
                cold: Set::empty(),
                inbound: 0,
            }),
    {
        PeerManager {
            config,
            peers: Table::new(),
            hot_peers: KeySet::new(),
            warm_peers: KeySet::new(),
            cold_peers: KeySet::new(),
            inbound_count: 0,
        }
    }

    /// Adds a peer of the configuration. A trustable one is a local root.
    pub fn add_config_peer(&mut self, addr: SocketAddr, trustable: bool, advertise: bool)
        requires
            old(self).wf(),
        ensures
            final(self).wf(),
            final(self)@ == added(old(self)@, addr, config_peer(addr, trustable, advertise)),
    {
        let mut info = PeerInfo::new(addr, PeerSource::Config);
        info.is_trustable = trustable;
        info.advertise = advertise;
        if trustable {
            info.category = PeerCategory::LocalRoot;
        }
        self.cold_peers.insert(addr);
        self.peers.insert(addr, info);
    }

    /// Makes room for another peer: the cold peer with the worst reputation leaves, if
    /// that is bad enough and the peer is not from the configuration.
    fn try_evict_cold_peer(&mut self) -> (r: bool)
        requires
            old(self).wf(),
        ensures
            final(self).wf(),
            r == has_bad_peer(old(self)@),
            r ==> exists|a: SocketAddr| #[trigger]
                gives_way(old(self)@, a) && final(self)@ == evicted(old(self)@, a),
            !r ==> final(self)@ == old(self)@,
    {
        let ghost s = self@;
        let candidates = pick(&self.cold_peers.items, &self.peers, Kind::NotConfig);
        proof {
            assert forall|a: SocketAddr| candidates@.contains(a) <==> dispensable(s, a) by {
                assert(candidates@.to_set().contains(a) <==> dispensable(s, a));
            }
        }
        let mut worst: Option<(SocketAddr, i64)> = None;
        let mut i: usize = 0;
        while i < candidates.len()
            invariant
                self.wf(),
                self@ == s,
                i <= candidates@.len(),
                forall|a: SocketAddr| candidates@.contains(a) <==> #[trigger] dispensable(s, a),
                worst is None <==> i == 0,
                worst matches Some(w) ==> {
                    &&& dispensable(s, w.0)
                    &&& w.1 == reputation(s, w.0)
                    &&& forall|j: int| 0 <= j < i ==> w.1 <= reputation(s, #[trigger] candidates@[j])
                },
            decreases candidates@.len() - i,
        {
            let a = candidates[i];
            assert(candidates@.contains(candidates@[i as int]));
            assert(dispensable(s, a));
            if let Some(p) = self.peers.get(&a) {
                let rep: i64 = p.performance.reputation;
                worst = match worst {
                    Some(w) if w.1 <= rep => Some(w),
                    _ => Some((a, rep)),
                };
            }
            i += 1;
        }
        if let Some((a, rep)) = worst {
            assert forall|b: SocketAddr| #[trigger] dispensable(s, b) implies rep <= reputation(
                s,
                b,
            ) by {
                let j = choose|j: int| 0 <= j < candidates@.len() && candidates@[j] == b;
                assert(candidates@[j] == b);
            }
            if rep < EVICTION_REPUTATION_THRESHOLD {
                assert(gives_way(s, a));
                self.cold_peers.remove(&a);
                self.peers.remove(&a);
                return true;
            }
        } else {
            assert forall|b: SocketAddr| !#[trigger] dispensable(s, b) by {
                if dispensable(s, b) {
                    let j = choose|j: int| 0 <= j < candidates@.len() && candidates@[j] == b;
                }
            }
        }
        false
    }

    /// Adds a peer of which the node learned by itself, if there is room.
    fn learn(&mut self, addr: SocketAddr, info: PeerInfo)
        requires
            old(self).wf(),
        ensures
            final(self).wf(),
            learned(old(self)@, final(self)@, addr, info),
    {
        let ghost s = self@;
        if self.peers.len() >= self.config.target_known_peers && !self.try_evict_cold_peer() {
            return;
        }
        let ghost mid = self@;
        self.cold_peers.insert(addr);
        self.peers.insert(addr, info);
        proof {
            assert(self@ == added(mid, addr, info));
            if s.known.dom().len() >= s.config.target_known_peers {
                let a = choose|a: SocketAddr| #[trigger] gives_way(s, a) && mid == evicted(s, a);
                assert(gives_way(s, a));
            }
        }
    }

    /// Adds a relay of a pool that holds much stake, or notes that a known peer is one.
    pub fn add_big_ledger_peer(&mut self, addr: SocketAddr)
        requires
            old(self).wf(),
        ensures
            final(self).wf(),
            if old(self)@.known.dom().contains(addr) {
                final(self)@ == updated(
                    old(self)@,
                    addr,
                    (PeerInfo {
                        category: PeerCategory::BigLedgerPeer,
                        ..old(self)@.known[addr]
                    }),
                )
            } else {
                learned(
                    old(self)@,
                    final(self)@,
                    addr,
                    (PeerInfo {
                        category: PeerCategory::BigLedgerPeer,
                        ..new_peer(addr, PeerSource::Ledger)
                    }),
                )
            },
    {
        if let Some(p) = self.peers.get(&addr) {
            let mut info: PeerInfo = *p;
            info.category = PeerCategory::BigLedgerPeer;
            self.peers.insert(addr, info);
            return;
        }
        let mut info = PeerInfo::new(addr, PeerSource::Ledger);
        info.category = PeerCategory::BigLedgerPeer;
        self.learn(addr, info);
    }

    /// Adds a relay of a pool, if it is not known and there is room.
    pub fn add_ledger_peer(&mut self, addr: SocketAddr)
        requires
            old(self).wf(),
        ensures
            final(self).wf(),
            if old(self)@.known.dom().contains(addr) {
                final(self)@ == old(self)@
            } else {
                learned(old(self)@, final(self)@, addr, new_peer(addr, PeerSource::Ledger))
            },
    {
        if self.peers.contains(&addr) {
            return;
        }
        self.learn(addr, PeerInfo::new(addr, PeerSource::Ledger));
    }

    /// Adds a peer of which another peer told, if it is on the public network and not
    /// known, and there is room.
    pub fn add_shared_peer(&mut self, addr: SocketAddr)
        requires
            old(self).wf(),
        ensures
            final(self).wf(),
            if !address::routable(addr.ip) || old(self)@.known.dom().contains(addr) {
                final(self)@ == old(self)@
            } else {
                learned(old(self)@, final(self)@, addr, new_peer(addr, PeerSource::PeerSharing))
            },
    {
        if !is_routable(&addr.ip) || self.peers.contains(&addr) {
            return;
        }
        self.learn(addr, PeerInfo::new(addr, PeerSource::PeerSharing));
    }

    /// Number of relays of pools that hold much stake.
    pub fn big_ledger_peer_count(&self) -> (r: usize)
        requires
            self.wf(),
        ensures
            r == among(
                self@,
                self@.known.dom(),
                Kind::BigLedger,
            ).len(),
    {
        let all = known_addresses(&self.peers);
        let found = pick(&all, &self.peers, Kind::BigLedger);
        proof {
            found@.unique_seq_to_set();
            assert(found@.to_set() =~= among(
                self@,
                self@.known.dom(),
                Kind::BigLedger,
            ));
        }
        found.len()
    }

    /// Number of hot relays of pools that hold much stake.
    pub fn active_big_ledger_peer_count(&self) -> (r: usize)
        requires
            self.wf(),
        ensures
            r == among(
                self@,
                self@.hot,
                Kind::BigLedger,
            ).len(),
    {
        let found = pick(&self.hot_peers.items, &self.peers, Kind::BigLedger);
        proof {
            found@.unique_seq_to_set();
            assert(found@.to_set() =~= among(
                self@,
                self@.hot,
                Kind::BigLedger,
            ));
        }
        found.len()
    }

    /// Whether the peer is a local root.
    pub fn is_local_root(&self, addr: &SocketAddr) -> (r: bool)
        requires
            self.wf(),
        ensures
            r == (self@.known.dom().contains(*addr) && self@.known[*addr].category
                == PeerCategory::LocalRoot),
    {
        match self.peers.get(addr) {
            Some(p) => p.category == PeerCategory::LocalRoot,
            None => false,
        }
    }

    /// The category of a peer.
    pub fn peer_category(&self, addr: &SocketAddr) -> (r: Option<PeerCategory>)
        requires
            self.wf(),
        ensures
            r == if self@.known.dom().contains(*addr) {
                Some(self@.known[*addr].category)
            } else {
                None
            },
    {
        match self.peers.get(addr) {
            Some(p) => Some(p.category),
            None => None,
        }
    }

    /// Notes that a peer was connected: it is warm then.
    pub fn peer_connected(
        &mut self,
        addr: &SocketAddr,
        version: u32,
        is_initiator: bool,
        now: u64,
    )
        requires
            old(self).wf(),
            !is_initiator && old(self)@.known.dom().contains(*addr) ==> old(self).inbound_count
                < usize::MAX,
        ensures
            final(self).wf(),
            final(self)@ == connected(old(self)@, *addr, version, is_initiator, now),
    {
        if let Some(p) = self.peers.get(addr) {
            let mut info: PeerInfo = *p;
            info.temperature = PeerTemperature::Warm;
            info.last_connected = Some(now);
            info.failure_count = 0;
            info.version = Some(version);
            info.is_initiator = Some(is_initiator);
            self.peers.insert(*addr, info);
            self.cold_peers.remove(addr);
            self.warm_peers.insert(*addr);
            if !is_initiator {
                self.inbound_count = self.inbound_count + 1;
            }
        }
    }

    /// Makes a warm peer hot.
    pub fn promote_to_hot(&mut self, addr: &SocketAddr)
        requires
            old(self).wf(),
        ensures
            final(self).wf(),
            final(self)@ == promoted(old(self)@, *addr),
    {
        if let Some(p) = self.peers.get(addr) {
            if p.temperature == PeerTemperature::Warm {
                let mut info: PeerInfo = *p;
                info.temperature = PeerTemperature::Hot;
                self.peers.insert(*addr, info);
                self.warm_peers.remove(addr);
                self.hot_peers.insert(*addr);
            }
        }
    }

    /// Makes a hot peer warm. A local root stays hot.
    pub fn demote_to_warm(&mut self, addr: &SocketAddr)
        requires
            old(self).wf(),
        ensures
            final(self).wf(),
            final(self)@ == demoted(old(self)@, *addr),
    {
        if let Some(p) = self.peers.get(addr) {
            if p.temperature == PeerTemperature::Hot && p.category != PeerCategory::LocalRoot {
                let mut info: PeerInfo = *p;
                info.temperature = PeerTemperature::Warm;
                self.peers.insert(*addr, info);
                self.hot_peers.remove(addr);
                self.warm_peers.insert(*addr);
            }
        }
    }

    /// Makes a peer cold.
    fn cool(&mut self, addr: &SocketAddr, info: PeerInfo)
        requires
            old(self).wf(),
        ensures
            final(self).wf(),
            final(self)@ == cooled(old(self)@, *addr, info),
    {
        let mut info: PeerInfo = info;
        info.temperature = PeerTemperature::Cold;
        info.version = None;
        info.is_initiator = None;
        self.peers.insert(*addr, info);
        self.hot_peers.remove(addr);
        self.warm_peers.remove(addr);
        self.cold_peers.insert(*addr);
    }

    /// Notes that a peer was disconnected: it is cold then.
    pub fn peer_disconnected(&mut self, addr: &SocketAddr)
        requires
            old(self).wf(),
        ensures
            final(self).wf(),
            final(self)@ == disconnected(old(self)@, *addr),
    {
        if let Some(p) = self.peers.get(addr) {
            let info: PeerInfo = *p;
            let inbound: bool = match info.is_initiator {
                Some(i) => !i,
                None => false,
            };
            if inbound && self.inbound_count > 0 {
                self.inbound_count = self.inbound_count - 1;
            }
            self.cool(addr, info);
        }
    }

    /// Notes that a peer opened a connection, whatever its address: it is known and warm
    /// then, and counts as inbound.
    pub fn register_inbound_peer(&mut self, addr: SocketAddr, now: u64)
        requires
            old(self).wf(),
            old(self).inbound_count < usize::MAX,
        ensures
            final(self).wf(),
            final(self)@ == registered(old(self)@, addr, now),
    {
        if !self.peers.contains(&addr) {
            let mut info = PeerInfo::new(addr, PeerSource::PeerSharing);
            info.advertise = true;
            self.cold_peers.insert(addr);
            self.peers.insert(addr, info);
        }
        self.peer_connected(&addr, 0, false, now);
    }

    /// Notes that a peer which opened a connection has left: it no longer counts as
    /// inbound, and is forgotten unless the configuration or the ledger tells of it.
    pub fn deregister_inbound_peer(&mut self, addr: &SocketAddr)
        requires
            old(self).wf(),
        ensures
            final(self).wf(),
            final(self)@ == deregistered(old(self)@, *addr),
    {
        let visits: bool = match self.peers.get(addr) {
            Some(p) => p.source == PeerSource::PeerSharing && match p.is_initiator {
                Some(i) => !i,
                None => false,
            },
            None => false,
        };
        self.peer_disconnected(addr);
        if visits {
            self.peers.remove(addr);
            self.hot_peers.remove(addr);
            self.warm_peers.remove(addr);
            self.cold_peers.remove(addr);
        }
    }

    /// Notes that a peer failed: it is cold then.
    pub fn peer_failed(&mut self, addr: &SocketAddr, now: u64)
        requires
            old(self).wf(),
            old(self)@.known.dom().contains(*addr) ==> old(self)@.known[*addr].failure_count
                < u32::MAX,
        ensures
            final(self).wf(),
            final(self)@ == failed(old(self)@, *addr, now),
    {
        if let Some(p) = self.peers.get(addr) {
            let mut info: PeerInfo = *p;
            info.last_failed = Some(now);
            info.failure_count = info.failure_count + 1;
            self.cool(addr, info);
        }
    }

    /// Notes the tip of a peer.
    pub fn update_tip(&mut self, addr: &SocketAddr, tip_slot: u64)
        requires
            old(self).wf(),
        ensures
            final(self).wf(),
            final(self)@ == if old(self)@.known.dom().contains(*addr) {
                updated(
                    old(self)@,
                    *addr,
                    (PeerInfo { remote_tip_slot: Some(tip_slot), ..old(self)@.known[*addr] }),
                )
            } else {
                old(self)@
            },
    {
        if let Some(p) = self.peers.get(addr) {
            let mut info: PeerInfo = *p;
            info.remote_tip_slot = Some(tip_slot);
            self.peers.insert(*addr, info);
        }
    }

    /// Whether a peer may open another connection.
    pub fn should_accept_inbound(&self) -> (r: bool)
        ensures
            r == (self@.config.diffusion_mode == DiffusionMode::InitiatorAndResponder
                && self@.inbound < self@.config.max_inbound_peers),
    {
        self.config.diffusion_mode == DiffusionMode::InitiatorAndResponder && self.inbound_count
            < self.config.max_inbound_peers
    }

    /// How much is held against a candidate for being of the same network as connected
    /// peers.
    fn crowding_of(&self, addr: &SocketAddr) -> (r: u128)
        requires
            self.wf(),
        ensures
            r == crowding(self@, *addr),
    {
        let network: u64 = subnet_key(addr);
        let n: u128 = count_in_subnet(&self.hot_peers, network) as u128 + count_in_subnet(
            &self.warm_peers,
            network,
        ) as u128;
        if n >= MAX_PEERS_PER_SUBNET as u128 {
            n - MAX_PEERS_PER_SUBNET as u128 + 1
        } else {
            0
        }
    }

    /// The cold peers that may be tried now, each with how much is held against it for
    /// being of the same network as connected peers.
    pub fn candidates_to_connect(&self, now: u64) -> (r: Vec<(SocketAddr, u128)>)
        requires
            self.wf(),
        ensures
            ({
                let firsts = r@.map_values(|x: (SocketAddr, u128)| x.0);
                &&& firsts.no_duplicates()
                &&& firsts.to_set() == among(
                    self@,
                    self@.cold,
                    Kind::RetryDue(now),
                )
                &&& forall|i: int|
                    0 <= i < r@.len() ==> (#[trigger] r@[i]).1 == crowding(self@, r@[i].0)
            }),
    {
        let due = pick(&self.cold_peers.items, &self.peers, Kind::RetryDue(now));
        let mut r: Vec<(SocketAddr, u128)> = Vec::new();
        let ghost f = |x: (SocketAddr, u128)| x.0;
        let mut i: usize = 0;
        while i < due.len()
            invariant
                self.wf(),
                i <= due@.len(),
                r@.len() == i,
                forall|j: int| 0 <= j < i ==> (#[trigger] r@[j]).0 == due@[j],
                forall|j: int| 0 <= j < i ==> (#[trigger] r@[j]).1 == crowding(self@, r@[j].0),
            decreases due@.len() - i,
        {
            r.push((due[i], self.crowding_of(&due[i])));
            i += 1;
        }
        assert(r@.map_values(f) =~= due@);
        assert(due@.to_set() =~= among(self@, self@.cold, Kind::RetryDue(now)));
        r
    }

    /// The best of the scored candidates, as many as connections are missing.
    pub fn peers_to_connect(&self, scored: &Vec<Scored>) -> (r: Vec<SocketAddr>)
        requires
            self.wf(),
        ensures
            r@ == rank::best(scored@, connections_needed(self@)),
            ({
                let have = self@.hot.len() + self@.warm.len();
                let target = self@.config.target_hot_peers + self@.config.target_warm_peers;
                &&& have >= target ==> r@.len() == 0
                &&& r@.len() > 0 ==> have + r@.len() <= target
                &&& have < target && r@.len() < scored@.len() ==> have + r@.len() == target
            }),
    {
        let have: u128 = self.hot_peers.len() as u128 + self.warm_peers.len() as u128;
        let target: u128 = self.config.target_hot_peers as u128 + self.config.target_warm_peers
            as u128;
        let needed: u128 = if have < target {
            target - have
        } else {
            0
        };
        let n: usize = if needed < scored.len() as u128 {
            needed as usize
        } else {
            scored.len()
        };
        proof {
            lemma_best_caps(scored@, connections_needed(self@));
            lemma_connections_reach_the_target(self@, scored@);
        }
        best_of(scored, n)
    }

    /// The warm peers.
    pub fn candidates_to_promote(&self) -> (r: Vec<SocketAddr>)
        requires
            self.wf(),
        ensures
            r@.no_duplicates(),
            r@.to_set() == among(self@, self@.warm, Kind::Any),
    {
        let r = pick(&self.warm_peers.items, &self.peers, Kind::Any);
        assert(r@.to_set() =~= among(self@, self@.warm, Kind::Any));
        r
    }

    /// The best of the scored candidates, as many as hot peers are missing.
    pub fn peers_to_promote(&self, scored: &Vec<Scored>) -> (r: Vec<SocketAddr>)
        requires
            self.wf(),
        ensures
            r@ == rank::best(scored@, promotions_needed(self@)),
            ({
                let hot = self@.hot.len();
                let target = self@.config.target_hot_peers;
                &&& hot >= target ==> r@.len() == 0
                &&& r@.len() > 0 ==> hot + r@.len() <= target
                &&& hot < target && r@.len() < scored@.len() ==> hot + r@.len() == target
            }),
    {
        proof {
            lemma_promotions_reach_the_target(self@, scored@);
        }
        let hot: usize = self.hot_peers.len();
        let needed: usize = if hot < self.config.target_hot_peers {
            self.config.target_hot_peers - hot
        } else {
            0
        };
        best_of(scored, needed)
    }

    /// Notes that a handshake with a peer succeeded.
    pub fn record_handshake_rtt(&mut self, addr: &SocketAddr)
        requires
            old(self).wf(),
            old(self)@.known.dom().contains(*addr) ==> old(
                self,
            )@.known[*addr].performance.success_count < u64::MAX,
        ensures
            final(self).wf(),
            final(self)@ == if old(self)@.known.dom().contains(*addr) {
                let p = old(self)@.known[*addr];
                updated(
                    old(self)@,
                    *addr,
                    (PeerInfo {
                        performance: PeerPerformance {
                            success_count: (p.performance.success_count + 1) as u64,
                            ..p.performance
                        },
                        ..p
                    }),
                )
            } else {
                old(self)@
            },
    {
        if let Some(p) = self.peers.get(addr) {
            let mut info: PeerInfo = *p;
            info.performance.success_count = info.performance.success_count + 1;
            self.peers.insert(*addr, info);
        }
    }

    /// Notes that blocks were fetched from a peer.
    pub fn record_block_fetch(
        &mut self,
        addr: &SocketAddr,
        block_count: u64,
        bytes: u64,
        now: u64,
    )
        requires
            old(self).wf(),
            old(self)@.known.dom().contains(*addr) ==> ({
                let p = old(self)@.known[*addr].performance;
                &&& p.success_count < u64::MAX
                &&& p.blocks_fetched + block_count <= u64::MAX
                &&& p.bytes_received + bytes <= u64::MAX
            }),
        ensures
            final(self).wf(),
            final(self)@ == if old(self)@.known.dom().contains(*addr) {
                let p = old(self)@.known[*addr];
                updated(
                    old(self)@,
                    *addr,
                    (PeerInfo {
                        performance: PeerPerformance {
                            blocks_fetched: (p.performance.blocks_fetched + block_count) as u64,
                            bytes_received: (p.performance.bytes_received + bytes) as u64,
                            success_count: (p.performance.success_count + 1) as u64,
                            last_good_fetch: Some(now),
                            ..p.performance
                        },
                        ..p
                    }),
                )
            } else {
                old(self)@
            },
    {
        if let Some(p) = self.peers.get(addr) {
            let mut info: PeerInfo = *p;
            info.performance.blocks_fetched = info.performance.blocks_fetched + block_count;
            info.performance.bytes_received = info.performance.bytes_received + bytes;
            info.performance.success_count = info.performance.success_count + 1;
            info.performance.last_good_fetch = Some(now);
            self.peers.insert(*addr, info);
        }
    }

    /// Sets the reputation of a peer.
    pub fn set_reputation(&mut self, addr: &SocketAddr, reputation: i64)
        requires
            old(self).wf(),
        ensures
            final(self).wf(),
            final(self)@ == if old(self)@.known.dom().contains(*addr) {
                let p = old(self)@.known[*addr];
                updated(
                    old(self)@,
                    *addr,
                    (PeerInfo {
                        performance: PeerPerformance { reputation, ..p.performance },
                        ..p
                    }),
                )
            } else {
                old(self)@
            },
    {
        if let Some(p) = self.peers.get(addr) {
            let mut info: PeerInfo = *p;
            info.performance.reputation = reputation;
            self.peers.insert(*addr, info);
        }
    }

    /// Halves the failures of each peer for each five minutes since the last one. Each call
    /// halves anew, whether or not an earlier one did so for the same five minutes.
    pub fn decay_failures(&mut self, now: u64)
        requires
            old(self).wf(),
        ensures
            final(self).wf(),
            final(self)@ == (Peers {
                known: old(self)@.known.map_values(|p: PeerInfo| forgiven(p, now)),
                ..old(self)@
            }),
    {
        let all = known_addresses(&self.peers);
        let ghost known = self@.known;
        let ghost s = self@;
        let mut i: usize = 0;
        while i < all.len()
            invariant
                self.wf(),
                all@.no_duplicates(),
                all@.to_set() == known.dom(),
                i <= all@.len(),
                self@ == (Peers { known: self@.known, ..s }),
                self@.known.dom() == known.dom(),
                forall|j: int|
                    0 <= j < all@.len() ==> self@.known[#[trigger] all@[j]] == (if j < i {
                        forgiven(known[all@[j]], now)
                    } else {
                        known[all@[j]]
                    }),
            decreases all@.len() - i,
        {
            assert(all@.to_set().contains(all@[i as int]));
            if let Some(p) = self.peers.get(&all[i]) {
                let mut info: PeerInfo = *p;
                if let Some(t) = info.last_failed {
                    let gone: u64 = if t <= now {
                        now - t
                    } else {
                        0
                    };
                    info.failure_count = decay(info.failure_count, gone / FAILURE_HALF_LIFE_MS);
                }
                assert(info == forgiven(known[all@[i as int]], now));
                self.peers.insert(all[i], info);
            }
            assert(self@.known.dom() =~= known.dom());
            i += 1;
        }
        proof {
            let want = known.map_values(|p: PeerInfo| forgiven(p, now));
            assert forall|a: SocketAddr| want.dom().contains(a) implies self@.known[a]
                == want[a] by {
                assert(all@.to_set().contains(a));
                let j = choose|j: int| 0 <= j < all@.len() && all@[j] == a;
                assert(self@.known[all@[j]] == forgiven(known[all@[j]], now));
            }
            assert(self@.known =~= want);
        }
    }

    /// Number of hot peers.
    pub fn hot_peer_count(&self) -> (r: usize)
        requires
            self.wf(),
        ensures
            r == self@.hot.len(),
    {
        self.hot_peers.len()
    }

    /// Number of warm peers.
    pub fn warm_peer_count(&self) -> (r: usize)
        requires
            self.wf(),
        ensures
            r == self@.warm.len(),
    {
        self.warm_peers.len()
    }

    /// Number of cold peers.
    pub fn cold_peer_count(&self) -> (r: usize)
        requires
            self.wf(),
        ensures
            r == self@.cold.len(),
    {
        self.cold_peers.len()
    }

    /// The hot peers of the given kind with their reputations.
    fn hot_reputations(&self, kind: Kind) -> (r: Vec<Scored>)
        requires
            self.wf(),
        ensures
            rank::enumerates(r@, among(self@, self@.hot, kind), reputations(self@)),
    {
        let hot = pick(&self.hot_peers.items, &self.peers, kind);
        let mut r: Vec<Scored> = Vec::new();
        let mut i: usize = 0;
        proof {
            assert(hot@.to_set() =~= among(self@, self@.hot, kind));
        }
        while i < hot.len()
            invariant
                self.wf(),
                hot@.to_set() == among(self@, self@.hot, kind),
                i <= hot@.len(),
                r@.len() == i,
                forall|j: int|
                    0 <= j < i ==> (#[trigger] r@[j]).0 == hot@[j] && r@[j].1 == reputation(
                        self@,
                        hot@[j],
                    ),
            decreases hot@.len() - i,
        {
            assert(hot@.to_set().contains(hot@[i as int]));
            if let Some(p) = self.peers.get(&hot[i]) {
                r.push((hot[i], p.performance.reputation));
            }
            i += 1;
        }
        assert(rank::addresses(r@) =~= hot@);
        r
    }

    /// The hot peers with the best reputations, the best one first.
    pub fn best_peers_for_fetch(&self, count: usize) -> (r: Vec<SocketAddr>)
        requires
            self.wf(),
        ensures
            exists|v: Seq<Scored>|
                {
                    &&& #[trigger] rank::enumerates(
                        v,
                        among(self@, self@.hot, Kind::Any),
                        reputations(self@),
                    )
                    &&& r@ == rank::best(v, count as nat)
                },
    {
        let v = self.hot_reputations(Kind::Any);
        best_of(&v, count)
    }

    /// The hot peer with the worst reputation among those that may be demoted.
    pub fn worst_hot_peer(&self) -> (r: Option<SocketAddr>)
        requires
            self.wf(),
        ensures
            ({
                let hot = among(self@, self@.hot, Kind::Demotable);
                match r {
                    Some(w) => hot.contains(w) && forall|a: SocketAddr| #[trigger]
                        hot.contains(a) ==> reputation(self@, w) <= reputation(self@, a),
                    None => hot == Set::<SocketAddr>::empty(),
                }
            }),
    {
        let v = self.hot_reputations(Kind::Demotable);
        let ghost hot = among(self@, self@.hot, Kind::Demotable);
        if v.len() == 0 {
            assert(rank::addresses(v@).to_set() =~= Set::empty());
            return None;
        }
        let mut w: usize = 0;
        let mut i: usize = 1;
        while i < v.len()
            invariant
                1 <= i <= v@.len(),
                w < i,
                forall|j: int| 0 <= j < i ==> v@[w as int].1 <= (#[trigger] v@[j]).1,
            decreases v@.len() - i,
        {
            if v[i].1 < v[w].1 {
                w = i;
            }
            i += 1;
        }
        proof {
            assert(rank::addresses(v@)[w as int] == v@[w as int].0);
            assert(rank::addresses(v@).to_set().contains(v@[w as int].0));
            assert forall|a: SocketAddr| #[trigger] hot.contains(a) implies reputation(
                self@,
                v@[w as int].0,
            ) <= reputation(self@, a) by {
                assert(rank::addresses(v@).contains(a));
                let j = choose|j: int|
                    0 <= j < v@.len() && rank::addresses(v@)[j] == a;
                assert(v@[j].0 == a);
            }
        }
        Some(v[w].0)
    }

    /// What was measured of a peer.
    pub fn peer_performance(&self, addr: &SocketAddr) -> (r: Option<&PeerPerformance>)
        requires
            self.wf(),
        ensures
            match r {
                Some(p) => self@.known.dom().contains(*addr) && *p
                    == self@.known[*addr].performance,
                None => !self@.known.dom().contains(*addr),
            },
    {
        match self.peers.get(addr) {
            Some(p) => Some(&p.performance),
            None => None,
        }
    }

    /// The hot peers.
    pub fn hot_peer_addrs(&self) -> (r: Vec<SocketAddr>)
        requires
            self.wf(),
        ensures
            r@.no_duplicates(),
            r@.to_set() == self@.hot,
    {
        copied(&self.hot_peers.items)
    }

    /// The hot peers, then the warm ones.
    pub fn connected_peer_addrs(&self) -> (r: Vec<SocketAddr>)
        requires
            self.wf(),
        ensures
            r@.len() == self@.hot.len() + self@.warm.len(),
            r@.take(self@.hot.len() as int).to_set() == self@.hot,
            r@.skip(self@.hot.len() as int).to_set() == self@.warm,
    {
        let mut r = copied(&self.hot_peers.items);
        let mut w = copied(&self.warm_peers.items);
        let ghost hot = r@;
        let ghost warm = w@;
        r.append(&mut w);
        proof {
            hot.unique_seq_to_set();
            warm.unique_seq_to_set();
            assert(r@.take(hot.len() as int) =~= hot);
            assert(r@.skip(hot.len() as int) =~= warm);
        }
        r
    }

    /// At most `max_count` peers of which another peer may be told.
    pub fn peers_for_sharing(&self, max_count: usize) -> (r: Vec<SocketAddr>)
        requires
            self.wf(),
        ensures
            r@.no_duplicates(),
            forall|i: int| 0 <= i < r@.len() ==> shareable_peers(self@).contains(#[trigger] r@[i]),
            r@.len() == (if self@.config.peer_sharing_enabled {
                lesser(max_count as nat, shareable_peers(self@).len())
            } else {
                0
            }),
    {
        let mut r: Vec<SocketAddr> = Vec::new();
        if !self.config.peer_sharing_enabled {
            return r;
        }
        let all = known_addresses(&self.peers);
        let ghost want = shareable_peers(self@);
        let mut i: usize = 0;
        let ghost mut found: Seq<SocketAddr> = Seq::empty();
        while i < all.len()
            invariant
                self.wf(),
                want == shareable_peers(self@),
                all@.no_duplicates(),
                all@.to_set() == self@.known.dom(),
                i <= all@.len(),
                found.no_duplicates(),
                forall|x: SocketAddr|
                    #![trigger found.contains(x)]
                    found.contains(x) <==> all@.take(i as int).contains(x) && want.contains(x),
                r@ == found.take(lesser(max_count as nat, found.len()) as int),
            decreases all@.len() - i,
        {
            let x = all[i];
            let ghost t = all@.take(i as int);
            let ghost before = found;
            proof {
                assert(all@.take(i + 1) =~= t.push(x));
                assert forall|y: SocketAddr| t.push(x).contains(y) <==> t.contains(y) || y
                    == x by {
                    if t.contains(y) {
                        let j = choose|j: int| 0 <= j < t.len() && t[j] == y;
                        assert(t.push(x)[j] == y);
                    }
                    assert(t.push(x)[t.len() as int] == x);
                }
                assert(!t.contains(x));
                assert(all@.to_set().contains(all@[i as int]));
            }
            let mut ok: bool = false;
            if let Some(p) = self.peers.get(&x) {
                ok = p.advertise && p.temperature != PeerTemperature::Cold && is_routable(&x.ip);
            }
            if ok {
                proof {
                    found = before.push(x);
                    assert forall|y: SocketAddr| found.contains(y) <==> before.contains(y) || y
                        == x by {
                        if before.contains(y) {
                            let j = choose|j: int| 0 <= j < before.len() && before[j] == y;
                            assert(found[j] == y);
                        }
                        assert(found[before.len() as int] == x);
                    }
                    assert(!before.contains(x));
                    assert forall|a: int, b: int|
                        0 <= a < found.len() && 0 <= b < found.len() && a != b implies found[a]
                        != found[b] by {
                        if a == before.len() {
                            assert(before.contains(found[b]));
                        } else if b == before.len() {
                            assert(before.contains(found[a]));
                        }
                    }
                }
                if r.len() < max_count {
                    r.push(x);
                }
                assert(r@ =~= found.take(lesser(max_count as nat, found.len()) as int));
            }
            i += 1;
        }
        proof {
            assert(all@.take(i as int) =~= all@);
            assert(found.to_set() =~= want) by {
                assert forall|x: SocketAddr| want.contains(x) implies found.contains(x) by {
                    assert(all@.to_set().contains(x));
                }
            }
            found.unique_seq_to_set();
            assert forall|k: int| 0 <= k < r@.len() implies want.contains(#[trigger] r@[k]) by {
                assert(found.contains(found[k]));
            }
        }
        r
    }

    /// Who may open connections.
    pub fn diffusion_mode(&self) -> (r: DiffusionMode)
        ensures
            r == self@.config.diffusion_mode,
    {
        self.config.diffusion_mode
    }

    /// Numbers of peers.
    pub fn stats(&self) -> (r: PeerManagerStats)
        requires
            self.wf(),
        ensures
            r.known_peers == self@.known.dom().len(),
            r.cold_peers == self@.cold.len(),
            r.warm_peers == self@.warm.len(),
            r.hot_peers == self@.hot.len(),
            r.inbound_count == self@.inbound,
            r.unique_subnets == connected_networks(self@).len(),
    {
        let mut networks: KeySet<u64> = KeySet::new();
        add_networks(&mut networks, &self.hot_peers.items);
        add_networks(&mut networks, &self.warm_peers.items);
        proof {
            let want = connected_networks(self@);
            let hot = self.hot_peers.items@;
            let warm = self.warm_peers.items@;
            assert forall|k: u64| networks@.contains(k) <==> want.contains(k) by {
                if networks@.contains(k) {
                    if exists|j: int|
                        0 <= j < hot.len() && address::subnet((#[trigger] hot[j]).ip) == k {
                        let j = choose|j: int|
                            0 <= j < hot.len() && address::subnet((#[trigger] hot[j]).ip) == k;
                        assert(self@.hot.union(self@.warm).contains(hot[j]));
                    } else {
                        let j = choose|j: int|
                            0 <= j < warm.len() && address::subnet((#[trigger] warm[j]).ip) == k;
                        assert(self@.hot.union(self@.warm).contains(warm[j]));
                    }
                }
                if want.contains(k) {
                    let x = choose|x: SocketAddr|
                        self@.hot.union(self@.warm).contains(x) && k == address::subnet(
                            x.ip,
                        ) as u64;
                    address::lemma_subnet_fits(x.ip);
                    if self@.hot.contains(x) {
                        let j = choose|j: int| 0 <= j < hot.len() && hot[j] == x;
                        assert(address::subnet(hot[j].ip) == k);
                    } else {
                        let j = choose|j: int| 0 <= j < warm.len() && warm[j] == x;
                        assert(address::subnet(warm[j].ip) == k);
                    }
                }
            }
            assert(networks@ =~= want);
        }
        PeerManagerStats {
            known_peers: self.peers.len(),
            cold_peers: self.cold_peers.len(),
            warm_peers: self.warm_peers.len(),
            hot_peers: self.hot_peers.len(),
            inbound_count: self.inbound_count,
            unique_subnets: networks.len(),
        }
    }
}

/// A copy of a list.
fn copied(v: &Vec<SocketAddr>) -> (r: Vec<SocketAddr>)
    ensures
        r@ == v@,
{
    let mut r: Vec<SocketAddr> = Vec::new();
    let mut i: usize = 0;
    while i < v.len()
        invariant
            i <= v@.len(),
            r@ == v@.take(i as int),
        decreases v@.len() - i,
    {
        r.push(v[i]);
        assert(v@.take(i + 1) =~= v@.take(i as int).push(v@[i as int]));
        i += 1;
    }
    assert(v@.take(i as int) =~= v@);
    r
}

proof fn lemma_best_caps(v: Seq<Scored>, n: nat)
    ensures
        n >= v.len() ==> rank::best(v, n) == rank::best(v, v.len()),
{
    rank::lemma_ranking_keeps_len(v);
}

/// Halves `failures` as often as `spans` says.
fn decay(failures: u32, spans: u64) -> (r: u32)
    ensures
        r == decayed(failures, spans as nat),
{
    let mut f: u32 = failures;
    let mut k: u64 = spans;
    while k > 0 && f > 0
        invariant
            decayed(f, k as nat) == decayed(failures, spans as nat),
        decreases k,
    {
        f = f / 2;
        k = k - 1;
    }
    proof {
        if f == 0 {
            lemma_decayed_zero(k as nat);
        }
    }
    f
}

proof fn lemma_decayed_zero(spans: nat)
    ensures
        decayed(0, spans) == 0,
    decreases spans,
{
    if spans > 0 {
        lemma_decayed_zero((spans - 1) as nat);
    }
}

// ---------------------------------------------------------------------------
// Laws
// ---------------------------------------------------------------------------

/// The set of the peers of the given temperature.
pub open spec fn peers_at(s: Peers, t: PeerTemperature) -> Set<SocketAddr> {
    match t {
        PeerTemperature::Hot => s.hot,
        PeerTemperature::Warm => s.warm,
        PeerTemperature::Cold => s.cold,
    }
}

/// Whether every known peer is in the set of its temperature and in no other, and no
/// other address is in any.
pub open spec fn sorted_out(s: Peers) -> bool {
    forall|a: SocketAddr, t: PeerTemperature|
        #![trigger peers_at(s, t).contains(a)]
        peers_at(s, t).contains(a) <==> s.known.dom().contains(a) && s.known[a].temperature == t
}

proof fn lemma_at(s: Peers, a: SocketAddr)
    requires
        sorted_out(s),
    ensures
        s.hot.contains(a) <==> s.known.dom().contains(a) && s.known[a].temperature
            == PeerTemperature::Hot,
        s.warm.contains(a) <==> s.known.dom().contains(a) && s.known[a].temperature
            == PeerTemperature::Warm,
        s.cold.contains(a) <==> s.known.dom().contains(a) && s.known[a].temperature
            == PeerTemperature::Cold,
{
    assert(peers_at(s, PeerTemperature::Hot).contains(a) <==> s.hot.contains(a));
    assert(peers_at(s, PeerTemperature::Warm).contains(a) <==> s.warm.contains(a));
    assert(peers_at(s, PeerTemperature::Cold).contains(a) <==> s.cold.contains(a));
}

/// The three sets stay sorted out when a peer is connected that is not hot.
pub proof fn lemma_connecting_keeps_order(
    s: Peers,
    addr: SocketAddr,
    version: u32,
    is_initiator: bool,
    now: u64,
)
    requires
        sorted_out(s),
        !s.hot.contains(addr),
    ensures
        sorted_out(connected(s, addr, version, is_initiator, now)),
{
    let s2 = connected(s, addr, version, is_initiator, now);
    assert forall|a: SocketAddr, t: PeerTemperature|
        #![trigger peers_at(s2, t).contains(a)]
        peers_at(s2, t).contains(a) <==> s2.known.dom().contains(a) && s2.known[a].temperature
            == t by {
        lemma_at(s, a);
    }
}

/// The three sets stay sorted out when a peer is promoted, demoted or disconnected, and
/// when it fails.
pub proof fn lemma_changes_keep_order(s: Peers, addr: SocketAddr, now: u64)
    requires
        sorted_out(s),
    ensures
        sorted_out(promoted(s, addr)),
        sorted_out(demoted(s, addr)),
        sorted_out(disconnected(s, addr)),
        sorted_out(failed(s, addr, now)),
{
    let (s1, s2, s3, s4) = (
        promoted(s, addr),
        demoted(s, addr),
        disconnected(s, addr),
        failed(s, addr, now),
    );
    assert forall|a: SocketAddr, t: PeerTemperature|
        #![trigger peers_at(s1, t).contains(a)]
        peers_at(s1, t).contains(a) <==> s1.known.dom().contains(a) && s1.known[a].temperature
            == t by {
        lemma_at(s, a);
    }
    assert forall|a: SocketAddr, t: PeerTemperature|
        #![trigger peers_at(s2, t).contains(a)]
        peers_at(s2, t).contains(a) <==> s2.known.dom().contains(a) && s2.known[a].temperature
            == t by {
        lemma_at(s, a);
    }
    assert forall|a: SocketAddr, t: PeerTemperature|
        #![trigger peers_at(s3, t).contains(a)]
        peers_at(s3, t).contains(a) <==> s3.known.dom().contains(a) && s3.known[a].temperature
            == t by {
        lemma_at(s, a);
    }
    assert forall|a: SocketAddr, t: PeerTemperature|
        #![trigger peers_at(s4, t).contains(a)]
        peers_at(s4, t).contains(a) <==> s4.known.dom().contains(a) && s4.known[a].temperature
            == t by {
        lemma_at(s, a);
    }
}

/// The three sets stay sorted out when a cold peer is added that is not connected.
pub proof fn lemma_adding_keeps_order(s: Peers, addr: SocketAddr, info: PeerInfo)
    requires
        sorted_out(s),
        info.temperature == PeerTemperature::Cold,
        !s.hot.contains(addr) && !s.warm.contains(addr),
    ensures
        sorted_out(added(s, addr, info)),
{
    let s2 = added(s, addr, info);
    assert forall|a: SocketAddr, t: PeerTemperature|
        #![trigger peers_at(s2, t).contains(a)]
        peers_at(s2, t).contains(a) <==> s2.known.dom().contains(a) && s2.known[a].temperature
            == t by {
        lemma_at(s, a);
    }
}

proof fn lemma_evicting_keeps_order(s: Peers, addr: SocketAddr)
    requires
        sorted_out(s),
        dispensable(s, addr),
    ensures
        sorted_out(evicted(s, addr)),
{
    let s2 = evicted(s, addr);
    lemma_at(s, addr);
    assert forall|a: SocketAddr, t: PeerTemperature|
        #![trigger peers_at(s2, t).contains(a)]
        peers_at(s2, t).contains(a) <==> s2.known.dom().contains(a) && s2.known[a].temperature
            == t by {
        lemma_at(s, a);
    }
}

/// Learning of a peer keeps the three sets sorted out, never loses a peer of the
/// configuration nor one that is connected, and never makes more peers known than there
/// should be, unless there were more before.
pub proof fn lemma_learning(s: Peers, s2: Peers, addr: SocketAddr, source: PeerSource)
    requires
        sorted_out(s),
        s.known.dom().finite(),
        !s.known.dom().contains(addr),
        learned(s, s2, addr, new_peer(addr, source)),
    ensures
        sorted_out(s2),
        forall|a: SocketAddr| #[trigger]
            s.known.dom().contains(a) && (s.known[a].source == PeerSource::Config
                || s.known[a].temperature != PeerTemperature::Cold) ==> s2.known.dom().contains(a)
                && s2.known[a] == s.known[a],
        s2.known.dom().len() <= s.config.target_known_peers || s2.known.dom().len()
            <= s.known.dom().len(),
{
    lemma_at(s, addr);
    let info = new_peer(addr, source);
    if s.known.dom().len() < s.config.target_known_peers {
        lemma_adding_keeps_order(s, addr, info);
    } else if has_bad_peer(s) {
        let a = choose|a: SocketAddr| #[trigger]
            gives_way(s, a) && s2 == added(evicted(s, a), addr, info);
        lemma_evicting_keeps_order(s, a);
        lemma_at(s, a);
        let mid = evicted(s, a);
        lemma_at(mid, addr);
        lemma_adding_keeps_order(mid, addr, info);
        assert(s2.known.dom() =~= s.known.dom().remove(a).insert(addr));
    }
}

/// Demoting a peer that is no local root undoes its promotion.
pub proof fn lemma_demotion_undoes_promotion(s: Peers, addr: SocketAddr)
    requires
        sorted_out(s),
        s.warm.contains(addr),
        s.known[addr].category != PeerCategory::LocalRoot,
    ensures
        demoted(promoted(s, addr), addr) == s,
{
    lemma_at(s, addr);
    let s2 = demoted(promoted(s, addr), addr);
    assert(s2.known =~= s.known);
    assert(s2.hot =~= s.hot);
    assert(s2.warm =~= s.warm);
}

/// A local root is never demoted, whichever peer is to be demoted, and is never a choice
/// for that.
pub proof fn lemma_local_roots_are_protected(s: Peers, root: SocketAddr, addr: SocketAddr)
    requires
        s.known.dom().contains(root),
        s.known[root].category == PeerCategory::LocalRoot,
    ensures
        demoted(s, addr).known[root] == s.known[root],
        demoted(s, addr).hot.contains(root) <==> s.hot.contains(root),
        !among(s, s.hot, Kind::Demotable).contains(root),
{
}

/// The three sets stay sorted out when a peer that is not hot opens a connection, and when
/// a peer leaves.
pub proof fn lemma_visits_keep_order(s: Peers, addr: SocketAddr, now: u64)
    requires
        sorted_out(s),
    ensures
        !s.hot.contains(addr) ==> sorted_out(registered(s, addr, now)),
        sorted_out(deregistered(s, addr)),
{
    lemma_at(s, addr);
    if !s.hot.contains(addr) {
        if s.known.dom().contains(addr) {
            lemma_connecting_keeps_order(s, addr, 0, false, now);
        } else {
            lemma_adding_keeps_order(s, addr, visitor(addr));
            lemma_connecting_keeps_order(added(s, addr, visitor(addr)), addr, 0, false, now);
        }
    }
    lemma_changes_keep_order(s, addr, now);
    let mid = disconnected(s, addr);
    let s2 = forgotten(mid, addr);
    assert forall|a: SocketAddr, t: PeerTemperature|
        #![trigger peers_at(s2, t).contains(a)]
        peers_at(s2, t).contains(a) <==> s2.known.dom().contains(a) && s2.known[a].temperature
            == t by {
        lemma_at(mid, a);
    }
}

/// A peer that was not known leaves nothing behind when it has left.
pub proof fn lemma_leaving_undoes_visiting(s: Peers, addr: SocketAddr, now: u64)
    requires
        sorted_out(s),
        !s.known.dom().contains(addr),
        s.inbound < usize::MAX,
    ensures
        deregistered(registered(s, addr, now), addr) == s,
{
    lemma_at(s, addr);
    let s2 = deregistered(registered(s, addr, now), addr);
    assert(s2.known =~= s.known);
    assert(s2.hot =~= s.hot);
    assert(s2.warm =~= s.warm);
    assert(s2.cold =~= s.cold);
}

/// A peer that opened a connection no longer counts as inbound once it is disconnected.
pub proof fn lemma_disconnecting_undoes_inbound(
    s: Peers,
    addr: SocketAddr,
    version: u32,
    is_initiator: bool,
    now: u64,
)
    requires
        s.known.dom().contains(addr),
        s.inbound < usize::MAX,
    ensures
        disconnected(connected(s, addr, version, is_initiator, now), addr).inbound == s.inbound,
        disconnected(connected(s, addr, version, is_initiator, now), addr).cold.contains(addr),
{
}

/// Whatever the number of failures, a peer is left alone for at least five seconds and at
/// most a minute, and never shorter after one more failure.
pub proof fn lemma_retry_delay(failures: u32)
    ensures
        5 <= retry_delay_secs(failures) <= 60,
        failures < u32::MAX ==> retry_delay_secs(failures) <= retry_delay_secs(
            (failures + 1) as u32,
        ),
{
}

/// Each failure doubles the time for which a peer is left alone, from five seconds up to a
/// minute; until that has passed since the last failure the peer is not tried, and from then
/// on it may be.
pub proof fn lemma_retries_back_off(p: PeerInfo, now: u64)
    ensures
        retry_delay_secs(0) == 5,
        p.failure_count < u32::MAX ==> retry_delay_secs((p.failure_count + 1) as u32) == if 2
            * retry_delay_secs(p.failure_count) <= 60 {
            2 * retry_delay_secs(p.failure_count)
        } else {
            60
        },
        p.last_failed is None ==> retry_due(p, now),
        p.last_failed matches Some(t) ==> (retry_due(p, now) <==> t + 1000 * retry_delay_secs(
            p.failure_count,
        ) <= now),
{
}

/// As many peers are to be connected as are missing for the hot and the warm ones together
/// to reach both targets, or all of those that were scored where there are fewer; none where
/// nothing is missing.
pub proof fn lemma_connections_reach_the_target(s: Peers, v: Seq<Scored>)
    ensures
        ({
            let r = rank::best(v, connections_needed(s));
            let have = s.hot.len() + s.warm.len();
            let target = s.config.target_hot_peers + s.config.target_warm_peers;
            &&& have >= target ==> r.len() == 0
            &&& r.len() > 0 ==> have + r.len() <= target
            &&& have < target && r.len() < v.len() ==> have + r.len() == target
            &&& r.len() <= v.len()
        }),
{
    rank::lemma_ranking_keeps_len(v);
}

/// As many peers are to be promoted as are missing for the hot ones to reach their target,
/// or all of those that were scored where there are fewer; none where nothing is missing.
pub proof fn lemma_promotions_reach_the_target(s: Peers, v: Seq<Scored>)
    ensures
        ({
            let r = rank::best(v, promotions_needed(s));
            let target = s.config.target_hot_peers;
            &&& s.hot.len() >= target ==> r.len() == 0
            &&& r.len() > 0 ==> s.hot.len() + r.len() <= target
            &&& s.hot.len() < target && r.len() < v.len() ==> s.hot.len() + r.len() == target
            &&& r.len() <= v.len()
        }),
{
    rank::lemma_ranking_keeps_len(v);
}

/// Nothing is held against a candidate while fewer than three connected peers are of its
/// network; each further one is held against it once.
pub proof fn lemma_crowding(s: Peers, addr: SocketAddr)
    ensures
        ({
            let n = s.hot.filter(
                |x: SocketAddr| address::subnet(x.ip) == address::subnet(addr.ip),
            ).len() + s.warm.filter(
                |x: SocketAddr| address::subnet(x.ip) == address::subnet(addr.ip),
            ).len();
            &&& n <= 2 ==> crowding(s, addr) == 0
            &&& n >= 3 ==> crowding(s, addr) == n - 2
        }),
{
}

/// One more warm peer of the network of a candidate is held against it, where there are
/// enough already; one of another network is not.
pub proof fn lemma_crowding_grows(s: Peers, addr: SocketAddr, other: SocketAddr)
    requires
        s.warm.finite(),
        !s.warm.contains(other),
    ensures
        ({
            let s2 = Peers { warm: s.warm.insert(other), ..s };
            if address::subnet(other.ip) == address::subnet(addr.ip) {
                crowding(s2, addr) == if crowding(s, addr) > 0 || connected_in(
                    s,
                    address::subnet(addr.ip),
                ) == 2 {
                    crowding(s, addr) + 1
                } else {
                    0
                }
            } else {
                crowding(s2, addr) == crowding(s, addr)
            }
        }),
{
    let f = |x: SocketAddr| address::subnet(x.ip) == address::subnet(addr.ip);
    let w = s.warm.insert(other);
    if f(other) {
        assert(w.filter(f) =~= s.warm.filter(f).insert(other));
    } else {
        assert(w.filter(f) =~= s.warm.filter(f));
    }
    assert(s.warm.filter(f).finite());
}

/// Other peers are told of exactly those known peers that are to be advertised, are
/// connected, and are on the public network.
pub proof fn lemma_only_public_peers_are_shared(s: Peers, addr: SocketAddr)
    ensures
        shareable_peers(s).contains(addr) <==> {
            &&& s.known.dom().contains(addr)
            &&& s.known[addr].advertise
            &&& s.known[addr].temperature == PeerTemperature::Warm || s.known[addr].temperature
                == PeerTemperature::Hot
            &&& address::routable(addr.ip)
        },
{
}

/// The peers of each kind are picked from the known members of a set, and none of them is
/// left out.
pub proof fn lemma_kinds(s: Peers, a: Set<SocketAddr>, x: SocketAddr, now: u64)
    ensures
        ({
            let known = a.contains(x) && s.known.dom().contains(x);
            &&& among(s, a, Kind::Any).contains(x) <==> known
            &&& among(s, a, Kind::NotConfig).contains(x) <==> known && (s.known[x].source
                == PeerSource::PeerSharing || s.known[x].source == PeerSource::Ledger)
            &&& among(s, a, Kind::BigLedger).contains(x) <==> known && s.known[x].category
                == PeerCategory::BigLedgerPeer
            &&& among(s, a, Kind::Demotable).contains(x) <==> known && !(s.known[x].category
                == PeerCategory::LocalRoot)
            &&& among(s, a, Kind::RetryDue(now)).contains(x) <==> known && (
            s.known[x].last_failed matches Some(t) ==> t + 1000 * retry_delay_secs(
                s.known[x].failure_count,
            ) <= now)
        }),
{
}

/// A new peer is cold, trusted by nobody, advertised to nobody, without failures, and of a
/// neutral reputation; where it comes from decides its category.
pub proof fn lemma_new_peers(addr: SocketAddr, source: PeerSource)
    ensures
        ({
            let p = new_peer(addr, source);
            &&& p.address == addr && p.source == source
            &&& p.temperature == PeerTemperature::Cold
            &&& !p.is_trustable && !p.advertise
            &&& p.failure_count == 0 && p.last_failed is None && p.last_connected is None
            &&& p.version is None && p.is_initiator is None && p.remote_tip_slot is None
            &&& p.performance.success_count == 0 && p.performance.blocks_fetched == 0
            &&& p.performance.bytes_received == 0 && p.performance.last_good_fetch is None
            &&& p.performance.reputation == 0x3FE0_0000_0000_0000
            &&& (p.category == PeerCategory::PublicRoot <==> source == PeerSource::Config)
            &&& (p.category == PeerCategory::Shared <==> source == PeerSource::PeerSharing)
            &&& (p.category == PeerCategory::LedgerPeer <==> source == PeerSource::Ledger)
        }),
{
}

/// A peer of the configuration is a local root exactly where it is trustable, and is
/// advertised exactly where it is to be; adding it makes it cold and changes no other peer.
pub proof fn lemma_configured_peers(
    s: Peers,
    addr: SocketAddr,
    trustable: bool,
    advertise: bool,
    other: SocketAddr,
)
    requires
        other != addr,
    ensures
        ({
            let s2 = added(s, addr, config_peer(addr, trustable, advertise));
            let p = s2.known[addr];
            &&& s2.known.dom().contains(addr) && s2.cold.contains(addr)
            &&& p.address == addr && p.source == PeerSource::Config
            &&& p.is_trustable == trustable && p.advertise == advertise
            &&& (p.category == PeerCategory::LocalRoot) == trustable
            &&& p.temperature == PeerTemperature::Cold && p.failure_count == 0
            &&& s2.known.dom().contains(other) == s.known.dom().contains(other)
            &&& s2.known[other] == s.known[other]
            &&& s2.cold.contains(other) == s.cold.contains(other)
            &&& s2.hot == s.hot && s2.warm == s.warm && s2.inbound == s.inbound
        }),
{
}

/// A known peer that was connected is warm, no longer cold, and has no failures; it counts as
/// inbound exactly where it opened the connection. Nothing changes for other peers, and
/// nothing at all for one that is not known.
pub proof fn lemma_connecting(
    s: Peers,
    addr: SocketAddr,
    version: u32,
    is_initiator: bool,
    now: u64,
    other: SocketAddr,
)
    requires
        other != addr,
        s.inbound < usize::MAX,
    ensures
        ({
            let s2 = connected(s, addr, version, is_initiator, now);
            let p = s2.known[addr];
            &&& !s.known.dom().contains(addr) ==> s2 == s
            &&& s.known.dom().contains(addr) ==> {
                &&& s2.known.dom().contains(addr)
                &&& s2.warm.contains(addr) && !s2.cold.contains(addr)
                &&& p.temperature == PeerTemperature::Warm && p.failure_count == 0
                &&& p.last_connected == Some(now) && p.version == Some(version)
                &&& p.is_initiator == Some(is_initiator)
                &&& p.source == s.known[addr].source && p.category == s.known[addr].category
                &&& p.last_failed == s.known[addr].last_failed
                &&& p.performance == s.known[addr].performance
                &&& p.advertise == s.known[addr].advertise
                &&& s2.inbound == s.inbound + if is_initiator {
                    0int
                } else {
                    1int
                }
            }
            &&& s2.known.dom().contains(other) == s.known.dom().contains(other)
            &&& s2.known[other] == s.known[other]
            &&& s2.warm.contains(other) == s.warm.contains(other)
            &&& s2.cold.contains(other) == s.cold.contains(other)
            &&& s2.hot == s.hot && s2.config == s.config
        }),
{
}

/// Only a warm peer is promoted, and is hot and no longer warm then; only a hot one is
/// demoted, unless it is a local root, and is warm and no longer hot then. Nothing else
/// changes.
pub proof fn lemma_promoting_and_demoting(s: Peers, addr: SocketAddr, other: SocketAddr)
    requires
        other != addr,
    ensures
        ({
            let up = promoted(s, addr);
            let down = demoted(s, addr);
            let p = s.known[addr];
            let known = s.known.dom().contains(addr);
            let warm = known && p.temperature == PeerTemperature::Warm;
            let hot = known && p.temperature == PeerTemperature::Hot && !(p.category
                == PeerCategory::LocalRoot);
            &&& warm ==> up.hot.contains(addr) && !up.warm.contains(addr) && up.known[addr]
                == (PeerInfo { temperature: PeerTemperature::Hot, ..p })
            &&& !warm ==> up == s
            &&& hot ==> down.warm.contains(addr) && !down.hot.contains(addr) && down.known[addr]
                == (PeerInfo { temperature: PeerTemperature::Warm, ..p })
            &&& !hot ==> down == s
            &&& up.known[other] == s.known[other] && down.known[other] == s.known[other]
            &&& up.hot.contains(other) == s.hot.contains(other)
            &&& up.warm.contains(other) == s.warm.contains(other)
            &&& down.hot.contains(other) == s.hot.contains(other)
            &&& down.warm.contains(other) == s.warm.contains(other)
            &&& up.cold == s.cold && down.cold == s.cold
            &&& up.inbound == s.inbound && down.inbound == s.inbound
        }),
{
}

/// A known peer that was disconnected or that failed is cold and neither warm nor hot. Only a
/// failure adds to its failures, and only one that opened the connection stops counting as
/// inbound when it is disconnected. Nothing changes for other peers.
pub proof fn lemma_disconnecting_and_failing(s: Peers, addr: SocketAddr, now: u64, other: SocketAddr)
    requires
        other != addr,
        s.known.dom().contains(addr),
        s.known[addr].failure_count < u32::MAX,
    ensures
        ({
            let left = disconnected(s, addr);
            let broken = failed(s, addr, now);
            let p = s.known[addr];
            &&& left.cold.contains(addr) && !left.warm.contains(addr) && !left.hot.contains(addr)
            &&& broken.cold.contains(addr) && !broken.warm.contains(addr) && !broken.hot.contains(
                addr,
            )
            &&& left.known[addr].temperature == PeerTemperature::Cold
            &&& broken.known[addr].temperature == PeerTemperature::Cold
            &&& left.known[addr].version is None && left.known[addr].is_initiator is None
            &&& broken.known[addr].version is None && broken.known[addr].is_initiator is None
            &&& left.known[addr].failure_count == p.failure_count
            &&& left.known[addr].last_failed == p.last_failed
            &&& broken.known[addr].failure_count == p.failure_count + 1
            &&& broken.known[addr].last_failed == Some(now)
            &&& left.known[addr].performance == p.performance
            &&& broken.known[addr].performance == p.performance
            &&& p.is_initiator == Some(false) && s.inbound > 0 ==> left.inbound == s.inbound - 1
            &&& p.is_initiator != Some(false) ==> left.inbound == s.inbound
            &&& broken.inbound == s.inbound
            &&& left.known[other] == s.known[other] && broken.known[other] == s.known[other]
            &&& left.hot.contains(other) == s.hot.contains(other)
            &&& left.warm.contains(other) == s.warm.contains(other)
            &&& left.cold.contains(other) == s.cold.contains(other)
            &&& broken.hot.contains(other) == s.hot.contains(other)
            &&& broken.warm.contains(other) == s.warm.contains(other)
            &&& broken.cold.contains(other) == s.cold.contains(other)
        }),
{
}

/// A peer that opened a connection is known and warm and counts as inbound; where it was not
/// known it is advertised while it stays.
pub proof fn lemma_visiting(s: Peers, addr: SocketAddr, now: u64)
    requires
        s.inbound < usize::MAX,
    ensures
        ({
            let s2 = registered(s, addr, now);
            &&& s2.known.dom() == s.known.dom().insert(addr)
            &&& s2.warm.contains(addr) && !s2.cold.contains(addr)
            &&& s2.known[addr].is_initiator == Some(false)
            &&& s2.known[addr].temperature == PeerTemperature::Warm
            &&& s2.inbound == s.inbound + 1
            &&& !s.known.dom().contains(addr) ==> s2.known[addr].advertise
                && s2.known[addr].source == PeerSource::PeerSharing
            &&& s.known.dom().contains(addr) ==> s2.known[addr].advertise
                == s.known[addr].advertise && s2.known[addr].source == s.known[addr].source
        }),
{
    assert(registered(s, addr, now).known.dom() =~= s.known.dom().insert(addr));
}

/// Where room has to be made for a new peer, the one that leaves is cold, not from the
/// configuration, of a reputation below three tenths, and none of those that might leave
/// instead has a lower one. At most one leaves, and none while there is room.
pub proof fn lemma_who_makes_room(
    s: Peers,
    s2: Peers,
    addr: SocketAddr,
    info: PeerInfo,
    gone: SocketAddr,
    other: SocketAddr,
)
    requires
        learned(s, s2, addr, info),
        gone != addr,
        s.known.dom().contains(gone),
        !s2.known.dom().contains(gone),
    ensures
        s.known.dom().len() >= s.config.target_known_peers,
        s.cold.contains(gone),
        s.known[gone].source != PeerSource::Config,
        s.known[gone].performance.reputation < 0x3FD3_3333_3333_3333,
        s.cold.contains(other) && s.known.dom().contains(other) && s.known[other].source
            != PeerSource::Config ==> s.known[gone].performance.reputation
            <= s.known[other].performance.reputation,
        other != gone && other != addr ==> s2.known.dom().contains(other)
            == s.known.dom().contains(other) && s2.known[other] == s.known[other],
        s2.known.dom().contains(addr) && s2.known[addr] == info && s2.cold.contains(addr),
        s2.hot == s.hot && s2.warm == s.warm,
{
    let a = choose|a: SocketAddr| #[trigger]
        gives_way(s, a) && s2 == added(evicted(s, a), addr, info);
    assert(gives_way(s, a));
    assert(a == gone);
    if s.cold.contains(other) && s.known.dom().contains(other) && s.known[other].source
        != PeerSource::Config {
        assert(dispensable(s, other));
    }
}

/// A new peer is learned of while there is room, and also where a cold peer that is not from
/// the configuration has a reputation below three tenths.
pub proof fn lemma_who_is_learned_of(
    s: Peers,
    s2: Peers,
    addr: SocketAddr,
    info: PeerInfo,
    bad: SocketAddr,
)
    requires
        learned(s, s2, addr, info),
        s.known.dom().len() < s.config.target_known_peers || (s.cold.contains(bad)
            && s.known.dom().contains(bad) && s.known[bad].source != PeerSource::Config
            && s.known[bad].performance.reputation < 0x3FD3_3333_3333_3333),
    ensures
        s2.known.dom().contains(addr),
        s2.known[addr] == info,
        s2.cold.contains(addr),
{
    if s.known.dom().len() >= s.config.target_known_peers {
        assert(dispensable(s, bad) && reputation(s, bad) < EVICTION_REPUTATION_THRESHOLD);
    }
}

/// Failures are halved, rounding down, once for each five minutes since the last one, and
/// nothing else of the peer changes: five minutes more halve them once more.
pub proof fn lemma_failures_are_halved(p: PeerInfo, now: u64)
    ensures
        forgiven(p, now) == (PeerInfo { failure_count: forgiven(p, now).failure_count, ..p }),
        p.last_failed is None ==> forgiven(p, now) == p,
        p.last_failed matches Some(t) ==> {
            &&& now < t + 300_000 ==> forgiven(p, now).failure_count == p.failure_count
            &&& t + 300_000 <= now < t + 600_000 ==> forgiven(p, now).failure_count
                == p.failure_count / 2
            &&& now + 300_000 <= u64::MAX && t <= now ==> forgiven(
                p,
                (now + 300_000) as u64,
            ).failure_count == forgiven(p, now).failure_count / 2
        },
{
    if let Some(t) = p.last_failed {
        let spans = elapsed(t, now) / FAILURE_HALF_LIFE_MS as nat;
        reveal_with_fuel(decayed, 3);
        if t <= now && now + 300_000 <= u64::MAX {
            assert(elapsed(t, (now + 300_000) as u64) / 300_000 == spans + 1);
            lemma_decayed_once_more(p.failure_count, spans);
        }
    }
}

proof fn lemma_decayed_once_more(failures: u32, spans: nat)
    ensures
        decayed(failures, spans + 1) == decayed(failures, spans) / 2,
    decreases spans,
{
    reveal_with_fuel(decayed, 2);
    if spans > 0 {
        lemma_decayed_once_more((failures / 2) as u32, (spans - 1) as nat);
    }
}

/// A network is counted exactly where a hot or a warm peer belongs to it.
pub proof fn lemma_connected_networks(s: Peers, network: u64)
    ensures
        connected_networks(s).contains(network) <==> exists|x: SocketAddr|
            (s.hot.contains(x) || s.warm.contains(x)) && #[trigger] address::subnet(x.ip)
                == network,
{
    let f = |x: SocketAddr| address::subnet(x.ip) as u64;
    if connected_networks(s).contains(network) {
        let x = choose|x: SocketAddr| s.hot.union(s.warm).contains(x) && network == f(x);
        address::lemma_subnet_fits(x.ip);
        assert(address::subnet(x.ip) == network);
    }
    if exists|x: SocketAddr|
        (s.hot.contains(x) || s.warm.contains(x)) && #[trigger] address::subnet(x.ip) == network {
        let x = choose|x: SocketAddr|
            (s.hot.contains(x) || s.warm.contains(x)) && #[trigger] address::subnet(x.ip)
                == network;
        assert(s.hot.union(s.warm).contains(x));
        assert(f(x) == network);
    }
}

/// Other facts about a known peer change neither who is known nor how anyone is connected.
pub proof fn lemma_updating(s: Peers, addr: SocketAddr, info: PeerInfo, other: SocketAddr)
    requires
        s.known.dom().contains(addr),
        other != addr,
    ensures
        updated(s, addr, info).known[addr] == info,
        updated(s, addr, info).known.dom() == s.known.dom(),
        updated(s, addr, info).known[other] == s.known[other],
        updated(s, addr, info).hot == s.hot && updated(s, addr, info).warm == s.warm && updated(
            s,
            addr,
            info,
        ).cold == s.cold && updated(s, addr, info).inbound == s.inbound,
{
    assert(updated(s, addr, info).known.dom() =~= s.known.dom());
}

} // verus!
