use torsten_network::address::{is_routable, socket_v4, subnet_key, IpAddr, SocketAddr};
use torsten_network::n2n_server::peersharing::{answer_peersharing, PeerSharingMessage};
use torsten_network::n2n_server::PeerSharingMode;
use torsten_network::peer::governor::{
    Governor, GovernorAction, GovernorConfig, PeerLists, PeerTargets,
};
use torsten_network::peer::selection::{select_best_cold, select_worst_hot, ColdPeer};
use torsten_network::peer::{PeerConnection, PeerSelectionConfig, PeerState};
use torsten_network::peer_manager::{
    DiffusionMode, PeerCategory, PeerInfo, PeerManager, PeerManagerConfig, PeerSource,
    PeerTemperature,
};

fn make_addr(port: u16) -> SocketAddr {
    socket_v4(127, 0, 0, 1, port)
}

fn test_addr(port: u16) -> SocketAddr {
    socket_v4(127, 0, 0, 1, port)
}

fn routable_addr(a: u8, b: u8, c: u8, d: u8, port: u16) -> SocketAddr {
    socket_v4(a, b, c, d, port)
}

/// A time on the clock.
const NOW: u64 = 1_000_000;

/// Numbers in the order of the scores that they stand for.
fn key(score: f64) -> i64 {
    let bits = score.to_bits() as i64;
    if bits < 0 {
        bits ^ 0x7FFF_FFFF_FFFF_FFFF
    } else {
        bits
    }
}

/// How desirable a connection to a peer is.
fn selection_score(p: &PeerInfo) -> f64 {
    let mut score = f64::from_bits(p.performance.reputation as u64);
    if p.is_trustable {
        score += 0.2;
    }
    match p.source {
        PeerSource::Config => score += 0.1,
        PeerSource::PeerSharing => {}
        PeerSource::Ledger => score += 0.05,
    }
    if p.failure_count > 0 {
        score -= (p.failure_count as f64 * 0.05).min(0.3);
    }
    if let Some(tip_slot) = p.remote_tip_slot {
        if tip_slot > 0 {
            score += 0.05;
        }
    }
    score
}

fn to_connect(pm: &PeerManager) -> Vec<SocketAddr> {
    let scored = pm
        .candidates_to_connect(NOW)
        .into_iter()
        .map(|(addr, crowding)| {
            let info = pm.peers.get(&addr).unwrap();
            (addr, key(selection_score(info) - 0.2 * crowding as f64))
        })
        .collect();
    pm.peers_to_connect(&scored)
}

fn to_promote(pm: &PeerManager) -> Vec<SocketAddr> {
    let scored = pm
        .candidates_to_promote()
        .into_iter()
        .map(|addr| (addr, key(selection_score(pm.peers.get(&addr).unwrap()))))
        .collect();
    pm.peers_to_promote(&scored)
}

/// The reputation that a handshake of the given length, and no more, leads to.
fn reputation_after_handshake(rtt_ms: f64) -> i64 {
    let latency_score = (1.0 - (rtt_ms / 2000.0).min(1.0)).max(0.0);
    let score: f64 = 0.5 + 0.15 * (latency_score - 0.5) + 0.1 * (0.0 - 0.5) + 0.15 * (1.0 - 0.5);
    key(score)
}

/// The reputation that one recent fetch leads to.
fn reputation_after_fetch(fetch_ms: f64, blocks: u64) -> i64 {
    let fetch_score = (1.0 - (fetch_ms / blocks as f64 / 200.0).min(1.0)).max(0.0);
    let volume = blocks as f64 / 10000.0;
    let score: f64 = 0.5 + 0.2 * (fetch_score - 0.5) + 0.1 * (volume - 0.5) + 0.15 * 0.5 + 0.1 * 0.5;
    key(score)
}

// ── Connections ─────────────────────────────────────────────────────────────

#[test]
fn test_new_outbound_is_initiator() {
    let conn = PeerConnection::new_outbound(make_addr(3001));
    assert!(conn.is_initiator, "Outbound connection must be initiator");
    assert_eq!(conn.state, PeerState::Connecting);
    assert_eq!(conn.address, make_addr(3001));
}

#[test]
fn test_new_inbound_is_not_initiator() {
    let conn = PeerConnection::new_inbound(make_addr(3001));
    assert!(!conn.is_initiator, "Inbound connection must not be initiator");
    assert_eq!(conn.state, PeerState::Connecting);
}

#[test]
fn test_new_connection_starts_at_zero_bytes() {
    let conn = PeerConnection::new_outbound(make_addr(3001));
    assert_eq!(conn.bytes_sent, 0);
    assert_eq!(conn.bytes_received, 0);
}

#[test]
fn test_new_connection_no_tip_or_version() {
    let conn = PeerConnection::new_outbound(make_addr(3001));
    assert!(conn.remote_tip.is_none());
    assert!(conn.negotiated_version.is_none());
    assert!(conn.connected_at.is_none());
}

#[test]
fn test_is_connected_only_when_state_is_connected() {
    let states_not_connected = [
        PeerState::Connecting,
        PeerState::Handshaking,
        PeerState::Disconnecting,
        PeerState::Disconnected,
    ];
    for state in &states_not_connected {
        let mut conn = PeerConnection::new_outbound(make_addr(3001));
        conn.state = *state;
        assert!(!conn.is_connected(), "State {state:?} must not be considered connected");
    }

    let mut conn = PeerConnection::new_outbound(make_addr(3001));
    conn.state = PeerState::Connected;
    assert!(conn.is_connected(), "PeerState::Connected must report as connected");
}

#[test]
fn test_uptime_secs_none_when_not_connected() {
    let conn = PeerConnection::new_outbound(make_addr(3001));
    assert!(conn.uptime_secs(NOW).is_none());
}

#[test]
fn test_uptime_secs_some_when_connected() {
    let mut conn = PeerConnection::new_outbound(make_addr(3001));
    conn.connected_at = Some(NOW - 5_000);
    let uptime = conn.uptime_secs(NOW).unwrap();
    assert!(uptime >= 4, "Uptime should be at least 4s; got {uptime}");
    assert_eq!(uptime, 5);
}

#[test]
fn test_peer_selection_config_defaults() {
    let config = PeerSelectionConfig::default();
    assert_eq!(config.target_active_peers, 15);
    assert_eq!(config.target_established_peers, 40);
    assert_eq!(config.target_known_peers, 85);
    assert_eq!(config.max_inbound_peers, 100);
}

// ── Governor ────────────────────────────────────────────────────────────────

fn governor_config(target_warm: usize, target_hot: usize) -> GovernorConfig {
    GovernorConfig {
        targets: PeerTargets { target_warm, target_hot, max_cold: 100 },
        churn_interval: 3_600_000,
    }
}

fn five_peers() -> Vec<SocketAddr> {
    (0..5u16).map(|i| socket_v4(1, 2, 3, 4, 3000 + i)).collect()
}

#[test]
fn promotes_cold_to_warm_when_below_target() {
    let peers =
        PeerLists { cold_count: 5, eligible: five_peers(), warm: vec![], hot: vec![] };
    let mut gov = Governor::new(governor_config(3, 1), 0);

    let actions = gov.compute_actions(&peers, 0);
    let promote_warm_count =
        actions.iter().filter(|a| matches!(a, GovernorAction::PromoteToWarm(_))).count();
    assert_eq!(promote_warm_count, 3);
}

#[test]
fn promotes_warm_to_hot_when_below_target() {
    let peers =
        PeerLists { cold_count: 0, eligible: vec![], warm: five_peers(), hot: vec![] };
    let mut gov = Governor::new(governor_config(5, 2), 0);

    let actions = gov.compute_actions(&peers, 0);
    let promote_hot_count =
        actions.iter().filter(|a| matches!(a, GovernorAction::PromoteToHot(_))).count();
    assert_eq!(promote_hot_count, 2);
}

#[test]
fn discover_when_cold_pool_low() {
    let peers = PeerLists { cold_count: 0, eligible: vec![], warm: vec![], hot: vec![] };
    let mut gov = Governor::new(governor_config(3, 1), 0);

    let actions = gov.compute_actions(&peers, 0);
    assert!(actions.iter().any(|a| matches!(a, GovernorAction::DiscoverMore)));
}

#[test]
fn select_best_cold_returns_highest_score() {
    let slow = socket_v4(1, 2, 3, 4, 3001);
    let fast = socket_v4(1, 2, 3, 4, 3002);
    // Lower latency makes for a better score
    let peers = vec![
        ColdPeer { address: slow, score: key(1.0 / 1.5), shared: false },
        ColdPeer { address: fast, score: key(1.0 / 1.01), shared: false },
    ];
    assert_eq!(select_best_cold(&peers), Some(fast));
}

#[test]
fn a_topology_peer_wins_a_tie() {
    let shared = socket_v4(1, 2, 3, 4, 3001);
    let topology = socket_v4(1, 2, 3, 4, 3002);
    let peers = vec![
        ColdPeer { address: shared, score: 7, shared: true },
        ColdPeer { address: topology, score: 7, shared: false },
    ];
    assert_eq!(select_best_cold(&peers), Some(topology));
    assert_eq!(select_best_cold(&vec![]), None);
}

#[test]
fn the_worst_hot_peer_is_the_one_with_the_lowest_score() {
    let a = socket_v4(1, 2, 3, 4, 3001);
    let b = socket_v4(1, 2, 3, 4, 3002);
    assert_eq!(select_worst_hot(&vec![(a, 3), (b, -3)]), Some(b));
    assert_eq!(select_worst_hot(&vec![]), None);
}

#[test]
fn the_last_of_equally_good_cold_peers_is_chosen() {
    let first = socket_v4(1, 2, 3, 4, 3001);
    let last = socket_v4(1, 2, 3, 4, 3002);
    let peers = vec![
        ColdPeer { address: first, score: 7, shared: false },
        ColdPeer { address: last, score: 7, shared: false },
        ColdPeer { address: socket_v4(1, 2, 3, 4, 3003), score: 7, shared: true },
    ];
    assert_eq!(select_best_cold(&peers), Some(last));
}

#[test]
fn hot_peers_are_exchanged_from_time_to_time() {
    let a = socket_v4(1, 2, 3, 4, 1);
    let b = socket_v4(1, 2, 3, 4, 2);
    let c = socket_v4(1, 2, 3, 4, 3);
    let peers = PeerLists { cold_count: 50, eligible: vec![], warm: vec![c], hot: vec![a, b] };
    let mut gov = Governor::new(governor_config(3, 2), 1_000);
    // Everything is as it should be, and it is too early to exchange.
    assert_eq!(gov.compute_actions(&peers, 3_600_999), vec![]);
    assert_eq!(gov.last_churn, 1_000);
    assert_eq!(
        gov.compute_actions(&peers, 3_601_000),
        vec![GovernorAction::DemoteToWarm(a), GovernorAction::PromoteToHot(c)]
    );
    assert_eq!(gov.last_churn, 3_601_000);
    assert_eq!(gov.compute_actions(&peers, 3_601_001), vec![]);
}

#[test]
fn too_many_hot_peers_are_demoted() {
    let peers =
        PeerLists { cold_count: 50, eligible: five_peers(), warm: vec![], hot: five_peers() };
    let mut gov = Governor::new(governor_config(5, 3), 0);
    let five = five_peers();
    assert_eq!(
        gov.compute_actions(&peers, 0),
        vec![GovernorAction::DemoteToWarm(five[0]), GovernorAction::DemoteToWarm(five[1])]
    );
}

#[test]
fn governor_defaults() {
    let c = GovernorConfig::default();
    assert_eq!(c.targets, PeerTargets { target_warm: 10, target_hot: 5, max_cold: 100 });
    assert_eq!(c.churn_interval, 600_000);
}

// ── Peer manager ────────────────────────────────────────────────────────────

#[test]
fn test_add_config_peer() {
    let mut pm = PeerManager::new(PeerManagerConfig::default());
    let addr = test_addr(3001);
    pm.add_config_peer(addr, true, false);

    assert_eq!(pm.peers.len(), 1);
    assert!(pm.cold_peers.contains(&addr));
    assert_eq!(pm.peers.get(&addr).unwrap().source, PeerSource::Config);
    assert!(pm.peers.get(&addr).unwrap().is_trustable);
}

#[test]
fn test_peer_lifecycle() {
    let mut pm = PeerManager::new(PeerManagerConfig::default());
    let addr = test_addr(3001);
    pm.add_config_peer(addr, false, false);

    // Connect
    pm.peer_connected(&addr, 14, true, NOW);
    assert!(pm.warm_peers.contains(&addr));
    assert!(!pm.cold_peers.contains(&addr));

    // Promote to hot
    pm.promote_to_hot(&addr);
    assert!(pm.hot_peers.contains(&addr));
    assert!(!pm.warm_peers.contains(&addr));

    // Demote to warm
    pm.demote_to_warm(&addr);
    assert!(pm.warm_peers.contains(&addr));
    assert!(!pm.hot_peers.contains(&addr));

    // Disconnect
    pm.peer_disconnected(&addr);
    assert!(pm.cold_peers.contains(&addr));
    assert!(!pm.warm_peers.contains(&addr));
}

#[test]
fn test_peers_to_connect() {
    let config = PeerManagerConfig {
        target_hot_peers: 2,
        target_warm_peers: 2,
        ..PeerManagerConfig::default()
    };
    let mut pm = PeerManager::new(config);

    for i in 0..5 {
        pm.add_config_peer(test_addr(3000 + i), false, false);
    }

    assert_eq!(to_connect(&pm).len(), 4); // target_hot(2) + target_warm(2)
}

#[test]
fn test_peers_to_promote() {
    let config = PeerManagerConfig { target_hot_peers: 2, ..PeerManagerConfig::default() };
    let mut pm = PeerManager::new(config);

    let a1 = test_addr(3001);
    let a2 = test_addr(3002);
    let a3 = test_addr(3003);
    pm.add_config_peer(a1, false, false);
    pm.add_config_peer(a2, false, false);
    pm.add_config_peer(a3, false, false);
    pm.peer_connected(&a1, 14, true, NOW);
    pm.peer_connected(&a2, 14, true, NOW);
    pm.peer_connected(&a3, 14, true, NOW);

    assert_eq!(to_promote(&pm).len(), 2); // target_hot = 2
}

#[test]
fn test_inbound_acceptance() {
    let config = PeerManagerConfig { max_inbound_peers: 2, ..PeerManagerConfig::default() };
    let mut pm = PeerManager::new(config);
    assert!(pm.should_accept_inbound());

    let a1 = test_addr(3001);
    let a2 = test_addr(3002);
    pm.add_config_peer(a1, false, false);
    pm.add_config_peer(a2, false, false);
    pm.peer_connected(&a1, 14, false, NOW); // inbound
    assert!(pm.should_accept_inbound());
    pm.peer_connected(&a2, 14, false, NOW); // inbound
    assert!(!pm.should_accept_inbound()); // at max
}

#[test]
fn test_initiator_only_rejects_inbound() {
    let config = PeerManagerConfig {
        diffusion_mode: DiffusionMode::InitiatorOnly,
        ..PeerManagerConfig::default()
    };
    let pm = PeerManager::new(config);
    assert!(!pm.should_accept_inbound());
}

#[test]
fn test_peer_sharing() {
    let mut pm = PeerManager::new(PeerManagerConfig::default());
    // Routable addresses pass the routability filter
    let a1 = routable_addr(8, 8, 8, 8, 3001);
    let a2 = routable_addr(1, 1, 1, 1, 3002);
    pm.add_config_peer(a1, false, true); // advertise=true
    pm.add_config_peer(a2, false, false); // advertise=false
    pm.peer_connected(&a1, 14, true, NOW);

    let shared = pm.peers_for_sharing(10);
    assert_eq!(shared.len(), 1);
    assert_eq!(shared[0], a1);
}

#[test]
fn test_peer_failure_backoff() {
    let mut pm = PeerManager::new(PeerManagerConfig::default());
    let addr = test_addr(3001);
    pm.add_config_peer(addr, false, false);

    // First failure
    pm.peer_failed(&addr, NOW);
    assert!(!pm.peers.get(&addr).unwrap().should_retry(NOW)); // just failed

    // After ten seconds it may be tried again
    assert!(!pm.peers.get(&addr).unwrap().should_retry(NOW + 9_999));
    assert!(pm.peers.get(&addr).unwrap().should_retry(NOW + 10_000));
}

#[test]
fn test_stats() {
    let mut pm = PeerManager::new(PeerManagerConfig::default());
    let a1 = test_addr(3001);
    let a2 = test_addr(3002);
    let a3 = test_addr(3003);
    pm.add_config_peer(a1, false, false);
    pm.add_config_peer(a2, false, false);
    pm.add_config_peer(a3, false, false);
    pm.peer_connected(&a1, 14, true, NOW);
    pm.promote_to_hot(&a1);

    let stats = pm.stats();
    assert_eq!(stats.known_peers, 3);
    assert_eq!(stats.cold_peers, 2);
    assert_eq!(stats.warm_peers, 0);
    assert_eq!(stats.hot_peers, 1);
}

#[test]
fn test_add_shared_peer_dedup() {
    let mut pm = PeerManager::new(PeerManagerConfig::default());
    let addr = test_addr(3001);
    pm.add_config_peer(addr, false, false);
    pm.add_shared_peer(addr); // Already known
    assert_eq!(pm.peers.len(), 1);
}

#[test]
fn test_add_shared_peer_capacity() {
    let config = PeerManagerConfig { target_known_peers: 2, ..PeerManagerConfig::default() };
    let mut pm = PeerManager::new(config);
    pm.add_config_peer(test_addr(3001), false, false);
    pm.add_config_peer(test_addr(3002), false, false);
    pm.add_shared_peer(test_addr(3003)); // At capacity
    assert_eq!(pm.peers.len(), 2);
}

#[test]
fn test_add_ledger_peer() {
    let mut pm = PeerManager::new(PeerManagerConfig::default());
    let addr = test_addr(3001);
    pm.add_ledger_peer(addr);

    assert_eq!(pm.peers.len(), 1);
    assert!(pm.cold_peers.contains(&addr));
    assert_eq!(pm.peers.get(&addr).unwrap().source, PeerSource::Ledger);
}

#[test]
fn test_add_ledger_peer_dedup() {
    let mut pm = PeerManager::new(PeerManagerConfig::default());
    let addr = test_addr(3001);
    pm.add_config_peer(addr, false, false);
    pm.add_ledger_peer(addr); // Already known from config
    assert_eq!(pm.peers.len(), 1);
    assert_eq!(pm.peers.get(&addr).unwrap().source, PeerSource::Config); // Source unchanged
}

#[test]
fn test_add_ledger_peer_capacity() {
    let config = PeerManagerConfig { target_known_peers: 2, ..PeerManagerConfig::default() };
    let mut pm = PeerManager::new(config);
    pm.add_ledger_peer(test_addr(3001));
    pm.add_ledger_peer(test_addr(3002));
    pm.add_ledger_peer(test_addr(3003)); // At capacity
    assert_eq!(pm.peers.len(), 2);
}

#[test]
fn test_ranked_peer_selection() {
    let config = PeerManagerConfig {
        target_hot_peers: 1,
        target_warm_peers: 1,
        ..PeerManagerConfig::default()
    };
    let mut pm = PeerManager::new(config);

    // Add a trustable config peer and a regular peer
    let trustable = test_addr(3001);
    let regular = test_addr(3002);
    pm.add_config_peer(trustable, true, false);
    pm.add_config_peer(regular, false, false);

    let to_connect = to_connect(&pm);
    assert_eq!(to_connect.len(), 2);
    // Trustable peer should be first (higher score)
    assert_eq!(to_connect[0], trustable);
}

#[test]
fn test_ranked_promotion() {
    let config = PeerManagerConfig { target_hot_peers: 1, ..PeerManagerConfig::default() };
    let mut pm = PeerManager::new(config);

    let fast_peer = test_addr(3001);
    let slow_peer = test_addr(3002);
    pm.add_config_peer(fast_peer, true, false);
    pm.add_config_peer(slow_peer, false, false);
    pm.peer_connected(&fast_peer, 14, true, NOW);
    pm.peer_connected(&slow_peer, 14, true, NOW);

    // Give fast peer better latency
    pm.record_handshake_rtt(&fast_peer);
    pm.record_handshake_rtt(&slow_peer);
    pm.set_reputation(&fast_peer, reputation_after_handshake(20.0));
    pm.set_reputation(&slow_peer, reputation_after_handshake(800.0));

    let to_promote = to_promote(&pm);
    assert_eq!(to_promote.len(), 1);
    assert_eq!(to_promote[0], fast_peer);
}

#[test]
fn test_best_peers_for_fetch() {
    let mut pm = PeerManager::new(PeerManagerConfig::default());
    let fast = test_addr(3001);
    let slow = test_addr(3002);
    pm.add_config_peer(fast, true, false);
    pm.add_config_peer(slow, false, false);
    pm.peer_connected(&fast, 14, true, NOW);
    pm.peer_connected(&slow, 14, true, NOW);
    pm.promote_to_hot(&fast);
    pm.promote_to_hot(&slow);

    pm.record_block_fetch(&fast, 50, 50000, NOW);
    pm.record_block_fetch(&slow, 50, 50000, NOW);
    pm.set_reputation(&fast, reputation_after_fetch(100.0, 50));
    pm.set_reputation(&slow, reputation_after_fetch(2000.0, 50));

    let best = pm.best_peers_for_fetch(2);
    assert_eq!(best.len(), 2);
    assert_eq!(best[0], fast);
}

#[test]
fn test_worst_hot_peer() {
    let mut pm = PeerManager::new(PeerManagerConfig::default());
    let good = test_addr(3001);
    let bad = test_addr(3002);
    pm.add_config_peer(good, true, false);
    pm.add_config_peer(bad, false, false);
    pm.peer_connected(&good, 14, true, NOW);
    pm.peer_connected(&bad, 14, true, NOW);
    pm.promote_to_hot(&good);
    pm.promote_to_hot(&bad);

    pm.record_handshake_rtt(&good);
    pm.record_handshake_rtt(&bad);
    pm.set_reputation(&good, reputation_after_handshake(20.0));
    pm.set_reputation(&bad, reputation_after_handshake(1500.0));

    let worst = pm.worst_hot_peer();
    assert_eq!(worst, Some(bad));
}

#[test]
fn test_evict_low_reputation_cold_peer() {
    let config = PeerManagerConfig { target_known_peers: 2, ..PeerManagerConfig::default() };
    let mut pm = PeerManager::new(config);
    // Add two ledger peers to fill capacity
    pm.add_ledger_peer(test_addr(3001));
    pm.add_ledger_peer(test_addr(3002));
    assert_eq!(pm.peers.len(), 2);

    // Lower one peer's reputation below eviction threshold
    pm.set_reputation(&test_addr(3001), key(0.1));

    // Adding a new ledger peer should evict the low-reputation one
    pm.add_ledger_peer(test_addr(3003));
    assert_eq!(pm.peers.len(), 2);
    assert!(!pm.peers.contains(&test_addr(3001))); // Evicted
    assert!(pm.peers.contains(&test_addr(3003))); // New peer added
}

#[test]
fn test_no_eviction_of_config_peers() {
    let config = PeerManagerConfig { target_known_peers: 2, ..PeerManagerConfig::default() };
    let mut pm = PeerManager::new(config);
    // Fill with config peers (should never be evicted)
    pm.add_config_peer(test_addr(3001), false, false);
    pm.add_config_peer(test_addr(3002), false, false);

    // Lower reputation
    pm.set_reputation(&test_addr(3001), key(0.0));

    // Should not evict config peers even at capacity
    pm.add_ledger_peer(test_addr(3003));
    assert_eq!(pm.peers.len(), 2);
    assert!(pm.peers.contains(&test_addr(3001))); // Config peer preserved
    assert!(!pm.peers.contains(&test_addr(3003))); // New peer rejected
}

#[test]
fn test_no_eviction_above_threshold() {
    let config = PeerManagerConfig { target_known_peers: 2, ..PeerManagerConfig::default() };
    let mut pm = PeerManager::new(config);
    pm.add_ledger_peer(test_addr(3001));
    pm.add_ledger_peer(test_addr(3002));

    // Both peers have default reputation (0.5) — above threshold
    pm.add_shared_peer(test_addr(3003));
    assert_eq!(pm.peers.len(), 2);
    assert!(!pm.peers.contains(&test_addr(3003))); // Rejected, nobody to evict
}

#[test]
fn test_shared_peer_eviction() {
    let config = PeerManagerConfig { target_known_peers: 2, ..PeerManagerConfig::default() };
    let mut pm = PeerManager::new(config);
    pm.add_ledger_peer(test_addr(3001));
    pm.add_ledger_peer(test_addr(3002));

    // Lower one peer's reputation
    pm.set_reputation(&test_addr(3002), key(0.2));

    // Shared peer should trigger eviction of low-reputation peer
    let routable = routable_addr(8, 8, 8, 8, 3003);
    pm.add_shared_peer(routable);
    assert_eq!(pm.peers.len(), 2);
    assert!(!pm.peers.contains(&test_addr(3002)));
    assert!(pm.peers.contains(&routable));
}

#[test]
fn test_subnet_key_ipv4() {
    // Same /24 → same key
    let a1 = routable_addr(10, 20, 30, 1, 3001);
    let a2 = routable_addr(10, 20, 30, 2, 3002);
    assert_eq!(subnet_key(&a1), subnet_key(&a2));

    // Different /24 → different key
    let a3 = routable_addr(10, 20, 31, 1, 3001);
    assert_ne!(subnet_key(&a1), subnet_key(&a3));
}

#[test]
fn test_subnet_diversity_penalty() {
    let config = PeerManagerConfig {
        target_hot_peers: 2,
        target_warm_peers: 4,
        target_known_peers: 100,
        ..PeerManagerConfig::default()
    };
    let mut pm = PeerManager::new(config);

    // Add 4 peers from the same /24 subnet (8.8.8.x)
    for i in 1..=4 {
        pm.add_config_peer(routable_addr(8, 8, 8, i, 3000 + i as u16), false, false);
    }
    // Add 1 peer from a different subnet (1.2.3.x)
    pm.add_config_peer(routable_addr(1, 2, 3, 1, 4001), false, false);

    // Connect 3 from the same subnet
    pm.peer_connected(&routable_addr(8, 8, 8, 1, 3001), 14, true, NOW);
    pm.peer_connected(&routable_addr(8, 8, 8, 2, 3002), 14, true, NOW);
    pm.peer_connected(&routable_addr(8, 8, 8, 3, 3003), 14, true, NOW);

    // Now get peers to connect — the diverse peer should rank higher
    // than the 4th peer from the same subnet
    let to_connect = to_connect(&pm);
    assert!(!to_connect.is_empty());
    assert_eq!(
        to_connect[0],
        routable_addr(1, 2, 3, 1, 4001),
        "Diverse-subnet peer should be preferred over concentrated subnet"
    );
}

#[test]
fn test_unique_subnets_in_stats() {
    let mut pm = PeerManager::new(PeerManagerConfig::default());
    let a1 = routable_addr(8, 8, 8, 1, 3001);
    let a2 = routable_addr(8, 8, 8, 2, 3002);
    let a3 = routable_addr(1, 2, 3, 1, 3003);
    pm.add_config_peer(a1, false, false);
    pm.add_config_peer(a2, false, false);
    pm.add_config_peer(a3, false, false);
    pm.peer_connected(&a1, 14, true, NOW);
    pm.peer_connected(&a2, 14, true, NOW);
    pm.peer_connected(&a3, 14, true, NOW);

    let stats = pm.stats();
    assert_eq!(stats.unique_subnets, 2, "Should have 2 unique /24 subnets");
}

#[test]
fn test_peers_for_sharing_filters_non_routable() {
    let config = PeerManagerConfig { peer_sharing_enabled: true, ..PeerManagerConfig::default() };
    let mut pm = PeerManager::new(config);

    // Add a mix of routable and non-routable peers, all set to advertise
    let routable = routable_addr(8, 8, 8, 8, 3001);
    let loopback = socket_v4(127, 0, 0, 1, 3001);
    let private = socket_v4(10, 0, 0, 1, 3001);
    let link_local = socket_v4(169, 254, 1, 1, 3001);

    pm.add_config_peer(routable, false, true);
    pm.add_config_peer(loopback, false, true);
    pm.add_config_peer(private, false, true);
    pm.add_config_peer(link_local, false, true);

    // Connect them so they pass the temperature filter
    for addr in &[routable, loopback, private, link_local] {
        pm.peer_connected(addr, 14, true, NOW);
    }

    let shared = pm.peers_for_sharing(10);
    assert_eq!(shared.len(), 1, "Only the routable peer should be shared");
    assert_eq!(shared[0], routable);
}

#[test]
fn fetches_are_counted() {
    let mut pm = PeerManager::new(PeerManagerConfig::default());
    let addr = test_addr(3001);
    pm.add_config_peer(addr, false, false);
    pm.record_block_fetch(&addr, 10, 1024 * 100, NOW);
    pm.record_handshake_rtt(&addr);
    let perf = pm.peer_performance(&addr).unwrap();
    assert_eq!(perf.blocks_fetched, 10);
    assert_eq!(perf.bytes_received, 102400);
    assert_eq!(perf.success_count, 2);
    assert_eq!(perf.last_good_fetch, Some(NOW));
    assert!(pm.peer_performance(&test_addr(3002)).is_none());
}

#[test]
fn failures_are_halved_every_five_minutes() {
    let mut pm = PeerManager::new(PeerManagerConfig::default());
    let addr = test_addr(3001);
    pm.add_config_peer(addr, false, false);
    for _ in 0..8 {
        pm.peer_failed(&addr, NOW);
    }
    pm.decay_failures(NOW + 299_999);
    assert_eq!(pm.peers.get(&addr).unwrap().failure_count, 8);
    pm.decay_failures(NOW + 300_000);
    assert_eq!(pm.peers.get(&addr).unwrap().failure_count, 4);
    pm.decay_failures(NOW + 600_000);
    assert_eq!(pm.peers.get(&addr).unwrap().failure_count, 1);
}

#[test]
fn retry_delays_double_up_to_a_minute() {
    let mut info = PeerInfo::new(test_addr(3001), PeerSource::Ledger);
    assert!(info.should_retry(0));
    info.last_failed = Some(NOW);
    for (failures, secs) in [(0u32, 5u64), (1, 10), (2, 20), (3, 40), (4, 60), (9, 60)] {
        info.failure_count = failures;
        assert!(!info.should_retry(NOW + secs * 1000 - 1));
        assert!(info.should_retry(NOW + secs * 1000));
    }
}

#[test]
fn an_inbound_connection_is_uncounted_when_it_ends() {
    let mut pm = PeerManager::new(PeerManagerConfig::default());
    let addr = test_addr(3001);
    pm.add_ledger_peer(addr);
    pm.peer_connected(&addr, 14, false, NOW);
    assert_eq!(pm.inbound_count, 1);
    pm.promote_to_hot(&addr);
    pm.peer_disconnected(&addr);
    assert_eq!(pm.inbound_count, 0);
    assert_eq!(pm.hot_peer_count(), 0);
    assert_eq!(pm.warm_peer_count(), 0);
    assert_eq!(pm.cold_peer_count(), 1);
    assert_eq!(pm.peers.get(&addr).unwrap().temperature, PeerTemperature::Cold);
}

#[test]
fn categories_follow_the_source() {
    let mut pm = PeerManager::new(PeerManagerConfig::default());
    let big = routable_addr(8, 8, 8, 1, 1);
    let ledger = routable_addr(8, 8, 8, 2, 1);
    let shared = routable_addr(8, 8, 8, 3, 1);
    let root = routable_addr(8, 8, 8, 4, 1);
    pm.add_big_ledger_peer(big);
    pm.add_ledger_peer(ledger);
    pm.add_shared_peer(shared);
    pm.add_config_peer(root, true, true);
    assert_eq!(pm.peer_category(&big), Some(PeerCategory::BigLedgerPeer));
    assert_eq!(pm.peer_category(&ledger), Some(PeerCategory::LedgerPeer));
    assert_eq!(pm.peer_category(&shared), Some(PeerCategory::Shared));
    assert!(pm.is_local_root(&root));
    assert!(!pm.is_local_root(&big));
    assert_eq!(pm.peer_category(&test_addr(1)), None);
    assert_eq!(pm.big_ledger_peer_count(), 1);
    assert_eq!(pm.active_big_ledger_peer_count(), 0);
    pm.peer_connected(&big, 14, true, NOW);
    pm.promote_to_hot(&big);
    assert_eq!(pm.active_big_ledger_peer_count(), 1);
    assert_eq!(pm.hot_peer_addrs(), vec![big]);
    assert_eq!(pm.connected_peer_addrs(), vec![big]);
    pm.update_tip(&big, 77);
    assert_eq!(pm.peers.get(&big).unwrap().remote_tip_slot, Some(77));
    assert_eq!(pm.diffusion_mode(), DiffusionMode::InitiatorAndResponder);
}

#[test]
fn peers_that_cannot_be_reached_are_not_learned_from_others() {
    let mut pm = PeerManager::new(PeerManagerConfig::default());
    pm.add_shared_peer(test_addr(3001));
    pm.add_shared_peer(socket_v4(192, 168, 1, 1, 3001));
    assert_eq!(pm.peers.len(), 0);
    assert!(is_routable(&IpAddr::V4([8, 8, 8, 8])));
    assert!(!is_routable(&IpAddr::V4([0, 0, 0, 0])));
    assert!(!is_routable(&IpAddr::V6([0; 16])));
    let v6 = |a: u8, b: u8| {
        let mut o = [0u8; 16];
        o[0] = a;
        o[1] = b;
        o[15] = 1;
        IpAddr::V6(o)
    };
    // Loopback, unique-local, link-local and multicast
    for (a, b) in [(0, 0), (0xfc, 0), (0xfd, 0), (0xfe, 0x80), (0xfe, 0xbf), (0xff, 2)] {
        assert!(!is_routable(&v6(a, b)), "{a:x}{b:x}");
    }
    assert!(is_routable(&v6(0x20, 0x01)));
    assert!(is_routable(&v6(0xfe, 0xc0)));
}

#[test]
fn a_request_for_peers_is_answered_only_where_sharing_is_enabled() {
    let mut pm = PeerManager::new(PeerManagerConfig::default());
    let a1 = routable_addr(8, 8, 8, 8, 3001);
    pm.add_config_peer(a1, false, true);
    pm.peer_connected(&a1, 14, true, NOW);
    let request = PeerSharingMessage::ShareRequest(10);
    let enabled = answer_peersharing(&request, PeerSharingMode::PeerSharingEnabled, Some(&pm));
    assert!(matches!(enabled, Some(PeerSharingMessage::SharePeers(v)) if v == vec![a1]));
    let disabled = answer_peersharing(&request, PeerSharingMode::NoPeerSharing, Some(&pm));
    assert!(matches!(disabled, Some(PeerSharingMessage::SharePeers(v)) if v.is_empty()));
    let done = PeerSharingMessage::Done;
    assert!(answer_peersharing(&done, PeerSharingMode::PeerSharingEnabled, Some(&pm)).is_none());
}

#[test]
fn local_roots_are_not_demoted() {
    let mut pm = PeerManager::new(PeerManagerConfig::default());
    let root = test_addr(3001);
    let other = test_addr(3002);
    pm.add_config_peer(root, true, false);
    pm.add_config_peer(other, false, false);
    for a in [root, other] {
        pm.peer_connected(&a, 14, true, NOW);
        pm.promote_to_hot(&a);
    }
    // The root has the worse reputation, and is no choice all the same.
    pm.set_reputation(&root, key(0.1));
    pm.set_reputation(&other, key(0.9));
    assert_eq!(pm.worst_hot_peer(), Some(other));
    pm.demote_to_warm(&root);
    pm.demote_to_warm(&other);
    assert_eq!(pm.hot_peer_addrs(), vec![root]);
    assert_eq!(pm.worst_hot_peer(), None);
    pm.peer_disconnected(&root);
    assert_eq!(pm.hot_peer_count(), 0);
}

#[test]
fn a_visitor_is_forgotten_when_it_leaves() {
    let mut pm = PeerManager::new(PeerManagerConfig::default());
    // Also from a private network
    let local = test_addr(4001);
    let public = routable_addr(5, 6, 7, 8, 4002);
    pm.register_inbound_peer(local, NOW);
    pm.register_inbound_peer(public, NOW);
    assert_eq!(pm.inbound_count, 2);
    assert_eq!(pm.warm_peer_count(), 2);
    assert_eq!(pm.peers_for_sharing(10), vec![public]);
    pm.deregister_inbound_peer(&local);
    pm.deregister_inbound_peer(&public);
    assert_eq!(pm.inbound_count, 0);
    assert_eq!(pm.stats().known_peers, 0);
    assert_eq!(pm.warm_peer_count(), 0);
    assert_eq!(pm.cold_peer_count(), 0);
    // A second time there is nothing to forget
    pm.deregister_inbound_peer(&local);
    assert_eq!(pm.inbound_count, 0);
}

#[test]
fn a_configured_visitor_stays_known() {
    let mut pm = PeerManager::new(PeerManagerConfig::default());
    let addr = test_addr(4001);
    pm.add_config_peer(addr, true, false);
    pm.register_inbound_peer(addr, NOW);
    assert_eq!(pm.inbound_count, 1);
    assert!(pm.is_local_root(&addr));
    pm.deregister_inbound_peer(&addr);
    assert_eq!(pm.inbound_count, 0);
    assert_eq!(pm.cold_peer_count(), 1);
    assert!(pm.is_local_root(&addr));
}
