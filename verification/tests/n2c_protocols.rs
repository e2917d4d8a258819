//! The mini-protocols of a local client, message by message.
use torsten_network::mempool::{AddTxOutcome, MempoolProvider};
use torsten_network::multiplexer::Segment;
use torsten_network::mux::segment::Direction;
use torsten_network::mux::Mux;
use torsten_network::n2c::chain_sync::{handle_local_chainsync, ChainSyncCursor};
use torsten_network::n2c::connection::{
    process_segment, ClientConnection, ClientState, ClientStep,
};
use torsten_network::n2c::handshake::{
    better_version, handle_handshake, parse_handshake_magic, parse_highest_version,
};
use torsten_network::n2c::query::encoding::{can_encode, encode_query_result};
use torsten_network::n2c::query::utctime::try_parse_utctime;
use torsten_network::n2c::state_query::{handle_state_query, query_reply, StateQueryStep};
use torsten_network::n2c::tx_monitor::{handle_tx_monitor, TxMonitorCursor};
use torsten_network::n2c::tx_submission::{
    extract_submitted_tx, handle_tx_submission, CONWAY_ERA_IDX,
};
use torsten_network::n2c::{
    N2CServerError, TxValidationError, TxValidator, MINI_PROTOCOL_CHAINSYNC,
    MINI_PROTOCOL_HANDSHAKE, MINI_PROTOCOL_STATE_QUERY, MINI_PROTOCOL_TX_MONITOR,
    MINI_PROTOCOL_TX_SUBMISSION,
};
use torsten_network::n2c_client::{ClientChannels, N2CClient};
use torsten_network::n2n_server::{BlockProvider, TipInfo};
use torsten_network::query_handler::{LedgerPeerEntry, QueryResult, RelaySnapshot};

/// A mempool with two transactions, of which the first has lost its bytes.
struct Pool {
    outcome: u8,
}

impl MempoolProvider for Pool {
    fn add_tx(&self, _era_id: u16, _tx_bytes: &[u8]) -> AddTxOutcome {
        match self.outcome {
            0 => AddTxOutcome::Added,
            1 => AddTxOutcome::AlreadyExists,
            2 => AddTxOutcome::Undecodable("bad".to_string()),
            _ => AddTxOutcome::Refused("full".to_string()),
        }
    }
    fn add_tx_with_fee(&self, _hash: &[u8; 32], era_id: u16, tx_bytes: &[u8]) -> AddTxOutcome {
        self.add_tx(era_id, tx_bytes)
    }
    fn contains(&self, hash: &[u8; 32]) -> bool {
        *hash == [1; 32] || *hash == [2; 32]
    }
    fn tx_hashes_ordered(&self) -> Vec<[u8; 32]> {
        vec![[1; 32], [2; 32]]
    }
    fn first_tx_hash(&self) -> Option<[u8; 32]> {
        Some([1; 32])
    }
    fn get_tx_cbor(&self, hash: &[u8; 32]) -> Option<Vec<u8>> {
        if *hash == [2; 32] {
            Some(vec![0x84])
        } else {
            None
        }
    }
    fn get_tx_raw(&self, hash: &[u8; 32]) -> Option<Vec<u8>> {
        self.get_tx_cbor(hash)
    }
    fn get_tx_size(&self, _hash: &[u8; 32]) -> Option<usize> {
        None
    }
    fn len(&self) -> usize {
        2
    }
    fn total_bytes(&self) -> usize {
        300
    }
    fn capacity(&self) -> usize {
        10
    }
}

/// A validator that always says the same.
struct Judge {
    verdict: fn() -> Result<(), TxValidationError>,
}

impl TxValidator for Judge {
    fn validate_tx(&self, _era_id: u16, _tx_bytes: &[u8]) -> Result<(), TxValidationError> {
        (self.verdict)()
    }
}

/// A chain with one block, at slot 50.
struct OneBlock;

impl BlockProvider for OneBlock {
    fn get_block(&self, _hash: &[u8; 32]) -> Option<Vec<u8>> {
        None
    }
    fn has_block(&self, hash: &[u8; 32]) -> bool {
        *hash == [5; 32]
    }
    fn get_tip(&self) -> TipInfo {
        tip()
    }
    fn get_next_block_after_slot(&self, after_slot: u64) -> Option<(u64, [u8; 32], Vec<u8>)> {
        if after_slot < 50 {
            Some((50, [5; 32], vec![0x82, 0x07, 0x80]))
        } else {
            None
        }
    }
}

fn tip() -> TipInfo {
    TipInfo { slot: 50, hash: [5; 32], block_number: 3 }
}

/// `[slot, hash]` for a slot of two bytes on the wire.
fn point(slot: u8, hash: u8) -> Vec<u8> {
    let mut p = vec![0x82, 0x18, slot, 0x58, 32];
    p.extend_from_slice(&[hash; 32]);
    p
}

fn tip_bytes() -> Vec<u8> {
    let mut t = vec![0x82];
    t.extend_from_slice(&point(50, 5));
    t.push(3);
    t
}

fn joined(parts: &[&[u8]]) -> Vec<u8> {
    parts.concat()
}

fn payload(r: Result<Option<Segment>, N2CServerError>) -> Vec<u8> {
    r.unwrap().unwrap().payload
}

fn protocol_error(e: N2CServerError) -> String {
    match e {
        N2CServerError::Protocol(m) => m,
        other => panic!("unexpected error: {other:?}"),
    }
}

// Errors

#[test]
fn server_errors_in_words() {
    assert_eq!(N2CServerError::Io("gone".to_string()).to_string(), "IO error: gone");
    assert_eq!(
        N2CServerError::HandshakeFailed("no version".to_string()).to_string(),
        "Handshake failed: no version"
    );
    assert_eq!(N2CServerError::Protocol("odd".to_string()).to_string(), "Protocol error: odd");
}

// Handshake

/// `[0, {16: [1, false], 17: [2, false]}]`
const PROPOSAL: [u8; 11] =
    [0x82, 0x00, 0xa2, 0x10, 0x82, 0x01, 0xf4, 0x11, 0x82, 0x02, 0xf4];

#[test]
fn handshake_takes_the_highest_version() {
    assert_eq!(parse_highest_version(&PROPOSAL), Some((17, 17)));
    // The magic is that of the first entry.
    assert_eq!(parse_handshake_magic(&PROPOSAL), Some(1));
    let s = handle_handshake(&PROPOSAL).unwrap().unwrap();
    assert_eq!(s.protocol_id, MINI_PROTOCOL_HANDSHAKE);
    assert!(s.is_responder);
    assert_eq!(s.payload, vec![0x83, 0x01, 0x11, 0x82, 0x01, 0xf4]);
}

#[test]
fn handshake_answers_in_the_form_it_was_asked() {
    // 0x8010 is version 16 with bit 15 set.
    let proposal = [0x82, 0x00, 0xa1, 0x19, 0x80, 0x10, 0x82, 0x01, 0xf4];
    let s = handle_handshake(&proposal).unwrap().unwrap();
    assert_eq!(s.payload, vec![0x83, 0x01, 0x19, 0x80, 0x10, 0x82, 0x01, 0xf4]);
}

#[test]
fn handshake_without_a_known_version_falls_back() {
    let proposal = [0x82, 0x00, 0xa1, 0x0f, 0x82, 0x01, 0xf4];
    assert_eq!(parse_highest_version(&proposal), None);
    assert_eq!(payload(handle_handshake(&proposal)), vec![0x83, 0x01, 0x10, 0x82, 0x01, 0xf4]);
}

#[test]
fn handshake_without_a_magic_fails() {
    for proposal in [&[][..], &[0x82, 0x00, 0xa1, 0x10, 0x01][..]] {
        assert_eq!(
            handle_handshake(proposal).unwrap_err().to_string(),
            "Handshake failed: could not parse network magic from handshake proposal"
        );
    }
}

#[test]
fn better_version_is_higher_and_supported() {
    assert_eq!(better_version(None, 15), None);
    assert_eq!(better_version(None, 16), Some((16, 16)));
    assert_eq!(better_version(Some((16, 16)), 0x8011), Some((17, 0x8011)));
    assert_eq!(better_version(Some((17, 17)), 0x8011), Some((17, 17)));
    assert_eq!(better_version(Some((17, 17)), 18), Some((17, 17)));
}

// LocalStateQuery

#[test]
fn state_query_steps() {
    for tag in [0u8, 5, 8, 10] {
        match handle_state_query(&[0x81, tag]) {
            Ok(StateQueryStep::Reply(s)) => {
                assert_eq!(s.payload, vec![0x81, 0x01]);
                assert_eq!(s.protocol_id, MINI_PROTOCOL_STATE_QUERY);
            }
            other => panic!("unexpected step: {other:?}"),
        }
    }
    assert!(matches!(handle_state_query(&[0x82, 0x03, 0x80]), Ok(StateQueryStep::Query)));
    assert!(matches!(handle_state_query(&[0x81, 0x07]), Ok(StateQueryStep::Silent)));
    assert!(matches!(handle_state_query(&[0x9f, 0x07, 0xff]), Ok(StateQueryStep::Silent)));
    assert_eq!(
        protocol_error(handle_state_query(&[0x80]).unwrap_err()),
        "invalid state query message"
    );
    let bad = protocol_error(handle_state_query(&[0x81, 0x40]).unwrap_err());
    assert!(bad.starts_with("bad msg tag: "));
}

#[test]
fn query_results_travel_in_a_reply() {
    let s = query_reply(&QueryResult::EpochNo(7));
    assert_eq!(s.protocol_id, MINI_PROTOCOL_STATE_QUERY);
    assert_eq!(s.payload, encode_query_result(&QueryResult::EpochNo(7)));
    assert_eq!(s.payload[..2], [0x82, 0x04]);
}

#[test]
fn times_that_do_not_parse_are_not_encoded() {
    assert_eq!(try_parse_utctime("2022-04-01T00:00:00Z"), Some((2022, 91, 0)));
    assert_eq!(try_parse_utctime("2022-00-01T00:00:00Z"), None);
    assert!(can_encode(&QueryResult::SystemStart("2022-04-01T00:00:00Z".to_string())));
    assert!(!can_encode(&QueryResult::SystemStart("2022-00-01T00:00:00Z".to_string())));
    assert!(!can_encode(&QueryResult::WrappedCbor(Box::new(QueryResult::SystemStart(
        "2022-00-01T00:00:00Z".to_string()
    )))));
    assert!(can_encode(&QueryResult::EpochNo(1)));
}

fn peer(id: u8, stake: u64) -> LedgerPeerEntry {
    LedgerPeerEntry {
        pool_id: vec![id; 28],
        stake,
        relays: vec![RelaySnapshot::SingleHostName { port: Some(3001), dns_name: "a".to_string() }],
    }
}

#[test]
fn ledger_peers_that_overflow_are_not_encoded() {
    // Nine times the stake has to fit 64 bits.
    let most: u64 = u64::MAX / 9;
    let fits = QueryResult::LedgerPeerSnapshot(vec![peer(1, most)]);
    assert!(can_encode(&fits));
    let overflows = QueryResult::LedgerPeerSnapshot(vec![peer(1, most), peer(2, 1)]);
    assert!(!can_encode(&overflows));
}

// LocalTxSubmission

/// `[0, [6, tag 24 (h'8480')]]`
const SUBMIT: [u8; 9] = [0x82, 0x00, 0x82, 0x06, 0xd8, 0x18, 0x42, 0x84, 0x80];

#[test]
fn submitted_tx_with_and_without_tag() {
    assert_eq!(CONWAY_ERA_IDX, 6);
    assert_eq!(extract_submitted_tx(&SUBMIT, 2), Some((6, vec![0x84, 0x80])));
    assert_eq!(extract_submitted_tx(&[0x82, 0x06, 0x42, 0x84, 0x80], 0), Some((6, vec![0x84, 0x80])));
    // Another tag, another length, no bytes.
    assert_eq!(extract_submitted_tx(&[0x82, 0x06, 0xc1, 0x42, 0x84, 0x80], 0), None);
    assert_eq!(extract_submitted_tx(&[0x83, 0x06, 0x42, 0x84, 0x80, 0x00], 0), None);
    assert_eq!(extract_submitted_tx(&[0x82, 0x06, 0x01], 0), None);
    assert_eq!(extract_submitted_tx(&[], 0), None);
    // The era is cut to 16 bits.
    assert_eq!(
        extract_submitted_tx(&[0x82, 0x1a, 0x00, 0x01, 0x00, 0x06, 0x40], 0),
        Some((6, vec![]))
    );
}

fn submit(outcome: u8, v: Option<&Judge>, rejections: &mut u64) -> Vec<u8> {
    payload(handle_tx_submission(&SUBMIT, &Pool { outcome }, v, rejections))
}

#[test]
fn submission_outcomes_on_the_wire() {
    let mut n: u64 = 0;
    assert_eq!(submit(0, None, &mut n), vec![0x81, 0x01]);
    assert_eq!(submit(1, None, &mut n), vec![0x81, 0x01]);
    assert_eq!(n, 0);
    // [2, [[6, [[7, "full"]]]]]
    let full = [0x82, 0x02, 0x81, 0x82, 0x06, 0x81, 0x82, 0x07, 0x64, b'f', b'u', b'l', b'l'];
    assert_eq!(submit(3, None, &mut n), full.to_vec());
    assert_eq!(n, 1);
    let mut undecodable = vec![0x82, 0x02, 0x81, 0x82, 0x06, 0x81, 0x82, 0x07, 0x78, 33];
    undecodable.extend_from_slice(b"Failed to decode transaction: bad");
    assert_eq!(submit(2, None, &mut n), undecodable);
    assert_eq!(n, 2);
}

#[test]
fn validator_is_asked_before_the_mempool() {
    let mut n: u64 = 0;
    let accepts = Judge { verdict: || Ok(()) };
    assert_eq!(submit(0, Some(&accepts), &mut n), vec![0x81, 0x01]);
    assert_eq!(n, 0);
    let refuses = Judge { verdict: || Err(TxValidationError::NoInputs) };
    // [2, [[6, [[1, [0, [4]]]]]]]
    assert_eq!(
        submit(0, Some(&refuses), &mut n),
        vec![0x82, 0x02, 0x81, 0x82, 0x06, 0x81, 0x82, 0x01, 0x82, 0x00, 0x81, 0x04]
    );
    assert_eq!(n, 1);
}

#[test]
fn several_failures_are_all_told() {
    let mut n: u64 = u64::MAX;
    let refuses = Judge {
        verdict: || {
            Err(TxValidationError::Multiple(vec![
                TxValidationError::NoInputs,
                TxValidationError::FeeTooSmall { minimum: 9, actual: 8 },
            ]))
        },
    };
    assert_eq!(
        submit(0, Some(&refuses), &mut n),
        joined(&[
            &[0x82, 0x02, 0x81, 0x82, 0x06, 0x82],
            &[0x82, 0x01, 0x82, 0x00, 0x81, 0x04],
            &[0x82, 0x01, 0x82, 0x00, 0x83, 0x05, 0x09, 0x08],
        ])
    );
    // The counter starts again behind the largest number.
    assert_eq!(n, 0);
}

#[test]
fn malformed_submissions() {
    let pool = Pool { outcome: 0 };
    let mut n: u64 = 0;
    let r = handle_tx_submission::<Judge, Pool>(&[0x82, 0x00, 0x80], &pool, None, &mut n);
    let mut expected = vec![0x82, 0x02, 0x81, 0x82, 0x06, 0x81, 0x82, 0x07, 0x78, 38];
    expected.extend_from_slice(b"Failed to decode submitted transaction");
    assert_eq!(payload(r), expected);
    assert_eq!(n, 1);
    assert!(handle_tx_submission::<Judge, Pool>(&[0x81, 0x03], &pool, None, &mut n).unwrap().is_none());
    let e = handle_tx_submission::<Judge, Pool>(&[0x00], &pool, None, &mut n).unwrap_err();
    assert_eq!(protocol_error(e), "invalid tx submission message");
    let e = handle_tx_submission::<Judge, Pool>(&[0x81, 0x40], &pool, None, &mut n).unwrap_err();
    assert!(protocol_error(e).starts_with("bad tx submission msg tag: "));
    assert_eq!(n, 1);
}

// LocalTxMonitor

#[test]
fn monitor_walks_its_snapshot() {
    let pool = Pool { outcome: 0 };
    let mut c = TxMonitorCursor::new();
    assert_eq!(payload(handle_tx_monitor(&[0x81, 0x01], &pool, 50, &mut c)), vec![0x82, 0x02, 0x18, 50]);
    assert!(c.acquired);
    assert_eq!(c.snapshot, vec![[1; 32], [2; 32]]);
    // The first transaction is no longer there, so the second one comes.
    assert_eq!(
        payload(handle_tx_monitor(&[0x81, 0x05], &pool, 50, &mut c)),
        vec![0x82, 0x06, 0x82, 0x06, 0x41, 0x84]
    );
    assert_eq!(c.position, 2);
    assert_eq!(payload(handle_tx_monitor(&[0x81, 0x05], &pool, 50, &mut c)), vec![0x82, 0x06, 0xf6]);
    // MsgRelease
    assert!(handle_tx_monitor(&[0x81, 0x03], &pool, 50, &mut c).unwrap().is_none());
    assert!(!c.acquired);
    assert!(c.snapshot.is_empty());
    assert_eq!(c.position, 0);
}

#[test]
fn monitor_answers_about_the_mempool() {
    let pool = Pool { outcome: 0 };
    let mut c = TxMonitorCursor::new();
    let asked = joined(&[&[0x82, 0x07, 0x58, 32], &[2; 32]]);
    assert_eq!(payload(handle_tx_monitor(&asked, &pool, 50, &mut c)), vec![0x82, 0x08, 0xf5]);
    let unknown = joined(&[&[0x82, 0x07, 0x58, 32], &[9; 32]]);
    assert_eq!(payload(handle_tx_monitor(&unknown, &pool, 50, &mut c)), vec![0x82, 0x08, 0xf4]);
    // An id of another length is not there.
    assert_eq!(payload(handle_tx_monitor(&[0x82, 0x07, 0x41, 0x02], &pool, 50, &mut c)), vec![0x82, 0x08, 0xf4]);
    assert_eq!(
        payload(handle_tx_monitor(&[0x81, 0x09], &pool, 50, &mut c)),
        vec![0x82, 0x0a, 0x83, 0x0a, 0x19, 0x01, 0x2c, 0x02]
    );
    assert_eq!(
        protocol_error(handle_tx_monitor(&[0x80], &pool, 50, &mut c).unwrap_err()),
        "invalid tx monitor message"
    );
    let e = handle_tx_monitor(&[0x81, 0x40], &pool, 50, &mut c).unwrap_err();
    assert!(protocol_error(e).starts_with("bad tx monitor msg tag: "));
}

// LocalChainSync

#[test]
fn intersection_at_the_tip_without_blocks() {
    let mut c = ChainSyncCursor { cursor_slot: 0, has_intersection: false };
    // The origin is passed over, the tip is found.
    let ask = joined(&[&[0x82, 0x04, 0x82, 0x80], &point(50, 5)]);
    let r = handle_local_chainsync::<OneBlock>(&ask, &tip(), None, &mut c);
    assert_eq!(payload(r), joined(&[&[0x83, 0x05], &point(50, 5), &tip_bytes()]));
    assert_eq!(c, ChainSyncCursor { cursor_slot: 50, has_intersection: true });
    let other = joined(&[&[0x82, 0x04, 0x81], &point(50, 6)]);
    let r = handle_local_chainsync::<OneBlock>(&other, &tip(), None, &mut c);
    assert_eq!(payload(r), joined(&[&[0x82, 0x06], &tip_bytes()]));
    assert_eq!(c, ChainSyncCursor { cursor_slot: 50, has_intersection: false });
}

#[test]
fn client_follows_the_chain() {
    let chain = OneBlock;
    let mut c = ChainSyncCursor { cursor_slot: 9, has_intersection: false };
    // Nothing before an intersection.
    let r = handle_local_chainsync(&[0x81, 0x00], &tip(), Some(&chain), &mut c);
    assert_eq!(payload(r), vec![0x81, 0x01]);
    // The origin is always known; malformed points are passed over.
    let ask = [0x82, 0x04, 0x82, 0x81, 0x00, 0x80];
    let r = handle_local_chainsync(&ask, &tip(), Some(&chain), &mut c);
    let origin = joined(&[&[0x82, 0x00, 0x58, 32], &[0; 32]]);
    assert_eq!(payload(r), joined(&[&[0x83, 0x05], &origin, &tip_bytes()]));
    assert_eq!(c, ChainSyncCursor { cursor_slot: 0, has_intersection: true });
    let r = handle_local_chainsync(&[0x81, 0x00], &tip(), Some(&chain), &mut c);
    assert_eq!(
        payload(r),
        joined(&[&[0x83, 0x02, 0x82, 0x07, 0xd8, 0x18, 0x43, 0x82, 0x07, 0x80], &tip_bytes()])
    );
    assert_eq!(c.cursor_slot, 50);
    let r = handle_local_chainsync(&[0x81, 0x00], &tip(), Some(&chain), &mut c);
    assert_eq!(payload(r), vec![0x81, 0x01]);
    // The chain is shorter than it was.
    c.cursor_slot = 60;
    let r = handle_local_chainsync(&[0x81, 0x00], &tip(), Some(&chain), &mut c);
    assert_eq!(payload(r), joined(&[&[0x83, 0x03], &point(50, 5), &tip_bytes()]));
    assert_eq!(c.cursor_slot, 50);
    // MsgDone
    assert!(handle_local_chainsync(&[0x81, 0x07], &tip(), Some(&chain), &mut c).unwrap().is_none());
    assert!(!c.has_intersection);
    let e = handle_local_chainsync(&[0x80], &tip(), Some(&chain), &mut c).unwrap_err();
    assert_eq!(protocol_error(e), "invalid chainsync message");
    let e = handle_local_chainsync(&[0x81, 0x40], &tip(), Some(&chain), &mut c).unwrap_err();
    assert!(protocol_error(e).starts_with("bad chainsync msg tag: "));
}

// Segments

fn segment(protocol_id: u16, payload: &[u8]) -> Segment {
    Segment { transmission_time: 0, protocol_id, is_responder: false, payload: payload.to_vec() }
}

fn process(state: &mut ClientState, protocol_id: u16, bytes: &[u8]) -> StateQueryStep {
    process_segment::<OneBlock, Pool, Judge>(
        &segment(protocol_id, bytes),
        &tip(),
        &Pool { outcome: 3 },
        None,
        None,
        state,
    )
    .unwrap()
}

fn replied(step: StateQueryStep) -> Vec<u8> {
    match step {
        StateQueryStep::Reply(s) => s.payload,
        other => panic!("unexpected step: {other:?}"),
    }
}

#[test]
fn segments_reach_their_protocols() {
    let mut state = ClientState::new();
    assert_eq!(replied(process(&mut state, MINI_PROTOCOL_HANDSHAKE, &PROPOSAL))[..2], [0x83, 0x01]);
    assert!(matches!(
        process(&mut state, MINI_PROTOCOL_STATE_QUERY, &[0x82, 0x03, 0x80]),
        StateQueryStep::Query
    ));
    assert_eq!(replied(process(&mut state, MINI_PROTOCOL_TX_SUBMISSION, &SUBMIT))[..2], [0x82, 0x02]);
    assert_eq!(state.rejections, 1);
    assert_eq!(replied(process(&mut state, MINI_PROTOCOL_TX_MONITOR, &[0x81, 0x01]))[..2], [0x82, 0x02]);
    assert!(state.tx_monitor.acquired);
    let ask = joined(&[&[0x82, 0x04, 0x81], &point(50, 5)]);
    assert_eq!(replied(process(&mut state, MINI_PROTOCOL_CHAINSYNC, &ask))[..2], [0x83, 0x05]);
    assert_eq!(state.chainsync.cursor_slot, 50);
    assert!(matches!(process(&mut state, 99, &[0x81, 0x00]), StateQueryStep::Silent));
}

#[test]
fn a_segment_may_arrive_in_pieces() {
    let mut c = ClientConnection::new();
    let pool = Pool { outcome: 0 };
    let mut step = |c: &mut ClientConnection, data: Option<&[u8]>| {
        let none: Option<&Judge> = None;
        let chain: Option<&OneBlock> = None;
        match data {
            Some(d) => c.received(d, &tip(), &pool, none, chain).unwrap(),
            None => c.go_on(&tip(), &pool, none, chain).unwrap(),
        }
    };
    let query = segment(MINI_PROTOCOL_STATE_QUERY, &[0x82, 0x03, 0x80]).encode();
    assert!(matches!(step(&mut c, Some(&query[..6])), ClientStep::Wait));
    assert!(matches!(step(&mut c, Some(&query[6..])), ClientStep::Query(p) if p == [0x82, 0x03, 0x80]));
    assert!(matches!(step(&mut c, None), ClientStep::Wait));
    let mut two = segment(MINI_PROTOCOL_TX_MONITOR, &[0x81, 0x01]).encode();
    two.extend_from_slice(&segment(MINI_PROTOCOL_TX_MONITOR, &[0x81, 0x03]).encode());
    assert!(matches!(step(&mut c, Some(&two)), ClientStep::Reply(_)));
    assert!(c.state.tx_monitor.acquired);
    assert!(matches!(step(&mut c, None), ClientStep::Silent));
    assert!(!c.state.tx_monitor.acquired);
    assert!(matches!(step(&mut c, None), ClientStep::Wait));
    assert!(matches!(step(&mut c, Some(&[])), ClientStep::End));
}

// The client side

#[test]
fn client_channels_are_those_of_an_initiator() {
    let mut mux = Mux::new(true, 12_288, 131_072);
    let channels = ClientChannels::open(&mut mux);
    assert_eq!(channels.handshake.protocol_id, 0);
    assert_eq!(channels.chain_sync.ingress_limit, 4_194_304);
    let client = N2CClient::connected(
        17,
        channels.state_query,
        channels.tx_submission,
        channels.tx_monitor,
        channels.chain_sync,
    );
    assert_eq!(client.version(), 17);
    assert_eq!(client.state_query_channel.protocol_id, 7);
    assert_eq!(client.state_query_channel.ingress_limit, 1_048_576);
    assert_eq!(client.tx_submission_channel.protocol_id, 6);
    assert_eq!(client.tx_monitor_channel.protocol_id, 9);
    assert_eq!(client.chain_sync_channel.direction, Direction::InitiatorDir);
}
