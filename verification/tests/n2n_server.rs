use std::sync::Mutex;
use torsten_network::address::IpAddr;
use torsten_network::mempool::{AddTxOutcome, MempoolProvider};
use torsten_network::n2n_server::blockfetch::handle_n2n_blockfetch;
use torsten_network::n2n_server::chainsync::{build_chainsync_roll_forward, extract_header_from_block};
use torsten_network::n2n_server::handshake::handle_n2n_handshake;
use torsten_network::n2n_server::keepalive::handle_keepalive;
use torsten_network::n2n_server::rate_limit::{ConnectionRateLimiter, CLEANUP_EVERY_N_INSERTIONS};
use torsten_network::n2n_server::txsubmission::handle_n2n_txsubmission;
use torsten_network::n2n_server::{BlockProvider, PeerSharingMode, PeerState, TipInfo, MINI_PROTOCOL_HANDSHAKE, MINI_PROTOCOL_KEEPALIVE, MINI_PROTOCOL_TXSUBMISSION};

/// A mempool that holds what was put into it, in order.
struct TestMempool {
    txs: Mutex<Vec<([u8; 32], Vec<u8>, usize)>>,
    max: usize,
}

impl TestMempool {
    fn new(max: usize) -> TestMempool {
        TestMempool { txs: Mutex::new(Vec::new()), max }
    }

    fn insert(&self, hash: [u8; 32], tx: Vec<u8>, size: usize) {
        self.txs.lock().unwrap().push((hash, tx, size));
    }
}

/// A stand-in for a hash: the bytes of the transaction, as far as they fit.
fn digest(tx: &[u8]) -> [u8; 32] {
    let mut hash = [0u8; 32];
    for (i, b) in tx.iter().enumerate() {
        hash[i % 32] = hash[i % 32].wrapping_mul(31).wrapping_add(*b);
    }
    hash
}

impl MempoolProvider for TestMempool {
    fn add_tx(&self, _era_id: u16, tx_bytes: &[u8]) -> AddTxOutcome {
        self.add_tx_with_fee(&digest(tx_bytes), _era_id, tx_bytes)
    }
    fn add_tx_with_fee(&self, hash: &[u8; 32], _era_id: u16, tx_bytes: &[u8]) -> AddTxOutcome {
        let mut dec = minicbor::Decoder::new(tx_bytes);
        if !matches!(dec.array(), Ok(Some(4))) {
            return AddTxOutcome::Undecodable("not a transaction".to_string());
        }
        if self.contains(hash) {
            return AddTxOutcome::AlreadyExists;
        }
        if self.len() >= self.max {
            return AddTxOutcome::Refused("Mempool is full".to_string());
        }
        self.insert(*hash, tx_bytes.to_vec(), tx_bytes.len());
        AddTxOutcome::Added
    }
    fn contains(&self, hash: &[u8; 32]) -> bool {
        self.txs.lock().unwrap().iter().any(|t| t.0 == *hash)
    }
    fn tx_hashes_ordered(&self) -> Vec<[u8; 32]> {
        self.txs.lock().unwrap().iter().map(|t| t.0).collect()
    }
    fn first_tx_hash(&self) -> Option<[u8; 32]> {
        self.txs.lock().unwrap().first().map(|t| t.0)
    }
    fn get_tx_cbor(&self, hash: &[u8; 32]) -> Option<Vec<u8>> {
        self.txs.lock().unwrap().iter().find(|t| t.0 == *hash).map(|t| t.1.clone())
    }
    fn get_tx_raw(&self, hash: &[u8; 32]) -> Option<Vec<u8>> {
        self.get_tx_cbor(hash)
    }
    fn get_tx_size(&self, hash: &[u8; 32]) -> Option<usize> {
        self.txs.lock().unwrap().iter().find(|t| t.0 == *hash).map(|t| t.2)
    }
    fn len(&self) -> usize {
        self.txs.lock().unwrap().len()
    }
    fn total_bytes(&self) -> usize {
        self.txs.lock().unwrap().iter().map(|t| t.2).sum()
    }
    fn capacity(&self) -> usize {
        self.max
    }
}

#[test]
fn test_handle_n2n_handshake_accept() {
    // Build a MsgProposeVersions: [0, {14: [...], 15: [...], 16: [...]}]
    let mut buf = Vec::new();
    let mut enc = minicbor::Encoder::new(&mut buf);
    enc.array(2).unwrap();
    enc.u32(0).unwrap(); // MsgProposeVersions
    enc.map(3).unwrap();
    // Version 14
    enc.u32(14).unwrap();
    enc.array(4).unwrap();
    enc.u64(2).unwrap(); // preview magic
    enc.bool(false).unwrap();
    enc.u32(0).unwrap();
    enc.bool(false).unwrap();
    // Version 15
    enc.u32(15).unwrap();
    enc.array(4).unwrap();
    enc.u64(2).unwrap();
    enc.bool(false).unwrap();
    enc.u32(0).unwrap();
    enc.bool(false).unwrap();
    // Version 16
    enc.u32(16).unwrap();
    enc.array(4).unwrap();
    enc.u64(2).unwrap();
    enc.bool(false).unwrap();
    enc.u32(0).unwrap();
    enc.bool(false).unwrap();

    let result =
        handle_n2n_handshake(&buf, 2, true, PeerSharingMode::PeerSharingEnabled).unwrap();
    assert!(result.is_some());
    let seg = result.unwrap();
    assert_eq!(seg.protocol_id, MINI_PROTOCOL_HANDSHAKE);
    assert!(seg.is_responder);

    // Verify response contains MsgAcceptVersion (tag 1) with version 16
    let mut dec = minicbor::Decoder::new(&seg.payload);
    dec.array().unwrap();
    let tag = dec.u32().unwrap();
    assert_eq!(tag, 1); // MsgAcceptVersion
    let version = dec.u32().unwrap();
    assert_eq!(version, 16); // highest supported
}

#[test]
fn test_handle_n2n_handshake_accept_v16_preferred() {
    // Client proposes V14+V15+V16, server should select V16 as highest
    let mut buf = Vec::new();
    let mut enc = minicbor::Encoder::new(&mut buf);
    enc.array(2).unwrap();
    enc.u32(0).unwrap(); // MsgProposeVersions
    enc.map(3).unwrap();
    // Version 14
    enc.u32(14).unwrap();
    enc.array(4).unwrap();
    enc.u64(2).unwrap();
    enc.bool(false).unwrap();
    enc.u32(0).unwrap();
    enc.bool(false).unwrap();
    // Version 15
    enc.u32(15).unwrap();
    enc.array(4).unwrap();
    enc.u64(2).unwrap();
    enc.bool(false).unwrap();
    enc.u32(0).unwrap();
    enc.bool(false).unwrap();
    // Version 16
    enc.u32(16).unwrap();
    enc.array(4).unwrap();
    enc.u64(2).unwrap();
    enc.bool(false).unwrap();
    enc.u32(0).unwrap();
    enc.bool(false).unwrap();

    let result =
        handle_n2n_handshake(&buf, 2, true, PeerSharingMode::PeerSharingEnabled).unwrap();
    assert!(result.is_some());
    let seg = result.unwrap();

    let mut dec = minicbor::Decoder::new(&seg.payload);
    dec.array().unwrap();
    let tag = dec.u32().unwrap();
    assert_eq!(tag, 1); // MsgAcceptVersion
    let version = dec.u32().unwrap();
    assert_eq!(version, 16); // V16 is highest
}

#[test]
fn test_handle_n2n_handshake_refuse_incompatible() {
    // Propose only version 7 (too old)
    let mut buf = Vec::new();
    let mut enc = minicbor::Encoder::new(&mut buf);
    enc.array(2).unwrap();
    enc.u32(0).unwrap();
    enc.map(1).unwrap();
    enc.u32(7).unwrap();
    enc.array(1).unwrap();
    enc.u64(764824073).unwrap();

    let result =
        handle_n2n_handshake(&buf, 764824073, true, PeerSharingMode::NoPeerSharing).unwrap();
    assert!(result.is_some());
    let seg = result.unwrap();

    let mut dec = minicbor::Decoder::new(&seg.payload);
    dec.array().unwrap();
    let tag = dec.u32().unwrap();
    assert_eq!(tag, 2); // MsgRefuse
}

#[test]
fn test_handle_n2n_handshake_refuse_magic_mismatch() {
    // Propose V14 with wrong network magic
    let mut buf = Vec::new();
    let mut enc = minicbor::Encoder::new(&mut buf);
    enc.array(2).unwrap();
    enc.u32(0).unwrap(); // MsgProposeVersions
    enc.map(1).unwrap();
    enc.u32(14).unwrap();
    enc.array(4).unwrap();
    enc.u64(999).unwrap(); // wrong magic
    enc.bool(false).unwrap();
    enc.u32(0).unwrap();
    enc.bool(false).unwrap();

    let result = handle_n2n_handshake(&buf, 2, true, PeerSharingMode::NoPeerSharing).unwrap();
    assert!(result.is_some());
    let seg = result.unwrap();

    let mut dec = minicbor::Decoder::new(&seg.payload);
    dec.array().unwrap();
    let tag = dec.u32().unwrap();
    assert_eq!(tag, 2); // MsgRefuse
                        // Should be [2, version, reason_text] format
    dec.array().unwrap();
    let reason_tag = dec.u32().unwrap();
    assert_eq!(reason_tag, 2); // Refused (not VersionMismatch)
}

#[test]
fn test_handle_keepalive_response() {
    // MsgKeepAlive: [0, cookie]
    let mut buf = Vec::new();
    let mut enc = minicbor::Encoder::new(&mut buf);
    enc.array(2).unwrap();
    enc.u32(0).unwrap();
    enc.u16(42).unwrap();

    let result = handle_keepalive(&buf).unwrap();
    assert!(result.is_some());
    let seg = result.unwrap();
    assert_eq!(seg.protocol_id, MINI_PROTOCOL_KEEPALIVE);

    let mut dec = minicbor::Decoder::new(&seg.payload);
    dec.array().unwrap();
    let tag = dec.u32().unwrap();
    assert_eq!(tag, 1); // MsgKeepAliveResponse
    let cookie = dec.u16().unwrap();
    assert_eq!(cookie, 42);
}

#[test]
fn test_handle_keepalive_done() {
    let mut buf = Vec::new();
    let mut enc = minicbor::Encoder::new(&mut buf);
    enc.array(1).unwrap();
    enc.u32(2).unwrap(); // MsgDone

    let result = handle_keepalive(&buf).unwrap();
    assert!(result.is_none());
}

struct MockBlockProvider;

impl BlockProvider for MockBlockProvider {
    fn get_block(&self, _hash: &[u8; 32]) -> Option<Vec<u8>> {
        Some(vec![0x82, 0x01, 0x02]) // dummy CBOR
    }
    fn has_block(&self, _hash: &[u8; 32]) -> bool {
        true
    }
    fn get_tip(&self) -> TipInfo {
        TipInfo {
            slot: 100,
            hash: [0xAA; 32],
            block_number: 50,
        }
    }
    fn get_next_block_after_slot(&self, after_slot: u64) -> Option<(u64, [u8; 32], Vec<u8>)> {
        if after_slot < 100 {
            let next_slot = after_slot + 1;
            let mut hash = [0u8; 32];
            hash[0] = (next_slot & 0xFF) as u8;
            hash[1] = ((next_slot >> 8) & 0xFF) as u8;
            Some((next_slot, hash, vec![0x82, 0x01, 0x02]))
        } else {
            None
        }
    }
}

#[test]
fn test_handle_blockfetch_request_range() {
    let provider = MockBlockProvider;

    // MsgRequestRange: [0, [slot, hash], [slot, hash]]
    let mut buf = Vec::new();
    let mut enc = minicbor::Encoder::new(&mut buf);
    enc.array(3).unwrap();
    enc.u32(0).unwrap(); // MsgRequestRange
                         // from point
    enc.array(2).unwrap();
    enc.u64(10).unwrap();
    enc.bytes(&[0xBB; 32]).unwrap();
    // to point
    enc.array(2).unwrap();
    enc.u64(20).unwrap();
    enc.bytes(&[0xCC; 32]).unwrap();

    let segments = handle_n2n_blockfetch(&buf, &provider, 2000).unwrap();
    // Should have: MsgStartBatch + from_block + 10 range blocks (slots 11-20) + MsgBatchDone = 13
    assert_eq!(segments.len(), 13);

    // First segment: MsgStartBatch [2]
    let mut dec = minicbor::Decoder::new(&segments[0].payload);
    dec.array().unwrap();
    assert_eq!(dec.u32().unwrap(), 2);

    // Middle segments are MsgBlock [4, block_bytes]
    let mut dec = minicbor::Decoder::new(&segments[1].payload);
    dec.array().unwrap();
    assert_eq!(dec.u32().unwrap(), 4);

    // Last segment: MsgBatchDone [5]
    let mut dec = minicbor::Decoder::new(&segments[segments.len() - 1].payload);
    dec.array().unwrap();
    assert_eq!(dec.u32().unwrap(), 5);
}

#[test]
fn test_extract_header_from_block() {
    // Build a mock block CBOR: [era_tag=6, [header, tx_bodies, witnesses, aux, invalid]]
    let mut buf = Vec::new();
    let mut enc = minicbor::Encoder::new(&mut buf);
    enc.array(2).unwrap();
    enc.u32(6).unwrap(); // era tag (Babbage)

    // Inner array with 5 elements
    enc.array(5).unwrap();

    // Header: [header_body, kes_sig]
    enc.array(2).unwrap();
    enc.array(10).unwrap(); // header_body (10 fields)
    for i in 0..10u64 {
        enc.u64(i).unwrap();
    }
    enc.bytes(&[0xAA; 32]).unwrap(); // kes_sig placeholder

    // Remaining 4 elements (tx_bodies, witnesses, aux, invalid)
    enc.map(0).unwrap();
    enc.array(0).unwrap();
    enc.null().unwrap();
    enc.array(0).unwrap();

    let result = extract_header_from_block(&buf);
    assert!(result.is_some());
    let (era_tag, header_bytes) = result.unwrap();
    assert_eq!(era_tag, 6);

    // Verify header_bytes decode to [header_body, kes_sig]
    let mut dec = minicbor::Decoder::new(&header_bytes);
    let arr_len = dec.array().unwrap().unwrap();
    assert_eq!(arr_len, 2);
}

#[test]
fn test_build_chainsync_roll_forward() {
    // Build a mock Conway block (disk era_tag = 7)
    let mut buf = Vec::new();
    let mut enc = minicbor::Encoder::new(&mut buf);
    enc.array(2).unwrap();
    enc.u32(7).unwrap(); // Conway disk era_tag
    enc.array(5).unwrap();
    enc.array(2).unwrap(); // header
    enc.u64(42).unwrap(); // header_body placeholder
    enc.bytes(&[0xBB; 32]).unwrap(); // kes_sig
    enc.map(0).unwrap();
    enc.array(0).unwrap();
    enc.null().unwrap();
    enc.array(0).unwrap();

    let tip_hash = [0xCC; 32];
    let payload = build_chainsync_roll_forward(&buf, 100, &tip_hash, 50);

    // Decode: [2, [hfc_era_index, tag(24) header_cbor], tip]
    let mut dec = minicbor::Decoder::new(&payload);
    let arr = dec.array().unwrap().unwrap();
    assert_eq!(arr, 3);
    assert_eq!(dec.u32().unwrap(), 2); // MsgRollForward tag

    // Wrapped header: [hfc_era_index, tag(24) header_bytes]
    // Conway disk era_tag=7 → HFC era index=6
    let inner_arr = dec.array().unwrap().unwrap();
    assert_eq!(inner_arr, 2);
    assert_eq!(dec.u32().unwrap(), 6); // HFC Conway era index
    assert_eq!(dec.tag().unwrap(), minicbor::data::Tag::new(24));
    let header_bytes = dec.bytes().unwrap();
    assert!(!header_bytes.is_empty());
}

#[test]
fn test_handle_blockfetch_client_done() {
    let provider = MockBlockProvider;

    let mut buf = Vec::new();
    let mut enc = minicbor::Encoder::new(&mut buf);
    enc.array(1).unwrap();
    enc.u32(1).unwrap(); // MsgClientDone

    let segments = handle_n2n_blockfetch(&buf, &provider, 2000).unwrap();
    assert!(segments.is_empty());
}

#[test]
fn test_handle_txsubmission_init() {
    let mut peer_state = PeerState::new();

    // MsgInit: [6]
    let mut buf = Vec::new();
    let mut enc = minicbor::Encoder::new(&mut buf);
    enc.array(1).unwrap();
    enc.u32(6).unwrap();

    let no_mempool: Option<&TestMempool> = None;
    let result =
        handle_n2n_txsubmission(&buf, &mut peer_state, no_mempool).unwrap();
    // After MsgInit, Server has agency and responds with MsgRequestTxIds
    // (not MsgInit echo — Haskell Client doesn't expect MsgInit back).
    assert!(result.is_some());
    let seg = result.unwrap();
    assert_eq!(seg.protocol_id, MINI_PROTOCOL_TXSUBMISSION);

    let mut dec = minicbor::Decoder::new(&seg.payload);
    let arr_len = dec.array().unwrap().unwrap();
    assert_eq!(arr_len, 4); // MsgRequestTxIds = [0, blocking, ack, req]
    assert_eq!(dec.u32().unwrap(), 0); // tag 0 = MsgRequestTxIds
    assert!(dec.bool().unwrap()); // blocking = true
    assert_eq!(dec.u16().unwrap(), 0); // ack_count = 0
    assert_eq!(dec.u16().unwrap(), 3); // req_count = 3

    assert!(peer_state.tx_submission_init_sent);
}

#[test]
fn test_handle_txsubmission_request_tx_ids() {
    let mut peer_state = PeerState::new();
    peer_state.tx_submission_init_sent = true;

    // MsgRequestTxIds: [0, false, 0, 1]
    let mut buf = Vec::new();
    let mut enc = minicbor::Encoder::new(&mut buf);
    enc.array(4).unwrap();
    enc.u32(0).unwrap();
    enc.bool(false).unwrap();
    enc.u32(0).unwrap();
    enc.u32(1).unwrap();

    let no_mempool: Option<&TestMempool> = None;
    let result =
        handle_n2n_txsubmission(&buf, &mut peer_state, no_mempool).unwrap();
    assert!(result.is_some());
    let seg = result.unwrap();

    let mut dec = minicbor::Decoder::new(&seg.payload);
    dec.array().unwrap();
    assert_eq!(dec.u32().unwrap(), 1); // MsgReplyTxIds
}

#[test]
fn test_txsubmission_flow_control() {
    let mut peer_state = PeerState::new();
    peer_state.tx_submission_init_sent = true;

    // Simulate sending tx IDs: peer_state inflight tracking
    let hash1 = [1u8; 32];
    let hash2 = [2u8; 32];
    peer_state.tx_inflight.push(hash1);
    peer_state.tx_inflight.push(hash2);
    assert_eq!(peer_state.tx_inflight.len(), 2);

    // MsgRequestTxIds with ack_count=1: acknowledge first tx
    let mut buf = Vec::new();
    let mut enc = minicbor::Encoder::new(&mut buf);
    enc.array(4).unwrap();
    enc.u32(0).unwrap();
    enc.bool(false).unwrap();
    enc.u32(1).unwrap(); // ack 1
    enc.u32(1).unwrap(); // request 1

    let no_mempool: Option<&TestMempool> = None;
    let _result =
        handle_n2n_txsubmission(&buf, &mut peer_state, no_mempool).unwrap();

    // Should have removed one from inflight
    assert_eq!(peer_state.tx_inflight.len(), 1);
    assert_eq!(peer_state.tx_inflight[0], hash2);

    // Ack remaining
    let mut buf2 = Vec::new();
    let mut enc2 = minicbor::Encoder::new(&mut buf2);
    enc2.array(4).unwrap();
    enc2.u32(0).unwrap();
    enc2.bool(false).unwrap();
    enc2.u32(1).unwrap(); // ack 1
    enc2.u32(1).unwrap();

    let _result2 =
        handle_n2n_txsubmission(&buf2, &mut peer_state, no_mempool).unwrap();
    assert!(peer_state.tx_inflight.is_empty());
}

#[test]
fn test_txsubmission_inflight_cap_returns_empty_reply() {
    // Changed behavior: when inflight cap is reached, we return an empty MsgReplyTxIds
    // instead of closing the connection with an error.  This allows the peer to ack
    // outstanding IDs before we send more.
    let mut peer_state = PeerState::new();
    peer_state.tx_submission_init_sent = true;

    // Fill inflight to the cap (1000)
    for i in 0..1000u32 {
        let mut hash = [0u8; 32];
        hash[..4].copy_from_slice(&i.to_be_bytes());
        peer_state.tx_inflight.push(hash);
    }
    assert_eq!(peer_state.tx_inflight.len(), 1000);

    // MsgRequestTxIds with ack_count=0: cap is reached, should get empty reply (not error)
    let mut buf = Vec::new();
    let mut enc = minicbor::Encoder::new(&mut buf);
    enc.array(4).unwrap();
    enc.u32(0).unwrap();
    enc.bool(false).unwrap();
    enc.u16(0).unwrap(); // no ack
    enc.u16(10).unwrap(); // request 10

    let no_mempool: Option<&TestMempool> = None;
    let result = handle_n2n_txsubmission(&buf, &mut peer_state, no_mempool);
    assert!(
        result.is_ok(),
        "inflight cap should return empty reply, not error"
    );

    let seg = result.unwrap().expect("should return a segment");
    let mut dec = minicbor::Decoder::new(&seg.payload);
    dec.array().unwrap();
    assert_eq!(dec.u32().unwrap(), 1, "should be MsgReplyTxIds (1)");
    let items = dec.array().unwrap().unwrap_or(0);
    assert_eq!(items, 0, "MsgReplyTxIds must be empty when cap is reached");
}

#[test]
fn test_txsubmission_inflight_cap_allows_after_ack() {
    let mut peer_state = PeerState::new();
    peer_state.tx_submission_init_sent = true;

    // Fill inflight to cap
    for i in 0..1000u32 {
        let mut hash = [0u8; 32];
        hash[..4].copy_from_slice(&i.to_be_bytes());
        peer_state.tx_inflight.push(hash);
    }

    // MsgRequestTxIds with ack_count=500 should succeed (drains 500, then 500 < 1000)
    let mut buf = Vec::new();
    let mut enc = minicbor::Encoder::new(&mut buf);
    enc.array(4).unwrap();
    enc.u32(0).unwrap();
    enc.bool(false).unwrap();
    enc.u16(500).unwrap(); // ack 500
    enc.u16(10).unwrap();

    let no_mempool: Option<&TestMempool> = None;
    let result = handle_n2n_txsubmission(&buf, &mut peer_state, no_mempool);
    assert!(result.is_ok(), "Should allow after acknowledgment");
    assert_eq!(peer_state.tx_inflight.len(), 500);
}

#[test]
fn test_txsubmission_msg_done_tag_is_4() {
    // Regression test: MsgDone must be tag 4 per Ouroboros CDDL spec.
    // Previously had a bug where the server accepted tag 5.
    let mut peer_state = PeerState::new();
    peer_state.tx_submission_init_sent = true;

    // MsgDone: [4]
    let mut buf = Vec::new();
    let mut enc = minicbor::Encoder::new(&mut buf);
    enc.array(1).unwrap();
    enc.u32(4).unwrap();

    let no_mempool: Option<&TestMempool> = None;
    let result = handle_n2n_txsubmission(&buf, &mut peer_state, no_mempool);
    assert!(result.is_ok());
    // MsgDone returns None (close protocol)
    assert!(
        result.unwrap().is_none(),
        "MsgDone [4] must close the protocol"
    );
}

#[test]
fn test_txsubmission_pure_ack_req_count_zero() {
    // When req_count = 0, server must NOT send any tx IDs — it's a pure ack message.
    // This tests the fix for the effective_count.max(1) bug.
    let mut peer_state = PeerState::new();
    peer_state.tx_submission_init_sent = true;

    // MsgRequestTxIds: [0, false, 2, 0]  — ack=2, req=0
    let mut buf = Vec::new();
    let mut enc = minicbor::Encoder::new(&mut buf);
    enc.array(4).unwrap();
    enc.u32(0).unwrap();
    enc.bool(false).unwrap();
    enc.u16(2u16).unwrap(); // ack 2
    enc.u16(0u16).unwrap(); // request 0

    let no_mempool: Option<&TestMempool> = None;
    let result =
        handle_n2n_txsubmission(&buf, &mut peer_state, no_mempool).unwrap();
    let seg = result.expect("should return a segment");

    let mut dec = minicbor::Decoder::new(&seg.payload);
    dec.array().unwrap();
    assert_eq!(dec.u32().unwrap(), 1, "must be MsgReplyTxIds (1)");
    let items = dec.array().unwrap().unwrap_or(0);
    assert_eq!(
        items, 0,
        "req_count=0 must produce empty MsgReplyTxIds, not force-send a tx"
    );
}

#[test]
fn test_rate_limiter_allows_within_limit() {
    let now: u64 = 1_000;
    let mut limiter = ConnectionRateLimiter::new(3, 60_000);
    let ip = IpAddr::V4([127, 0, 0, 1]);

    assert!(limiter.check_and_record(ip, now));
    assert!(limiter.check_and_record(ip, now));
    assert!(limiter.check_and_record(ip, now));
    // 4th should be rejected
    assert!(!limiter.check_and_record(ip, now));
}

#[test]
fn test_rate_limiter_different_ips() {
    let now: u64 = 1_000;
    let mut limiter = ConnectionRateLimiter::new(1, 60_000);
    let ip1 = IpAddr::V4([127, 0, 0, 1]);
    let ip2 = IpAddr::V4([127, 0, 0, 2]);

    assert!(limiter.check_and_record(ip1, now));
    assert!(!limiter.check_and_record(ip1, now)); // second from same IP rejected
    assert!(limiter.check_and_record(ip2, now)); // different IP allowed
}

#[test]
fn test_rate_limiter_cleanup() {
    let mut now: u64 = 1_000;
    let mut limiter = ConnectionRateLimiter::new(1, 1);
    let ip = IpAddr::V4([127, 0, 0, 1]);

    assert!(limiter.check_and_record(ip, now));
    assert!(!limiter.check_and_record(ip, now));

    // Wait for window to expire
    now += 5;

    limiter.cleanup(now);
    // Should allow again after window expires
    assert!(limiter.check_and_record(ip, now));
}

#[test]
fn test_rate_limiter_cap_prevents_unbounded_growth() {
    let now: u64 = 1_000;
    // Use a small cap for testing
    let mut limiter = ConnectionRateLimiter::new(1, 60_000);
    limiter.max_tracked_ips = 10;

    // Fill up to the cap with distinct IPs
    for i in 0..10u8 {
        let ip = IpAddr::V4([10, 0, 0, i]);
        assert!(
            limiter.check_and_record(ip, now),
            "IP 10.0.0.{i} should be allowed"
        );
    }
    assert_eq!(limiter.tracked_ip_count(), 10);

    // 11th distinct IP should be rejected (cap reached)
    let new_ip = IpAddr::V4([10, 0, 0, 10]);
    assert!(
        !limiter.check_and_record(new_ip, now),
        "New IP should be rejected when cap is reached"
    );
    // Map should not have grown
    assert_eq!(limiter.tracked_ip_count(), 10);
}

#[test]
fn test_rate_limiter_cap_allows_existing_ips() {
    let now: u64 = 1_000;
    // Even at cap, existing IPs can still connect (up to per-IP limit)
    let mut limiter = ConnectionRateLimiter::new(3, 60_000);
    limiter.max_tracked_ips = 5;

    for i in 0..5u8 {
        let ip = IpAddr::V4([10, 0, 0, i]);
        assert!(limiter.check_and_record(ip, now));
    }
    assert_eq!(limiter.tracked_ip_count(), 5);

    // Existing IP should still be allowed (under per-IP limit of 3)
    let existing_ip = IpAddr::V4([10, 0, 0, 0]);
    assert!(
        limiter.check_and_record(existing_ip, now),
        "Existing IP should still be allowed at cap"
    );
    // Still 5 tracked IPs
    assert_eq!(limiter.tracked_ip_count(), 5);
}

#[test]
fn test_rate_limiter_cleanup_frees_cap_space() {
    let mut now: u64 = 1_000;
    // After cleanup of expired entries, new IPs should be allowed again
    let mut limiter = ConnectionRateLimiter::new(1, 1);
    limiter.max_tracked_ips = 5;

    // Fill up the cap
    for i in 0..5u8 {
        let ip = IpAddr::V4([10, 0, 0, i]);
        assert!(limiter.check_and_record(ip, now));
    }
    assert_eq!(limiter.tracked_ip_count(), 5);

    // New IP rejected at cap
    let new_ip = IpAddr::V4([10, 0, 0, 5]);
    assert!(!limiter.check_and_record(new_ip, now));

    // Wait for all entries to expire
    now += 5;

    // Run cleanup to evict expired entries
    limiter.cleanup(now);
    assert_eq!(limiter.tracked_ip_count(), 0);

    // Now new IPs should be allowed again
    assert!(
        limiter.check_and_record(new_ip, now),
        "New IP should be allowed after cleanup frees space"
    );
}

#[test]
fn test_rate_limiter_inline_cleanup_evicts_stale() {
    let mut now: u64 = 1_000;
    // Test that inline cleanup (triggered every N insertions) removes expired entries
    let mut limiter = ConnectionRateLimiter::new(1, 1);
    limiter.max_tracked_ips = 100_000; // Don't hit cap

    // Reset the counter so next call is at count=0 (no cleanup on first)
    limiter.insertion_count = 0;

    // Add some IPs
    for i in 0..10u8 {
        let ip = IpAddr::V4([10, 0, 0, i]);
        limiter.check_and_record(ip, now);
    }
    assert_eq!(limiter.tracked_ip_count(), 10);

    // Wait for entries to expire
    now += 5;

    // Set counter so the next fetch_add(1) returns a value that triggers cleanup.
    // fetch_add returns the old value, so store N so the returned count is N,
    // and N % N == 0 && N > 0 triggers the cleanup branch.
    limiter.insertion_count = CLEANUP_EVERY_N_INSERTIONS;

    // This call will trigger inline cleanup (counter becomes CLEANUP_EVERY_N_INSERTIONS)
    // which should evict all expired entries. The new IP gets added.
    let trigger_ip = IpAddr::V4([10, 0, 0, 100]);
    assert!(limiter.check_and_record(trigger_ip, now));

    // After inline cleanup, only the newly added IP should remain
    assert_eq!(limiter.tracked_ip_count(), 1);
}
