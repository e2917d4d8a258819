use std::sync::Mutex;
use torsten_network::mempool::{AddTxOutcome, MempoolProvider};
use torsten_network::n2c::handshake::parse_handshake_magic;
use torsten_network::n2c_server::query::encode_query_result;
use torsten_network::n2c_server::snapshot::{CommitteeMemberSnapshot, CommitteeSnapshot, DRepSnapshot, GovStateSnapshot, ProposalSnapshot, ProtocolParamsSnapshot, QueryResult, StakePoolSnapshot};
use torsten_network::n2c_server::{handle_local_chainsync, handle_tx_monitor, handle_tx_submission, parse_highest_version, TxValidator, MINI_PROTOCOL_CHAINSYNC, MINI_PROTOCOL_TX_MONITOR, MINI_PROTOCOL_TX_SUBMISSION};
use torsten_network::n2n_server::TipInfo;

/// A mempool that holds what was put into it, in order.
struct TestMempool {
    txs: Mutex<Vec<([u8; 32], Vec<u8>, usize)>>,
    max: usize,
}

impl TestMempool {
    fn new(max: usize) -> TestMempool {
        TestMempool { txs: Mutex::new(Vec::new()), max }
    }

    fn insert(&self, hash: [u8; 32], tx: Vec<u8>, size: usize) {
        self.txs.lock().unwrap().push((hash, tx, size));
    }
}

/// A stand-in for a hash: the bytes of the transaction, as far as they fit.
fn digest(tx: &[u8]) -> [u8; 32] {
    let mut hash = [0u8; 32];
    for (i, b) in tx.iter().enumerate() {
        hash[i % 32] = hash[i % 32].wrapping_mul(31).wrapping_add(*b);
    }
    hash
}

impl MempoolProvider for TestMempool {
    fn add_tx(&self, _era_id: u16, tx_bytes: &[u8]) -> AddTxOutcome {
        self.add_tx_with_fee(&digest(tx_bytes), _era_id, tx_bytes)
    }
    fn add_tx_with_fee(&self, hash: &[u8; 32], _era_id: u16, tx_bytes: &[u8]) -> AddTxOutcome {
        let mut dec = minicbor::Decoder::new(tx_bytes);
        if !matches!(dec.array(), Ok(Some(4))) {
            return AddTxOutcome::Undecodable("not a transaction".to_string());
        }
        if self.contains(hash) {
            return AddTxOutcome::AlreadyExists;
        }
        if self.len() >= self.max {
            return AddTxOutcome::Refused("Mempool is full".to_string());
        }
        self.insert(*hash, tx_bytes.to_vec(), tx_bytes.len());
        AddTxOutcome::Added
    }
    fn contains(&self, hash: &[u8; 32]) -> bool {
        self.txs.lock().unwrap().iter().any(|t| t.0 == *hash)
    }
    fn tx_hashes_ordered(&self) -> Vec<[u8; 32]> {
        self.txs.lock().unwrap().iter().map(|t| t.0).collect()
    }
    fn first_tx_hash(&self) -> Option<[u8; 32]> {
        self.txs.lock().unwrap().first().map(|t| t.0)
    }
    fn get_tx_cbor(&self, hash: &[u8; 32]) -> Option<Vec<u8>> {
        self.txs.lock().unwrap().iter().find(|t| t.0 == *hash).map(|t| t.1.clone())
    }
    fn get_tx_raw(&self, hash: &[u8; 32]) -> Option<Vec<u8>> {
        self.get_tx_cbor(hash)
    }
    fn get_tx_size(&self, hash: &[u8; 32]) -> Option<usize> {
        self.txs.lock().unwrap().iter().find(|t| t.0 == *hash).map(|t| t.2)
    }
    fn len(&self) -> usize {
        self.txs.lock().unwrap().len()
    }
    fn total_bytes(&self) -> usize {
        self.txs.lock().unwrap().iter().map(|t| t.2).sum()
    }
    fn capacity(&self) -> usize {
        self.max
    }
}

fn genesis_tip() -> TipInfo {
    TipInfo { slot: 0, hash: [0; 32], block_number: 0 }
}

/// Complains of every transaction.
struct NoValidator;

impl TxValidator for NoValidator {
    fn validate_tx(&self, _era_id: u16, _tx_bytes: &[u8]) -> Result<(), String> {
        Err("never".to_string())
    }
}

#[test]
fn n2c_server_test_parse_highest_version_basic() {
    // Encode a handshake proposal: [0, {1: [764824073, false], 16: [764824073, false]}]
    let mut buf = Vec::new();
    let mut enc = minicbor::Encoder::new(&mut buf);
    enc.array(2).unwrap();
    enc.u32(0).unwrap(); // MsgProposeVersions
    enc.map(2).unwrap();
    enc.u32(1).unwrap();
    enc.array(2).unwrap();
    enc.u64(764824073).unwrap();
    enc.bool(false).unwrap();
    enc.u32(16).unwrap();
    enc.array(2).unwrap();
    enc.u64(764824073).unwrap();
    enc.bool(false).unwrap();

    assert_eq!(parse_highest_version(&buf), Some(16));
}

#[test]
fn n2c_server_test_parse_handshake_magic() {
    let mut buf = Vec::new();
    let mut enc = minicbor::Encoder::new(&mut buf);
    enc.array(2).unwrap();
    enc.u32(0).unwrap();
    enc.map(1).unwrap();
    enc.u32(16).unwrap();
    enc.array(2).unwrap();
    enc.u64(1).unwrap(); // preview testnet magic
    enc.bool(false).unwrap();

    assert_eq!(parse_handshake_magic(&buf), Some(1));
}

#[test]
fn n2c_server_test_encode_query_result_epoch() {
    let result = QueryResult::EpochNo(500);
    let cbor = encode_query_result(&result);
    assert!(!cbor.is_empty());
}

#[test]
fn n2c_server_test_encode_query_result_chain_tip() {
    let result = QueryResult::ChainTip {
        slot: 12345,
        hash: vec![0u8; 32],
        block_no: 100,
    };
    let cbor = encode_query_result(&result);
    assert!(!cbor.is_empty());
}

/// Build a minimal valid Conway transaction CBOR for testing.
///
/// Conway tx is a 4-element array: [body, witness_set, is_valid, auxiliary_data]
/// Body is a map with: 0 -> inputs (array), 1 -> outputs (array), 2 -> fee (uint)
fn build_test_tx_cbor(fee: u64) -> Vec<u8> {
    let mut buf = Vec::new();
    let mut enc = minicbor::Encoder::new(&mut buf);
    // Transaction: [body, witness_set, is_valid, null]
    enc.array(4).unwrap();
    // Body: {0: [], 1: [], 2: fee}
    enc.map(3).unwrap();
    enc.u32(0).unwrap();
    enc.array(0).unwrap(); // inputs (empty)
    enc.u32(1).unwrap();
    enc.array(0).unwrap(); // outputs (empty)
    enc.u32(2).unwrap();
    enc.u64(fee).unwrap(); // fee
                           // Witness set: {}
    enc.map(0).unwrap();
    // is_valid
    enc.bool(true).unwrap();
    // auxiliary_data
    enc.null().unwrap();
    buf
}

/// Build MsgSubmitTx payload: [0, [era_id, tx_bytes]]
fn build_submit_payload(era_id: u32, tx_bytes: &[u8]) -> Vec<u8> {
    let mut payload = Vec::new();
    let mut enc = minicbor::Encoder::new(&mut payload);
    enc.array(2).unwrap();
    enc.u32(0).unwrap(); // MsgSubmitTx
    enc.array(2).unwrap();
    enc.u32(era_id).unwrap();
    enc.bytes(tx_bytes).unwrap();
    payload
}

#[test]
fn n2c_server_test_handle_tx_submission_accept() {
    let mempool = TestMempool::new(16384);
    let no_validator: Option<&NoValidator> = None;

    let tx_bytes = build_test_tx_cbor(200_000);
    let payload = build_submit_payload(6, &tx_bytes); // Conway era

    let result = handle_tx_submission(&payload, &mempool, no_validator).unwrap();
    assert!(result.is_some());

    let segment = result.unwrap();
    assert_eq!(segment.protocol_id, MINI_PROTOCOL_TX_SUBMISSION);
    assert!(segment.is_responder);

    // Verify MsgAcceptTx [1]
    let mut decoder = minicbor::Decoder::new(&segment.payload);
    let _ = decoder.array();
    let tag = decoder.u32().unwrap();
    assert_eq!(tag, 1); // MsgAcceptTx

    // Verify tx was added to mempool
    assert_eq!(mempool.len(), 1);
}

#[test]
fn n2c_server_test_handle_tx_submission_duplicate() {
    let mempool = TestMempool::new(16384);
    let no_validator: Option<&NoValidator> = None;

    let tx_bytes = build_test_tx_cbor(200_000);
    let payload = build_submit_payload(6, &tx_bytes);

    // Submit twice - both should accept
    let _ = handle_tx_submission(&payload, &mempool, no_validator).unwrap();
    let result = handle_tx_submission(&payload, &mempool, no_validator).unwrap();
    assert!(result.is_some());

    let segment = result.unwrap();
    let mut decoder = minicbor::Decoder::new(&segment.payload);
    let _ = decoder.array();
    assert_eq!(decoder.u32().unwrap(), 1); // Still accepted (AlreadyExists)
    assert_eq!(mempool.len(), 1);
}

#[test]
fn n2c_server_test_handle_tx_submission_invalid_cbor() {
    let mempool = TestMempool::new(16384);
    let no_validator: Option<&NoValidator> = None;

    let tx_bytes = vec![0xa0u8]; // not a valid transaction
    let payload = build_submit_payload(6, &tx_bytes);

    let result = handle_tx_submission(&payload, &mempool, no_validator).unwrap();
    assert!(result.is_some());

    let segment = result.unwrap();
    let mut decoder = minicbor::Decoder::new(&segment.payload);
    let _ = decoder.array();
    assert_eq!(decoder.u32().unwrap(), 2); // MsgRejectTx
    assert_eq!(mempool.len(), 0);
}

#[test]
fn n2c_server_test_handle_tx_submission_full_mempool() {
    let mempool = TestMempool::new(1);
    let no_validator: Option<&NoValidator> = None;

    // Fill the mempool
    let tx_bytes_1 = build_test_tx_cbor(100_000);
    let payload1 = build_submit_payload(6, &tx_bytes_1);
    let _ = handle_tx_submission(&payload1, &mempool, no_validator).unwrap();

    // Submit a different tx - should be rejected (full)
    let tx_bytes_2 = build_test_tx_cbor(200_000);
    let payload2 = build_submit_payload(6, &tx_bytes_2);

    let result = handle_tx_submission(&payload2, &mempool, no_validator).unwrap();
    assert!(result.is_some());

    let segment = result.unwrap();
    let mut decoder = minicbor::Decoder::new(&segment.payload);
    let _ = decoder.array();
    assert_eq!(decoder.u32().unwrap(), 2); // MsgRejectTx
}

#[test]
fn n2c_server_test_encode_query_result_protocol_params() {
    let pp = ProtocolParamsSnapshot {
        min_fee_a: 44,
        min_fee_b: 155381,
        ..Default::default()
    };
    let result = QueryResult::ProtocolParams(Box::new(pp));
    let cbor = encode_query_result(&result);
    assert!(!cbor.is_empty());

    // Verify we can decode the CBOR map
    let mut decoder = minicbor::Decoder::new(&cbor);
    let _ = decoder.array();
    assert_eq!(decoder.u32().unwrap(), 4); // MsgResult
                                           // Result is a CBOR map with integer keys
    let map_len = decoder.map().unwrap().unwrap();
    assert!(map_len >= 24); // At least 24 entries
}

#[test]
fn n2c_server_test_encode_query_result_gov_state() {
    let result = QueryResult::GovState(GovStateSnapshot {
        proposals: vec![ProposalSnapshot {
            tx_id: vec![0xaa; 32],
            action_index: 0,
            action_type: "InfoAction".to_string(),
            proposed_epoch: 100,
            expires_epoch: 106,
            yes_votes: 5,
            no_votes: 2,
            abstain_votes: 1,
        }],
        drep_count: 10,
        committee_member_count: 3,
        treasury: 5_000_000_000_000,
    });
    let cbor = encode_query_result(&result);
    assert!(!cbor.is_empty());

    // Verify the outer structure
    let mut decoder = minicbor::Decoder::new(&cbor);
    let _ = decoder.array();
    assert_eq!(decoder.u32().unwrap(), 4); // MsgResult
}

#[test]
fn n2c_server_test_encode_query_result_drep_state() {
    let result = QueryResult::DRepState(vec![DRepSnapshot {
        credential_hash: vec![0xdd; 32],
        deposit: 500_000_000,
        anchor_url: Some("https://example.com".to_string()),
        registered_epoch: 42,
    }]);
    let cbor = encode_query_result(&result);
    assert!(!cbor.is_empty());
}

#[test]
fn n2c_server_test_encode_query_result_committee_state() {
    let result = QueryResult::CommitteeState(CommitteeSnapshot {
        members: vec![CommitteeMemberSnapshot {
            cold_credential: vec![0x01; 32],
            hot_credential: vec![0x02; 32],
        }],
        resigned: vec![vec![0x03; 32]],
    });
    let cbor = encode_query_result(&result);
    assert!(!cbor.is_empty());
}

#[test]
fn n2c_server_test_encode_query_result_stake_distribution() {
    let result = QueryResult::StakeDistribution(vec![StakePoolSnapshot {
        pool_id: vec![0xaa; 28],
        stake: 1_000_000_000,
        pledge: 500_000_000,
        cost: 340_000_000,
        margin_num: 1,
        margin_den: 100,
    }]);
    let cbor = encode_query_result(&result);

    // Verify encoding: [4, map{pool_id => [stake, pledge, cost]}]
    let mut decoder = minicbor::Decoder::new(&cbor);
    let _ = decoder.array();
    assert_eq!(decoder.u32().unwrap(), 4);
    let map_len = decoder.map().unwrap().unwrap();
    assert_eq!(map_len, 1);
    let pool_id = decoder.bytes().unwrap();
    assert_eq!(pool_id, vec![0xaa; 28]);
    let _ = decoder.array();
    assert_eq!(decoder.u64().unwrap(), 1_000_000_000); // stake
    assert_eq!(decoder.u64().unwrap(), 500_000_000); // pledge
    assert_eq!(decoder.u64().unwrap(), 340_000_000); // cost
}

#[test]
fn n2c_server_test_handle_tx_submission_done() {
    let mempool = TestMempool::new(16384);
    let no_validator: Option<&NoValidator> = None;

    // Build MsgDone: [3]
    let mut payload = Vec::new();
    let mut enc = minicbor::Encoder::new(&mut payload);
    enc.array(1).unwrap();
    enc.u32(3).unwrap();

    let result = handle_tx_submission(&payload, &mempool, no_validator).unwrap();
    assert!(result.is_none());
}

#[test]
fn n2c_server_test_handle_tx_monitor_acquire() {
    let mempool = TestMempool::new(16384);

    // MsgAcquire: [0]
    let mut payload = Vec::new();
    let mut enc = minicbor::Encoder::new(&mut payload);
    enc.array(1).unwrap();
    enc.u32(0).unwrap();

    let result = handle_tx_monitor(&payload, &mempool).unwrap();
    assert!(result.is_some());

    let segment = result.unwrap();
    assert_eq!(segment.protocol_id, MINI_PROTOCOL_TX_MONITOR);
    assert!(segment.is_responder);

    // Verify MsgAcquired [1, slot_no]
    let mut decoder = minicbor::Decoder::new(&segment.payload);
    let _ = decoder.array();
    assert_eq!(decoder.u32().unwrap(), 1); // MsgAcquired
    let _slot = decoder.u64().unwrap();
}

#[test]
fn n2c_server_test_handle_tx_monitor_has_tx() {
    let mempool = TestMempool::new(16384);
    let tx_hash = [0xAAu8; 32];
    mempool.insert(tx_hash, vec![], 100);

    // MsgHasTx: [4, tx_id_bytes]
    let mut payload = Vec::new();
    let mut enc = minicbor::Encoder::new(&mut payload);
    enc.array(2).unwrap();
    enc.u32(4).unwrap();
    enc.bytes(&tx_hash).unwrap();

    let result = handle_tx_monitor(&payload, &mempool).unwrap();
    assert!(result.is_some());

    let segment = result.unwrap();
    let mut decoder = minicbor::Decoder::new(&segment.payload);
    let _ = decoder.array();
    assert_eq!(decoder.u32().unwrap(), 5); // MsgHasTxReply
    assert!(decoder.bool().unwrap()); // tx exists
}

#[test]
fn n2c_server_test_handle_tx_monitor_has_tx_missing() {
    let mempool = TestMempool::new(16384);

    // MsgHasTx for non-existent tx
    let tx_hash = [0xBBu8; 32];
    let mut payload = Vec::new();
    let mut enc = minicbor::Encoder::new(&mut payload);
    enc.array(2).unwrap();
    enc.u32(4).unwrap();
    enc.bytes(&tx_hash).unwrap();

    let result = handle_tx_monitor(&payload, &mempool).unwrap();
    assert!(result.is_some());

    let segment = result.unwrap();
    let mut decoder = minicbor::Decoder::new(&segment.payload);
    let _ = decoder.array();
    assert_eq!(decoder.u32().unwrap(), 5); // MsgHasTxReply
    assert!(!decoder.bool().unwrap()); // tx does not exist
}

#[test]
fn n2c_server_test_handle_tx_monitor_get_sizes() {
    let mempool = TestMempool::new(16384);
    let tx_hash = [0xAAu8; 32];
    mempool.insert(tx_hash, vec![], 500);

    // MsgGetSizes: [8]
    let mut payload = Vec::new();
    let mut enc = minicbor::Encoder::new(&mut payload);
    enc.array(1).unwrap();
    enc.u32(8).unwrap();

    let result = handle_tx_monitor(&payload, &mempool).unwrap();
    assert!(result.is_some());

    let segment = result.unwrap();
    let mut decoder = minicbor::Decoder::new(&segment.payload);
    let _ = decoder.array();
    assert_eq!(decoder.u32().unwrap(), 9); // MsgGetSizesReply
    let _ = decoder.array();
    let capacity = decoder.u64().unwrap();
    let size = decoder.u64().unwrap();
    let num_txs = decoder.u64().unwrap();
    assert_eq!(capacity, 16384); // default max_transactions
    assert_eq!(size, 500);
    assert_eq!(num_txs, 1);
}

#[test]
fn n2c_server_test_handle_tx_monitor_next_tx() {
    let mempool = TestMempool::new(16384);

    // MsgNextTx: [6]
    let mut payload = Vec::new();
    let mut enc = minicbor::Encoder::new(&mut payload);
    enc.array(1).unwrap();
    enc.u32(6).unwrap();

    let result = handle_tx_monitor(&payload, &mempool).unwrap();
    assert!(result.is_some());

    let segment = result.unwrap();
    let mut decoder = minicbor::Decoder::new(&segment.payload);
    let _ = decoder.array();
    assert_eq!(decoder.u32().unwrap(), 7); // MsgNextTxReply
    assert!(decoder.null().is_ok()); // no tx available
}

#[test]
fn n2c_server_test_handle_tx_monitor_done() {
    let mempool = TestMempool::new(16384);

    // MsgDone: [3]
    let mut payload = Vec::new();
    let mut enc = minicbor::Encoder::new(&mut payload);
    enc.array(1).unwrap();
    enc.u32(3).unwrap();

    let result = handle_tx_monitor(&payload, &mempool).unwrap();
    assert!(result.is_none());
}

#[test]
fn test_handle_local_chainsync_request_next() {

    // MsgRequestNext: [0]
    let mut payload = Vec::new();
    let mut enc = minicbor::Encoder::new(&mut payload);
    enc.array(1).unwrap();
    enc.u32(0).unwrap();

    let result = handle_local_chainsync(&payload, &genesis_tip()).unwrap();
    assert!(result.is_some());

    let segment = result.unwrap();
    assert_eq!(segment.protocol_id, MINI_PROTOCOL_CHAINSYNC);
    assert!(segment.is_responder);

    // Should be MsgAwaitReply [1]
    let mut decoder = minicbor::Decoder::new(&segment.payload);
    let _ = decoder.array();
    assert_eq!(decoder.u32().unwrap(), 1); // MsgAwaitReply
}

#[test]
fn n2c_server_test_handle_local_chainsync_find_intersect_not_found() {

    // MsgFindIntersect: [4, [[12345, hash]]]
    let mut payload = Vec::new();
    let mut enc = minicbor::Encoder::new(&mut payload);
    enc.array(2).unwrap();
    enc.u32(4).unwrap(); // MsgFindIntersect
    enc.array(1).unwrap(); // one point
    enc.array(2).unwrap(); // point: [slot, hash]
    enc.u64(12345).unwrap();
    enc.bytes(&[0xaa; 32]).unwrap();

    let result = handle_local_chainsync(&payload, &genesis_tip()).unwrap();
    assert!(result.is_some());

    let segment = result.unwrap();
    let mut decoder = minicbor::Decoder::new(&segment.payload);
    let _ = decoder.array();
    assert_eq!(decoder.u32().unwrap(), 6); // MsgIntersectNotFound
}

#[test]
fn n2c_server_test_handle_local_chainsync_done() {

    // MsgDone: [7]
    let mut payload = Vec::new();
    let mut enc = minicbor::Encoder::new(&mut payload);
    enc.array(1).unwrap();
    enc.u32(7).unwrap();

    let result = handle_local_chainsync(&payload, &genesis_tip()).unwrap();
    assert!(result.is_none());
}
