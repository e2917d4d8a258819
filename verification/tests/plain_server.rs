//! The plain server for local clients, byte by byte.
use torsten_network::mempool::{AddTxOutcome, MempoolProvider};
use torsten_network::multiplexer::Segment;
use torsten_network::n2c::connection::ClientStep;
use torsten_network::n2c::state_query::StateQueryStep;
use torsten_network::n2c_server::params::encode_protocol_params_cbor;
use torsten_network::n2c_server::query::encode_query_result;
use torsten_network::n2c_server::snapshot::{
    CommitteeMemberSnapshot, CommitteeSnapshot, DRepSnapshot, GovStateSnapshot,
    PoolParamsSnapshot, PoolStakeSnapshotEntry, ProposalSnapshot, ProtocolParamsSnapshot,
    QueryResult, StakeAddressSnapshot, StakePoolSnapshot, StakeSnapshotsResult, UtxoSnapshot,
};
use torsten_network::n2c_server::{
    encode_tx_accept, encode_tx_reject, extract_submitted_tx, handle_handshake,
    handle_local_chainsync, handle_state_query, handle_tx_monitor, handle_tx_submission,
    parse_highest_version, process_segment, query_reply, N2CServerError, PlainConnection,
    TxValidator, MINI_PROTOCOL_CHAINSYNC, MINI_PROTOCOL_HANDSHAKE, MINI_PROTOCOL_STATE_QUERY,
    MINI_PROTOCOL_TX_MONITOR, MINI_PROTOCOL_TX_SUBMISSION,
};
use torsten_network::n2n_server::TipInfo;

/// A mempool with one transaction, or none.
struct Pool {
    filled: bool,
    outcome: u8,
}

impl MempoolProvider for Pool {
    fn add_tx(&self, _era_id: u16, _tx_bytes: &[u8]) -> AddTxOutcome {
        match self.outcome {
            0 => AddTxOutcome::Added,
            1 => AddTxOutcome::AlreadyExists,
            2 => AddTxOutcome::Undecodable("bad".to_string()),
            _ => AddTxOutcome::Refused("full".to_string()),
        }
    }
    fn add_tx_with_fee(&self, _hash: &[u8; 32], era_id: u16, tx_bytes: &[u8]) -> AddTxOutcome {
        self.add_tx(era_id, tx_bytes)
    }
    fn contains(&self, hash: &[u8; 32]) -> bool {
        self.filled && *hash == [1; 32]
    }
    fn tx_hashes_ordered(&self) -> Vec<[u8; 32]> {
        Vec::new()
    }
    fn first_tx_hash(&self) -> Option<[u8; 32]> {
        if self.filled {
            Some([1; 32])
        } else {
            None
        }
    }
    fn get_tx_cbor(&self, hash: &[u8; 32]) -> Option<Vec<u8>> {
        if self.contains(hash) {
            Some(vec![0x84, 0x80])
        } else {
            None
        }
    }
    fn get_tx_raw(&self, hash: &[u8; 32]) -> Option<Vec<u8>> {
        self.get_tx_cbor(hash)
    }
    fn get_tx_size(&self, _hash: &[u8; 32]) -> Option<usize> {
        None
    }
    fn len(&self) -> usize {
        1
    }
    fn total_bytes(&self) -> usize {
        2
    }
    fn capacity(&self) -> usize {
        3
    }
}

struct Judge {
    complaint: Option<&'static str>,
}

impl TxValidator for Judge {
    fn validate_tx(&self, _era_id: u16, _tx_bytes: &[u8]) -> Result<(), String> {
        match self.complaint {
            None => Ok(()),
            Some(m) => Err(m.to_string()),
        }
    }
}

fn pool(outcome: u8) -> Pool {
    Pool { filled: true, outcome }
}

fn tip() -> TipInfo {
    TipInfo { slot: 9, hash: [5; 32], block_number: 3 }
}

fn point(slot: u8, hash: u8) -> Vec<u8> {
    let mut p = vec![0x82, slot, 0x58, 32];
    p.extend_from_slice(&[hash; 32]);
    p
}

fn payload(r: Result<Option<Segment>, N2CServerError>) -> Vec<u8> {
    r.unwrap().unwrap().payload
}

fn protocol_error(e: N2CServerError) -> String {
    match e {
        N2CServerError::Protocol(m) => m,
        other => panic!("unexpected error: {other:?}"),
    }
}

/// What stands behind `[4, ...]`.
fn answer(r: QueryResult) -> Vec<u8> {
    let b = encode_query_result(&r);
    assert_eq!(b[..2], [0x82, 0x04]);
    b[2..].to_vec()
}

fn text(s: &str) -> Vec<u8> {
    let mut b = vec![0x60 + s.len() as u8];
    b.extend_from_slice(s.as_bytes());
    b
}

// Handshake

#[test]
fn plain_handshake_takes_the_highest_known_version() {
    // {15: [1], 17: 1, 18: 1}
    let proposal = [0x82, 0x00, 0xa3, 0x0f, 0x81, 0x01, 0x11, 0x01, 0x12, 0x01];
    assert_eq!(parse_highest_version(&proposal), Some(17));
    let s = handle_handshake(&proposal).unwrap().unwrap();
    assert_eq!(s.protocol_id, MINI_PROTOCOL_HANDSHAKE);
    assert_eq!(s.payload, vec![0x83, 0x01, 0x11, 0x82, 0x01, 0xf4]);
}

#[test]
fn plain_handshake_falls_back() {
    assert_eq!(parse_highest_version(&[0x82, 0x00, 0xa1, 0x12, 0x01]), None);
    assert_eq!(parse_highest_version(&[]), None);
    // Version 16 and the magic of mainnet, 764824073.
    assert_eq!(
        payload(handle_handshake(&[])),
        vec![0x83, 0x01, 0x10, 0x82, 0x1a, 0x2d, 0x96, 0x4a, 0x09, 0xf4]
    );
}

// LocalTxSubmission

/// `[0, [6, h'8480']]`
const SUBMIT: [u8; 7] = [0x82, 0x00, 0x82, 0x06, 0x42, 0x84, 0x80];

#[test]
fn plain_submission_is_read_without_a_tag() {
    assert_eq!(extract_submitted_tx(&SUBMIT, 2), Some((6, vec![0x84, 0x80])));
    assert_eq!(extract_submitted_tx(&[0x82, 0x06, 0xd8, 0x18, 0x41, 0x84], 0), None);
    assert_eq!(extract_submitted_tx(&[0x06], 0), None);
}

#[test]
fn plain_submission_outcomes() {
    let submit = |outcome: u8, v: Option<&Judge>| payload(handle_tx_submission(&SUBMIT, &pool(outcome), v));
    assert_eq!(submit(0, None), vec![0x81, 0x01]);
    assert_eq!(submit(1, None), vec![0x81, 0x01]);
    assert_eq!(submit(3, None), [vec![0x82, 0x02, 0x81], text("full")].concat());
    let mut undecodable = vec![0x82, 0x02, 0x81, 0x78, 33];
    undecodable.extend_from_slice(b"Failed to decode transaction: bad");
    assert_eq!(submit(2, None), undecodable);
    assert_eq!(submit(0, Some(&Judge { complaint: None })), vec![0x81, 0x01]);
    assert_eq!(
        submit(0, Some(&Judge { complaint: Some("no") })),
        [vec![0x82, 0x02, 0x81], text("no")].concat()
    );
    let mut malformed = vec![0x82, 0x02, 0x81, 0x78, 38];
    malformed.extend_from_slice(b"Failed to decode submitted transaction");
    assert_eq!(
        payload(handle_tx_submission::<Judge, Pool>(&[0x82, 0x00, 0x00], &pool(0), None)),
        malformed
    );
    let e = handle_tx_submission::<Judge, Pool>(&[0x80], &pool(0), None).unwrap_err();
    assert_eq!(protocol_error(e), "invalid tx submission message");
}

#[test]
fn plain_accept_and_reject() {
    assert_eq!(payload(encode_tx_accept()), vec![0x81, 0x01]);
    assert_eq!(payload(encode_tx_reject("x")), vec![0x82, 0x02, 0x81, 0x61, b'x']);
}

// LocalTxMonitor

#[test]
fn plain_monitor_answers() {
    let ask = |b: &[u8], filled: bool| payload(handle_tx_monitor(b, &Pool { filled, outcome: 0 }));
    assert_eq!(ask(&[0x81, 0x00], true), vec![0x82, 0x01, 0x00]);
    let known = [&[0x82, 0x04, 0x58, 32][..], &[1; 32][..]].concat();
    assert_eq!(ask(&known, true), vec![0x82, 0x05, 0xf5]);
    assert_eq!(ask(&known, false), vec![0x82, 0x05, 0xf4]);
    assert_eq!(ask(&[0x81, 0x06], true), vec![0x82, 0x07, 0x82, 0x06, 0x42, 0x84, 0x80]);
    assert_eq!(ask(&[0x81, 0x06], false), vec![0x82, 0x07, 0xf6]);
    assert_eq!(ask(&[0x81, 0x08], true), vec![0x82, 0x09, 0x83, 0x03, 0x02, 0x01]);
    let e = handle_tx_monitor(&[0x81, 0x40], &pool(0)).unwrap_err();
    assert!(protocol_error(e).starts_with("bad tx monitor msg tag: "));
}

// LocalChainSync

#[test]
fn plain_chainsync_knows_its_tip() {
    let find = |b: &[u8]| payload(handle_local_chainsync(b, &tip()));
    let tip_bytes = [vec![0x82], point(9, 5), vec![0x03]].concat();
    assert_eq!(
        find(&[vec![0x82, 0x04, 0x81], point(9, 5)].concat()),
        [vec![0x83, 0x05], point(9, 5), tip_bytes.clone()].concat()
    );
    assert_eq!(
        find(&[vec![0x82, 0x04, 0x81], point(8, 5)].concat()),
        [vec![0x82, 0x06], tip_bytes].concat()
    );
    assert_eq!(find(&[0x81, 0x00]), vec![0x81, 0x01]);
    assert!(handle_local_chainsync(&[0x81, 0x07], &tip()).unwrap().is_none());
    let e = handle_local_chainsync(&[], &tip()).unwrap_err();
    assert_eq!(protocol_error(e), "invalid chainsync message");
}

// LocalStateQuery

#[test]
fn plain_state_query_steps() {
    for tag in [0u8, 5] {
        match handle_state_query(&[0x81, tag]) {
            Ok(StateQueryStep::Reply(s)) => assert_eq!(s.payload, vec![0x81, 0x01]),
            other => panic!("unexpected step: {other:?}"),
        }
    }
    assert!(matches!(handle_state_query(&[0x81, 0x03]), Ok(StateQueryStep::Query)));
    assert!(matches!(handle_state_query(&[0x81, 0x08]), Ok(StateQueryStep::Silent)));
    assert_eq!(
        protocol_error(handle_state_query(&[0x80]).unwrap_err()),
        "invalid state query message"
    );
}

#[test]
fn plain_short_answers() {
    assert_eq!(answer(QueryResult::EpochNo(300)), vec![0x19, 0x01, 0x2c]);
    assert_eq!(answer(QueryResult::CurrentEra(6)), vec![0x06]);
    assert_eq!(answer(QueryResult::ChainBlockNo(1)), vec![0x01]);
    assert_eq!(answer(QueryResult::SystemStart("now".to_string())), text("now"));
    assert_eq!(answer(QueryResult::Error("no".to_string())), text("no"));
    assert_eq!(
        answer(QueryResult::ChainTip { slot: 7, hash: vec![0xab], block_no: 2 }),
        vec![0x82, 0x82, 0x07, 0x41, 0xab, 0x02]
    );
    let s = query_reply(&QueryResult::CurrentEra(6));
    assert_eq!(s.protocol_id, MINI_PROTOCOL_STATE_QUERY);
    assert_eq!(s.payload, vec![0x82, 0x04, 0x06]);
}

#[test]
fn plain_stake_distribution() {
    let p = StakePoolSnapshot {
        pool_id: vec![1],
        stake: 2,
        pledge: 3,
        cost: 4,
        margin_num: 5,
        margin_den: 6,
    };
    assert_eq!(
        answer(QueryResult::StakeDistribution(vec![p])),
        vec![0xa1, 0x41, 0x01, 0x83, 0x02, 0x03, 0x04]
    );
}

#[test]
fn plain_governance() {
    let p = ProposalSnapshot {
        tx_id: vec![1],
        action_index: 2,
        action_type: "a".to_string(),
        proposed_epoch: 8,
        expires_epoch: 9,
        yes_votes: 3,
        no_votes: 4,
        abstain_votes: 5,
    };
    let g = GovStateSnapshot {
        proposals: vec![p],
        drep_count: 1,
        committee_member_count: 2,
        treasury: 3,
    };
    assert_eq!(
        answer(QueryResult::GovState(g)),
        [
            vec![0xa4],
            text("drep_count"),
            vec![1],
            text("committee_member_count"),
            vec![2],
            text("treasury"),
            vec![3],
            text("proposals"),
            vec![0x81, 0xa6],
            text("tx_id"),
            vec![0x41, 0x01],
            text("action_index"),
            vec![2],
            text("action_type"),
            text("a"),
            text("yes_votes"),
            vec![3],
            text("no_votes"),
            vec![4],
            text("abstain_votes"),
            vec![5],
        ]
        .concat()
    );
}

#[test]
fn plain_dreps_and_committee() {
    let drep = |url: Option<String>| DRepSnapshot {
        credential_hash: vec![1],
        deposit: 2,
        anchor_url: url,
        registered_epoch: 3,
    };
    let expected = |url: Vec<u8>| {
        [
            vec![0xa4],
            text("credential"),
            vec![0x41, 0x01],
            text("deposit"),
            vec![2],
            text("anchor_url"),
            url,
            text("registered_epoch"),
            vec![3],
        ]
        .concat()
    };
    assert_eq!(
        answer(QueryResult::DRepState(vec![drep(None), drep(Some("u".to_string()))])),
        [vec![0x82], expected(vec![0xf6]), expected(text("u"))].concat()
    );
    let c = CommitteeSnapshot {
        members: vec![CommitteeMemberSnapshot { cold_credential: vec![1], hot_credential: vec![2] }],
        resigned: vec![vec![3]],
    };
    assert_eq!(
        answer(QueryResult::CommitteeState(c)),
        [
            vec![0xa2],
            text("members"),
            vec![0x81, 0xa2],
            text("cold"),
            vec![0x41, 0x01],
            text("hot"),
            vec![0x41, 0x02],
            text("resigned"),
            vec![0x81, 0x41, 0x03],
        ]
        .concat()
    );
}

#[test]
fn plain_outputs_and_addresses() {
    let u = UtxoSnapshot {
        tx_hash: vec![1],
        output_index: 2,
        address: "a".to_string(),
        lovelace: 3,
        has_datum: true,
    };
    assert_eq!(
        answer(QueryResult::UtxoByAddress(vec![u])),
        [
            vec![0x81, 0xa5],
            text("tx_hash"),
            vec![0x41, 0x01],
            text("output_index"),
            vec![2],
            text("address"),
            text("a"),
            text("lovelace"),
            vec![3],
            text("has_datum"),
            vec![0xf5],
        ]
        .concat()
    );
    let a = |p: Option<Vec<u8>>| StakeAddressSnapshot {
        credential_hash: vec![1],
        delegated_pool: p,
        reward_balance: 2,
    };
    let expected = |p: Vec<u8>| {
        [
            vec![0xa3],
            text("credential"),
            vec![0x41, 0x01],
            text("delegated_pool"),
            p,
            text("reward_balance"),
            vec![2],
        ]
        .concat()
    };
    assert_eq!(
        answer(QueryResult::StakeAddressInfo(vec![a(None), a(Some(vec![9]))])),
        [vec![0x82], expected(vec![0xf6]), expected(vec![0x41, 0x09])].concat()
    );
}

#[test]
fn plain_snapshots_and_pool_params() {
    let s = StakeSnapshotsResult {
        pools: vec![PoolStakeSnapshotEntry {
            pool_id: vec![1],
            mark_stake: 2,
            set_stake: 3,
            go_stake: 4,
        }],
        total_mark_stake: 5,
        total_set_stake: 6,
        total_go_stake: 7,
    };
    assert_eq!(
        answer(QueryResult::StakeSnapshots(s)),
        [
            vec![0xa4],
            text("pools"),
            vec![0x81, 0xa4],
            text("pool_id"),
            vec![0x41, 0x01],
            text("mark_stake"),
            vec![2],
            text("set_stake"),
            vec![3],
            text("go_stake"),
            vec![4],
            text("total_mark_stake"),
            vec![5],
            text("total_set_stake"),
            vec![6],
            text("total_go_stake"),
            vec![7],
        ]
        .concat()
    );
    let p = PoolParamsSnapshot {
        pool_id: vec![1],
        vrf_keyhash: vec![2],
        pledge: 3,
        cost: 4,
        margin_num: 5,
        margin_den: 6,
        relays: vec!["r".to_string()],
    };
    assert_eq!(
        answer(QueryResult::PoolParams(vec![p])),
        [
            vec![0x81, 0xa7],
            text("pool_id"),
            vec![0x41, 0x01],
            text("vrf_keyhash"),
            vec![0x41, 0x02],
            text("pledge"),
            vec![3],
            text("cost"),
            vec![4],
            text("margin_num"),
            vec![5],
            text("margin_den"),
            vec![6],
            text("relays"),
            vec![0x81, 0x61, b'r'],
        ]
        .concat()
    );
}

/// The keys of a map of parameters, which has to end where its head says.
fn keys(pp: &ProtocolParamsSnapshot) -> Vec<u32> {
    let mut b: Vec<u8> = Vec::new();
    encode_protocol_params_cbor(&mut b, pp);
    let mut d = minicbor::Decoder::new(&b);
    let n = d.map().unwrap().unwrap();
    let mut keys = Vec::new();
    for _ in 0..n {
        keys.push(d.u32().unwrap());
        d.skip().unwrap();
    }
    assert_eq!(d.position(), b.len());
    keys
}

#[test]
fn plain_params_are_a_whole_map() {
    let mut pp = ProtocolParamsSnapshot::default();
    let mut expected: Vec<u32> = (0..12).collect();
    expected.extend([16, 17]);
    expected.extend(19..35);
    assert_eq!(expected.len(), 30);
    assert_eq!(keys(&pp), expected);
    pp.cost_models_v2 = Some(vec![-1, 2]);
    expected.insert(14, 18);
    assert_eq!(keys(&pp), expected);
}

#[test]
fn plain_params_end_with_the_price_of_reference_scripts() {
    let mut pp = ProtocolParamsSnapshot::default();
    assert_eq!(pp.min_fee_ref_script_cost_per_byte, 15);
    pp.min_fee_ref_script_cost_per_byte = 7;
    let mut b: Vec<u8> = Vec::new();
    encode_protocol_params_cbor(&mut b, &pp);
    assert_eq!(b[..2], [0xb8, 30]);
    // 34: 7/1
    assert_eq!(b[b.len() - 7..], [0x18, 34, 0xd8, 30, 0x82, 7, 1]);
}

// Segments

#[test]
fn plain_segments_reach_their_protocols() {
    let process = |protocol_id: u16, bytes: &[u8]| {
        let s = Segment {
            transmission_time: 0,
            protocol_id,
            is_responder: false,
            payload: bytes.to_vec(),
        };
        process_segment::<Pool, Judge>(&s, &tip(), &pool(0), None)
    };
    let replied = |protocol_id: u16, bytes: &[u8]| match process(protocol_id, bytes) {
        Ok(StateQueryStep::Reply(s)) => {
            assert_eq!(s.protocol_id, protocol_id);
            assert!(s.is_responder);
            s.payload
        }
        other => panic!("unexpected step: {other:?}"),
    };
    assert_eq!(replied(MINI_PROTOCOL_HANDSHAKE, &[])[..2], [0x83, 0x01]);
    assert_eq!(replied(MINI_PROTOCOL_STATE_QUERY, &[0x81, 0x00]), vec![0x81, 0x01]);
    assert!(matches!(process(MINI_PROTOCOL_STATE_QUERY, &[0x81, 0x03]), Ok(StateQueryStep::Query)));
    assert_eq!(replied(MINI_PROTOCOL_TX_SUBMISSION, &SUBMIT), vec![0x81, 0x01]);
    assert_eq!(replied(MINI_PROTOCOL_TX_MONITOR, &[0x81, 0x00]), vec![0x82, 0x01, 0x00]);
    assert_eq!(replied(MINI_PROTOCOL_CHAINSYNC, &[0x81, 0x00]), vec![0x81, 0x01]);
    assert!(matches!(process(99, &[]), Ok(StateQueryStep::Silent)));
    assert!(process(MINI_PROTOCOL_CHAINSYNC, &[]).is_err());
}

#[test]
fn plain_segments_have_to_arrive_whole() {
    let mut c = PlainConnection::new();
    let none: Option<&Judge> = None;
    let s = Segment {
        transmission_time: 0,
        protocol_id: MINI_PROTOCOL_STATE_QUERY,
        is_responder: false,
        payload: vec![0x81, 0x03],
    };
    let mut bytes = s.encode();
    bytes.extend_from_slice(&s.encode());
    let step = c.received(&bytes, &tip(), &pool(0), none).unwrap();
    assert!(matches!(step, ClientStep::Query(p) if p == vec![0x81, 0x03]));
    assert!(matches!(c.go_on(&tip(), &pool(0), none), Ok(ClientStep::Query(_))));
    assert!(matches!(c.go_on(&tip(), &pool(0), none), Ok(ClientStep::Wait)));
    // What is left of one read is not put together with the next one.
    assert!(matches!(c.received(&bytes[..9], &tip(), &pool(0), none), Ok(ClientStep::Wait)));
    assert!(matches!(c.received(&bytes[9..10], &tip(), &pool(0), none), Ok(ClientStep::Wait)));
    assert!(matches!(c.received(&[], &tip(), &pool(0), none), Ok(ClientStep::End)));
}
