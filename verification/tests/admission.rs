//! What reaches the mempool on account of a submission.
use std::sync::Mutex;
use torsten_network::mempool::{AddTxOutcome, MempoolProvider};
use torsten_network::n2c;
use torsten_network::n2c::TxValidationError;
use torsten_network::n2c_server;

/// An empty mempool that writes down what is offered to it.
struct Log {
    offered: Mutex<Vec<(u16, Vec<u8>)>>,
}

impl Log {
    fn new() -> Log {
        Log { offered: Mutex::new(Vec::new()) }
    }
    fn taken(&self) -> Vec<(u16, Vec<u8>)> {
        self.offered.lock().unwrap().clone()
    }
}

impl MempoolProvider for Log {
    fn add_tx(&self, era_id: u16, tx_bytes: &[u8]) -> AddTxOutcome {
        self.offered.lock().unwrap().push((era_id, tx_bytes.to_vec()));
        AddTxOutcome::Added
    }
    fn add_tx_with_fee(&self, _hash: &[u8; 32], _era_id: u16, _tx_bytes: &[u8]) -> AddTxOutcome {
        AddTxOutcome::Refused("not expected".to_string())
    }
    fn contains(&self, _hash: &[u8; 32]) -> bool {
        false
    }
    fn tx_hashes_ordered(&self) -> Vec<[u8; 32]> {
        Vec::new()
    }
    fn first_tx_hash(&self) -> Option<[u8; 32]> {
        None
    }
    fn get_tx_cbor(&self, _hash: &[u8; 32]) -> Option<Vec<u8>> {
        None
    }
    fn get_tx_raw(&self, _hash: &[u8; 32]) -> Option<Vec<u8>> {
        None
    }
    fn get_tx_size(&self, _hash: &[u8; 32]) -> Option<usize> {
        None
    }
    fn len(&self) -> usize {
        0
    }
    fn total_bytes(&self) -> usize {
        0
    }
    fn capacity(&self) -> usize {
        10
    }
}

/// A validator that lets transactions pass that start with the given byte.
struct StartsWith(u8);

impl n2c::TxValidator for StartsWith {
    fn validate_tx(&self, _era_id: u16, tx_bytes: &[u8]) -> Result<(), TxValidationError> {
        if tx_bytes.first() == Some(&self.0) {
            Ok(())
        } else {
            Err(TxValidationError::NoInputs)
        }
    }
}

impl n2c_server::TxValidator for StartsWith {
    fn validate_tx(&self, _era_id: u16, tx_bytes: &[u8]) -> Result<(), String> {
        if tx_bytes.first() == Some(&self.0) {
            Ok(())
        } else {
            Err("no".to_string())
        }
    }
}

/// `[0, [6, tag 24 (84 80)]]`.
const SUBMITTED: [u8; 9] = [0x82, 0x00, 0x82, 0x06, 0xd8, 0x18, 0x42, 0x84, 0x80];

#[test]
fn the_mempool_is_not_offered_what_the_validator_rejects() {
    let log = Log::new();
    let mut rejections = 0;
    let rejected = n2c::tx_submission::handle_tx_submission(
        &SUBMITTED,
        &log,
        Some(&StartsWith(0x83)),
        &mut rejections,
    );
    assert_eq!(rejected.unwrap().unwrap().payload[..2], [0x82, 0x02]);
    assert_eq!(rejections, 1);
    assert!(log.taken().is_empty());
    let accepted = n2c::tx_submission::handle_tx_submission(
        &SUBMITTED,
        &log,
        Some(&StartsWith(0x84)),
        &mut rejections,
    );
    assert_eq!(accepted.unwrap().unwrap().payload, vec![0x81, 0x01]);
    assert_eq!(rejections, 1);
    assert_eq!(log.taken(), vec![(6, vec![0x84, 0x80])]);
}

#[test]
fn the_plain_server_does_not_offer_what_the_validator_rejects() {
    let log = Log::new();
    let rejected =
        n2c_server::handle_tx_submission(&SUBMITTED, &log, Some(&StartsWith(0x83))).unwrap();
    assert_eq!(rejected.unwrap().payload, vec![0x82, 0x02, 0x81, 0x62, b'n', b'o']);
    assert!(log.taken().is_empty());
    let accepted =
        n2c_server::handle_tx_submission(&SUBMITTED, &log, Some(&StartsWith(0x84))).unwrap();
    assert_eq!(accepted.unwrap().payload, vec![0x81, 0x01]);
    assert_eq!(log.taken(), vec![(6, vec![0x84, 0x80])]);
}

#[test]
fn what_submits_nothing_offers_nothing() {
    let log = Log::new();
    let mut rejections = 0;
    for message in [&[0x81u8, 0x03][..], &[0x82, 0x00, 0x80], &[0x00]] {
        let _ = n2c::tx_submission::handle_tx_submission::<StartsWith, Log>(
            message,
            &log,
            None,
            &mut rejections,
        );
        let _ = n2c_server::handle_tx_submission::<StartsWith, Log>(message, &log, None);
    }
    assert!(log.taken().is_empty());
}
