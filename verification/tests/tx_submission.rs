use torsten_network::n2c::tx_submission::{encode_tx_reject, encode_tx_reject_str, CONWAY_ERA_IDX};
use torsten_network::n2c::{TxValidationError, MINI_PROTOCOL_TX_SUBMISSION};

/// Decode CBOR and verify basic structure of MsgRejectTx envelope.
/// Returns the inner ApplyTxError bytes for further inspection.
fn decode_reject_envelope(payload: &[u8]) -> Vec<u8> {
    let mut dec = minicbor::Decoder::new(payload);
    // [2, <reject>]
    let outer_len = dec.array().unwrap().unwrap();
    assert_eq!(outer_len, 2);
    assert_eq!(dec.u32().unwrap(), 2); // MsgRejectTx tag

    // HFC Right branch: array(1)
    let hfc_len = dec.array().unwrap().unwrap();
    assert_eq!(hfc_len, 1);

    // encodeNS: [era_idx, <apply_tx_err>]
    let ns_len = dec.array().unwrap().unwrap();
    assert_eq!(ns_len, 2);
    let era_idx = dec.u8().unwrap();
    assert_eq!(era_idx, CONWAY_ERA_IDX);

    // Return remaining bytes (the ApplyTxError CBOR)
    payload[dec.position()..].to_vec()
}

/// Verify the ApplyTxError is an array of the expected length.
fn decode_apply_tx_err(cbor: &[u8]) -> (u64, usize) {
    let mut dec = minicbor::Decoder::new(cbor);
    let len = dec.array().unwrap().unwrap();
    (len, dec.position())
}

/// Decode a ConwayLedgerPredFailure and return (tag, remaining_position).
fn decode_ledger_failure(cbor: &[u8], offset: usize) -> (u8, usize) {
    let mut dec = minicbor::Decoder::new(cbor);
    dec.set_position(offset);
    let _len = dec.array().unwrap().unwrap();
    let tag = dec.u8().unwrap();
    (tag, dec.position())
}

#[test]
fn test_reject_no_inputs() {
    let err = TxValidationError::NoInputs;
    let result = encode_tx_reject(&err).unwrap().unwrap();
    let inner = decode_reject_envelope(&result.payload);
    let (count, pos) = decode_apply_tx_err(&inner);
    assert_eq!(count, 1);

    // ConwayLedgerPredFailure tag 1 = ConwayUtxowFailure
    let (tag, pos) = decode_ledger_failure(&inner, pos);
    assert_eq!(tag, 1);
    // ConwayUtxowPredFailure tag 0 = UtxoFailure
    let (tag, pos) = decode_ledger_failure(&inner, pos);
    assert_eq!(tag, 0);
    // ConwayUtxoPredFailure tag 4 = InputSetEmptyUTxO
    let mut dec = minicbor::Decoder::new(&inner);
    dec.set_position(pos);
    let len = dec.array().unwrap().unwrap();
    assert_eq!(len, 1);
    assert_eq!(dec.u8().unwrap(), 4);
}

#[test]
fn test_reject_fee_too_small() {
    let err = TxValidationError::FeeTooSmall {
        minimum: 200_000,
        actual: 100_000,
    };
    let result = encode_tx_reject(&err).unwrap().unwrap();
    let inner = decode_reject_envelope(&result.payload);
    let (count, pos) = decode_apply_tx_err(&inner);
    assert_eq!(count, 1);

    // Navigate: ConwayUtxowFailure(1) → UtxoFailure(0) → FeeTooSmallUTxO(5)
    let (tag, pos) = decode_ledger_failure(&inner, pos);
    assert_eq!(tag, 1);
    let (tag, pos) = decode_ledger_failure(&inner, pos);
    assert_eq!(tag, 0);

    let mut dec = minicbor::Decoder::new(&inner);
    dec.set_position(pos);
    let len = dec.array().unwrap().unwrap();
    // ToGroup(swapMismatch): [5, expected, supplied] = array(3)
    assert_eq!(len, 3);
    assert_eq!(dec.u8().unwrap(), 5);
    assert_eq!(dec.u64().unwrap(), 200_000); // expected (minimum) — swapped first
    assert_eq!(dec.u64().unwrap(), 100_000); // supplied (actual) — swapped second
}

#[test]
fn test_reject_tx_too_large() {
    let err = TxValidationError::TxTooLarge {
        maximum: 16_384,
        actual: 20_000,
    };
    let result = encode_tx_reject(&err).unwrap().unwrap();
    let inner = decode_reject_envelope(&result.payload);
    let (count, pos) = decode_apply_tx_err(&inner);
    assert_eq!(count, 1);

    let (tag, pos) = decode_ledger_failure(&inner, pos);
    assert_eq!(tag, 1); // ConwayUtxowFailure
    let (tag, pos) = decode_ledger_failure(&inner, pos);
    assert_eq!(tag, 0); // UtxoFailure

    let mut dec = minicbor::Decoder::new(&inner);
    dec.set_position(pos);
    // ToGroup (no swap): [3, supplied, expected] = array(3)
    assert_eq!(dec.array().unwrap().unwrap(), 3);
    assert_eq!(dec.u8().unwrap(), 3); // MaxTxSizeUTxO
    assert_eq!(dec.u64().unwrap(), 20_000); // supplied (actual)
    assert_eq!(dec.u64().unwrap(), 16_384); // expected (maximum)
}

#[test]
fn test_reject_ttl_expired() {
    let err = TxValidationError::TtlExpired {
        current_slot: 1000,
        ttl: 500,
    };
    let result = encode_tx_reject(&err).unwrap().unwrap();
    let inner = decode_reject_envelope(&result.payload);
    let (_, pos) = decode_apply_tx_err(&inner);

    let (tag, pos) = decode_ledger_failure(&inner, pos);
    assert_eq!(tag, 1); // ConwayUtxowFailure
    let (tag, pos) = decode_ledger_failure(&inner, pos);
    assert_eq!(tag, 0); // UtxoFailure

    let mut dec = minicbor::Decoder::new(&inner);
    dec.set_position(pos);
    assert_eq!(dec.array().unwrap().unwrap(), 3); // [2, vi, slot]
    assert_eq!(dec.u8().unwrap(), 2); // OutsideValidityIntervalUTxO

    // ValidityInterval: [null, ttl]
    assert_eq!(dec.array().unwrap().unwrap(), 2);
    dec.null().unwrap(); // invalidBefore = SNothing
    assert_eq!(dec.u64().unwrap(), 500); // invalidHereafter = ttl

    // SlotNo
    assert_eq!(dec.u64().unwrap(), 1000);
}

#[test]
fn test_reject_not_yet_valid() {
    let err = TxValidationError::NotYetValid {
        current_slot: 100,
        valid_from: 500,
    };
    let result = encode_tx_reject(&err).unwrap().unwrap();
    let inner = decode_reject_envelope(&result.payload);
    let (_, pos) = decode_apply_tx_err(&inner);

    let (tag, pos) = decode_ledger_failure(&inner, pos);
    assert_eq!(tag, 1);
    let (tag, pos) = decode_ledger_failure(&inner, pos);
    assert_eq!(tag, 0);

    let mut dec = minicbor::Decoder::new(&inner);
    dec.set_position(pos);
    assert_eq!(dec.array().unwrap().unwrap(), 3);
    assert_eq!(dec.u8().unwrap(), 2); // OutsideValidityIntervalUTxO

    // ValidityInterval: [valid_from, null]
    assert_eq!(dec.array().unwrap().unwrap(), 2);
    assert_eq!(dec.u64().unwrap(), 500); // invalidBefore = valid_from
    dec.null().unwrap(); // invalidHereafter = SNothing

    assert_eq!(dec.u64().unwrap(), 100); // current slot
}

#[test]
fn test_reject_value_not_conserved() {
    let err = TxValidationError::ValueNotConserved {
        inputs: 5_000_000,
        outputs: 4_000_000,
        fee: 500_000,
    };
    let result = encode_tx_reject(&err).unwrap().unwrap();
    let inner = decode_reject_envelope(&result.payload);
    let (_, pos) = decode_apply_tx_err(&inner);

    let (tag, pos) = decode_ledger_failure(&inner, pos);
    assert_eq!(tag, 1);
    let (tag, pos) = decode_ledger_failure(&inner, pos);
    assert_eq!(tag, 0);

    let mut dec = minicbor::Decoder::new(&inner);
    dec.set_position(pos);
    // ToGroup (no swap): [6, supplied, expected] = array(3)
    assert_eq!(dec.array().unwrap().unwrap(), 3);
    assert_eq!(dec.u8().unwrap(), 6); // ValueNotConservedUTxO
    assert_eq!(dec.u64().unwrap(), 5_000_000); // supplied (consumed = inputs)
    assert_eq!(dec.u64().unwrap(), 4_500_000); // expected (produced = outputs + fee)
}

#[test]
fn test_reject_too_many_collateral_inputs() {
    let err = TxValidationError::TooManyCollateralInputs { max: 3, actual: 5 };
    let result = encode_tx_reject(&err).unwrap().unwrap();
    let inner = decode_reject_envelope(&result.payload);
    let (_, pos) = decode_apply_tx_err(&inner);

    let (tag, pos) = decode_ledger_failure(&inner, pos);
    assert_eq!(tag, 1);
    let (tag, pos) = decode_ledger_failure(&inner, pos);
    assert_eq!(tag, 0);

    let mut dec = minicbor::Decoder::new(&inner);
    dec.set_position(pos);
    // ToGroup(swapMismatch): [18, expected, supplied] = array(3)
    assert_eq!(dec.array().unwrap().unwrap(), 3);
    assert_eq!(dec.u8().unwrap(), 18); // TooManyCollateralInputs
    assert_eq!(dec.u64().unwrap(), 3); // expected (max) — swapped first
    assert_eq!(dec.u64().unwrap(), 5); // supplied (actual) — swapped second
}

#[test]
fn test_reject_insufficient_collateral() {
    let err = TxValidationError::InsufficientCollateral;
    let result = encode_tx_reject(&err).unwrap().unwrap();
    let inner = decode_reject_envelope(&result.payload);
    let (_, pos) = decode_apply_tx_err(&inner);

    let (tag, pos) = decode_ledger_failure(&inner, pos);
    assert_eq!(tag, 1);
    let (tag, pos) = decode_ledger_failure(&inner, pos);
    assert_eq!(tag, 0);

    let mut dec = minicbor::Decoder::new(&inner);
    dec.set_position(pos);
    assert_eq!(dec.array().unwrap().unwrap(), 1);
    assert_eq!(dec.u8().unwrap(), 19); // NoCollateralInputs
}

#[test]
fn test_reject_fallback_uses_mempool_failure() {
    // Errors without direct Haskell equivalents use ConwayMempoolFailure
    let err = TxValidationError::InputNotFound {
        input: "abc123#0".into(),
    };
    let result = encode_tx_reject(&err).unwrap().unwrap();
    let inner = decode_reject_envelope(&result.payload);
    let (count, pos) = decode_apply_tx_err(&inner);
    assert_eq!(count, 1);

    // ConwayLedgerPredFailure tag 7 = ConwayMempoolFailure
    let mut dec = minicbor::Decoder::new(&inner);
    dec.set_position(pos);
    assert_eq!(dec.array().unwrap().unwrap(), 2);
    assert_eq!(dec.u8().unwrap(), 7);
    let text = dec.str().unwrap();
    assert!(text.contains("abc123#0"));
}

#[test]
fn test_reject_str_encodes_as_mempool_failure() {
    let result = encode_tx_reject_str("Mempool is full").unwrap().unwrap();
    let inner = decode_reject_envelope(&result.payload);
    let (count, pos) = decode_apply_tx_err(&inner);
    assert_eq!(count, 1);

    let mut dec = minicbor::Decoder::new(&inner);
    dec.set_position(pos);
    assert_eq!(dec.array().unwrap().unwrap(), 2);
    assert_eq!(dec.u8().unwrap(), 7); // ConwayMempoolFailure
    assert_eq!(dec.str().unwrap(), "Mempool is full");
}

#[test]
fn test_reject_multiple_errors() {
    let err = TxValidationError::Multiple(vec![
        TxValidationError::NoInputs,
        TxValidationError::FeeTooSmall {
            minimum: 200_000,
            actual: 100_000,
        },
    ]);
    let result = encode_tx_reject(&err).unwrap().unwrap();
    let inner = decode_reject_envelope(&result.payload);
    let (count, _) = decode_apply_tx_err(&inner);
    // Multiple errors → multiple predicate failures in the array
    assert_eq!(count, 2);
}

#[test]
fn test_reject_envelope_structure() {
    // Verify exact bytes of a minimal rejection
    let err = TxValidationError::NoInputs;
    let result = encode_tx_reject(&err).unwrap().unwrap();
    let payload = &result.payload;

    // First bytes: 82 02 = [2, ...]
    assert_eq!(payload[0], 0x82); // array(2)
    assert_eq!(payload[1], 0x02); // MsgRejectTx tag

    // HFC wrapper: 81 = array(1)
    assert_eq!(payload[2], 0x81);

    // encodeNS: 82 06 = [6, ...]
    assert_eq!(payload[3], 0x82); // array(2)
    assert_eq!(payload[4], 0x06); // Conway era index

    assert_eq!(result.protocol_id, MINI_PROTOCOL_TX_SUBMISSION);
    assert!(result.is_responder);
}
