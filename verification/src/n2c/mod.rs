//! Node-to-client server: the mini-protocols that local clients speak.

pub mod chain_sync;
pub mod connection;
pub mod handshake;
pub mod message;
pub mod query;
pub mod state_query;
pub mod tx_monitor;
pub mod tx_submission;

use crate::text;
use crate::text::{push_decimal, push_signed, push_text};
use vstd::prelude::*;

verus! {

broadcast use crate::text::lemma_chars_append_assoc;

// ---------------------------------------------------------------------------
// Validation errors
// ---------------------------------------------------------------------------

/// Why a transaction was refused.
///
/// Each variant is a failure of its own, so that callers can tell them apart.
#[derive(Debug)]
pub enum TxValidationError {
    DecodeFailed { reason: String },
    LedgerStateUnavailable,
    NoInputs,
    InputNotFound { input: String },
    ValueNotConserved { inputs: u64, outputs: u64, fee: u64 },
    FeeTooSmall { minimum: u64, actual: u64 },
    OutputTooSmall { minimum: u64, actual: u64 },
    TxTooLarge { maximum: u64, actual: u64 },
    MissingRequiredSigner { signer: String },
    MissingWitness { input: String },
    TtlExpired { current_slot: u64, ttl: u64 },
    NotYetValid { current_slot: u64, valid_from: u64 },
    ScriptFailed { reason: String },
    InsufficientCollateral,
    TooManyCollateralInputs { max: u64, actual: u64 },
    CollateralNotFound { input: String },
    CollateralHasTokens { input: String },
    CollateralMismatch { declared: u64, computed: u64 },
    ReferenceInputNotFound { input: String },
    ReferenceInputOverlapsInput { input: String },
    MultiAssetNotConserved { policy: String, input_side: i128, output_side: i128 },
    InvalidMint,
    ExUnitsExceeded,
    ScriptDataHashMismatch { expected: String, actual: String },
    UnexpectedScriptDataHash,
    MissingScriptDataHash,
    DuplicateInput { input: String },
    NativeScriptFailed,
    InvalidWitnessSignature { vkey: String },
    NetworkMismatch { expected: String, actual: String },
    AuxiliaryDataHashWithoutData,
    AuxiliaryDataWithoutHash,
    BlockExUnitsExceeded { resource: String, limit: u64, total: u64 },
    OutputValueTooLarge { maximum: u64, actual: u64 },
    MissingRawCbor,
    MissingSlotConfig,
    MissingSpendRedeemer { index: u32 },
    RedeemerIndexOutOfRange { tag: String, index: u32, max: usize },
    MissingInputWitness { credential: String },
    MissingScriptWitness { credential: String },
    MissingWithdrawalWitness { credential: String },
    MissingWithdrawalScriptWitness { credential: String },
    /// Several failures at once.
    Multiple(Vec<TxValidationError>),
}

/// What an error says.
pub open spec fn error_text(e: TxValidationError) -> Seq<char>
    decreases e, 0nat,
{
    match e {
        TxValidationError::DecodeFailed { reason } => "Failed to decode transaction: "@
            + reason@,
        TxValidationError::LedgerStateUnavailable => "Ledger state unavailable"@,
        TxValidationError::NoInputs => "No inputs in transaction"@,
        TxValidationError::InputNotFound { input } => "Input not found in UTxO set: "@
            + input@,
        TxValidationError::ValueNotConserved { inputs, outputs, fee } => "Value not conserved: inputs="@
            + text::decimal(inputs as nat)
            + ", outputs="@
            + text::decimal(outputs as nat)
            + ", fee="@
            + text::decimal(fee as nat),
        TxValidationError::FeeTooSmall { minimum, actual } => "Fee too small: minimum="@
            + text::decimal(minimum as nat)
            + ", actual="@
            + text::decimal(actual as nat),
        TxValidationError::OutputTooSmall { minimum, actual } => "Output too small: minimum="@
            + text::decimal(minimum as nat)
            + ", actual="@
            + text::decimal(actual as nat),
        TxValidationError::TxTooLarge { maximum, actual } => "Transaction too large: maximum="@
            + text::decimal(maximum as nat)
            + ", actual="@
            + text::decimal(actual as nat),
        TxValidationError::MissingRequiredSigner { signer } => "Missing required signer: "@
            + signer@,
        TxValidationError::MissingWitness { input } => "Missing witness for input: "@
            + input@,
        TxValidationError::TtlExpired { current_slot, ttl } => "TTL expired: current_slot="@
            + text::decimal(current_slot as nat)
            + ", ttl="@
            + text::decimal(ttl as nat),
        TxValidationError::NotYetValid { current_slot, valid_from } => "Transaction not yet valid: current_slot="@
            + text::decimal(current_slot as nat)
            + ", valid_from="@
            + text::decimal(valid_from as nat),
        TxValidationError::ScriptFailed { reason } => "Script validation failed: "@
            + reason@,
        TxValidationError::InsufficientCollateral => "Insufficient collateral"@,
        TxValidationError::TooManyCollateralInputs { max, actual } => "Too many collateral inputs: max="@
            + text::decimal(max as nat)
            + ", actual="@
            + text::decimal(actual as nat),
        TxValidationError::CollateralNotFound { input } => "Collateral input not found in UTxO set: "@
            + input@,
        TxValidationError::CollateralHasTokens { input } => "Collateral input contains tokens (must be pure ADA): "@
            + input@,
        TxValidationError::CollateralMismatch { declared, computed } => "Collateral mismatch: total_collateral="@
            + text::decimal(declared as nat)
            + ", effective="@
            + text::decimal(computed as nat),
        TxValidationError::ReferenceInputNotFound { input } => "Reference input not found in UTxO set: "@
            + input@,
        TxValidationError::ReferenceInputOverlapsInput { input } => "Reference input overlaps with regular input: "@
            + input@,
        TxValidationError::MultiAssetNotConserved { policy, input_side, output_side } => "Multi-asset not conserved for policy "@
            + policy@
            + ": inputs+mint="@
            + text::signed_decimal(input_side as int)
            + ", outputs="@
            + text::signed_decimal(output_side as int),
        TxValidationError::InvalidMint => "Negative minting without policy script"@,
        TxValidationError::ExUnitsExceeded => "Max execution units exceeded"@,
        TxValidationError::ScriptDataHashMismatch { expected, actual } => "Script data hash mismatch: expected "@
            + expected@
            + ", got "@
            + actual@,
        TxValidationError::UnexpectedScriptDataHash => "Script data hash present but no scripts or redeemers"@,
        TxValidationError::MissingScriptDataHash => "Missing script data hash (required when scripts/redeemers present)"@,
        TxValidationError::DuplicateInput { input } => "Duplicate input in transaction: "@
            + input@,
        TxValidationError::NativeScriptFailed => "Native script validation failed"@,
        TxValidationError::InvalidWitnessSignature { vkey } => "Witness signature verification failed for vkey: "@
            + vkey@,
        TxValidationError::NetworkMismatch { expected, actual } => "Output address network mismatch: expected "@
            + expected@
            + ", got "@
            + actual@,
        TxValidationError::AuxiliaryDataHashWithoutData => "Auxiliary data hash declared but no auxiliary data present"@,
        TxValidationError::AuxiliaryDataWithoutHash => "Auxiliary data present but no auxiliary data hash in tx body"@,
        TxValidationError::BlockExUnitsExceeded { resource, limit, total } => "Block execution units exceeded: "@
            + resource@
            + " limit="@
            + text::decimal(limit as nat)
            + ", total="@
            + text::decimal(total as nat),
        TxValidationError::OutputValueTooLarge { maximum, actual } => "Output value too large: maximum="@
            + text::decimal(maximum as nat)
            + ", actual="@
            + text::decimal(actual as nat),
        TxValidationError::MissingRawCbor => "Plutus transaction missing raw CBOR for script evaluation"@,
        TxValidationError::MissingSlotConfig => "Plutus transaction missing slot configuration for script evaluation"@,
        TxValidationError::MissingSpendRedeemer { index } => "Script-locked input at index "@
            + text::decimal(index as nat)
            + " has no matching Spend redeemer"@,
        TxValidationError::RedeemerIndexOutOfRange { tag, index, max } => "Redeemer index out of range: tag="@
            + tag@
            + ", index="@
            + text::decimal(index as nat)
            + ", max="@
            + text::decimal(max as nat),
        TxValidationError::MissingInputWitness { credential } => "Missing VKey witness for input credential: "@
            + credential@,
        TxValidationError::MissingScriptWitness { credential } => "Missing script witness for script-locked input: "@
            + credential@,
        TxValidationError::MissingWithdrawalWitness { credential } => "Missing VKey witness for withdrawal credential: "@
            + credential@,
        TxValidationError::MissingWithdrawalScriptWitness { credential } => "Missing script witness for script-locked withdrawal: "@
            + credential@,
        TxValidationError::Multiple(errors) => joined_text(errors@, errors@.len()),
    }
}

/// What the first `n` errors say, separated by `"; "`.
pub open spec fn joined_text(errors: Seq<TxValidationError>, n: nat) -> Seq<char>
    decreases errors, n,
{
    if n == 0 || n > errors.len() {
        Seq::empty()
    } else if n == 1 {
        error_text(errors[0])
    } else {
        joined_text(errors, (n - 1) as nat) + "; "@ + error_text(errors[n - 1])
    }
}

/// The single errors that an error stands for.
pub open spec fn errors_of(e: TxValidationError) -> Seq<TxValidationError> {
    match e {
        TxValidationError::Multiple(errors) => errors@,
        other => seq![other],
    }
}

fn push_error(s: &mut String, e: &TxValidationError)
    ensures
        final(s)@ == old(s)@ + error_text(*e),
    decreases e, 0nat,
{
    match e {
        TxValidationError::DecodeFailed { reason } => {
            push_text(s, "Failed to decode transaction: ");
            push_text(s, reason.as_str());
        },
        TxValidationError::LedgerStateUnavailable => {
            push_text(s, "Ledger state unavailable");
        },
        TxValidationError::NoInputs => {
            push_text(s, "No inputs in transaction");
        },
        TxValidationError::InputNotFound { input } => {
            push_text(s, "Input not found in UTxO set: ");
            push_text(s, input.as_str());
        },
        TxValidationError::ValueNotConserved { inputs, outputs, fee } => {
            push_text(s, "Value not conserved: inputs=");
            push_decimal(s, *inputs as u128);
            push_text(s, ", outputs=");
            push_decimal(s, *outputs as u128);
            push_text(s, ", fee=");
            push_decimal(s, *fee as u128);
        },
        TxValidationError::FeeTooSmall { minimum, actual } => {
            push_text(s, "Fee too small: minimum=");
            push_decimal(s, *minimum as u128);
            push_text(s, ", actual=");
            push_decimal(s, *actual as u128);
        },
        TxValidationError::OutputTooSmall { minimum, actual } => {
            push_text(s, "Output too small: minimum=");
            push_decimal(s, *minimum as u128);
            push_text(s, ", actual=");
            push_decimal(s, *actual as u128);
        },
        TxValidationError::TxTooLarge { maximum, actual } => {
            push_text(s, "Transaction too large: maximum=");
            push_decimal(s, *maximum as u128);
            push_text(s, ", actual=");
            push_decimal(s, *actual as u128);
        },
        TxValidationError::MissingRequiredSigner { signer } => {
            push_text(s, "Missing required signer: ");
            push_text(s, signer.as_str());
        },
        TxValidationError::MissingWitness { input } => {
            push_text(s, "Missing witness for input: ");
            push_text(s, input.as_str());
        },
        TxValidationError::TtlExpired { current_slot, ttl } => {
            push_text(s, "TTL expired: current_slot=");
            push_decimal(s, *current_slot as u128);
            push_text(s, ", ttl=");
            push_decimal(s, *ttl as u128);
        },
        TxValidationError::NotYetValid { current_slot, valid_from } => {
            push_text(s, "Transaction not yet valid: current_slot=");
            push_decimal(s, *current_slot as u128);
            push_text(s, ", valid_from=");
            push_decimal(s, *valid_from as u128);
        },
        TxValidationError::ScriptFailed { reason } => {
            push_text(s, "Script validation failed: ");
            push_text(s, reason.as_str());
        },
        TxValidationError::InsufficientCollateral => {
            push_text(s, "Insufficient collateral");
        },
        TxValidationError::TooManyCollateralInputs { max, actual } => {
            push_text(s, "Too many collateral inputs: max=");
            push_decimal(s, *max as u128);
            push_text(s, ", actual=");
            push_decimal(s, *actual as u128);
        },
        TxValidationError::CollateralNotFound { input } => {
            push_text(s, "Collateral input not found in UTxO set: ");
            push_text(s, input.as_str());
        },
        TxValidationError::CollateralHasTokens { input } => {
            push_text(s, "Collateral input contains tokens (must be pure ADA): ");
            push_text(s, input.as_str());
        },
        TxValidationError::CollateralMismatch { declared, computed } => {
            push_text(s, "Collateral mismatch: total_collateral=");
            push_decimal(s, *declared as u128);
            push_text(s, ", effective=");
            push_decimal(s, *computed as u128);
        },
        TxValidationError::ReferenceInputNotFound { input } => {
            push_text(s, "Reference input not found in UTxO set: ");
            push_text(s, input.as_str());
        },
        TxValidationError::ReferenceInputOverlapsInput { input } => {
            push_text(s, "Reference input overlaps with regular input: ");
            push_text(s, input.as_str());
        },
        TxValidationError::MultiAssetNotConserved { policy, input_side, output_side } => {
            push_text(s, "Multi-asset not conserved for policy ");
            push_text(s, policy.as_str());
            push_text(s, ": inputs+mint=");
            push_signed(s, *input_side);
            push_text(s, ", outputs=");
            push_signed(s, *output_side);
        },
        TxValidationError::InvalidMint => {
            push_text(s, "Negative minting without policy script");
        },
        TxValidationError::ExUnitsExceeded => {
            push_text(s, "Max execution units exceeded");
        },
        TxValidationError::ScriptDataHashMismatch { expected, actual } => {
            push_text(s, "Script data hash mismatch: expected ");
            push_text(s, expected.as_str());
            push_text(s, ", got ");
            push_text(s, actual.as_str());
        },
        TxValidationError::UnexpectedScriptDataHash => {
            push_text(s, "Script data hash present but no scripts or redeemers");
        },
        TxValidationError::MissingScriptDataHash => {
            push_text(s, "Missing script data hash (required when scripts/redeemers present)");
        },
        TxValidationError::DuplicateInput { input } => {
            push_text(s, "Duplicate input in transaction: ");
            push_text(s, input.as_str());
        },
        TxValidationError::NativeScriptFailed => {
            push_text(s, "Native script validation failed");
        },
        TxValidationError::InvalidWitnessSignature { vkey } => {
            push_text(s, "Witness signature verification failed for vkey: ");
            push_text(s, vkey.as_str());
        },
        TxValidationError::NetworkMismatch { expected, actual } => {
            push_text(s, "Output address network mismatch: expected ");
            push_text(s, expected.as_str());
            push_text(s, ", got ");
            push_text(s, actual.as_str());
        },
        TxValidationError::AuxiliaryDataHashWithoutData => {
            push_text(s, "Auxiliary data hash declared but no auxiliary data present");
        },
        TxValidationError::AuxiliaryDataWithoutHash => {
            push_text(s, "Auxiliary data present but no auxiliary data hash in tx body");
        },
        TxValidationError::BlockExUnitsExceeded { resource, limit, total } => {
            push_text(s, "Block execution units exceeded: ");
            push_text(s, resource.as_str());
            push_text(s, " limit=");
            push_decimal(s, *limit as u128);
            push_text(s, ", total=");
            push_decimal(s, *total as u128);
        },
        TxValidationError::OutputValueTooLarge { maximum, actual } => {
            push_text(s, "Output value too large: maximum=");
            push_decimal(s, *maximum as u128);
            push_text(s, ", actual=");
            push_decimal(s, *actual as u128);
        },
        TxValidationError::MissingRawCbor => {
            push_text(s, "Plutus transaction missing raw CBOR for script evaluation");
        },
        TxValidationError::MissingSlotConfig => {
            push_text(s, "Plutus transaction missing slot configuration for script evaluation");
        },
        TxValidationError::MissingSpendRedeemer { index } => {
            push_text(s, "Script-locked input at index ");
            push_decimal(s, *index as u128);
            push_text(s, " has no matching Spend redeemer");
        },
        TxValidationError::RedeemerIndexOutOfRange { tag, index, max } => {
            push_text(s, "Redeemer index out of range: tag=");
            push_text(s, tag.as_str());
            push_text(s, ", index=");
            push_decimal(s, *index as u128);
            push_text(s, ", max=");
            push_decimal(s, *max as u128);
        },
        TxValidationError::MissingInputWitness { credential } => {
            push_text(s, "Missing VKey witness for input credential: ");
            push_text(s, credential.as_str());
        },
        TxValidationError::MissingScriptWitness { credential } => {
            push_text(s, "Missing script witness for script-locked input: ");
            push_text(s, credential.as_str());
        },
        TxValidationError::MissingWithdrawalWitness { credential } => {
            push_text(s, "Missing VKey witness for withdrawal credential: ");
            push_text(s, credential.as_str());
        },
        TxValidationError::MissingWithdrawalScriptWitness { credential } => {
            push_text(s, "Missing script witness for script-locked withdrawal: ");
            push_text(s, credential.as_str());
        },
        TxValidationError::Multiple(errors) => {
            push_errors(s, errors);
        },
    }
}

fn push_errors(s: &mut String, errors: &Vec<TxValidationError>)
    ensures
        final(s)@ == old(s)@ + joined_text(errors@, errors@.len()),
    decreases errors, 1nat,
{
    let mut i: usize = 0;
    assert(s@ + joined_text(errors@, 0) =~= s@);
    while i < errors.len()
        invariant
            i <= errors.len(),
            s@ == old(s)@ + joined_text(errors@, i as nat),
        decreases errors.len() - i,
    {
        if i > 0 {
            push_text(s, "; ");
        } else {
            assert(old(s)@ + joined_text(errors@, 0) =~= old(s)@);
        }
        proof {
            broadcast use vstd::std_specs::vec::axiom_vec_index_decreases;

            assert(decreases_to!(errors => errors[i as int]));
        }
        push_error(s, &errors[i]);
        i += 1;
    }
}

/// What several errors say, separated by `"; "`.
pub fn format_multiple_errors(errors: &Vec<TxValidationError>) -> (r: String)
    ensures
        r@ == joined_text(errors@, errors@.len()),
{
    let mut s = String::new();
    push_errors(&mut s, errors);
    assert(s@ =~= joined_text(errors@, errors@.len()));
    s
}

impl TxValidationError {
    /// What the error says.
    pub fn to_string(&self) -> (r: String)
        ensures
            r@ == error_text(*self),
    {
        let mut s = String::new();
        push_error(&mut s, self);
        assert(s@ =~= error_text(*self));
        s
    }

    /// Whether the transaction did not decode.
    pub fn is_decode_error(&self) -> (b: bool)
        ensures
            b == (*self is DecodeFailed),
    {
        matches!(self, TxValidationError::DecodeFailed { .. })
    }

    /// Whether the failure lies with the node and not with the transaction.
    pub fn is_availability_error(&self) -> (b: bool)
        ensures
            b == (*self is LedgerStateUnavailable),
    {
        matches!(self, TxValidationError::LedgerStateUnavailable)
    }

    /// The single errors that this error stands for.
    pub fn errors(&self) -> (r: Vec<&TxValidationError>)
        ensures
            r@.map_values(|e: &TxValidationError| *e) == errors_of(*self),
    {
        let mut r: Vec<&TxValidationError> = Vec::new();
        match self {
            TxValidationError::Multiple(errors) => {
                let mut i: usize = 0;
                while i < errors.len()
                    invariant
                        i <= errors.len(),
                        r@.len() == i,
                        forall|j: int| 0 <= j < i ==> *(#[trigger] r@[j]) == errors@[j],
                    decreases errors.len() - i,
                {
                    r.push(&errors[i]);
                    i += 1;
                }
                assert(r@.map_values(|e: &TxValidationError| *e) =~= errors@);
            },
            other => {
                r.push(other);
                assert(r@.map_values(|e: &TxValidationError| *e) =~= errors_of(*self));
            },
        }
        r
    }
}

/// Validates transactions before they are admitted to the mempool, in both phases.
pub trait TxValidator: Send + Sync + 'static {
    /// Which errors `validate_tx` may return, `None` standing for success. A
    /// validator that does not define this may return any.
    open spec fn may_judge(&self, era_id: u16, tx: Seq<u8>, error: Option<TxValidationError>) -> bool {
        true
    }

    /// `Ok(())` if the transaction passes every check, else why it does not.
    fn validate_tx(&self, era_id: u16, tx_bytes: &[u8]) -> (r: Result<(), TxValidationError>)
        ensures
            self.may_judge(
                era_id,
                tx_bytes@,
                match r {
                    Ok(_) => None,
                    Err(e) => Some(e),
                },
            ),
    ;
}

// ---------------------------------------------------------------------------
// Mini-protocol numbers
// ---------------------------------------------------------------------------

/// Version negotiation.
pub const MINI_PROTOCOL_HANDSHAKE: u16 = 0;

/// LocalChainSync.
pub const MINI_PROTOCOL_CHAINSYNC: u16 = 5;

/// LocalTxSubmission.
pub const MINI_PROTOCOL_TX_SUBMISSION: u16 = 6;

/// LocalStateQuery.
pub const MINI_PROTOCOL_STATE_QUERY: u16 = 7;

/// LocalTxMonitor.
pub const MINI_PROTOCOL_TX_MONITOR: u16 = 9;

// ---------------------------------------------------------------------------
// Server errors
// ---------------------------------------------------------------------------

/// Why a client connection ends.
#[derive(Debug)]
pub enum N2CServerError {
    /// Reading or writing failed.
    Io(String),
    /// No version could be negotiated.
    HandshakeFailed(String),
    /// The client sent what the protocol does not allow.
    Protocol(String),
}

/// What a server error says.
pub open spec fn server_error_text(e: N2CServerError) -> Seq<char> {
    match e {
        N2CServerError::Io(s) => "IO error: "@ + s@,
        N2CServerError::HandshakeFailed(s) => "Handshake failed: "@ + s@,
        N2CServerError::Protocol(s) => "Protocol error: "@ + s@,
    }
}

impl N2CServerError {
    /// What the error says.
    pub fn to_string(&self) -> (r: String)
        ensures
            r@ == server_error_text(*self),
    {
        let mut s = String::new();
        match self {
            N2CServerError::Io(m) => {
                push_text(&mut s, "IO error: ");
                push_text(&mut s, m.as_str());
            },
            N2CServerError::HandshakeFailed(m) => {
                push_text(&mut s, "Handshake failed: ");
                push_text(&mut s, m.as_str());
            },
            N2CServerError::Protocol(m) => {
                push_text(&mut s, "Protocol error: ");
                push_text(&mut s, m.as_str());
            },
        }
        assert(s@ =~= server_error_text(*self));
        s
    }
}

/// What each error says: its fields stand in the text by name, or behind what is wrong.
pub proof fn lemma_error_texts(e: TxValidationError)
    ensures
        error_text(e) == (
        match e {
            TxValidationError::DecodeFailed { reason } => "Failed to decode transaction: "@
                + reason@,
            TxValidationError::LedgerStateUnavailable => "Ledger state unavailable"@,
            TxValidationError::NoInputs => "No inputs in transaction"@,
            TxValidationError::InputNotFound { input } => "Input not found in UTxO set: "@
                + input@,
            TxValidationError::ValueNotConserved { inputs, outputs, fee } => "Value not conserved: inputs="@
                + text::decimal(inputs as nat)
                + ", outputs="@
                + text::decimal(outputs as nat)
                + ", fee="@
                + text::decimal(fee as nat),
            TxValidationError::FeeTooSmall { minimum, actual } => "Fee too small: minimum="@
                + text::decimal(minimum as nat)
                + ", actual="@
                + text::decimal(actual as nat),
            TxValidationError::OutputTooSmall { minimum, actual } => "Output too small: minimum="@
                + text::decimal(minimum as nat)
                + ", actual="@
                + text::decimal(actual as nat),
            TxValidationError::TxTooLarge { maximum, actual } => "Transaction too large: maximum="@
                + text::decimal(maximum as nat)
                + ", actual="@
                + text::decimal(actual as nat),
            TxValidationError::MissingRequiredSigner { signer } => "Missing required signer: "@
                + signer@,
            TxValidationError::MissingWitness { input } => "Missing witness for input: "@
                + input@,
            TxValidationError::TtlExpired { current_slot, ttl } => "TTL expired: current_slot="@
                + text::decimal(current_slot as nat)
                + ", ttl="@
                + text::decimal(ttl as nat),
            TxValidationError::NotYetValid { current_slot, valid_from } => "Transaction not yet valid: current_slot="@
                + text::decimal(current_slot as nat)
                + ", valid_from="@
                + text::decimal(valid_from as nat),
            TxValidationError::ScriptFailed { reason } => "Script validation failed: "@
                + reason@,
            TxValidationError::InsufficientCollateral => "Insufficient collateral"@,
            TxValidationError::TooManyCollateralInputs { max, actual } => "Too many collateral inputs: max="@
                + text::decimal(max as nat)
                + ", actual="@
                + text::decimal(actual as nat),
            TxValidationError::CollateralNotFound { input } => "Collateral input not found in UTxO set: "@
                + input@,
            TxValidationError::CollateralHasTokens { input } => "Collateral input contains tokens (must be pure ADA): "@
                + input@,
            TxValidationError::CollateralMismatch { declared, computed } => "Collateral mismatch: total_collateral="@
                + text::decimal(declared as nat)
                + ", effective="@
                + text::decimal(computed as nat),
            TxValidationError::ReferenceInputNotFound { input } => "Reference input not found in UTxO set: "@
                + input@,
            TxValidationError::ReferenceInputOverlapsInput { input } => "Reference input overlaps with regular input: "@
                + input@,
            TxValidationError::MultiAssetNotConserved { policy, input_side, output_side } => "Multi-asset not conserved for policy "@
                + policy@
                + ": inputs+mint="@
                + text::signed_decimal(input_side as int)
                + ", outputs="@
                + text::signed_decimal(output_side as int),
            TxValidationError::InvalidMint => "Negative minting without policy script"@,
            TxValidationError::ExUnitsExceeded => "Max execution units exceeded"@,
            TxValidationError::ScriptDataHashMismatch { expected, actual } => "Script data hash mismatch: expected "@
                + expected@
                + ", got "@
                + actual@,
            TxValidationError::UnexpectedScriptDataHash => "Script data hash present but no scripts or redeemers"@,
            TxValidationError::MissingScriptDataHash => "Missing script data hash (required when scripts/redeemers present)"@,
            TxValidationError::DuplicateInput { input } => "Duplicate input in transaction: "@
                + input@,
            TxValidationError::NativeScriptFailed => "Native script validation failed"@,
            TxValidationError::InvalidWitnessSignature { vkey } => "Witness signature verification failed for vkey: "@
                + vkey@,
            TxValidationError::NetworkMismatch { expected, actual } => "Output address network mismatch: expected "@
                + expected@
                + ", got "@
                + actual@,
            TxValidationError::AuxiliaryDataHashWithoutData => "Auxiliary data hash declared but no auxiliary data present"@,
            TxValidationError::AuxiliaryDataWithoutHash => "Auxiliary data present but no auxiliary data hash in tx body"@,
            TxValidationError::BlockExUnitsExceeded { resource, limit, total } => "Block execution units exceeded: "@
                + resource@
                + " limit="@
                + text::decimal(limit as nat)
                + ", total="@
                + text::decimal(total as nat),
            TxValidationError::OutputValueTooLarge { maximum, actual } => "Output value too large: maximum="@
                + text::decimal(maximum as nat)
                + ", actual="@
                + text::decimal(actual as nat),
            TxValidationError::MissingRawCbor => "Plutus transaction missing raw CBOR for script evaluation"@,
            TxValidationError::MissingSlotConfig => "Plutus transaction missing slot configuration for script evaluation"@,
            TxValidationError::MissingSpendRedeemer { index } => "Script-locked input at index "@
                + text::decimal(index as nat)
                + " has no matching Spend redeemer"@,
            TxValidationError::RedeemerIndexOutOfRange { tag, index, max } => "Redeemer index out of range: tag="@
                + tag@
                + ", index="@
                + text::decimal(index as nat)
                + ", max="@
                + text::decimal(max as nat),
            TxValidationError::MissingInputWitness { credential } => "Missing VKey witness for input credential: "@
                + credential@,
            TxValidationError::MissingScriptWitness { credential } => "Missing script witness for script-locked input: "@
                + credential@,
            TxValidationError::MissingWithdrawalWitness { credential } => "Missing VKey witness for withdrawal credential: "@
                + credential@,
            TxValidationError::MissingWithdrawalScriptWitness { credential } => "Missing script witness for script-locked withdrawal: "@
                + credential@,
            TxValidationError::Multiple(errors) => joined_text(errors@, errors@.len()),
        }
        ),
{
}

/// Several errors are told one after another, with a semicolon between each two.
pub proof fn lemma_joined_texts(errors: Seq<TxValidationError>, n: nat)
    requires
        0 < n <= errors.len(),
    ensures
        n == 1 ==> joined_text(errors, n) == error_text(errors[0]),
        n > 1 ==> joined_text(errors, n) == joined_text(errors, (n - 1) as nat) + "; "@
            + error_text(errors[n - 1]),
        joined_text(errors, 0).len() == 0,
{
}

/// Several errors stand for each of them, any other error for itself.
pub proof fn lemma_errors_of(e: TxValidationError)
    ensures
        e matches TxValidationError::Multiple(errors) ==> errors_of(e) == errors@,
        !(e is Multiple) ==> errors_of(e) == seq![e],
{
}

/// What a server error says starts with its kind.
pub proof fn lemma_server_error_texts(m: String)
    ensures
        server_error_text(N2CServerError::Io(m)) == "IO error: "@ + m@,
        server_error_text(N2CServerError::HandshakeFailed(m)) == "Handshake failed: "@ + m@,
        server_error_text(N2CServerError::Protocol(m)) == "Protocol error: "@ + m@,
{
}

} // verus!
