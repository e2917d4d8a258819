//! LocalTxSubmission: a client submits transactions one at a time.
//!
//! | Tag | Message     | Contents                 |
//! |-----|-------------|--------------------------|
//! |   0 | MsgSubmitTx | `[0, [era, tx]]`         |
//! |   1 | MsgAcceptTx | `[1]`                    |
//! |   2 | MsgRejectTx | `[2, reason]`            |
//! |   3 | MsgDone     | `[3]`                    |
use crate::cbor;
use crate::cbor::{
    get_array, get_bytes, get_tag, get_u32, put_array, put_null, put_raw, put_str, put_u32,
    put_u64, put_u8,
};
use crate::mempool::{AddTxOutcome, MempoolProvider};
use crate::multiplexer::Segment;
use crate::n2c;
use crate::n2c::message;
use crate::n2c::message::{read_msg_tag, reply};
use crate::n2c::{N2CServerError, TxValidationError, TxValidator, MINI_PROTOCOL_TX_SUBMISSION};
use crate::text::push_text;
use crate::words;
use crate::words::Word;
use crate::n2c::query::reading;
use vstd::prelude::*;
use vstd::slice::slice_to_vec;
use vstd::string::StringExecFns;

verus! {

/// Index of the Conway era.
pub const CONWAY_ERA_IDX: u8 = 6;

// ---------------------------------------------------------------------------
// Accepting and rejecting
// ---------------------------------------------------------------------------

/// MsgAcceptTx: `[1]`.
pub open spec fn accept_bytes() -> Seq<u8> {
    cbor::array_head(1) + cbor::uint(1)
}

/// MsgRejectTx around the failures of the Conway ledger: `[2, [[6, failures]]]`.
pub open spec fn reject_bytes(failures: Seq<u8>) -> Seq<u8> {
    cbor::array_head(2)
        + cbor::uint(2)
        + (cbor::array_head(1) + (cbor::array_head(2) + cbor::uint(6) + failures))
}

/// A failure that is told in words: `[7, text]`.
pub open spec fn text_failure(text: Seq<char>) -> Seq<u8> {
    cbor::array_head(2) + cbor::uint(7) + cbor::text_item(text)
}

/// What goes before a failure of the UTxO rule: `[1, [0, ...]]`.
pub open spec fn utxo_failure_prefix() -> Seq<u8> {
    cbor::array_head(2) + cbor::uint(1) + (cbor::array_head(2) + cbor::uint(0))
}

/// A failure of the UTxO rule with two numbers.
pub open spec fn utxo_failure(tag: nat, a: u64, b: u64) -> Seq<u8> {
    utxo_failure_prefix()
        + (cbor::array_head(3) + cbor::uint(tag) + cbor::uint(a as nat) + cbor::uint(b as nat))
}

/// The sum, or the largest number where it does not fit.
pub open spec fn saturating_sum(a: u64, b: u64) -> u64 {
    if a + b > u64::MAX {
        u64::MAX
    } else {
        (a + b) as u64
    }
}

/// A validation error as a failure of the Conway ledger. An error that the ledger has
/// no failure for is told in words; of several errors the first one counts.
pub open spec fn ledger_failure(e: TxValidationError) -> Seq<u8>
    decreases e,
{
    match e {
        TxValidationError::NoInputs => utxo_failure_prefix() + (cbor::array_head(1) + cbor::uint(
            4,
        )),
        TxValidationError::FeeTooSmall { minimum, actual } => utxo_failure(5, minimum, actual),
        TxValidationError::TxTooLarge { maximum, actual } => utxo_failure(3, actual, maximum),
        TxValidationError::TtlExpired { current_slot, ttl } => utxo_failure_prefix()
            + (cbor::array_head(3)
                + cbor::uint(2)
                + (cbor::array_head(2) + cbor::null_item() + cbor::uint(ttl as nat))
                + cbor::uint(current_slot as nat)),
        TxValidationError::NotYetValid { current_slot, valid_from } => utxo_failure_prefix()
            + (cbor::array_head(3)
                + cbor::uint(2)
                + (cbor::array_head(2) + cbor::uint(valid_from as nat) + cbor::null_item())
                + cbor::uint(current_slot as nat)),
        TxValidationError::ValueNotConserved { inputs, outputs, fee } => utxo_failure(
            6,
            inputs,
            saturating_sum(outputs, fee),
        ),
        TxValidationError::TooManyCollateralInputs { max, actual } => utxo_failure(18, max, actual),
        TxValidationError::InsufficientCollateral => utxo_failure_prefix()
            + (cbor::array_head(1) + cbor::uint(19)),
        TxValidationError::Multiple(errors) => if errors@.len() > 0 {
            ledger_failure(errors@[0])
        } else {
            text_failure("Unknown validation error"@)
        },
        other => text_failure(n2c::error_text(other)),
    }
}

/// The failures that an error stands for, in an array.
pub open spec fn failures_bytes(e: TxValidationError) -> Seq<u8> {
    cbor::array_of(n2c::errors_of(e), |x: TxValidationError| ledger_failure(x))
}

/// A failure told in words, alone in an array.
pub open spec fn text_failures(text: Seq<char>) -> Seq<u8> {
    cbor::array_head(1) + text_failure(text)
}

/// MsgAcceptTx.
pub fn encode_tx_accept() -> (r: Result<Option<Segment>, N2CServerError>)
    ensures
        message::outcome(r) == message::Outcome::Reply(
            message::reply_view(MINI_PROTOCOL_TX_SUBMISSION, accept_bytes()),
        ),
{
    let mut buf: Vec<u8> = Vec::new();
    put_array(&mut buf, 1);
    put_u32(&mut buf, 1);
    assert(buf@ =~= accept_bytes());
    Ok(Some(reply(MINI_PROTOCOL_TX_SUBMISSION, buf)))
}

/// MsgRejectTx around encoded failures.
pub fn build_reject_envelope(failures: &[u8]) -> (r: Result<Option<Segment>, N2CServerError>)
    ensures
        message::outcome(r) == message::Outcome::Reply(
            message::reply_view(MINI_PROTOCOL_TX_SUBMISSION, reject_bytes(failures@)),
        ),
{
    let mut buf: Vec<u8> = Vec::new();
    put_array(&mut buf, 2);
    put_u32(&mut buf, 2);
    put_array(&mut buf, 1);
    put_array(&mut buf, 2);
    put_u8(&mut buf, CONWAY_ERA_IDX);
    put_raw(&mut buf, failures);
    assert(buf@ =~= reject_bytes(failures@));
    Ok(Some(reply(MINI_PROTOCOL_TX_SUBMISSION, buf)))
}

fn encode_utxo_failure_prefix(enc: &mut Vec<u8>)
    ensures
        final(enc)@ == old(enc)@ + utxo_failure_prefix(),
{
    broadcast use {crate::cbor::lemma_append_assoc, crate::cbor::lemma_append_empty};

    put_array(enc, 2);
    put_u8(enc, 1);
    put_array(enc, 2);
    put_u8(enc, 0);
}

fn put_utxo_failure(enc: &mut Vec<u8>, tag: u8, a: u64, b: u64)
    ensures
        final(enc)@ == old(enc)@ + utxo_failure(tag as nat, a, b),
{
    broadcast use {crate::cbor::lemma_append_assoc, crate::cbor::lemma_append_empty};

    encode_utxo_failure_prefix(enc);
    put_array(enc, 3);
    put_u8(enc, tag);
    put_u64(enc, a);
    put_u64(enc, b);
}

/// Appends a failure told in words.
pub fn encode_mempool_failure_text(enc: &mut Vec<u8>, text: &str)
    ensures
        final(enc)@ == old(enc)@ + text_failure(text@),
{
    broadcast use {crate::cbor::lemma_append_assoc, crate::cbor::lemma_append_empty};

    put_array(enc, 2);
    put_u8(enc, 7);
    put_str(enc, text);
}

/// Appends a validation error as a failure of the Conway ledger.
pub fn encode_conway_ledger_failure(enc: &mut Vec<u8>, error: &TxValidationError)
    ensures
        final(enc)@ == old(enc)@ + ledger_failure(*error),
    decreases error,
{
    broadcast use {crate::cbor::lemma_append_assoc, crate::cbor::lemma_append_empty};

    match error {
        TxValidationError::NoInputs => {
            encode_utxo_failure_prefix(enc);
            put_array(enc, 1);
            put_u8(enc, 4);
        },
        TxValidationError::FeeTooSmall { minimum, actual } => {
            put_utxo_failure(enc, 5, *minimum, *actual);
        },
        TxValidationError::TxTooLarge { maximum, actual } => {
            put_utxo_failure(enc, 3, *actual, *maximum);
        },
        TxValidationError::TtlExpired { current_slot, ttl } => {
            encode_utxo_failure_prefix(enc);
            put_array(enc, 3);
            put_u8(enc, 2);
            put_array(enc, 2);
            put_null(enc);
            put_u64(enc, *ttl);
            put_u64(enc, *current_slot);
        },
        TxValidationError::NotYetValid { current_slot, valid_from } => {
            encode_utxo_failure_prefix(enc);
            put_array(enc, 3);
            put_u8(enc, 2);
            put_array(enc, 2);
            put_u64(enc, *valid_from);
            put_null(enc);
            put_u64(enc, *current_slot);
        },
        TxValidationError::ValueNotConserved { inputs, outputs, fee } => {
            put_utxo_failure(enc, 6, *inputs, outputs.saturating_add(*fee));
        },
        TxValidationError::TooManyCollateralInputs { max, actual } => {
            put_utxo_failure(enc, 18, *max, *actual);
        },
        TxValidationError::InsufficientCollateral => {
            encode_utxo_failure_prefix(enc);
            put_array(enc, 1);
            put_u8(enc, 19);
        },
        TxValidationError::Multiple(errors) => {
            if errors.len() > 0 {
                proof {
                    broadcast use vstd::std_specs::vec::axiom_vec_index_decreases;

                    assert(decreases_to!(errors => errors[0]));
                }
                encode_conway_ledger_failure(enc, &errors[0]);
            } else {
                encode_mempool_failure_text(enc, "Unknown validation error");
            }
        },
        other => {
            encode_mempool_failure_text(enc, other.to_string().as_str());
        },
    }
}

/// MsgRejectTx with the failures that an error stands for.
pub fn encode_tx_reject(error: &TxValidationError) -> (r: Result<Option<Segment>, N2CServerError>)
    ensures
        message::outcome(r) == message::Outcome::Reply(
            message::reply_view(MINI_PROTOCOL_TX_SUBMISSION, reject_bytes(failures_bytes(*error))),
        ),
{
    let errors = error.errors();
    let ghost s = errors@.map_values(|e: &TxValidationError| *e);
    let ghost f = |x: TxValidationError| ledger_failure(x);
    let mut enc: Vec<u8> = Vec::new();
    put_array(&mut enc, errors.len() as u64);
    let ghost pre = enc@;
    let mut i: usize = 0;
    assert(enc@ =~= pre + cbor::concat_map(s.take(0), f));
    while i < errors.len()
        invariant
            i <= errors.len(),
            s == errors@.map_values(|e: &TxValidationError| *e),
            f == (|x: TxValidationError| ledger_failure(x)),
            enc@ == pre + cbor::concat_map(s.take(i as int), f),
        decreases errors.len() - i,
    {
        proof {
            cbor::lemma_concat_map_step(s, f, i as int);
            cbor::lemma_append_assoc(pre, cbor::concat_map(s.take(i as int), f), f(s[i as int]));
        }
        encode_conway_ledger_failure(&mut enc, errors[i]);
        i += 1;
    }
    assert(s.take(errors.len() as int) =~= s);
    assert(enc@ =~= failures_bytes(*error));
    build_reject_envelope(&enc)
}

/// MsgRejectTx with a reason in words.
pub fn encode_tx_reject_str(reason: &str) -> (r: Result<Option<Segment>, N2CServerError>)
    ensures
        message::outcome(r) == message::Outcome::Reply(
            message::reply_view(MINI_PROTOCOL_TX_SUBMISSION, reject_bytes(text_failures(reason@))),
        ),
{
    let mut enc: Vec<u8> = Vec::new();
    put_array(&mut enc, 1);
    encode_mempool_failure_text(&mut enc, reason);
    assert(enc@ =~= text_failures(reason@));
    build_reject_envelope(&enc)
}

// ---------------------------------------------------------------------------
// Submitting
// ---------------------------------------------------------------------------

/// The era and the bytes of the transaction at `p`: an array of two, the era and a
/// byte string, which tag 24 marks as embedded CBOR. Clients that leave out the tag are
/// understood; any other tag is not.
pub open spec fn submitted_tx(b: Seq<u8>, p: int) -> Option<(u16, Seq<u8>)> {
    let a = cbor::len_at(b, p, 4);
    let era = cbor::uint_at(b, a.end, u32::MAX as nat);
    let tag = cbor::head_at(b, era.end, 6);
    let tx = cbor::bytes_at(b, if tag.value is Some { tag.end } else { era.end });
    if a.value == Some(Some(2nat)) && era.value is Some && (tag.value is None || tag.value == Some(
        24nat,
    )) && tx.value is Some {
        Some(((era.value->0 % 0x1_0000) as u16, tx.value->0))
    } else {
        None
    }
}

/// Reads the era and the bytes of a submitted transaction.
pub fn extract_submitted_tx(b: &[u8], pos: usize) -> (r: Option<(u16, Vec<u8>)>)
    ensures
        r is Some <==> submitted_tx(b@, pos as int) is Some,
        r matches Some(x) ==> (x.0, x.1@) == submitted_tx(b@, pos as int).unwrap(),
{
    let mut p: usize = pos;
    match get_array(b, &mut p) {
        Ok(Some(2)) => {},
        _ => {
            return None;
        },
    }
    let era: u32 = match get_u32(b, &mut p) {
        Ok(n) => n,
        Err(_) => {
            return None;
        },
    };
    let mut after_tag: usize = p;
    match get_tag(b, &mut after_tag) {
        Some(24) => {
            p = after_tag;
        },
        Some(_) => {
            return None;
        },
        None => {},
    }
    match get_bytes(b, &mut p) {
        Ok(tx) => Some(((era % 0x1_0000) as u16, slice_to_vec(tx))),
        Err(_) => None,
    }
}

/// What validation and mempool made of a submitted transaction.
#[derive(Debug)]
pub enum SubmissionResult {
    /// The validator refused it.
    Invalid(TxValidationError),
    /// The mempool took it.
    Added,
    /// The mempool had it.
    AlreadyExists,
    /// It does not decode.
    Undecodable(String),
    /// The mempool did not take it.
    Refused(String),
}

/// Whether a submission is turned down.
pub open spec fn turned_down(s: SubmissionResult) -> bool {
    !(s is Added || s is AlreadyExists)
}

/// The reply to a submission.
pub open spec fn submission_reply(s: SubmissionResult) -> Seq<u8> {
    match s {
        SubmissionResult::Invalid(e) => reject_bytes(failures_bytes(e)),
        SubmissionResult::Added => accept_bytes(),
        SubmissionResult::AlreadyExists => accept_bytes(),
        SubmissionResult::Undecodable(e) => reject_bytes(
            text_failures("Failed to decode transaction: "@ + e@),
        ),
        SubmissionResult::Refused(e) => reject_bytes(text_failures(e@)),
    }
}

/// The reply to a submission.
pub fn answer_submission(s: &SubmissionResult) -> (r: Result<Option<Segment>, N2CServerError>)
    ensures
        message::outcome(r) == message::Outcome::Reply(
            message::reply_view(MINI_PROTOCOL_TX_SUBMISSION, submission_reply(*s)),
        ),
{
    match s {
        SubmissionResult::Invalid(e) => encode_tx_reject(e),
        SubmissionResult::Added => encode_tx_accept(),
        SubmissionResult::AlreadyExists => encode_tx_accept(),
        SubmissionResult::Undecodable(e) => {
            let mut text = String::from_str("Failed to decode transaction: ");
            push_text(&mut text, e.as_str());
            encode_tx_reject_str(text.as_str())
        },
        SubmissionResult::Refused(e) => encode_tx_reject_str(e.as_str()),
    }
}

/// What becomes of the message `b` if a submission in it meets with `s`, and whether
/// it counts as a rejection.
pub open spec fn submission_outcome(b: Seq<u8>, s: SubmissionResult) -> (message::Outcome, bool) {
    match message::msg_tag(b) {
        message::MsgTag::Tag(tag, end) => if tag == 0 {
            match submitted_tx(b, end) {
                Some(_) => (
                    message::Outcome::Reply(
                        message::reply_view(MINI_PROTOCOL_TX_SUBMISSION, submission_reply(s)),
                    ),
                    turned_down(s),
                ),
                None => (
                    message::Outcome::Reply(
                        message::reply_view(
                            MINI_PROTOCOL_TX_SUBMISSION,
                            reject_bytes(text_failures("Failed to decode submitted transaction"@)),
                        ),
                    ),
                    true,
                ),
            }
        } else {
            (message::Outcome::Silent, false)
        },
        message::MsgTag::Invalid => (
            message::Outcome::ProtocolError("invalid tx submission message"@),
            false,
        ),
        message::MsgTag::Bad(m) => (
            message::Outcome::ProtocolError("bad tx submission msg tag: "@ + m),
            false,
        ),
    }
}

/// What the outcome in the mempool makes of a submission.
pub open spec fn result_of(o: AddTxOutcome) -> SubmissionResult {
    match o {
        AddTxOutcome::Added => SubmissionResult::Added,
        AddTxOutcome::AlreadyExists => SubmissionResult::AlreadyExists,
        AddTxOutcome::Undecodable(e) => SubmissionResult::Undecodable(e),
        AddTxOutcome::Refused(e) => SubmissionResult::Refused(e),
    }
}

/// Whether validator and mempool may make `s` of a transaction: the validator is asked
/// first, if there is one, and the mempool only gets what passed.
pub open spec fn may_result<V: TxValidator, M: MempoolProvider>(
    mempool: &M,
    tx_validator: Option<&V>,
    era_id: u16,
    tx: Seq<u8>,
    s: SubmissionResult,
) -> bool {
    match s {
        SubmissionResult::Invalid(e) => tx_validator matches Some(v) && v.may_judge(
            era_id,
            tx,
            Some(e),
        ),
        _ => {
            &&& tx_validator matches Some(v) ==> v.may_judge(era_id, tx, None)
            &&& exists|o: AddTxOutcome| #[trigger]
                mempool.may_add(era_id, tx, o) && s == result_of(o)
        },
    }
}

/// Validates a transaction, if there is a validator, and hands it to the mempool.
fn submit<V: TxValidator, M: MempoolProvider>(
    era_id: u16,
    tx: &Vec<u8>,
    mempool: &M,
    tx_validator: Option<&V>,
) -> (s: SubmissionResult)
    requires
        (tx_validator matches Some(v) ==> v.may_judge(era_id, tx@, None))
            ==> mempool.may_be_offered(era_id, tx@),
    ensures
        may_result(mempool, tx_validator, era_id, tx@, s),
{
    if let Some(validator) = tx_validator {
        if let Err(e) = validator.validate_tx(era_id, tx.as_slice()) {
            return SubmissionResult::Invalid(e);
        }
    }
    let o = mempool.add_tx(era_id, tx.as_slice());
    assert(mempool.may_add(era_id, tx@, o));
    match o {
        AddTxOutcome::Added => SubmissionResult::Added,
        AddTxOutcome::AlreadyExists => SubmissionResult::AlreadyExists,
        AddTxOutcome::Undecodable(e) => SubmissionResult::Undecodable(e),
        AddTxOutcome::Refused(e) => SubmissionResult::Refused(e),
    }
}

/// A counter after one more count, if there is one; it starts again at 0 behind the
/// largest number.
pub open spec fn counted(n: u64, count: bool) -> u64 {
    if !count {
        n
    } else if n == u64::MAX {
        0
    } else {
        (n + 1) as u64
    }
}

/// The transaction that the message `b` submits, if it submits one.
pub open spec fn submission_in(b: Seq<u8>) -> Option<(u16, Seq<u8>)> {
    match message::msg_tag(b) {
        message::MsgTag::Tag(tag, end) if tag == 0 => submitted_tx(b, end),
        _ => None,
    }
}

/// Whether the mempool may be offered the transaction that the message `b` submits, if it
/// submits one, once the validator, if there is one, has let it pass. Nothing else may be
/// offered on account of the message.
pub open spec fn admits<V: TxValidator, M: MempoolProvider>(
    mempool: &M,
    tx_validator: Option<&V>,
    b: Seq<u8>,
) -> bool {
    submission_in(b) matches Some(t) ==> {
        (tx_validator matches Some(v) ==> v.may_judge(t.0, t.1, None))
            ==> mempool.may_be_offered(t.0, t.1)
    }
}

/// Whether the message `b` may lead to `o` and change the number of rejections from `n`
/// to `n2`, whatever validator and mempool make of the transaction in it.
pub open spec fn may_lead<V: TxValidator, M: MempoolProvider>(
    b: Seq<u8>,
    mempool: &M,
    tx_validator: Option<&V>,
    n: u64,
    n2: u64,
    o: message::Outcome,
) -> bool {
    exists|s: SubmissionResult|
        {
            &&& (o, n2) == (
                (#[trigger] submission_outcome(b, s)).0,
                counted(n, submission_outcome(b, s).1),
            )
            &&& submission_in(b) matches Some(tx) ==> may_result(
                mempool,
                tx_validator,
                tx.0,
                tx.1,
                s,
            )
        }
}

/// Answers a message of LocalTxSubmission. A submitted transaction is validated, if
/// there is a validator, and handed to the mempool if it passes; whatever they make of it
/// decides the reply. Rejections are counted.
pub fn handle_tx_submission<V: TxValidator, M: MempoolProvider>(
    payload: &[u8],
    mempool: &M,
    tx_validator: Option<&V>,
    rejections: &mut u64,
) -> (r: Result<Option<Segment>, N2CServerError>)
    requires
        admits(mempool, tx_validator, payload@),
    ensures
        may_lead(
            payload@,
            mempool,
            tx_validator,
            *old(rejections),
            *final(rejections),
            message::outcome(r),
        ),
{
    let mut pos: usize = 0;
    let tag: u32 = match read_msg_tag(
        payload,
        &mut pos,
        "invalid tx submission message",
        "bad tx submission msg tag: ",
    ) {
        Ok(tag) => tag,
        Err(e) => {
            assert(message::failure(e) == submission_outcome(
                payload@,
                SubmissionResult::Added,
            ).0);
            return Err(e);
        },
    };
    if tag != 0 {
        assert(submission_outcome(payload@, SubmissionResult::Added)
            == (message::Outcome::Silent, false));
        return Ok(None);
    }
    match extract_submitted_tx(payload, pos) {
        Some((era_id, tx)) => {
            let s = submit(era_id, &tx, mempool, tx_validator);
            match &s {
                SubmissionResult::Added => {},
                SubmissionResult::AlreadyExists => {},
                _ => {
                    *rejections = rejections.wrapping_add(1);
                },
            }
            let r = answer_submission(&s);
            assert(message::outcome(r) == submission_outcome(payload@, s).0);
            r
        },
        None => {
            *rejections = rejections.wrapping_add(1);
            let r = encode_tx_reject_str("Failed to decode submitted transaction");
            assert(message::outcome(r) == submission_outcome(
                payload@,
                SubmissionResult::Added,
            ).0);
            r
        },
    }
}

// ---------------------------------------------------------------------------
// Laws
// ---------------------------------------------------------------------------

/// A client reads a rejection as 2 around the failures, which are those of the era with
/// index 6.
pub open spec fn rejects(payload: Seq<u8>, failures: Seq<Word>) -> bool {
    words::spells(
        payload,
        words::arr(2) + words::num(2) + (words::arr(1) + (words::arr(2) + words::num(6)
            + failures)),
    )
}

/// A transaction that was added, or was there already, is accepted. One that is not valid is
/// rejected with the failures that the validator found; one that does not decode, or that the
/// mempool does not take, is rejected with a text that says why.
pub proof fn lemma_replies_are_read(s: SubmissionResult, failures: Seq<Word>)
    requires
        match s {
            SubmissionResult::Invalid(e) => words::spells(failures_bytes(e), failures),
            SubmissionResult::Undecodable(e) => vstd::utf8::encode_utf8(
                "Failed to decode transaction: "@ + e@,
            ).len() <= u64::MAX,
            SubmissionResult::Refused(e) => vstd::utf8::encode_utf8(e@).len() <= u64::MAX,
            _ => true,
        },
    ensures
        match s {
            SubmissionResult::Added => words::spells(
                submission_reply(s),
                words::arr(1) + words::num(1),
            ),
            SubmissionResult::AlreadyExists => words::spells(
                submission_reply(s),
                words::arr(1) + words::num(1),
            ),
            SubmissionResult::Invalid(e) => rejects(submission_reply(s), failures),
            SubmissionResult::Undecodable(e) => rejects(
                submission_reply(s),
                words::arr(1) + (words::arr(2) + words::num(7) + words::txt(
                    "Failed to decode transaction: "@ + e@,
                )),
            ),
            SubmissionResult::Refused(e) => rejects(
                submission_reply(s),
                words::arr(1) + (words::arr(2) + words::num(7) + words::txt(e@)),
            ),
        },
{
    broadcast use words::group_words;

}

/// A failure of the UTxO rule is read behind 1 and 0.
pub open spec fn utxo_rule(payload: Seq<u8>, failure: Seq<Word>) -> bool {
    words::spells(
        payload,
        words::arr(2) + words::num(1) + (words::arr(2) + words::num(0)) + failure,
    )
}

/// Each validation error that the ledger has a failure for is read as that failure, with its
/// numbers in the places where the ledger has them: what was supplied and what was expected,
/// or the bounds of validity and the current slot. Any other error is read as a text.
pub proof fn lemma_failures_are_read(e: TxValidationError)
    ensures
        ({
            let b = ledger_failure(e);
            match e {
                TxValidationError::NoInputs => utxo_rule(b, words::arr(1) + words::num(4)),
                TxValidationError::FeeTooSmall { minimum, actual } => utxo_rule(
                    b,
                    words::arr(3) + words::num(5) + words::num(minimum as nat) + words::num(
                        actual as nat,
                    ),
                ),
                TxValidationError::TxTooLarge { maximum, actual } => utxo_rule(
                    b,
                    words::arr(3) + words::num(3) + words::num(actual as nat) + words::num(
                        maximum as nat,
                    ),
                ),
                TxValidationError::TtlExpired { current_slot, ttl } => utxo_rule(
                    b,
                    words::arr(3) + words::num(2) + (words::arr(2) + words::null() + words::num(
                        ttl as nat,
                    )) + words::num(current_slot as nat),
                ),
                TxValidationError::NotYetValid { current_slot, valid_from } => utxo_rule(
                    b,
                    words::arr(3) + words::num(2) + (words::arr(2) + words::num(valid_from as nat)
                        + words::null()) + words::num(current_slot as nat),
                ),
                TxValidationError::ValueNotConserved { inputs, outputs, fee } => utxo_rule(
                    b,
                    words::arr(3) + words::num(6) + words::num(inputs as nat) + words::num(
                        if outputs + fee <= u64::MAX {
                            (outputs + fee) as nat
                        } else {
                            u64::MAX as nat
                        },
                    ),
                ),
                TxValidationError::TooManyCollateralInputs { max, actual } => utxo_rule(
                    b,
                    words::arr(3) + words::num(18) + words::num(max as nat) + words::num(
                        actual as nat,
                    ),
                ),
                TxValidationError::InsufficientCollateral => utxo_rule(
                    b,
                    words::arr(1) + words::num(19),
                ),
                TxValidationError::Multiple(errors) => errors@.len() > 0 ==> b == ledger_failure(
                    errors@[0],
                ),
                other => vstd::utf8::encode_utf8(n2c::error_text(other)).len() <= u64::MAX
                    ==> words::spells(
                    b,
                    words::arr(2) + words::num(7) + words::txt(n2c::error_text(other)),
                ),
            }
        }),
{
    match e {
        TxValidationError::Multiple(errors) => {},
        TxValidationError::NoInputs => {
            broadcast use words::group_words;

        },
        TxValidationError::FeeTooSmall { minimum, actual } => {
            broadcast use words::group_words;

        },
        TxValidationError::TxTooLarge { maximum, actual } => {
            broadcast use words::group_words;

        },
        TxValidationError::TtlExpired { current_slot, ttl } => {
            broadcast use words::group_words;

        },
        TxValidationError::NotYetValid { current_slot, valid_from } => {
            broadcast use words::group_words;

        },
        TxValidationError::ValueNotConserved { inputs, outputs, fee } => {
            broadcast use words::group_words;

        },
        TxValidationError::TooManyCollateralInputs { max, actual } => {
            broadcast use words::group_words;

        },
        TxValidationError::InsufficientCollateral => {
            broadcast use words::group_words;

        },
        other => {
            lemma_text_failure_is_read(n2c::error_text(other));
            assert(ledger_failure(e) == text_failure(n2c::error_text(other)));
        },
    }
}

proof fn lemma_text_failure_is_read(text: Seq<char>)
    ensures
        vstd::utf8::encode_utf8(text).len() <= u64::MAX ==> words::spells(
            text_failure(text),
            words::arr(2) + words::num(7) + words::txt(text),
        ),
{
    broadcast use words::group_words;

}

/// The failures that an error stands for are read in their order: those of several errors one
/// after the other, else the error alone.
pub proof fn lemma_all_failures_are_read(
    e: TxValidationError,
    each_failure: spec_fn(TxValidationError) -> Seq<Word>,
)
    requires
        e matches TxValidationError::Multiple(errors) ==> forall|i: int|
            0 <= i < errors@.len() ==> words::spells(
                ledger_failure(#[trigger] errors@[i]),
                each_failure(errors@[i]),
            ),
        !(e is Multiple) ==> words::spells(ledger_failure(e), each_failure(e)),
    ensures
        e matches TxValidationError::Multiple(errors) ==> words::spells(
            failures_bytes(e),
            words::arr_of(errors@, |x: TxValidationError| each_failure(x)),
        ),
        !(e is Multiple) ==> words::spells(
            failures_bytes(e),
            words::arr_of(seq![e], |x: TxValidationError| each_failure(x)),
        ),
{
    let f = |x: TxValidationError| ledger_failure(x);
    let g = |x: TxValidationError| each_failure(x);
    let s = n2c::errors_of(e);
    if let TxValidationError::Multiple(errors) = e {
        assert(errors.len() == errors@.len());
        assert forall|i: int| 0 <= i < s.len() implies words::spells(
            f(#[trigger] s[i]),
            g(s[i]),
        ) by {
            assert(s[i] == errors@[i]);
        }
    } else {
        assert(s =~= seq![e]);
    }
    words::lemma_arr_of(s, f, g);
}

/// A message that submits a transaction in its era, marked as embedded or not, submits just
/// that transaction; an era beyond 16 bits is cut.
pub proof fn lemma_submission_is_read(b: Seq<u8>, era: u32, tx: Seq<u8>, marked: bool)
    requires
        words::spells(
            b,
            words::arr(2) + words::num(0) + (words::arr(2) + words::num(era as nat) + if marked {
                words::tag(24) + words::bin(tx)
            } else {
                words::bin(tx)
            }),
        ),
    ensures
        submission_in(b) == Some(((era % 0x1_0000) as u16, tx)),
{
    reveal(words::spells);
    let q = b.len() as int;
    let last = if marked {
        words::tag(24) + words::bin(tx)
    } else {
        words::bin(tx)
    };
    let m = words::lemma_reads_split(
        b,
        0,
        words::arr(2) + words::num(0),
        words::arr(2) + words::num(era as nat) + last,
        q,
    );
    message::lemma_tag_is_read(b, 2, 0, m);
    let k = words::lemma_reads_split(b, m, words::arr(2) + words::num(era as nat), last, q);
    let j = words::lemma_reads_split(b, m, words::arr(2), words::num(era as nat), k);
    words::lemma_array_at(b, m, 2, j);
    words::lemma_number_at(b, j, era as nat, k);
    if marked {
        let h = words::lemma_reads_split(b, k, words::tag(24), words::bin(tx), q);
        words::lemma_tag_at(b, k, 24, h);
        words::lemma_bytes_at(b, h, tx, q);
    } else {
        words::lemma_bytes_at(b, k, tx, q);
        assert(cbor::major_of(b[k]) == 2);
    }
}

/// A submitted transaction is accepted exactly where the validator, if there is one, lets it
/// pass and the mempool adds it or has it already; every other one is rejected, and counted.
pub proof fn lemma_what_is_accepted<V: TxValidator, M: MempoolProvider>(
    b: Seq<u8>,
    mempool: &M,
    tx_validator: Option<&V>,
    n: u64,
    n2: u64,
    o: message::Outcome,
)
    requires
        submission_in(b) is Some,
        may_lead(b, mempool, tx_validator, n, n2, o),
        n < u64::MAX,
    ensures
        ({
            let t = submission_in(b)->0;
            let passes = tx_validator matches Some(v) ==> v.may_judge(t.0, t.1, None);
            o matches message::Outcome::Reply(g) && g.protocol_id == 6 && {
                ||| passes && (mempool.may_add(t.0, t.1, AddTxOutcome::Added) || mempool.may_add(
                    t.0,
                    t.1,
                    AddTxOutcome::AlreadyExists,
                )) && n2 == n && words::spells(g.payload, words::arr(1) + words::num(1))
                ||| n2 == n + 1 && exists|s: SubmissionResult|
                    {
                        &&& g.payload == #[trigger] submission_reply(s)
                        &&& match s {
                            SubmissionResult::Invalid(e) => tx_validator matches Some(v)
                                && v.may_judge(t.0, t.1, Some(e)),
                            SubmissionResult::Undecodable(e) => passes && mempool.may_add(
                                t.0,
                                t.1,
                                AddTxOutcome::Undecodable(e),
                            ),
                            SubmissionResult::Refused(e) => passes && mempool.may_add(
                                t.0,
                                t.1,
                                AddTxOutcome::Refused(e),
                            ),
                            _ => false,
                        }
                    }
            }
        }),
{
    let t = submission_in(b)->0;
    let s = choose|s: SubmissionResult|
        {
            &&& (o, n2) == (
                (#[trigger] submission_outcome(b, s)).0,
                counted(n, submission_outcome(b, s).1),
            )
            &&& submission_in(b) matches Some(tx) ==> may_result(
                mempool,
                tx_validator,
                tx.0,
                tx.1,
                s,
            )
        };
    lemma_accept_is_read();
    assert(submission_outcome(b, s).0 == message::Outcome::Reply(
        message::reply_view(MINI_PROTOCOL_TX_SUBMISSION, submission_reply(s)),
    ));
    if !(s is Invalid) {
        let p = choose|p: AddTxOutcome| #[trigger]
            mempool.may_add(t.0, t.1, p) && s == result_of(p);
        assert(mempool.may_add(t.0, t.1, p));
    }
}

proof fn lemma_accept_is_read()
    ensures
        words::spells(accept_bytes(), words::arr(1) + words::num(1)),
{
    broadcast use words::group_words;

}

/// A message that is to submit a transaction but holds none is rejected with a text, and
/// counted; other messages are not answered; what is no message breaks the protocol.
pub proof fn lemma_messages_without_a_transaction(b: Seq<u8>, s: SubmissionResult)
    requires
        submission_in(b) is None,
    ensures
        match message::msg_tag(b) {
            message::MsgTag::Tag(tag, _) => if tag == 0 {
                submission_outcome(b, s).1 && (submission_outcome(b, s).0 matches
                    message::Outcome::Reply(g) && g.protocol_id == 6 && rejects(
                    g.payload,
                    words::arr(1) + (words::arr(2) + words::num(7) + words::txt(
                        "Failed to decode submitted transaction"@,
                    )),
                ))
            } else {
                submission_outcome(b, s) == (message::Outcome::Silent, false)
            },
            message::MsgTag::Invalid => submission_outcome(b, s) == (
                message::Outcome::ProtocolError("invalid tx submission message"@),
                false,
            ),
            message::MsgTag::Bad(m) => submission_outcome(b, s) == (
                message::Outcome::ProtocolError("bad tx submission msg tag: "@ + m),
                false,
            ),
        },
{
    broadcast use words::group_words;

    reveal_strlit("Failed to decode submitted transaction");
    reading::lemma_short_text_fits("Failed to decode submitted transaction"@);
    assert(rejects(
        reject_bytes(text_failures("Failed to decode submitted transaction"@)),
        words::arr(1) + (words::arr(2) + words::num(7) + words::txt(
            "Failed to decode submitted transaction"@,
        )),
    ));
}

/// All that a mempool has to be ready for on account of a message is the transaction that the
/// message submits, and that only if the validator, if there is one, may let it pass.
pub proof fn lemma_only_what_passed_is_offered<V: TxValidator, M: MempoolProvider>(
    mempool: &M,
    tx_validator: Option<&V>,
    b: Seq<u8>,
)
    requires
        forall|era_id: u16, tx: Seq<u8>|
            submission_in(b) == Some((era_id, tx)) && (tx_validator matches Some(v)
                ==> v.may_judge(era_id, tx, None)) ==> #[trigger] mempool.may_be_offered(
                era_id,
                tx,
            ),
    ensures
        admits(mempool, tx_validator, b),
{
}

} // verus!
