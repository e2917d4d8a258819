//! DReps, committee, constitution and proposals.
use crate::cbor;
use crate::cbor::{
    put_array, put_bool, put_bytes, put_map, put_null, put_str, put_tag, put_u32, put_u64, put_u8,
};
use crate::n2c::query::ledger;
use crate::n2c::query::ledger::{put_credential, put_zero_hash};
use crate::n2c::query::protocol;
use crate::n2c::query::protocol::{encode_protocol_params_cbor, encode_tagged_rational, put_pair};
use crate::order;
use crate::order::sort_bytes;
use crate::query_handler::{
    CommitteeMemberSnapshot, CommitteeSnapshot, DRepSnapshot, GovActionId, GovStateSnapshot,
    ProposalSnapshot,
};
use vstd::prelude::*;

verus! {

// ---------------------------------------------------------------------------
// Proposals
// ---------------------------------------------------------------------------

/// Identifier of a governance action: `[tx hash, index]`.
pub open spec fn action_id(tx_id: Seq<u8>, index: u32) -> Seq<u8> {
    cbor::array_head(2) + cbor::bytes_item(tx_id) + cbor::uint(index as nat)
}

/// An anchor: `[url, hash]`.
pub open spec fn anchor(url: Seq<char>, hash: Seq<u8>) -> Seq<u8> {
    cbor::array_head(2) + cbor::text_item(url) + cbor::bytes_item(hash)
}

/// The action of a proposal, of which only the type is known: everything else is
/// empty. A type without a name here is an information action.
pub open spec fn gov_action_bytes(action_type: Seq<char>) -> Seq<u8> {
    if action_type == "ParameterChange"@ {
        cbor::array_head(4)
            + cbor::uint(0)
            + cbor::null_item()
            + cbor::map_head(0)
            + cbor::null_item()
    } else if action_type == "HardForkInitiation"@ {
        cbor::array_head(3) + cbor::uint(1) + cbor::null_item() + protocol::pair(0, 0)
    } else if action_type == "TreasuryWithdrawals"@ {
        cbor::array_head(3) + cbor::uint(2) + cbor::map_head(0) + cbor::null_item()
    } else if action_type == "NoConfidence"@ {
        cbor::array_head(2) + cbor::uint(3) + cbor::null_item()
    } else if action_type == "UpdateCommittee"@ {
        cbor::array_head(5)
            + cbor::uint(4)
            + cbor::null_item()
            + (cbor::tag_head(258) + cbor::array_head(0))
            + cbor::map_head(0)
            + protocol::rational(2, 3)
    } else if action_type == "NewConstitution"@ {
        cbor::array_head(3)
            + cbor::uint(5)
            + cbor::null_item()
            + (cbor::array_head(2)
                + anchor(""@, Seq::new(32, |i: int| 0u8))
                + cbor::null_item())
    } else {
        cbor::array_head(1) + cbor::uint(6)
    }
}

/// A vote of a credential.
pub open spec fn vote_item(v: (Vec<u8>, u8, u8)) -> Seq<u8> {
    ledger::credential(v.1, v.0@) + cbor::uint(v.2 as nat)
}

/// A vote of a pool.
pub open spec fn pool_vote_item(v: (Vec<u8>, u8)) -> Seq<u8> {
    cbor::bytes_item(v.0@) + cbor::uint(v.1 as nat)
}

/// A proposal with its votes, as an array of 7 fields.
pub open spec fn proposal_item(p: ProposalSnapshot) -> Seq<u8> {
    cbor::array_head(7)
        + action_id(p.tx_id@, p.action_index)
        + cbor::map_of(p.committee_votes@, |x: (Vec<u8>, u8, u8)| vote_item(x))
        + cbor::map_of(p.drep_votes@, |x: (Vec<u8>, u8, u8)| vote_item(x))
        + cbor::map_of(p.spo_votes@, |x: (Vec<u8>, u8)| pool_vote_item(x))
        + (cbor::array_head(4)
            + cbor::uint(p.deposit as nat)
            + cbor::bytes_item(p.return_addr@)
            + gov_action_bytes(p.action_type@)
            + anchor(p.anchor_url@, p.anchor_hash@))
        + cbor::uint(p.proposed_epoch as nat)
        + cbor::uint(p.expires_epoch as nat)
}

/// Proposals, in an array.
pub open spec fn proposals_bytes(v: Seq<ProposalSnapshot>) -> Seq<u8> {
    cbor::array_of(v, |x: ProposalSnapshot| proposal_item(x))
}

fn put_action_id(enc: &mut Vec<u8>, tx_id: &Vec<u8>, index: u32)
    ensures
        final(enc)@ == old(enc)@ + action_id(tx_id@, index),
{
    broadcast use {crate::cbor::lemma_append_assoc, crate::cbor::lemma_append_empty};

    put_array(enc, 2);
    put_bytes(enc, tx_id);
    put_u32(enc, index);
}

fn put_anchor(enc: &mut Vec<u8>, url: &str, hash: &Vec<u8>)
    ensures
        final(enc)@ == old(enc)@ + anchor(url@, hash@),
{
    broadcast use {crate::cbor::lemma_append_assoc, crate::cbor::lemma_append_empty};

    put_array(enc, 2);
    put_str(enc, url);
    put_bytes(enc, hash);
}

/// Whether two strings are equal.
pub fn same_text(a: &str, b: &str) -> (r: bool)
    ensures
        r == (a@ == b@),
{
    let x = a.as_bytes();
    let y = b.as_bytes();
    proof {
        vstd::utf8::encode_utf8_decode_utf8(a@);
        vstd::utf8::encode_utf8_decode_utf8(b@);
    }
    if x.len() != y.len() {
        return false;
    }
    let mut i: usize = 0;
    while i < x.len()
        invariant
            i <= x@.len(),
            x@.len() == y@.len(),
            x@ == vstd::utf8::encode_utf8(a@),
            y@ == vstd::utf8::encode_utf8(b@),
            x@.take(i as int) == y@.take(i as int),
        decreases x@.len() - i,
    {
        if x[i] != y[i] {
            return false;
        }
        assert(x@.take(i + 1) =~= x@.take(i as int).push(x@[i as int]));
        assert(y@.take(i + 1) =~= y@.take(i as int).push(y@[i as int]));
        i += 1;
    }
    assert(x@.take(x@.len() as int) =~= x@);
    assert(y@.take(y@.len() as int) =~= y@);
    true
}

/// Appends the action of a proposal of the given type.
pub fn encode_gov_action_tag(enc: &mut Vec<u8>, action_type: &str)
    ensures
        final(enc)@ == old(enc)@ + gov_action_bytes(action_type@),
{
    broadcast use {crate::cbor::lemma_append_assoc, crate::cbor::lemma_append_empty};

    if same_text(action_type, "ParameterChange") {
        put_array(enc, 4);
        put_u32(enc, 0);
        put_null(enc);
        put_map(enc, 0);
        put_null(enc);
    } else if same_text(action_type, "HardForkInitiation") {
        put_array(enc, 3);
        put_u32(enc, 1);
        put_null(enc);
        put_pair(enc, 0, 0);
    } else if same_text(action_type, "TreasuryWithdrawals") {
        put_array(enc, 3);
        put_u32(enc, 2);
        put_map(enc, 0);
        put_null(enc);
    } else if same_text(action_type, "NoConfidence") {
        put_array(enc, 2);
        put_u32(enc, 3);
        put_null(enc);
    } else if same_text(action_type, "UpdateCommittee") {
        put_array(enc, 5);
        put_u32(enc, 4);
        put_null(enc);
        put_tag(enc, 258);
        put_array(enc, 0);
        put_map(enc, 0);
        encode_tagged_rational(enc, 2, 3);
    } else if same_text(action_type, "NewConstitution") {
        put_array(enc, 3);
        put_u32(enc, 5);
        put_null(enc);
        put_array(enc, 2);
        put_array(enc, 2);
        put_str(enc, "");
        put_zero_hash(enc);
        put_null(enc);
    } else {
        put_array(enc, 1);
        put_u32(enc, 6);
    }
}

fn put_vote_item(enc: &mut Vec<u8>, x: &(Vec<u8>, u8, u8))
    ensures
        final(enc)@ == old(enc)@ + vote_item(*x),
{
    broadcast use {crate::cbor::lemma_append_assoc, crate::cbor::lemma_append_empty};

    put_credential(enc, x.1, &x.0);
    put_u8(enc, x.2);
}

fn put_votes(enc: &mut Vec<u8>, v: &Vec<(Vec<u8>, u8, u8)>)
    ensures
        final(enc)@ == old(enc)@ + cbor::map_of(v@, |x: (Vec<u8>, u8, u8)| vote_item(x)),
{
    put_map(enc, v.len() as u64);
    let ghost pre = enc@;
    let ghost f = |x: (Vec<u8>, u8, u8)| vote_item(x);
    let mut i: usize = 0;
    assert(enc@ =~= pre + cbor::concat_map(v@.take(0), f));
    while i < v.len()
        invariant
            i <= v.len(),
            f == (|x: (Vec<u8>, u8, u8)| vote_item(x)),
            enc@ == pre + cbor::concat_map(v@.take(i as int), f),
        decreases v.len() - i,
    {
        proof {
            cbor::lemma_concat_map_step(v@, f, i as int);
            cbor::lemma_append_assoc(pre, cbor::concat_map(v@.take(i as int), f), f(v@[i as int]));
        }
        put_vote_item(enc, &v[i]);
        i += 1;
    }
    proof {
        assert(v@.take(v.len() as int) =~= v@);
        cbor::lemma_append_assoc(
            old(enc)@,
            cbor::map_head(v@.len()),
            cbor::concat_map(v@, f),
        );
    }
}

fn put_pool_vote_item(enc: &mut Vec<u8>, x: &(Vec<u8>, u8))
    ensures
        final(enc)@ == old(enc)@ + pool_vote_item(*x),
{
    broadcast use {crate::cbor::lemma_append_assoc, crate::cbor::lemma_append_empty};

    put_bytes(enc, &x.0);
    put_u8(enc, x.1);
}

fn put_pool_votes(enc: &mut Vec<u8>, v: &Vec<(Vec<u8>, u8)>)
    ensures
        final(enc)@ == old(enc)@ + cbor::map_of(v@, |x: (Vec<u8>, u8)| pool_vote_item(x)),
{
    put_map(enc, v.len() as u64);
    let ghost pre = enc@;
    let ghost f = |x: (Vec<u8>, u8)| pool_vote_item(x);
    let mut i: usize = 0;
    assert(enc@ =~= pre + cbor::concat_map(v@.take(0), f));
    while i < v.len()
        invariant
            i <= v.len(),
            f == (|x: (Vec<u8>, u8)| pool_vote_item(x)),
            enc@ == pre + cbor::concat_map(v@.take(i as int), f),
        decreases v.len() - i,
    {
        proof {
            cbor::lemma_concat_map_step(v@, f, i as int);
            cbor::lemma_append_assoc(pre, cbor::concat_map(v@.take(i as int), f), f(v@[i as int]));
        }
        put_pool_vote_item(enc, &v[i]);
        i += 1;
    }
    proof {
        assert(v@.take(v.len() as int) =~= v@);
        cbor::lemma_append_assoc(
            old(enc)@,
            cbor::map_head(v@.len()),
            cbor::concat_map(v@, f),
        );
    }
}

/// Appends a proposal with its votes.
pub fn encode_gov_action_state(enc: &mut Vec<u8>, p: &ProposalSnapshot)
    ensures
        final(enc)@ == old(enc)@ + proposal_item(*p),
{
    broadcast use {crate::cbor::lemma_append_assoc, crate::cbor::lemma_append_empty};

    put_array(enc, 7);
    put_action_id(enc, &p.tx_id, p.action_index);
    put_votes(enc, &p.committee_votes);
    put_votes(enc, &p.drep_votes);
    put_pool_votes(enc, &p.spo_votes);
    put_array(enc, 4);
    put_u64(enc, p.deposit);
    put_bytes(enc, &p.return_addr);
    encode_gov_action_tag(enc, p.action_type.as_str());
    put_anchor(enc, p.anchor_url.as_str(), &p.anchor_hash);
    put_u64(enc, p.proposed_epoch);
    put_u64(enc, p.expires_epoch);
}

/// Appends proposals.
pub(crate) fn put_proposals(enc: &mut Vec<u8>, v: &Vec<ProposalSnapshot>)
    ensures
        final(enc)@ == old(enc)@ + proposals_bytes(v@),
{
    put_array(enc, v.len() as u64);
    let ghost pre = enc@;
    let ghost f = |x: ProposalSnapshot| proposal_item(x);
    let mut i: usize = 0;
    assert(enc@ =~= pre + cbor::concat_map(v@.take(0), f));
    while i < v.len()
        invariant
            i <= v.len(),
            f == (|x: ProposalSnapshot| proposal_item(x)),
            enc@ == pre + cbor::concat_map(v@.take(i as int), f),
        decreases v.len() - i,
    {
        proof {
            cbor::lemma_concat_map_step(v@, f, i as int);
            cbor::lemma_append_assoc(pre, cbor::concat_map(v@.take(i as int), f), f(v@[i as int]));
        }
        encode_gov_action_state(enc, &v[i]);
        i += 1;
    }
    proof {
        assert(v@.take(v.len() as int) =~= v@);
        cbor::lemma_append_assoc(
            old(enc)@,
            cbor::array_head(v@.len()),
            cbor::concat_map(v@, f),
        );
    }
}

// ---------------------------------------------------------------------------
// Ratification
// ---------------------------------------------------------------------------

/// An enacted proposal with its identifier.
pub open spec fn enacted_item(e: (ProposalSnapshot, GovActionId)) -> Seq<u8> {
    cbor::array_head(2) + proposal_item(e.0) + action_id(e.1.tx_id@, e.1.action_index)
}

/// The identifier of an expired proposal.
pub open spec fn expired_item(id: GovActionId) -> Seq<u8> {
    action_id(id.tx_id@, id.action_index)
}

/// `[enacted, expired, delayed, no change of parameters]`.
pub open spec fn ratify_state_bytes(
    enacted: Seq<(ProposalSnapshot, GovActionId)>,
    expired: Seq<GovActionId>,
    delayed: bool,
) -> Seq<u8> {
    cbor::array_head(4)
        + cbor::array_of(enacted, |x: (ProposalSnapshot, GovActionId)| enacted_item(x))
        + cbor::array_of(expired, |x: GovActionId| expired_item(x))
        + cbor::bool_item(delayed)
        + (cbor::array_head(1) + cbor::uint(0))
}

fn put_enacted_item(enc: &mut Vec<u8>, x: &(ProposalSnapshot, GovActionId))
    ensures
        final(enc)@ == old(enc)@ + enacted_item(*x),
{
    broadcast use {crate::cbor::lemma_append_assoc, crate::cbor::lemma_append_empty};

    put_array(enc, 2);
    encode_gov_action_state(enc, &x.0);
    put_action_id(enc, &x.1.tx_id, x.1.action_index);
}

fn put_enacted(enc: &mut Vec<u8>, v: &Vec<(ProposalSnapshot, GovActionId)>)
    ensures
        final(enc)@ == old(enc)@ + cbor::array_of(v@, |x: (ProposalSnapshot, GovActionId)| enacted_item(x)),
{
    put_array(enc, v.len() as u64);
    let ghost pre = enc@;
    let ghost f = |x: (ProposalSnapshot, GovActionId)| enacted_item(x);
    let mut i: usize = 0;
    assert(enc@ =~= pre + cbor::concat_map(v@.take(0), f));
    while i < v.len()
        invariant
            i <= v.len(),
            f == (|x: (ProposalSnapshot, GovActionId)| enacted_item(x)),
            enc@ == pre + cbor::concat_map(v@.take(i as int), f),
        decreases v.len() - i,
    {
        proof {
            cbor::lemma_concat_map_step(v@, f, i as int);
            cbor::lemma_append_assoc(pre, cbor::concat_map(v@.take(i as int), f), f(v@[i as int]));
        }
        put_enacted_item(enc, &v[i]);
        i += 1;
    }
    proof {
        assert(v@.take(v.len() as int) =~= v@);
        cbor::lemma_append_assoc(
            old(enc)@,
            cbor::array_head(v@.len()),
            cbor::concat_map(v@, f),
        );
    }
}

fn put_expired_item(enc: &mut Vec<u8>, x: &GovActionId)
    ensures
        final(enc)@ == old(enc)@ + expired_item(*x),
{
    broadcast use {crate::cbor::lemma_append_assoc, crate::cbor::lemma_append_empty};

    put_action_id(enc, &x.tx_id, x.action_index);
}

fn put_expired(enc: &mut Vec<u8>, v: &Vec<GovActionId>)
    ensures
        final(enc)@ == old(enc)@ + cbor::array_of(v@, |x: GovActionId| expired_item(x)),
{
    put_array(enc, v.len() as u64);
    let ghost pre = enc@;
    let ghost f = |x: GovActionId| expired_item(x);
    let mut i: usize = 0;
    assert(enc@ =~= pre + cbor::concat_map(v@.take(0), f));
    while i < v.len()
        invariant
            i <= v.len(),
            f == (|x: GovActionId| expired_item(x)),
            enc@ == pre + cbor::concat_map(v@.take(i as int), f),
        decreases v.len() - i,
    {
        proof {
            cbor::lemma_concat_map_step(v@, f, i as int);
            cbor::lemma_append_assoc(pre, cbor::concat_map(v@.take(i as int), f), f(v@[i as int]));
        }
        put_expired_item(enc, &v[i]);
        i += 1;
    }
    proof {
        assert(v@.take(v.len() as int) =~= v@);
        cbor::lemma_append_assoc(
            old(enc)@,
            cbor::array_head(v@.len()),
            cbor::concat_map(v@, f),
        );
    }
}

/// Appends the state of ratification.
pub(crate) fn put_ratify_state(
    enc: &mut Vec<u8>,
    enacted: &Vec<(ProposalSnapshot, GovActionId)>,
    expired: &Vec<GovActionId>,
    delayed: bool,
)
    ensures
        final(enc)@ == old(enc)@ + ratify_state_bytes(enacted@, expired@, delayed),
{
    broadcast use {crate::cbor::lemma_append_assoc, crate::cbor::lemma_append_empty};

    put_array(enc, 4);
    put_enacted(enc, enacted);
    put_expired(enc, expired);
    put_bool(enc, delayed);
    put_array(enc, 1);
    put_u32(enc, 0);
}

// ---------------------------------------------------------------------------
// DReps
// ---------------------------------------------------------------------------

/// The anchor of a DRep, which takes both a URL and a hash.
pub open spec fn drep_anchor(d: DRepSnapshot) -> Seq<u8> {
    match (d.anchor_url, d.anchor_hash) {
        (Some(url), Some(hash)) => cbor::array_head(1) + anchor(url@, hash@),
        _ => cbor::array_head(0),
    }
}

/// The credentials that delegate to a DRep, as a set.
pub open spec fn delegators_bytes(v: Seq<Vec<u8>>) -> Seq<u8> {
    cbor::tag_head(258)
        + cbor::array_of(
            order::sorted_bytes(order::contents(v)),
            |x: Seq<u8>| ledger::key_credential(x),
        )
}

/// A DRep with its expiry, anchor, deposit and delegators.
pub open spec fn drep_item(d: DRepSnapshot) -> Seq<u8> {
    ledger::credential(d.credential_type, d.credential_hash@)
        + (cbor::array_head(4)
            + cbor::uint(d.expiry_epoch as nat)
            + drep_anchor(d)
            + cbor::uint(d.deposit as nat)
            + delegators_bytes(d.delegator_hashes@))
}

fn put_delegator(enc: &mut Vec<u8>, hash: &Vec<u8>)
    ensures
        final(enc)@ == old(enc)@ + ledger::key_credential(hash@),
{
    broadcast use {crate::cbor::lemma_append_assoc, crate::cbor::lemma_append_empty};

    put_array(enc, 2);
    put_u8(enc, 0);
    put_bytes(enc, hash);
}

fn put_delegators(enc: &mut Vec<u8>, v: &Vec<Vec<u8>>)
    ensures
        final(enc)@ == old(enc)@ + delegators_bytes(v@),
{
    let sorted = sort_bytes(v);
    let ghost s = order::ref_contents(sorted@);
    let ghost f = |x: Seq<u8>| ledger::key_credential(x);
    put_tag(enc, 258);
    put_array(enc, sorted.len() as u64);
    let ghost pre = enc@;
    let mut i: usize = 0;
    assert(enc@ =~= pre + cbor::concat_map(s.take(0), f));
    while i < sorted.len()
        invariant
            i <= sorted.len(),
            s == order::ref_contents(sorted@),
            f == (|x: Seq<u8>| ledger::key_credential(x)),
            enc@ == pre + cbor::concat_map(s.take(i as int), f),
        decreases sorted.len() - i,
    {
        proof {
            cbor::lemma_concat_map_step(s, f, i as int);
            cbor::lemma_append_assoc(pre, cbor::concat_map(s.take(i as int), f), f(s[i as int]));
        }
        put_delegator(enc, sorted[i]);
        i += 1;
    }
    proof {
        broadcast use {crate::cbor::lemma_append_assoc, crate::cbor::lemma_append_empty};

        assert(s.take(sorted.len() as int) =~= s);
    }
}

fn put_drep_item(enc: &mut Vec<u8>, x: &DRepSnapshot)
    ensures
        final(enc)@ == old(enc)@ + drep_item(*x),
{
    broadcast use {crate::cbor::lemma_append_assoc, crate::cbor::lemma_append_empty};

    put_credential(enc, x.credential_type, &x.credential_hash);
    put_array(enc, 4);
    put_u64(enc, x.expiry_epoch);
    match (&x.anchor_url, &x.anchor_hash) {
        (Some(url), Some(hash)) => {
            put_array(enc, 1);
            put_anchor(enc, url.as_str(), hash);
        },
        _ => put_array(enc, 0),
    }
    put_u64(enc, x.deposit);
    put_delegators(enc, &x.delegator_hashes);
}

/// Appends the DReps by credential.
pub(crate) fn put_dreps(enc: &mut Vec<u8>, v: &Vec<DRepSnapshot>)
    ensures
        final(enc)@ == old(enc)@ + cbor::map_of(v@, |x: DRepSnapshot| drep_item(x)),
{
    put_map(enc, v.len() as u64);
    let ghost pre = enc@;
    let ghost f = |x: DRepSnapshot| drep_item(x);
    let mut i: usize = 0;
    assert(enc@ =~= pre + cbor::concat_map(v@.take(0), f));
    while i < v.len()
        invariant
            i <= v.len(),
            f == (|x: DRepSnapshot| drep_item(x)),
            enc@ == pre + cbor::concat_map(v@.take(i as int), f),
        decreases v.len() - i,
    {
        proof {
            cbor::lemma_concat_map_step(v@, f, i as int);
            cbor::lemma_append_assoc(pre, cbor::concat_map(v@.take(i as int), f), f(v@[i as int]));
        }
        put_drep_item(enc, &v[i]);
        i += 1;
    }
    proof {
        assert(v@.take(v.len() as int) =~= v@);
        cbor::lemma_append_assoc(
            old(enc)@,
            cbor::map_head(v@.len()),
            cbor::concat_map(v@, f),
        );
    }
}

// ---------------------------------------------------------------------------
// Committee
// ---------------------------------------------------------------------------

/// How a member is authorised: `[0, credential]`, `[1]` where it is not, `[2, []]` where
/// it resigned. Where the credential of an authorised member is not known, its place in
/// the array stays empty.
pub open spec fn hot_status_bytes(m: CommitteeMemberSnapshot) -> Seq<u8> {
    if m.hot_status == 0 {
        cbor::array_head(2) + cbor::uint(0) + match m.hot_credential {
            Some(hot) => ledger::key_credential(hot@),
            None => Seq::empty(),
        }
    } else if m.hot_status == 1 {
        cbor::array_head(1) + cbor::uint(1)
    } else {
        cbor::array_head(2) + cbor::uint(2) + cbor::array_head(0)
    }
}

/// An optional epoch: an array of none or one.
pub open spec fn maybe_epoch(epoch: Option<u64>) -> Seq<u8> {
    match epoch {
        Some(e) => cbor::array_head(1) + cbor::uint(e as nat),
        None => cbor::array_head(0),
    }
}

/// A committee member with its state; no change is expected at the next epoch.
pub open spec fn member_item(m: CommitteeMemberSnapshot) -> Seq<u8> {
    ledger::credential(m.cold_credential_type, m.cold_credential@)
        + (cbor::array_head(4)
            + hot_status_bytes(m)
            + cbor::uint(m.member_status as nat)
            + maybe_epoch(m.expiry_epoch)
            + (cbor::array_head(1) + cbor::uint(2)))
}

/// `[members, threshold if any, epoch]`.
pub open spec fn committee_bytes(c: CommitteeSnapshot) -> Seq<u8> {
    cbor::array_head(3)
        + cbor::map_of(c.members@, |x: CommitteeMemberSnapshot| member_item(x))
        + (match c.threshold {
            Some(t) => cbor::array_head(1) + protocol::rational(t.0, t.1),
            None => cbor::array_head(0),
        })
        + cbor::uint(c.current_epoch as nat)
}

/// A committee member with the epoch in which its term ends, 0 if it has none.
pub open spec fn member_expiry_item(m: CommitteeMemberSnapshot) -> Seq<u8> {
    ledger::credential(m.cold_credential_type, m.cold_credential@) + cbor::uint(
        m.expiry_epoch.unwrap_or(0) as nat,
    )
}

/// The committee as part of the governance state: nothing where it has neither
/// members nor a threshold; a missing threshold is two thirds.
pub open spec fn gov_committee_bytes(c: CommitteeSnapshot) -> Seq<u8> {
    if c.members@.len() == 0 && c.threshold is None {
        cbor::array_head(0)
    } else {
        cbor::array_head(1)
            + (cbor::array_head(2)
                + cbor::map_of(c.members@, |x: CommitteeMemberSnapshot| member_expiry_item(x))
                + (match c.threshold {
                    Some(t) => protocol::rational(t.0, t.1),
                    None => protocol::rational(2, 3),
                }))
    }
}

fn put_hot_status(enc: &mut Vec<u8>, m: &CommitteeMemberSnapshot)
    ensures
        final(enc)@ == old(enc)@ + hot_status_bytes(*m),
{
    broadcast use {crate::cbor::lemma_append_assoc, crate::cbor::lemma_append_empty};

    if m.hot_status == 0 {
        put_array(enc, 2);
        put_u32(enc, 0);
        if let Some(hot) = &m.hot_credential {
            put_delegator(enc, hot);
        }
    } else if m.hot_status == 1 {
        put_array(enc, 1);
        put_u32(enc, 1);
    } else {
        put_array(enc, 2);
        put_u32(enc, 2);
        put_array(enc, 0);
    }
}

fn put_member_item(enc: &mut Vec<u8>, x: &CommitteeMemberSnapshot)
    ensures
        final(enc)@ == old(enc)@ + member_item(*x),
{
    broadcast use {crate::cbor::lemma_append_assoc, crate::cbor::lemma_append_empty};

    put_credential(enc, x.cold_credential_type, &x.cold_credential);
    put_array(enc, 4);
    put_hot_status(enc, x);
    put_u8(enc, x.member_status);
    match x.expiry_epoch {
        Some(e) => {
            put_array(enc, 1);
            put_u64(enc, e);
        },
        None => put_array(enc, 0),
    }
    put_array(enc, 1);
    put_u32(enc, 2);
}

fn put_members(enc: &mut Vec<u8>, v: &Vec<CommitteeMemberSnapshot>)
    ensures
        final(enc)@ == old(enc)@ + cbor::map_of(v@, |x: CommitteeMemberSnapshot| member_item(x)),
{
    put_map(enc, v.len() as u64);
    let ghost pre = enc@;
    let ghost f = |x: CommitteeMemberSnapshot| member_item(x);
    let mut i: usize = 0;
    assert(enc@ =~= pre + cbor::concat_map(v@.take(0), f));
    while i < v.len()
        invariant
            i <= v.len(),
            f == (|x: CommitteeMemberSnapshot| member_item(x)),
            enc@ == pre + cbor::concat_map(v@.take(i as int), f),
        decreases v.len() - i,
    {
        proof {
            cbor::lemma_concat_map_step(v@, f, i as int);
            cbor::lemma_append_assoc(pre, cbor::concat_map(v@.take(i as int), f), f(v@[i as int]));
        }
        put_member_item(enc, &v[i]);
        i += 1;
    }
    proof {
        assert(v@.take(v.len() as int) =~= v@);
        cbor::lemma_append_assoc(
            old(enc)@,
            cbor::map_head(v@.len()),
            cbor::concat_map(v@, f),
        );
    }
}

fn put_member_expiry_item(enc: &mut Vec<u8>, x: &CommitteeMemberSnapshot)
    ensures
        final(enc)@ == old(enc)@ + member_expiry_item(*x),
{
    broadcast use {crate::cbor::lemma_append_assoc, crate::cbor::lemma_append_empty};

    put_credential(enc, x.cold_credential_type, &x.cold_credential);
    put_u64(enc, x.expiry_epoch.unwrap_or(0));
}

fn put_member_expiries(enc: &mut Vec<u8>, v: &Vec<CommitteeMemberSnapshot>)
    ensures
        final(enc)@ == old(enc)@ + cbor::map_of(v@, |x: CommitteeMemberSnapshot| member_expiry_item(x)),
{
    put_map(enc, v.len() as u64);
    let ghost pre = enc@;
    let ghost f = |x: CommitteeMemberSnapshot| member_expiry_item(x);
    let mut i: usize = 0;
    assert(enc@ =~= pre + cbor::concat_map(v@.take(0), f));
    while i < v.len()
        invariant
            i <= v.len(),
            f == (|x: CommitteeMemberSnapshot| member_expiry_item(x)),
            enc@ == pre + cbor::concat_map(v@.take(i as int), f),
        decreases v.len() - i,
    {
        proof {
            cbor::lemma_concat_map_step(v@, f, i as int);
            cbor::lemma_append_assoc(pre, cbor::concat_map(v@.take(i as int), f), f(v@[i as int]));
        }
        put_member_expiry_item(enc, &v[i]);
        i += 1;
    }
    proof {
        assert(v@.take(v.len() as int) =~= v@);
        cbor::lemma_append_assoc(
            old(enc)@,
            cbor::map_head(v@.len()),
            cbor::concat_map(v@, f),
        );
    }
}

/// Appends the committee with the state of its members.
pub(crate) fn put_committee(enc: &mut Vec<u8>, c: &CommitteeSnapshot)
    ensures
        final(enc)@ == old(enc)@ + committee_bytes(*c),
{
    broadcast use {crate::cbor::lemma_append_assoc, crate::cbor::lemma_append_empty};

    put_array(enc, 3);
    put_members(enc, &c.members);
    match c.threshold {
        Some(t) => {
            put_array(enc, 1);
            encode_tagged_rational(enc, t.0, t.1);
        },
        None => put_array(enc, 0),
    }
    put_u64(enc, c.current_epoch);
}

fn put_gov_committee(enc: &mut Vec<u8>, c: &CommitteeSnapshot)
    ensures
        final(enc)@ == old(enc)@ + gov_committee_bytes(*c),
{
    broadcast use {crate::cbor::lemma_append_assoc, crate::cbor::lemma_append_empty};

    if c.members.is_empty() && c.threshold.is_none() {
        put_array(enc, 0);
    } else {
        put_array(enc, 1);
        put_array(enc, 2);
        put_member_expiries(enc, &c.members);
        match c.threshold {
            Some(t) => encode_tagged_rational(enc, t.0, t.1),
            None => encode_tagged_rational(enc, 2, 3),
        }
    }
}

// ---------------------------------------------------------------------------
// Constitution and governance state
// ---------------------------------------------------------------------------

/// The constitution: its anchor, and its guardrail script or `null`.
pub open spec fn constitution_bytes(
    url: Seq<char>,
    hash: Seq<u8>,
    script: Option<Vec<u8>>,
) -> Seq<u8> {
    cbor::array_head(2) + anchor(url, hash) + match script {
        Some(s) => cbor::bytes_item(s@),
        None => cbor::null_item(),
    }
}

/// The last enacted action of a kind: an array of none or one.
pub open spec fn root_bytes(root: Option<(Vec<u8>, u32)>) -> Seq<u8> {
    match root {
        Some(r) => cbor::array_head(1) + action_id(r.0@, r.1),
        None => cbor::array_head(0),
    }
}

/// The state of DRep pulsing once it is complete, with nothing in it.
pub open spec fn pulsing_state_bytes() -> Seq<u8> {
    cbor::array_head(2)
        + (cbor::array_head(4)
            + cbor::map_head(0)
            + cbor::map_head(0)
            + cbor::map_head(0)
            + cbor::map_head(0))
        + (cbor::array_head(4)
            + (cbor::tag_head(258) + cbor::array_head(0))
            + (cbor::tag_head(258) + cbor::array_head(0))
            + cbor::bool_item(false)
            + (cbor::array_head(1) + cbor::uint(0)))
}

/// The governance state as an array of 7 fields.
pub open spec fn gov_state_bytes(g: GovStateSnapshot) -> Seq<u8> {
    cbor::array_head(7)
        + (cbor::array_head(2)
            + (cbor::array_head(4)
                + root_bytes(g.enacted_pparam_update)
                + root_bytes(g.enacted_hard_fork)
                + root_bytes(g.enacted_committee)
                + root_bytes(g.enacted_constitution))
            + proposals_bytes(g.proposals@))
        + gov_committee_bytes(g.committee)
        + constitution_bytes(g.constitution_url@, g.constitution_hash@, g.constitution_script)
        + protocol::params_bytes(*g.cur_pparams)
        + protocol::params_bytes(*g.prev_pparams)
        + (cbor::array_head(1) + cbor::uint(0))
        + pulsing_state_bytes()
}

/// Appends the constitution.
pub(crate) fn put_constitution(
    enc: &mut Vec<u8>,
    url: &str,
    hash: &Vec<u8>,
    script: &Option<Vec<u8>>,
)
    ensures
        final(enc)@ == old(enc)@ + constitution_bytes(url@, hash@, *script),
{
    broadcast use {crate::cbor::lemma_append_assoc, crate::cbor::lemma_append_empty};

    put_array(enc, 2);
    put_anchor(enc, url, hash);
    match script {
        Some(s) => put_bytes(enc, s),
        None => put_null(enc),
    }
}

fn put_root(enc: &mut Vec<u8>, root: &Option<(Vec<u8>, u32)>)
    ensures
        final(enc)@ == old(enc)@ + root_bytes(*root),
{
    broadcast use {crate::cbor::lemma_append_assoc, crate::cbor::lemma_append_empty};

    match root {
        Some(r) => {
            put_array(enc, 1);
            put_action_id(enc, &r.0, r.1);
        },
        None => put_array(enc, 0),
    }
}

fn put_pulsing_state(enc: &mut Vec<u8>)
    ensures
        final(enc)@ == old(enc)@ + pulsing_state_bytes(),
{
    broadcast use {crate::cbor::lemma_append_assoc, crate::cbor::lemma_append_empty};

    put_array(enc, 2);
    put_array(enc, 4);
    put_map(enc, 0);
    put_map(enc, 0);
    put_map(enc, 0);
    put_map(enc, 0);
    put_array(enc, 4);
    put_tag(enc, 258);
    put_array(enc, 0);
    put_tag(enc, 258);
    put_array(enc, 0);
    put_bool(enc, false);
    put_array(enc, 1);
    put_u32(enc, 0);
}

/// Appends the governance state.
pub(crate) fn put_gov_state(enc: &mut Vec<u8>, g: &GovStateSnapshot)
    ensures
        final(enc)@ == old(enc)@ + gov_state_bytes(*g),
{
    broadcast use {crate::cbor::lemma_append_assoc, crate::cbor::lemma_append_empty};

    put_array(enc, 7);
    put_array(enc, 2);
    put_array(enc, 4);
    put_root(enc, &g.enacted_pparam_update);
    put_root(enc, &g.enacted_hard_fork);
    put_root(enc, &g.enacted_committee);
    put_root(enc, &g.enacted_constitution);
    put_proposals(enc, &g.proposals);
    put_gov_committee(enc, &g.committee);
    put_constitution(
        enc,
        g.constitution_url.as_str(),
        &g.constitution_hash,
        &g.constitution_script,
    );
    encode_protocol_params_cbor(enc, &g.cur_pparams);
    encode_protocol_params_cbor(enc, &g.prev_pparams);
    put_array(enc, 1);
    put_u32(enc, 0);
    put_pulsing_state(enc);
}

} // verus!
