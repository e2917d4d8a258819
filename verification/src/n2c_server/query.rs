//! Answers to ledger queries on the wire.
use crate::cbor;
use crate::cbor::{put_array, put_bool, put_bytes, put_map, put_null, put_str, put_u32, put_u64};
use crate::n2c_server::params;
use crate::n2c_server::params::encode_protocol_params_cbor;
use crate::n2c_server::snapshot::{
    CommitteeMemberSnapshot, CommitteeSnapshot, DRepSnapshot, GovStateSnapshot,
    PoolParamsSnapshot, PoolStakeSnapshotEntry, ProposalSnapshot, QueryResult,
    StakeAddressSnapshot, StakePoolSnapshot, StakeSnapshotsResult, UtxoSnapshot,
};
use vstd::prelude::*;

verus! {

/// An entry of a map with text for keys.
pub open spec fn named(key: Seq<char>, value: Seq<u8>) -> Seq<u8> {
    cbor::text_item(key) + value
}

/// A pool: its id, then `[stake, pledge, cost]`.
pub open spec fn pool_item(x: StakePoolSnapshot) -> Seq<u8> {
    cbor::bytes_item(x.pool_id@)
        + (cbor::array_head(3)
            + cbor::uint(x.stake as nat)
            + cbor::uint(x.pledge as nat)
            + cbor::uint(x.cost as nat))
}

/// A proposal.
pub open spec fn proposal_item(x: ProposalSnapshot) -> Seq<u8> {
    cbor::map_head(6)
        + named("tx_id"@, cbor::bytes_item(x.tx_id@))
        + named("action_index"@, cbor::uint(x.action_index as nat))
        + named("action_type"@, cbor::text_item(x.action_type@))
        + named("yes_votes"@, cbor::uint(x.yes_votes as nat))
        + named("no_votes"@, cbor::uint(x.no_votes as nat))
        + named("abstain_votes"@, cbor::uint(x.abstain_votes as nat))
}

/// Governance in numbers, and the proposals.
pub open spec fn gov_state_bytes(x: GovStateSnapshot) -> Seq<u8> {
    cbor::map_head(4)
        + named("drep_count"@, cbor::uint(x.drep_count as nat))
        + named("committee_member_count"@, cbor::uint(x.committee_member_count as nat))
        + named("treasury"@, cbor::uint(x.treasury as nat))
        + named("proposals"@, cbor::array_of(x.proposals@, |p: ProposalSnapshot| proposal_item(p)))
}

/// Optional text.
pub open spec fn opt_text(o: Option<String>) -> Seq<u8> {
    match o {
        Some(s) => cbor::text_item(s@),
        None => cbor::null_item(),
    }
}

/// An optional byte string.
pub open spec fn opt_bytes_item(o: Option<Vec<u8>>) -> Seq<u8> {
    match o {
        Some(b) => cbor::bytes_item(b@),
        None => cbor::null_item(),
    }
}

/// A DRep.
pub open spec fn drep_item(x: DRepSnapshot) -> Seq<u8> {
    cbor::map_head(4)
        + named("credential"@, cbor::bytes_item(x.credential_hash@))
        + named("deposit"@, cbor::uint(x.deposit as nat))
        + named("anchor_url"@, opt_text(x.anchor_url))
        + named("registered_epoch"@, cbor::uint(x.registered_epoch as nat))
}

/// A member of the committee.
pub open spec fn member_item(x: CommitteeMemberSnapshot) -> Seq<u8> {
    cbor::map_head(2)
        + named("cold"@, cbor::bytes_item(x.cold_credential@))
        + named("hot"@, cbor::bytes_item(x.hot_credential@))
}

/// The committee.
pub open spec fn committee_bytes(x: CommitteeSnapshot) -> Seq<u8> {
    cbor::map_head(2)
        + named("members"@, cbor::array_of(x.members@, |m: CommitteeMemberSnapshot| member_item(m)))
        + named("resigned"@, cbor::array_of(x.resigned@, |b: Vec<u8>| cbor::bytes_item(b@)))
}

/// An unspent output.
pub open spec fn utxo_item(x: UtxoSnapshot) -> Seq<u8> {
    cbor::map_head(5)
        + named("tx_hash"@, cbor::bytes_item(x.tx_hash@))
        + named("output_index"@, cbor::uint(x.output_index as nat))
        + named("address"@, cbor::text_item(x.address@))
        + named("lovelace"@, cbor::uint(x.lovelace as nat))
        + named("has_datum"@, cbor::bool_item(x.has_datum))
}

/// A stake address.
pub open spec fn stake_address_item(x: StakeAddressSnapshot) -> Seq<u8> {
    cbor::map_head(3)
        + named("credential"@, cbor::bytes_item(x.credential_hash@))
        + named("delegated_pool"@, opt_bytes_item(x.delegated_pool))
        + named("reward_balance"@, cbor::uint(x.reward_balance as nat))
}

/// Stake of a pool in the three snapshots.
pub open spec fn pool_snapshot_item(x: PoolStakeSnapshotEntry) -> Seq<u8> {
    cbor::map_head(4)
        + named("pool_id"@, cbor::bytes_item(x.pool_id@))
        + named("mark_stake"@, cbor::uint(x.mark_stake as nat))
        + named("set_stake"@, cbor::uint(x.set_stake as nat))
        + named("go_stake"@, cbor::uint(x.go_stake as nat))
}

/// The three snapshots.
pub open spec fn snapshots_bytes(x: StakeSnapshotsResult) -> Seq<u8> {
    cbor::map_head(4)
        + named("pools"@, cbor::array_of(x.pools@, |p: PoolStakeSnapshotEntry| pool_snapshot_item(p)))
        + named("total_mark_stake"@, cbor::uint(x.total_mark_stake as nat))
        + named("total_set_stake"@, cbor::uint(x.total_set_stake as nat))
        + named("total_go_stake"@, cbor::uint(x.total_go_stake as nat))
}

/// Parameters of a pool.
pub open spec fn pool_params_item(x: PoolParamsSnapshot) -> Seq<u8> {
    cbor::map_head(7)
        + named("pool_id"@, cbor::bytes_item(x.pool_id@))
        + named("vrf_keyhash"@, cbor::bytes_item(x.vrf_keyhash@))
        + named("pledge"@, cbor::uint(x.pledge as nat))
        + named("cost"@, cbor::uint(x.cost as nat))
        + named("margin_num"@, cbor::uint(x.margin_num as nat))
        + named("margin_den"@, cbor::uint(x.margin_den as nat))
        + named("relays"@, cbor::array_of(x.relays@, |s: String| cbor::text_item(s@)))
}

/// The tip: `[[slot, hash], block number]`.
pub open spec fn tip_bytes(slot: u64, hash: Seq<u8>, block_no: u64) -> Seq<u8> {
    cbor::array_head(2)
        + (cbor::array_head(2) + cbor::uint(slot as nat) + cbor::bytes_item(hash))
        + cbor::uint(block_no as nat)
}

/// An answer.
pub open spec fn value_bytes(r: QueryResult) -> Seq<u8> {
    match r {
        QueryResult::EpochNo(n) => cbor::uint(n as nat),
        QueryResult::ChainTip { slot, hash, block_no } => tip_bytes(slot, hash@, block_no),
        QueryResult::CurrentEra(n) => cbor::uint(n as nat),
        QueryResult::SystemStart(s) => cbor::text_item(s@),
        QueryResult::ChainBlockNo(n) => cbor::uint(n as nat),
        QueryResult::ProtocolParams(pp) => params::params_bytes(*pp),
        QueryResult::StakeDistribution(v) => cbor::map_of(v@, |x: StakePoolSnapshot| pool_item(x)),
        QueryResult::GovState(g) => gov_state_bytes(g),
        QueryResult::DRepState(v) => cbor::array_of(v@, |x: DRepSnapshot| drep_item(x)),
        QueryResult::CommitteeState(c) => committee_bytes(c),
        QueryResult::UtxoByAddress(v) => cbor::array_of(v@, |x: UtxoSnapshot| utxo_item(x)),
        QueryResult::StakeAddressInfo(v) => cbor::array_of(v@, |x: StakeAddressSnapshot| stake_address_item(x)),
        QueryResult::StakeSnapshots(s) => snapshots_bytes(s),
        QueryResult::PoolParams(v) => cbor::array_of(v@, |x: PoolParamsSnapshot| pool_params_item(x)),
        QueryResult::Error(m) => cbor::text_item(m@),
    }
}

/// MsgResult: `[4, answer]`.
pub open spec fn result_bytes(r: QueryResult) -> Seq<u8> {
    cbor::array_head(2) + cbor::uint(4) + value_bytes(r)
}

fn put_pool_item(enc: &mut Vec<u8>, x: &StakePoolSnapshot)
    ensures
        final(enc)@ == old(enc)@ + pool_item(*x),
{
    broadcast use {crate::cbor::lemma_append_assoc, crate::cbor::lemma_append_empty};

    put_bytes(enc, x.pool_id.as_slice());
    put_array(enc, 3);
    put_u64(enc, x.stake);
    put_u64(enc, x.pledge);
    put_u64(enc, x.cost);
}

fn put_pools(enc: &mut Vec<u8>, v: &Vec<StakePoolSnapshot>)
    ensures
        final(enc)@ == old(enc)@ + cbor::map_of(v@, |x: StakePoolSnapshot| pool_item(x)),
{
    put_map(enc, v.len() as u64);
    let ghost pre = enc@;
    let ghost f = |x: StakePoolSnapshot| pool_item(x);
    let mut i: usize = 0;
    assert(enc@ =~= pre + cbor::concat_map(v@.take(0), f));
    while i < v.len()
        invariant
            i <= v.len(),
            f == (|x: StakePoolSnapshot| pool_item(x)),
            enc@ == pre + cbor::concat_map(v@.take(i as int), f),
        decreases v.len() - i,
    {
        proof {
            cbor::lemma_concat_map_step(v@, f, i as int);
            cbor::lemma_append_assoc(pre, cbor::concat_map(v@.take(i as int), f), f(v@[i as int]));
        }
        put_pool_item(enc, &v[i]);
        i += 1;
    }
    proof {
        assert(v@.take(v.len() as int) =~= v@);
        cbor::lemma_append_assoc(
            old(enc)@,
            cbor::map_head(v@.len()),
            cbor::concat_map(v@, f),
        );
    }
}

fn put_proposal_item(enc: &mut Vec<u8>, x: &ProposalSnapshot)
    ensures
        final(enc)@ == old(enc)@ + proposal_item(*x),
{
    broadcast use {crate::cbor::lemma_append_assoc, crate::cbor::lemma_append_empty};

    put_map(enc, 6);
    put_str(enc, "tx_id");
    put_bytes(enc, x.tx_id.as_slice());
    put_str(enc, "action_index");
    put_u32(enc, x.action_index);
    put_str(enc, "action_type");
    put_str(enc, x.action_type.as_str());
    put_str(enc, "yes_votes");
    put_u64(enc, x.yes_votes);
    put_str(enc, "no_votes");
    put_u64(enc, x.no_votes);
    put_str(enc, "abstain_votes");
    put_u64(enc, x.abstain_votes);
}

fn put_proposals(enc: &mut Vec<u8>, v: &Vec<ProposalSnapshot>)
    ensures
        final(enc)@ == old(enc)@ + cbor::array_of(v@, |x: ProposalSnapshot| proposal_item(x)),
{
    put_array(enc, v.len() as u64);
    let ghost pre = enc@;
    let ghost f = |x: ProposalSnapshot| proposal_item(x);
    let mut i: usize = 0;
    assert(enc@ =~= pre + cbor::concat_map(v@.take(0), f));
    while i < v.len()
        invariant
            i <= v.len(),
            f == (|x: ProposalSnapshot| proposal_item(x)),
            enc@ == pre + cbor::concat_map(v@.take(i as int), f),
        decreases v.len() - i,
    {
        proof {
            cbor::lemma_concat_map_step(v@, f, i as int);
            cbor::lemma_append_assoc(pre, cbor::concat_map(v@.take(i as int), f), f(v@[i as int]));
        }
        put_proposal_item(enc, &v[i]);
        i += 1;
    }
    proof {
        assert(v@.take(v.len() as int) =~= v@);
        cbor::lemma_append_assoc(
            old(enc)@,
            cbor::array_head(v@.len()),
            cbor::concat_map(v@, f),
        );
    }
}

fn put_gov_state_bytes(enc: &mut Vec<u8>, x: &GovStateSnapshot)
    ensures
        final(enc)@ == old(enc)@ + gov_state_bytes(*x),
{
    broadcast use {crate::cbor::lemma_append_assoc, crate::cbor::lemma_append_empty};

    put_map(enc, 4);
    put_str(enc, "drep_count");
    put_u64(enc, x.drep_count as u64);
    put_str(enc, "committee_member_count");
    put_u64(enc, x.committee_member_count as u64);
    put_str(enc, "treasury");
    put_u64(enc, x.treasury);
    put_str(enc, "proposals");
    put_proposals(enc, &x.proposals);
}

fn put_opt_text(enc: &mut Vec<u8>, o: &Option<String>)
    ensures
        final(enc)@ == old(enc)@ + opt_text(*o),
{
    match o {
        Some(s) => put_str(enc, s.as_str()),
        None => put_null(enc),
    }
}

fn put_opt_bytes(enc: &mut Vec<u8>, o: &Option<Vec<u8>>)
    ensures
        final(enc)@ == old(enc)@ + opt_bytes_item(*o),
{
    match o {
        Some(b) => put_bytes(enc, b.as_slice()),
        None => put_null(enc),
    }
}

fn put_text_item(enc: &mut Vec<u8>, s: &String)
    ensures
        final(enc)@ == old(enc)@ + cbor::text_item(s@),
{
    put_str(enc, s.as_str());
}

fn put_bytes_item(enc: &mut Vec<u8>, b: &Vec<u8>)
    ensures
        final(enc)@ == old(enc)@ + cbor::bytes_item(b@),
{
    put_bytes(enc, b.as_slice());
}

fn put_texts(enc: &mut Vec<u8>, v: &Vec<String>)
    ensures
        final(enc)@ == old(enc)@ + cbor::array_of(v@, |s: String| cbor::text_item(s@)),
{
    put_array(enc, v.len() as u64);
    let ghost pre = enc@;
    let ghost f = |s: String| cbor::text_item(s@);
    let mut i: usize = 0;
    assert(enc@ =~= pre + cbor::concat_map(v@.take(0), f));
    while i < v.len()
        invariant
            i <= v.len(),
            f == (|s: String| cbor::text_item(s@)),
            enc@ == pre + cbor::concat_map(v@.take(i as int), f),
        decreases v.len() - i,
    {
        proof {
            cbor::lemma_concat_map_step(v@, f, i as int);
            cbor::lemma_append_assoc(pre, cbor::concat_map(v@.take(i as int), f), f(v@[i as int]));
        }
        put_text_item(enc, &v[i]);
        i += 1;
    }
    proof {
        assert(v@.take(v.len() as int) =~= v@);
        cbor::lemma_append_assoc(
            old(enc)@,
            cbor::array_head(v@.len()),
            cbor::concat_map(v@, f),
        );
    }
}

fn put_byte_strings(enc: &mut Vec<u8>, v: &Vec<Vec<u8>>)
    ensures
        final(enc)@ == old(enc)@ + cbor::array_of(v@, |b: Vec<u8>| cbor::bytes_item(b@)),
{
    put_array(enc, v.len() as u64);
    let ghost pre = enc@;
    let ghost f = |b: Vec<u8>| cbor::bytes_item(b@);
    let mut i: usize = 0;
    assert(enc@ =~= pre + cbor::concat_map(v@.take(0), f));
    while i < v.len()
        invariant
            i <= v.len(),
            f == (|b: Vec<u8>| cbor::bytes_item(b@)),
            enc@ == pre + cbor::concat_map(v@.take(i as int), f),
        decreases v.len() - i,
    {
        proof {
            cbor::lemma_concat_map_step(v@, f, i as int);
            cbor::lemma_append_assoc(pre, cbor::concat_map(v@.take(i as int), f), f(v@[i as int]));
        }
        put_bytes_item(enc, &v[i]);
        i += 1;
    }
    proof {
        assert(v@.take(v.len() as int) =~= v@);
        cbor::lemma_append_assoc(
            old(enc)@,
            cbor::array_head(v@.len()),
            cbor::concat_map(v@, f),
        );
    }
}

fn put_drep_item(enc: &mut Vec<u8>, x: &DRepSnapshot)
    ensures
        final(enc)@ == old(enc)@ + drep_item(*x),
{
    broadcast use {crate::cbor::lemma_append_assoc, crate::cbor::lemma_append_empty};

    put_map(enc, 4);
    put_str(enc, "credential");
    put_bytes(enc, x.credential_hash.as_slice());
    put_str(enc, "deposit");
    put_u64(enc, x.deposit);
    put_str(enc, "anchor_url");
    put_opt_text(enc, &x.anchor_url);
    put_str(enc, "registered_epoch");
    put_u64(enc, x.registered_epoch);
}

fn put_dreps(enc: &mut Vec<u8>, v: &Vec<DRepSnapshot>)
    ensures
        final(enc)@ == old(enc)@ + cbor::array_of(v@, |x: DRepSnapshot| drep_item(x)),
{
    put_array(enc, v.len() as u64);
    let ghost pre = enc@;
    let ghost f = |x: DRepSnapshot| drep_item(x);
    let mut i: usize = 0;
    assert(enc@ =~= pre + cbor::concat_map(v@.take(0), f));
    while i < v.len()
        invariant
            i <= v.len(),
            f == (|x: DRepSnapshot| drep_item(x)),
            enc@ == pre + cbor::concat_map(v@.take(i as int), f),
        decreases v.len() - i,
    {
        proof {
            cbor::lemma_concat_map_step(v@, f, i as int);
            cbor::lemma_append_assoc(pre, cbor::concat_map(v@.take(i as int), f), f(v@[i as int]));
        }
        put_drep_item(enc, &v[i]);
        i += 1;
    }
    proof {
        assert(v@.take(v.len() as int) =~= v@);
        cbor::lemma_append_assoc(
            old(enc)@,
            cbor::array_head(v@.len()),
            cbor::concat_map(v@, f),
        );
    }
}

fn put_member_item(enc: &mut Vec<u8>, x: &CommitteeMemberSnapshot)
    ensures
        final(enc)@ == old(enc)@ + member_item(*x),
{
    broadcast use {crate::cbor::lemma_append_assoc, crate::cbor::lemma_append_empty};

    put_map(enc, 2);
    put_str(enc, "cold");
    put_bytes(enc, x.cold_credential.as_slice());
    put_str(enc, "hot");
    put_bytes(enc, x.hot_credential.as_slice());
}

fn put_members(enc: &mut Vec<u8>, v: &Vec<CommitteeMemberSnapshot>)
    ensures
        final(enc)@ == old(enc)@ + cbor::array_of(v@, |x: CommitteeMemberSnapshot| member_item(x)),
{
    put_array(enc, v.len() as u64);
    let ghost pre = enc@;
    let ghost f = |x: CommitteeMemberSnapshot| member_item(x);
    let mut i: usize = 0;
    assert(enc@ =~= pre + cbor::concat_map(v@.take(0), f));
    while i < v.len()
        invariant
            i <= v.len(),
            f == (|x: CommitteeMemberSnapshot| member_item(x)),
            enc@ == pre + cbor::concat_map(v@.take(i as int), f),
        decreases v.len() - i,
    {
        proof {
            cbor::lemma_concat_map_step(v@, f, i as int);
            cbor::lemma_append_assoc(pre, cbor::concat_map(v@.take(i as int), f), f(v@[i as int]));
        }
        put_member_item(enc, &v[i]);
        i += 1;
    }
    proof {
        assert(v@.take(v.len() as int) =~= v@);
        cbor::lemma_append_assoc(
            old(enc)@,
            cbor::array_head(v@.len()),
            cbor::concat_map(v@, f),
        );
    }
}

fn put_committee_bytes(enc: &mut Vec<u8>, x: &CommitteeSnapshot)
    ensures
        final(enc)@ == old(enc)@ + committee_bytes(*x),
{
    broadcast use {crate::cbor::lemma_append_assoc, crate::cbor::lemma_append_empty};

    put_map(enc, 2);
    put_str(enc, "members");
    put_members(enc, &x.members);
    put_str(enc, "resigned");
    put_byte_strings(enc, &x.resigned);
}

fn put_utxo_item(enc: &mut Vec<u8>, x: &UtxoSnapshot)
    ensures
        final(enc)@ == old(enc)@ + utxo_item(*x),
{
    broadcast use {crate::cbor::lemma_append_assoc, crate::cbor::lemma_append_empty};

    put_map(enc, 5);
    put_str(enc, "tx_hash");
    put_bytes(enc, x.tx_hash.as_slice());
    put_str(enc, "output_index");
    put_u32(enc, x.output_index);
    put_str(enc, "address");
    put_str(enc, x.address.as_str());
    put_str(enc, "lovelace");
    put_u64(enc, x.lovelace);
    put_str(enc, "has_datum");
    put_bool(enc, x.has_datum);
}

fn put_utxos(enc: &mut Vec<u8>, v: &Vec<UtxoSnapshot>)
    ensures
        final(enc)@ == old(enc)@ + cbor::array_of(v@, |x: UtxoSnapshot| utxo_item(x)),
{
    put_array(enc, v.len() as u64);
    let ghost pre = enc@;
    let ghost f = |x: UtxoSnapshot| utxo_item(x);
    let mut i: usize = 0;
    assert(enc@ =~= pre + cbor::concat_map(v@.take(0), f));
    while i < v.len()
        invariant
            i <= v.len(),
            f == (|x: UtxoSnapshot| utxo_item(x)),
            enc@ == pre + cbor::concat_map(v@.take(i as int), f),
        decreases v.len() - i,
    {
        proof {
            cbor::lemma_concat_map_step(v@, f, i as int);
            cbor::lemma_append_assoc(pre, cbor::concat_map(v@.take(i as int), f), f(v@[i as int]));
        }
        put_utxo_item(enc, &v[i]);
        i += 1;
    }
    proof {
        assert(v@.take(v.len() as int) =~= v@);
        cbor::lemma_append_assoc(
            old(enc)@,
            cbor::array_head(v@.len()),
            cbor::concat_map(v@, f),
        );
    }
}

fn put_stake_address_item(enc: &mut Vec<u8>, x: &StakeAddressSnapshot)
    ensures
        final(enc)@ == old(enc)@ + stake_address_item(*x),
{
    broadcast use {crate::cbor::lemma_append_assoc, crate::cbor::lemma_append_empty};

    put_map(enc, 3);
    put_str(enc, "credential");
    put_bytes(enc, x.credential_hash.as_slice());
    put_str(enc, "delegated_pool");
    put_opt_bytes(enc, &x.delegated_pool);
    put_str(enc, "reward_balance");
    put_u64(enc, x.reward_balance);
}

fn put_stake_addresses(enc: &mut Vec<u8>, v: &Vec<StakeAddressSnapshot>)
    ensures
        final(enc)@ == old(enc)@ + cbor::array_of(v@, |x: StakeAddressSnapshot| stake_address_item(x)),
{
    put_array(enc, v.len() as u64);
    let ghost pre = enc@;
    let ghost f = |x: StakeAddressSnapshot| stake_address_item(x);
    let mut i: usize = 0;
    assert(enc@ =~= pre + cbor::concat_map(v@.take(0), f));
    while i < v.len()
        invariant
            i <= v.len(),
            f == (|x: StakeAddressSnapshot| stake_address_item(x)),
            enc@ == pre + cbor::concat_map(v@.take(i as int), f),
        decreases v.len() - i,
    {
        proof {
            cbor::lemma_concat_map_step(v@, f, i as int);
            cbor::lemma_append_assoc(pre, cbor::concat_map(v@.take(i as int), f), f(v@[i as int]));
        }
        put_stake_address_item(enc, &v[i]);
        i += 1;
    }
    proof {
        assert(v@.take(v.len() as int) =~= v@);
        cbor::lemma_append_assoc(
            old(enc)@,
            cbor::array_head(v@.len()),
            cbor::concat_map(v@, f),
        );
    }
}

fn put_pool_snapshot_item(enc: &mut Vec<u8>, x: &PoolStakeSnapshotEntry)
    ensures
        final(enc)@ == old(enc)@ + pool_snapshot_item(*x),
{
    broadcast use {crate::cbor::lemma_append_assoc, crate::cbor::lemma_append_empty};

    put_map(enc, 4);
    put_str(enc, "pool_id");
    put_bytes(enc, x.pool_id.as_slice());
    put_str(enc, "mark_stake");
    put_u64(enc, x.mark_stake);
    put_str(enc, "set_stake");
    put_u64(enc, x.set_stake);
    put_str(enc, "go_stake");
    put_u64(enc, x.go_stake);
}

fn put_pool_snapshots(enc: &mut Vec<u8>, v: &Vec<PoolStakeSnapshotEntry>)
    ensures
        final(enc)@ == old(enc)@ + cbor::array_of(v@, |x: PoolStakeSnapshotEntry| pool_snapshot_item(x)),
{
    put_array(enc, v.len() as u64);
    let ghost pre = enc@;
    let ghost f = |x: PoolStakeSnapshotEntry| pool_snapshot_item(x);
    let mut i: usize = 0;
    assert(enc@ =~= pre + cbor::concat_map(v@.take(0), f));
    while i < v.len()
        invariant
            i <= v.len(),
            f == (|x: PoolStakeSnapshotEntry| pool_snapshot_item(x)),
            enc@ == pre + cbor::concat_map(v@.take(i as int), f),
        decreases v.len() - i,
    {
        proof {
            cbor::lemma_concat_map_step(v@, f, i as int);
            cbor::lemma_append_assoc(pre, cbor::concat_map(v@.take(i as int), f), f(v@[i as int]));
        }
        put_pool_snapshot_item(enc, &v[i]);
        i += 1;
    }
    proof {
        assert(v@.take(v.len() as int) =~= v@);
        cbor::lemma_append_assoc(
            old(enc)@,
            cbor::array_head(v@.len()),
            cbor::concat_map(v@, f),
        );
    }
}

fn put_snapshots_bytes(enc: &mut Vec<u8>, x: &StakeSnapshotsResult)
    ensures
        final(enc)@ == old(enc)@ + snapshots_bytes(*x),
{
    broadcast use {crate::cbor::lemma_append_assoc, crate::cbor::lemma_append_empty};

    put_map(enc, 4);
    put_str(enc, "pools");
    put_pool_snapshots(enc, &x.pools);
    put_str(enc, "total_mark_stake");
    put_u64(enc, x.total_mark_stake);
    put_str(enc, "total_set_stake");
    put_u64(enc, x.total_set_stake);
    put_str(enc, "total_go_stake");
    put_u64(enc, x.total_go_stake);
}

fn put_pool_params_item(enc: &mut Vec<u8>, x: &PoolParamsSnapshot)
    ensures
        final(enc)@ == old(enc)@ + pool_params_item(*x),
{
    broadcast use {crate::cbor::lemma_append_assoc, crate::cbor::lemma_append_empty};

    put_map(enc, 7);
    put_str(enc, "pool_id");
    put_bytes(enc, x.pool_id.as_slice());
    put_str(enc, "vrf_keyhash");
    put_bytes(enc, x.vrf_keyhash.as_slice());
    put_str(enc, "pledge");
    put_u64(enc, x.pledge);
    put_str(enc, "cost");
    put_u64(enc, x.cost);
    put_str(enc, "margin_num");
    put_u64(enc, x.margin_num);
    put_str(enc, "margin_den");
    put_u64(enc, x.margin_den);
    put_str(enc, "relays");
    put_texts(enc, &x.relays);
}

fn put_pool_params(enc: &mut Vec<u8>, v: &Vec<PoolParamsSnapshot>)
    ensures
        final(enc)@ == old(enc)@ + cbor::array_of(v@, |x: PoolParamsSnapshot| pool_params_item(x)),
{
    put_array(enc, v.len() as u64);
    let ghost pre = enc@;
    let ghost f = |x: PoolParamsSnapshot| pool_params_item(x);
    let mut i: usize = 0;
    assert(enc@ =~= pre + cbor::concat_map(v@.take(0), f));
    while i < v.len()
        invariant
            i <= v.len(),
            f == (|x: PoolParamsSnapshot| pool_params_item(x)),
            enc@ == pre + cbor::concat_map(v@.take(i as int), f),
        decreases v.len() - i,
    {
        proof {
            cbor::lemma_concat_map_step(v@, f, i as int);
            cbor::lemma_append_assoc(pre, cbor::concat_map(v@.take(i as int), f), f(v@[i as int]));
        }
        put_pool_params_item(enc, &v[i]);
        i += 1;
    }
    proof {
        assert(v@.take(v.len() as int) =~= v@);
        cbor::lemma_append_assoc(
            old(enc)@,
            cbor::array_head(v@.len()),
            cbor::concat_map(v@, f),
        );
    }
}

fn put_tip(enc: &mut Vec<u8>, slot: u64, hash: &Vec<u8>, block_no: u64)
    ensures
        final(enc)@ == old(enc)@ + tip_bytes(slot, hash@, block_no),
{
    broadcast use {crate::cbor::lemma_append_assoc, crate::cbor::lemma_append_empty};

    put_array(enc, 2);
    put_array(enc, 2);
    put_u64(enc, slot);
    put_bytes(enc, hash.as_slice());
    put_u64(enc, block_no);
}

/// MsgResult with an answer.
pub fn encode_query_result(result: &QueryResult) -> (r: Vec<u8>)
    ensures
        r@ == result_bytes(*result),
{
    broadcast use {crate::cbor::lemma_append_assoc, crate::cbor::lemma_append_empty};

    let mut buf: Vec<u8> = Vec::new();
    put_array(&mut buf, 2);
    put_u32(&mut buf, 4);
    let ghost pre = buf@;
    assert(pre =~= cbor::array_head(2) + cbor::uint(4));
    match result {
        QueryResult::EpochNo(n) => put_u64(&mut buf, *n),
        QueryResult::ChainTip { slot, hash, block_no } => put_tip(&mut buf, *slot, hash, *block_no),
        QueryResult::CurrentEra(n) => put_u32(&mut buf, *n),
        QueryResult::SystemStart(s) => put_str(&mut buf, s.as_str()),
        QueryResult::ChainBlockNo(n) => put_u64(&mut buf, *n),
        QueryResult::ProtocolParams(pp) => encode_protocol_params_cbor(&mut buf, pp),
        QueryResult::StakeDistribution(v) => put_pools(&mut buf, v),
        QueryResult::GovState(g) => put_gov_state_bytes(&mut buf, g),
        QueryResult::DRepState(v) => put_dreps(&mut buf, v),
        QueryResult::CommitteeState(c) => put_committee_bytes(&mut buf, c),
        QueryResult::UtxoByAddress(v) => put_utxos(&mut buf, v),
        QueryResult::StakeAddressInfo(v) => put_stake_addresses(&mut buf, v),
        QueryResult::StakeSnapshots(s) => put_snapshots_bytes(&mut buf, s),
        QueryResult::PoolParams(v) => put_pool_params(&mut buf, v),
        QueryResult::Error(m) => put_str(&mut buf, m.as_str()),
    }
    assert(buf@ == pre + value_bytes(*result));
    buf
}

} // verus!
