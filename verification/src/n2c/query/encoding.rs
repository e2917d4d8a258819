//! Encoding of every kind of query result.
use crate::cbor;
use crate::cbor::{put_array, put_bytes, put_map, put_str, put_tag, put_u32, put_u64, put_u8};
use crate::n2c::query::governance;
use crate::n2c::query::governance::{
    put_committee, put_constitution, put_dreps, put_gov_state, put_proposals, put_ratify_state,
};
use crate::n2c::query::ledger;
use crate::n2c::query::ledger::{
    can_put_ledger_peers, encode_pool_params_map, put_amounts, put_default_votes, put_deposits, put_drep_stakes,
    put_ledger_peers, put_non_myopic, put_pool_distr2, put_pool_stakes, put_reward_infos,
    put_set_of_bytes, put_stake_address_info, put_stake_snapshots, put_utxos, put_vote_delegatees,
};
use crate::n2c::query::protocol;
use crate::n2c::query::protocol::{
    encode_protocol_params_cbor, encode_system_start, put_era_history, put_genesis, put_pair,
};
use crate::n2c::query::utctime;
use crate::n2c::query::utctime::try_parse_utctime;
use crate::query_handler::{
    DRepSnapshot, DRepStakeEntry, NonMyopicRewardEntry, PoolDefaultVoteEntry, PoolParamsSnapshot,
    PoolRewardInfo, QueryResult, StakeDelegDepositEntry, StakePoolSnapshot, UtxoSnapshot,
    VoteDelegateeEntry,
};
use vstd::prelude::*;

verus! {

/// A point on the chain: `[slot, hash]`.
pub open spec fn point_bytes(slot: u64, hash: Seq<u8>) -> Seq<u8> {
    cbor::array_head(2) + cbor::uint(slot as nat) + cbor::bytes_item(hash)
}

/// Pool state: current parameters, future parameters, retirements and deposits.
pub open spec fn pool_state_bytes(
    pool_params: Seq<PoolParamsSnapshot>,
    future_pool_params: Seq<PoolParamsSnapshot>,
    retiring: Seq<(Vec<u8>, u64)>,
    deposits: Seq<(Vec<u8>, u64)>,
) -> Seq<u8> {
    cbor::array_head(4)
        + ledger::pool_params_map(pool_params)
        + ledger::pool_params_map(future_pool_params)
        + ledger::amounts(retiring)
        + ledger::amounts(deposits)
}

/// The bytes of a result, without any envelope.
pub open spec fn result_bytes(r: QueryResult) -> Seq<u8>
    decreases r,
{
    match r {
        QueryResult::EpochNo(epoch) => cbor::uint(epoch as nat),
        QueryResult::ChainTip { slot, hash, block_no } => cbor::array_head(2)
            + point_bytes(slot, hash@)
            + cbor::uint(block_no as nat),
        QueryResult::CurrentEra(era) => cbor::uint(era as nat),
        QueryResult::SystemStart(time_str) => protocol::utctime_bytes(time_str@),
        QueryResult::ChainBlockNo(block_no) => protocol::pair(1, block_no),
        QueryResult::ChainPoint { slot, hash } => if hash@.len() == 0 {
            cbor::array_head(0)
        } else {
            point_bytes(slot, hash@)
        },
        QueryResult::ProtocolParams(pp) => protocol::params_bytes(*pp),
        QueryResult::StakeDistribution(pools) => cbor::map_of(
            pools@,
            |x: StakePoolSnapshot| ledger::pool_stake_item(x),
        ),
        QueryResult::GovState(gov) => governance::gov_state_bytes(*gov),
        QueryResult::DRepState(dreps) => cbor::map_of(
            dreps@,
            |x: DRepSnapshot| governance::drep_item(x),
        ),
        QueryResult::CommitteeState(committee) => governance::committee_bytes(committee),
        QueryResult::UtxoByAddress(utxos) => cbor::map_of(
            utxos@,
            |x: UtxoSnapshot| ledger::utxo_item(x),
        ),
        QueryResult::StakeAddressInfo(addrs) => ledger::stake_address_info(addrs@),
        QueryResult::StakeSnapshots(snapshots) => ledger::stake_snapshots_bytes(snapshots),
        QueryResult::StakePools(pool_ids) => ledger::set_of_bytes(pool_ids@),
        QueryResult::PoolParams(params) => ledger::pool_params_map(params@),
        QueryResult::PoolState { pool_params, future_pool_params, retiring, deposits } => {
            pool_state_bytes(pool_params@, future_pool_params@, retiring@, deposits@)
        },
        QueryResult::AccountState { treasury, reserves } => protocol::pair(treasury, reserves),
        QueryResult::GenesisConfig(gc) => protocol::genesis_bytes(*gc),
        QueryResult::NonMyopicMemberRewards(rewards) => cbor::map_of(
            rewards@,
            |x: NonMyopicRewardEntry| ledger::non_myopic_item(x),
        ),
        QueryResult::ProposedPParamsUpdates => cbor::map_head(0),
        QueryResult::Constitution { url, data_hash, script_hash } => {
            governance::constitution_bytes(url@, data_hash@, script_hash)
        },
        QueryResult::PoolDistr(pools) => cbor::map_of(
            pools@,
            |x: StakePoolSnapshot| ledger::pool_stake_item(x),
        ),
        QueryResult::StakeDelegDeposits(deposits) => cbor::map_of(
            deposits@,
            |x: StakeDelegDepositEntry| ledger::deposit_item(x),
        ),
        QueryResult::DRepStakeDistr(entries) => cbor::map_of(
            entries@,
            |x: DRepStakeEntry| ledger::drep_stake_item(x),
        ),
        QueryResult::FilteredVoteDelegatees(delegatees) => cbor::map_of(
            delegatees@,
            |x: VoteDelegateeEntry| ledger::vote_delegatee_item(x),
        ),
        QueryResult::EraHistory(summaries) => protocol::era_history_bytes(summaries@),
        QueryResult::WrappedCbor(inner) => cbor::tag_head(24) + cbor::bytes_item(
            result_bytes(*inner),
        ),
        QueryResult::DebugEpochState {
            epoch,
            treasury,
            reserves,
            stake_pool_count,
            utxo_count,
            active_stake,
            delegations,
            rewards,
        } => cbor::array_head(8)
            + cbor::uint(epoch as nat)
            + cbor::uint(treasury as nat)
            + cbor::uint(reserves as nat)
            + cbor::uint(stake_pool_count as nat)
            + cbor::uint(utxo_count as nat)
            + cbor::uint(active_stake as nat)
            + cbor::uint(delegations as nat)
            + cbor::uint(rewards as nat),
        QueryResult::DebugNewEpochState {
            epoch,
            block_number,
            slot,
            protocol_major,
            protocol_minor,
        } => cbor::array_head(5)
            + cbor::uint(epoch as nat)
            + cbor::uint(block_number as nat)
            + cbor::uint(slot as nat)
            + cbor::uint(protocol_major as nat)
            + cbor::uint(protocol_minor as nat),
        QueryResult::DebugChainDepState {
            last_slot,
            epoch_nonce,
            evolving_nonce,
            candidate_nonce,
            lab_nonce,
        } => cbor::array_head(5)
            + cbor::uint(last_slot as nat)
            + cbor::bytes_item(epoch_nonce@)
            + cbor::bytes_item(evolving_nonce@)
            + cbor::bytes_item(candidate_nonce@)
            + cbor::bytes_item(lab_nonce@),
        QueryResult::RewardProvenance { epoch, total_rewards_pot, treasury_tax, active_stake } => {
            cbor::array_head(4)
                + cbor::uint(epoch as nat)
                + cbor::uint(total_rewards_pot as nat)
                + cbor::uint(treasury_tax as nat)
                + cbor::uint(active_stake as nat)
        },
        QueryResult::RewardInfoPools(pools) => cbor::map_of(
            pools@,
            |x: PoolRewardInfo| ledger::reward_info_item(x),
        ),
        QueryResult::HardForkCurrentEra(era) => cbor::uint(era as nat % 256),
        QueryResult::Proposals(proposals) => governance::proposals_bytes(proposals@),
        QueryResult::RatifyState { enacted, expired, delayed } => governance::ratify_state_bytes(
            enacted@,
            expired@,
            delayed,
        ),
        QueryResult::NoFuturePParams => cbor::array_head(1) + cbor::uint(0),
        QueryResult::PoolDistr2 { pools, total_active_stake } => ledger::pool_distr2_bytes(
            pools@,
            total_active_stake,
        ),
        QueryResult::MaxMajorProtocolVersion(v) => cbor::uint(v as nat),
        QueryResult::LedgerPeerSnapshot(peers) => ledger::ledger_peers_bytes(peers@),
        QueryResult::StakePoolDefaultVote(entries) => cbor::map_of(
            entries@,
            |x: PoolDefaultVoteEntry| ledger::default_vote_item(x),
        ),
        QueryResult::Error(msg) => cbor::text_item(msg@),
    }
}

/// Whether every number that has to be computed fits 64 bits: the parts of a time
/// stamp and the stake of the ledger peers.
pub open spec fn encodable(r: QueryResult) -> bool
    decreases r,
{
    match r {
        QueryResult::SystemStart(time_str) => utctime::utctime_fits(time_str@),
        QueryResult::GenesisConfig(gc) => utctime::utctime_fits(gc.system_start@),
        QueryResult::LedgerPeerSnapshot(peers) => ledger::ledger_peers_fit(peers@),
        QueryResult::WrappedCbor(inner) => encodable(*inner),
        _ => true,
    }
}

/// Whether a result answers a query of the current era, which could have been
/// refused because the eras do not match.
pub open spec fn era_dependent(r: QueryResult) -> bool {
    match r {
        QueryResult::SystemStart(_) => false,
        QueryResult::ChainBlockNo(_) => false,
        QueryResult::ChainTip { .. } => false,
        QueryResult::ChainPoint { .. } => false,
        QueryResult::CurrentEra(_) => false,
        QueryResult::HardForkCurrentEra(_) => false,
        QueryResult::EraHistory(_) => false,
        _ => true,
    }
}

/// MsgResult: `[4, result]`, with the result in an array of one where it depends on
/// the era.
pub open spec fn msg_result_bytes(r: QueryResult) -> Seq<u8> {
    cbor::array_head(2)
        + cbor::uint(4)
        + (if era_dependent(r) { cbor::array_head(1) } else { Seq::empty() })
        + result_bytes(r)
}

/// Appends the bytes of a result, without any envelope.
pub fn encode_query_result_value(enc: &mut Vec<u8>, result: &QueryResult)
    requires
        encodable(*result),
    ensures
        final(enc)@ == old(enc)@ + result_bytes(*result),
    decreases result,
{
    broadcast use {crate::cbor::lemma_append_assoc, crate::cbor::lemma_append_empty};

    match result {
        QueryResult::EpochNo(epoch) => put_u64(enc, *epoch),
        QueryResult::ChainTip { slot, hash, block_no } => {
            put_array(enc, 2);
            put_array(enc, 2);
            put_u64(enc, *slot);
            put_bytes(enc, hash);
            put_u64(enc, *block_no);
        },
        QueryResult::CurrentEra(era) => put_u32(enc, *era),
        QueryResult::SystemStart(time_str) => encode_system_start(enc, time_str.as_str()),
        QueryResult::ChainBlockNo(block_no) => {
            put_array(enc, 2);
            put_u8(enc, 1);
            put_u64(enc, *block_no);
        },
        QueryResult::ChainPoint { slot, hash } => {
            if hash.is_empty() {
                put_array(enc, 0);
            } else {
                put_array(enc, 2);
                put_u64(enc, *slot);
                put_bytes(enc, hash);
            }
        },
        QueryResult::ProtocolParams(pp) => encode_protocol_params_cbor(enc, pp),
        QueryResult::StakeDistribution(pools) => put_pool_stakes(enc, pools),
        QueryResult::GovState(gov) => put_gov_state(enc, gov),
        QueryResult::DRepState(dreps) => put_dreps(enc, dreps),
        QueryResult::CommitteeState(committee) => put_committee(enc, committee),
        QueryResult::UtxoByAddress(utxos) => put_utxos(enc, utxos),
        QueryResult::StakeAddressInfo(addrs) => put_stake_address_info(enc, addrs),
        QueryResult::StakeSnapshots(snapshots) => put_stake_snapshots(enc, snapshots),
        QueryResult::StakePools(pool_ids) => put_set_of_bytes(enc, pool_ids),
        QueryResult::PoolParams(params) => encode_pool_params_map(enc, params),
        QueryResult::PoolState { pool_params, future_pool_params, retiring, deposits } => {
            put_array(enc, 4);
            encode_pool_params_map(enc, pool_params);
            encode_pool_params_map(enc, future_pool_params);
            put_amounts(enc, retiring);
            put_amounts(enc, deposits);
        },
        QueryResult::AccountState { treasury, reserves } => put_pair(enc, *treasury, *reserves),
        QueryResult::GenesisConfig(gc) => put_genesis(enc, gc),
        QueryResult::NonMyopicMemberRewards(rewards) => put_non_myopic(enc, rewards),
        QueryResult::ProposedPParamsUpdates => put_map(enc, 0),
        QueryResult::Constitution { url, data_hash, script_hash } => {
            put_constitution(enc, url.as_str(), data_hash, script_hash)
        },
        QueryResult::PoolDistr(pools) => put_pool_stakes(enc, pools),
        QueryResult::StakeDelegDeposits(deposits) => put_deposits(enc, deposits),
        QueryResult::DRepStakeDistr(entries) => put_drep_stakes(enc, entries),
        QueryResult::FilteredVoteDelegatees(delegatees) => put_vote_delegatees(enc, delegatees),
        QueryResult::EraHistory(summaries) => put_era_history(enc, summaries),
        QueryResult::WrappedCbor(inner) => {
            let mut inner_buf: Vec<u8> = Vec::new();
            encode_query_result_value(&mut inner_buf, inner);
            assert(inner_buf@ =~= result_bytes(**inner));
            put_tag(enc, 24);
            put_bytes(enc, &inner_buf);
        },
        QueryResult::DebugEpochState {
            epoch,
            treasury,
            reserves,
            stake_pool_count,
            utxo_count,
            active_stake,
            delegations,
            rewards,
        } => {
            put_array(enc, 8);
            put_u64(enc, *epoch);
            put_u64(enc, *treasury);
            put_u64(enc, *reserves);
            put_u64(enc, *stake_pool_count);
            put_u64(enc, *utxo_count);
            put_u64(enc, *active_stake);
            put_u64(enc, *delegations);
            put_u64(enc, *rewards);
        },
        QueryResult::DebugNewEpochState {
            epoch,
            block_number,
            slot,
            protocol_major,
            protocol_minor,
        } => {
            put_array(enc, 5);
            put_u64(enc, *epoch);
            put_u64(enc, *block_number);
            put_u64(enc, *slot);
            put_u64(enc, *protocol_major);
            put_u64(enc, *protocol_minor);
        },
        QueryResult::DebugChainDepState {
            last_slot,
            epoch_nonce,
            evolving_nonce,
            candidate_nonce,
            lab_nonce,
        } => {
            put_array(enc, 5);
            put_u64(enc, *last_slot);
            put_bytes(enc, epoch_nonce);
            put_bytes(enc, evolving_nonce);
            put_bytes(enc, candidate_nonce);
            put_bytes(enc, lab_nonce);
        },
        QueryResult::RewardProvenance { epoch, total_rewards_pot, treasury_tax, active_stake } => {
            put_array(enc, 4);
            put_u64(enc, *epoch);
            put_u64(enc, *total_rewards_pot);
            put_u64(enc, *treasury_tax);
            put_u64(enc, *active_stake);
        },
        QueryResult::RewardInfoPools(pools) => put_reward_infos(enc, pools),
        QueryResult::HardForkCurrentEra(era) => {
            put_u8(enc, (*era % 256) as u8);
        },
        QueryResult::Proposals(proposals) => put_proposals(enc, proposals),
        QueryResult::RatifyState { enacted, expired, delayed } => {
            put_ratify_state(enc, enacted, expired, *delayed)
        },
        QueryResult::NoFuturePParams => {
            put_array(enc, 1);
            put_u8(enc, 0);
        },
        QueryResult::PoolDistr2 { pools, total_active_stake } => {
            put_pool_distr2(enc, pools, *total_active_stake)
        },
        QueryResult::MaxMajorProtocolVersion(v) => put_u32(enc, *v),
        QueryResult::LedgerPeerSnapshot(peers) => put_ledger_peers(enc, peers),
        QueryResult::StakePoolDefaultVote(entries) => put_default_votes(enc, entries),
        QueryResult::Error(msg) => put_str(enc, msg.as_str()),
    }
}

fn depends_on_era(result: &QueryResult) -> (b: bool)
    ensures
        b == era_dependent(*result),
{
    match result {
        QueryResult::SystemStart(_) => false,
        QueryResult::ChainBlockNo(_) => false,
        QueryResult::ChainTip { .. } => false,
        QueryResult::ChainPoint { .. } => false,
        QueryResult::CurrentEra(_) => false,
        QueryResult::HardForkCurrentEra(_) => false,
        QueryResult::EraHistory(_) => false,
        _ => true,
    }
}

/// Whether a result can be encoded.
pub fn can_encode(result: &QueryResult) -> (r: bool)
    ensures
        r == encodable(*result),
    decreases result,
{
    match result {
        QueryResult::SystemStart(time_str) => try_parse_utctime(time_str.as_str()).is_some(),
        QueryResult::GenesisConfig(gc) => try_parse_utctime(gc.system_start.as_str()).is_some(),
        QueryResult::LedgerPeerSnapshot(peers) => can_put_ledger_peers(peers),
        QueryResult::WrappedCbor(inner) => can_encode(inner),
        _ => true,
    }
}

/// The MsgResult message that carries a result.
pub fn encode_query_result(result: &QueryResult) -> (buf: Vec<u8>)
    requires
        encodable(*result),
    ensures
        buf@ == msg_result_bytes(*result),
{
    let mut buf: Vec<u8> = Vec::new();
    put_array(&mut buf, 2);
    put_u32(&mut buf, 4);
    if depends_on_era(result) {
        put_array(&mut buf, 1);
    }
    encode_query_result_value(&mut buf, result);
    assert(buf@ =~= msg_result_bytes(*result));
    buf
}

} // verus!
