//! What a client reads from the answers of the plain server, word by word.
use crate::cbor;
use crate::n2c::query::reading;
use crate::n2c_server::params;
use crate::n2c_server::query;
use crate::n2c_server::snapshot::{
    CommitteeMemberSnapshot, CommitteeSnapshot, DRepSnapshot, GovStateSnapshot,
    PoolParamsSnapshot, PoolStakeSnapshotEntry, ProposalSnapshot, ProtocolParamsSnapshot,
    QueryResult, StakeAddressSnapshot, StakePoolSnapshot, StakeSnapshotsResult, UtxoSnapshot,
};
use crate::words;
use crate::words::Word;
use vstd::prelude::*;

verus! {

/// The cost parameters of a language are read in their order.
pub proof fn lemma_costs_array_is_read(costs: Seq<i64>)
    requires
        costs.len() <= u64::MAX,
    ensures
        words::spells(
            params::costs_array(costs),
            words::arr_of(costs, |c: i64| words::int_of(c as int)),
        ),
{
    broadcast use {words::group_words, reading::lemma_list_fits};

    let f0 = |c: i64| cbor::sint(c as int);
    let g0 = |c: i64| words::int_of(c as int);
    words::lemma_arr_of(costs, f0, g0);
}

/// A cost model is read behind the number of its language, where there is one.
pub proof fn lemma_cost_model_is_read(language: nat, costs: Option<Vec<i64>>)
    requires
        language <= u64::MAX,
    ensures
        words::spells(
            params::cost_model(language, costs),
            match costs {
            Some(v) => words::num(language) + words::arr_of(v@, |c: i64| words::int_of(c as int)),
            None => Seq::empty(),
            },
        ),
{
    broadcast use {words::group_words, reading::lemma_list_fits};

    if let Some(v) = costs {
        lemma_costs_array_is_read(v@);
    }
}

/// The cost models are read behind key 18, as many as there are, where there are any.
pub proof fn lemma_cost_models_entry_is_read(pp: ProtocolParamsSnapshot)
    ensures
        words::spells(
            params::cost_models_entry(pp),
            if (if pp.cost_models_v1 is Some { 1nat } else { 0 })
                + (if pp.cost_models_v2 is Some { 1nat } else { 0 })
                + (if pp.cost_models_v3 is Some { 1nat } else { 0 }) == 0 {
            Seq::empty()
            } else {
            words::num(18) + (words::dict((if pp.cost_models_v1 is Some { 1nat } else { 0 })
                + (if pp.cost_models_v2 is Some { 1nat } else { 0 })
                + (if pp.cost_models_v3 is Some { 1nat } else { 0 })) + (match pp.cost_models_v1 {
            Some(v) => words::num(0) + words::arr_of(v@, |c: i64| words::int_of(c as int)),
            None => Seq::empty(),
            }) + (match pp.cost_models_v2 {
            Some(v) => words::num(1) + words::arr_of(v@, |c: i64| words::int_of(c as int)),
            None => Seq::empty(),
            }) + (match pp.cost_models_v3 {
            Some(v) => words::num(2) + words::arr_of(v@, |c: i64| words::int_of(c as int)),
            None => Seq::empty(),
            }))
            },
        ),
{
    broadcast use {words::group_words, reading::lemma_list_fits};

    lemma_cost_model_is_read(0, pp.cost_models_v1);
    lemma_cost_model_is_read(1, pp.cost_models_v2);
    lemma_cost_model_is_read(2, pp.cost_models_v3);
}

/// The parameters with the keys 0 to 11, 16 and 17 are read behind their keys.
pub proof fn lemma_first_entries_are_read(pp: ProtocolParamsSnapshot)
    ensures
        words::spells(
            params::first_entries(pp),
            (words::num(0) + (words::num(pp.min_fee_a as nat)))
            + (words::num(1) + (words::num(pp.min_fee_b as nat)))
            + (words::num(2) + (words::num(pp.max_block_body_size as nat)))
            + (words::num(3) + (words::num(pp.max_tx_size as nat)))
            + (words::num(4) + (words::num(pp.max_block_header_size as nat)))
            + (words::num(5) + (words::num(pp.key_deposit as nat)))
            + (words::num(6) + (words::num(pp.pool_deposit as nat)))
            + (words::num(7) + (words::num(pp.e_max as nat)))
            + (words::num(8) + (words::num(pp.n_opt as nat)))
            + (words::num(9) + ((words::tag(30) + words::arr(2) + words::num(pp.a0_num as nat)
                + words::num(pp.a0_den as nat))))
            + (words::num(10) + ((words::tag(30) + words::arr(2) + words::num(pp.rho_num as nat)
                + words::num(pp.rho_den as nat))))
            + (words::num(11) + ((words::tag(30) + words::arr(2) + words::num(pp.tau_num as nat)
                + words::num(pp.tau_den as nat))))
            + (words::num(16) + (words::num(pp.min_pool_cost as nat)))
            + (words::num(17) + (words::num(pp.ada_per_utxo_byte as nat))),
        ),
{
    broadcast use {words::group_words, reading::lemma_list_fits};

}

/// The parameters with the keys 19 to 25 are read behind their keys.
pub proof fn lemma_middle_entries_are_read(pp: ProtocolParamsSnapshot)
    ensures
        words::spells(
            params::middle_entries(pp),
            (words::num(19) + ((words::arr(2)
            + (words::tag(30) + words::arr(2) + words::num(pp.execution_costs_mem_num as nat)
                + words::num(pp.execution_costs_mem_den as nat))
            + (words::tag(30) + words::arr(2) + words::num(pp.execution_costs_step_num as nat)
                + words::num(pp.execution_costs_step_den as nat)))))
            + (words::num(20) + ((words::arr(2) + words::num(pp.max_tx_ex_mem as nat)
                + words::num(pp.max_tx_ex_steps as nat))))
            + (words::num(21) + ((words::arr(2) + words::num(pp.max_block_ex_mem as nat)
                + words::num(pp.max_block_ex_steps as nat))))
            + (words::num(22) + (words::num(pp.max_val_size as nat)))
            + (words::num(23) + (words::num(pp.collateral_percentage as nat)))
            + (words::num(24) + (words::num(pp.max_collateral_inputs as nat)))
            + (words::num(25) + ((words::arr(2) + words::num(pp.protocol_version_major as nat)
                + words::num(pp.protocol_version_minor as nat)))),
        ),
{
    broadcast use {words::group_words, reading::lemma_list_fits};

}

/// The five voting thresholds of the pools are read in their places.
pub proof fn lemma_pool_voting_thresholds_are_read(pp: ProtocolParamsSnapshot)
    ensures
        words::spells(
            params::pool_voting_thresholds(pp),
            words::arr(5)
            + (words::tag(30) + words::arr(2) + words::num(pp.pvt_committee_num as nat)
                + words::num(pp.pvt_committee_den as nat))
            + (words::tag(30) + words::arr(2) + words::num(pp.pvt_committee_num as nat)
                + words::num(pp.pvt_committee_den as nat))
            + (words::tag(30) + words::arr(2) + words::num(pp.pvt_committee_num as nat)
                + words::num(pp.pvt_committee_den as nat))
            + (words::tag(30) + words::arr(2) + words::num(pp.pvt_hard_fork_num as nat)
                + words::num(pp.pvt_hard_fork_den as nat))
            + (words::tag(30) + words::arr(2) + words::num(pp.pvt_committee_num as nat)
                + words::num(pp.pvt_committee_den as nat)),
        ),
{
    broadcast use {words::group_words, reading::lemma_list_fits};

}

/// The ten voting thresholds of the DReps are read in their places.
pub proof fn lemma_drep_voting_thresholds_are_read(pp: ProtocolParamsSnapshot)
    ensures
        words::spells(
            params::drep_voting_thresholds(pp),
            words::arr(10)
            + (words::tag(30) + words::arr(2) + words::num(pp.dvt_no_confidence_num as nat)
                + words::num(pp.dvt_no_confidence_den as nat))
            + (words::tag(30) + words::arr(2) + words::num(pp.dvt_committee_normal_num as nat)
                + words::num(pp.dvt_committee_normal_den as nat))
            + (words::tag(30) + words::arr(2)
                + words::num(pp.dvt_committee_no_confidence_num as nat)
                + words::num(pp.dvt_committee_no_confidence_den as nat))
            + (words::tag(30) + words::arr(2) + words::num(pp.dvt_constitution_num as nat)
                + words::num(pp.dvt_constitution_den as nat))
            + (words::tag(30) + words::arr(2) + words::num(pp.dvt_hard_fork_num as nat)
                + words::num(pp.dvt_hard_fork_den as nat))
            + (words::tag(30) + words::arr(2) + words::num(pp.dvt_p_param_change_num as nat)
                + words::num(pp.dvt_p_param_change_den as nat))
            + (words::tag(30) + words::arr(2) + words::num(pp.dvt_p_param_change_num as nat)
                + words::num(pp.dvt_p_param_change_den as nat))
            + (words::tag(30) + words::arr(2) + words::num(pp.dvt_p_param_change_num as nat)
                + words::num(pp.dvt_p_param_change_den as nat))
            + (words::tag(30) + words::arr(2) + words::num(pp.dvt_p_param_change_num as nat)
                + words::num(pp.dvt_p_param_change_den as nat))
            + (words::tag(30) + words::arr(2) + words::num(pp.dvt_treasury_withdrawal_num as nat)
                + words::num(pp.dvt_treasury_withdrawal_den as nat)),
        ),
{
    broadcast use {words::group_words, reading::lemma_list_fits};

}

/// The parameters with the keys 26 to 34 are read behind their keys.
pub proof fn lemma_last_entries_are_read(
    pp: ProtocolParamsSnapshot,
    pool_voting_thresholds: Seq<Word>,
    drep_voting_thresholds: Seq<Word>,
)
    requires
        words::spells(params::pool_voting_thresholds(pp), pool_voting_thresholds),
        words::spells(params::drep_voting_thresholds(pp), drep_voting_thresholds),
    ensures
        words::spells(
            params::last_entries(pp),
            (words::num(26) + (pool_voting_thresholds))
            + (words::num(27) + (drep_voting_thresholds))
            + (words::num(28) + (words::num(pp.committee_min_size as nat)))
            + (words::num(29) + (words::num(pp.committee_max_term_length as nat)))
            + (words::num(30) + (words::num(pp.gov_action_lifetime as nat)))
            + (words::num(31) + (words::num(pp.gov_action_deposit as nat)))
            + (words::num(32) + (words::num(pp.drep_deposit as nat)))
            + (words::num(33) + (words::num(pp.drep_activity as nat)))
            + (words::num(34) + ((words::tag(30) + words::arr(2)
                + words::num(pp.min_fee_ref_script_cost_per_byte as nat) + words::num(1 as nat)))),
        ),
{
    broadcast use {words::group_words, reading::lemma_list_fits};

}

/// The parameters are read as a map with as many entries as follow, in the order of their keys.
pub proof fn lemma_params_are_read(
    pp: ProtocolParamsSnapshot,
    first_entries: Seq<Word>,
    cost_models_entry: Seq<Word>,
    middle_entries: Seq<Word>,
    last_entries: Seq<Word>,
)
    requires
        words::spells(params::first_entries(pp), first_entries),
        words::spells(params::cost_models_entry(pp), cost_models_entry),
        words::spells(params::middle_entries(pp), middle_entries),
        words::spells(params::last_entries(pp), last_entries),
    ensures
        words::spells(
            params::params_bytes(pp),
            words::dict(if pp.cost_models_v1 is None && pp.cost_models_v2 is None
                && pp.cost_models_v3 is None { 30 } else { 31 })
            + first_entries
            + cost_models_entry
            + middle_entries
            + last_entries,
        ),
{
    broadcast use {words::group_words, reading::lemma_list_fits};

}

/// A pool is read as its id, its stake, its pledge and its cost.
pub proof fn lemma_pool_is_read(x: StakePoolSnapshot)
    ensures
        words::spells(
            query::pool_item(x),
            words::bin(x.pool_id@)
            + (words::arr(3)
            + words::num(x.stake as nat)
            + words::num(x.pledge as nat)
            + words::num(x.cost as nat)),
        ),
{
    broadcast use {words::group_words, reading::lemma_list_fits};

}

/// A proposal is read by the names of its fields.
pub proof fn lemma_proposal_is_read(x: ProposalSnapshot)
    requires
        reading::text_fits(x.action_type@),
    ensures
        words::spells(
            query::proposal_item(x),
            words::dict(6)
            + (words::txt(("tx_id"@)) + (words::bin(x.tx_id@)))
            + (words::txt(("action_index"@)) + (words::num(x.action_index as nat)))
            + (words::txt(("action_type"@)) + (words::txt(x.action_type@)))
            + (words::txt(("yes_votes"@)) + (words::num(x.yes_votes as nat)))
            + (words::txt(("no_votes"@)) + (words::num(x.no_votes as nat)))
            + (words::txt(("abstain_votes"@)) + (words::num(x.abstain_votes as nat))),
        ),
{
    broadcast use {words::group_words, reading::lemma_list_fits};

    reveal_strlit("tx_id");
    reading::lemma_short_text_fits("tx_id"@);
    reveal_strlit("action_index");
    reading::lemma_short_text_fits("action_index"@);
    reveal_strlit("action_type");
    reading::lemma_short_text_fits("action_type"@);
    reveal_strlit("yes_votes");
    reading::lemma_short_text_fits("yes_votes"@);
    reveal_strlit("no_votes");
    reading::lemma_short_text_fits("no_votes"@);
    reveal_strlit("abstain_votes");
    reading::lemma_short_text_fits("abstain_votes"@);
}

/// Governance is read by the names of its numbers, and the proposals in their order.
pub proof fn lemma_gov_state_is_read(x: GovStateSnapshot)
    requires
        forall|i: int| 0 <= i < x.proposals@.len()
            ==> reading::text_fits((#[trigger] x.proposals@[i]).action_type@),
    ensures
        words::spells(
            query::gov_state_bytes(x),
            words::dict(4)
            + (words::txt(("drep_count"@)) + (words::num(x.drep_count as nat)))
            + (words::txt(("committee_member_count"@))
                + (words::num(x.committee_member_count as nat)))
            + (words::txt(("treasury"@)) + (words::num(x.treasury as nat)))
            + (words::txt(("proposals"@)) + (words::arr_of(x.proposals@, |p: ProposalSnapshot|
                (words::dict(6)
            + (words::txt(("tx_id"@)) + (words::bin(p.tx_id@)))
            + (words::txt(("action_index"@)) + (words::num(p.action_index as nat)))
            + (words::txt(("action_type"@)) + (words::txt(p.action_type@)))
            + (words::txt(("yes_votes"@)) + (words::num(p.yes_votes as nat)))
            + (words::txt(("no_votes"@)) + (words::num(p.no_votes as nat)))
            + (words::txt(("abstain_votes"@)) + (words::num(p.abstain_votes as nat))))))),
        ),
{
    broadcast use {words::group_words, reading::lemma_list_fits};

    reveal_strlit("drep_count");
    reading::lemma_short_text_fits("drep_count"@);
    reveal_strlit("committee_member_count");
    reading::lemma_short_text_fits("committee_member_count"@);
    reveal_strlit("treasury");
    reading::lemma_short_text_fits("treasury"@);
    reveal_strlit("proposals");
    reading::lemma_short_text_fits("proposals"@);
    let f0 = |p: ProposalSnapshot| query::proposal_item(p);
    let g0 = |p: ProposalSnapshot| words::dict(6) + (words::txt(("tx_id"@))
        + (words::bin(p.tx_id@))) + (words::txt(("action_index"@))
        + (words::num(p.action_index as nat))) + (words::txt(("action_type"@))
        + (words::txt(p.action_type@))) + (words::txt(("yes_votes"@))
        + (words::num(p.yes_votes as nat))) + (words::txt(("no_votes"@))
        + (words::num(p.no_votes as nat))) + (words::txt(("abstain_votes"@))
        + (words::num(p.abstain_votes as nat)));
    assert forall|i: int| 0 <= i < x.proposals@.len() implies words::spells(
        f0(#[trigger] x.proposals@[i]),
        g0(x.proposals@[i]),
    ) by {
        lemma_proposal_is_read(x.proposals@[i]);
    }
    words::lemma_arr_of(x.proposals@, f0, g0);
}

/// A DRep is read by the names of its fields.
pub proof fn lemma_drep_is_read(x: DRepSnapshot)
    requires
        x.anchor_url matches Some(u) ==> reading::text_fits(u@),
    ensures
        words::spells(
            query::drep_item(x),
            words::dict(4)
            + (words::txt(("credential"@)) + (words::bin(x.credential_hash@)))
            + (words::txt(("deposit"@)) + (words::num(x.deposit as nat)))
            + (words::txt(("anchor_url"@)) + ((match x.anchor_url {
            Some(s) => words::txt(s@),
            None => words::null(),
            })))
            + (words::txt(("registered_epoch"@)) + (words::num(x.registered_epoch as nat))),
        ),
{
    broadcast use {words::group_words, reading::lemma_list_fits};

    reveal_strlit("credential");
    reading::lemma_short_text_fits("credential"@);
    reveal_strlit("deposit");
    reading::lemma_short_text_fits("deposit"@);
    reveal_strlit("anchor_url");
    reading::lemma_short_text_fits("anchor_url"@);
    reveal_strlit("registered_epoch");
    reading::lemma_short_text_fits("registered_epoch"@);
}

/// A member is read by its cold and its hot credential.
pub proof fn lemma_member_is_read(x: CommitteeMemberSnapshot)
    ensures
        words::spells(
            query::member_item(x),
            words::dict(2)
            + (words::txt(("cold"@)) + (words::bin(x.cold_credential@)))
            + (words::txt(("hot"@)) + (words::bin(x.hot_credential@))),
        ),
{
    broadcast use {words::group_words, reading::lemma_list_fits};

    reveal_strlit("cold");
    reading::lemma_short_text_fits("cold"@);
    reveal_strlit("hot");
    reading::lemma_short_text_fits("hot"@);
}

/// The members are read first, then those who resigned.
pub proof fn lemma_committee_is_read(x: CommitteeSnapshot)
    ensures
        words::spells(
            query::committee_bytes(x),
            words::dict(2)
            + (words::txt(("members"@)) + (words::arr_of(x.members@, |m: CommitteeMemberSnapshot|
                (words::dict(2)
            + (words::txt(("cold"@)) + (words::bin(m.cold_credential@)))
            + (words::txt(("hot"@)) + (words::bin(m.hot_credential@)))))))
            + (words::txt(("resigned"@)) + (words::arr_of(x.resigned@, |b: Vec<u8>|
                words::bin(b@)))),
        ),
{
    broadcast use {words::group_words, reading::lemma_list_fits};

    reveal_strlit("members");
    reading::lemma_short_text_fits("members"@);
    reveal_strlit("resigned");
    reading::lemma_short_text_fits("resigned"@);
    let f0 = |m: CommitteeMemberSnapshot| query::member_item(m);
    let g0 = |m: CommitteeMemberSnapshot| words::dict(2) + (words::txt(("cold"@))
        + (words::bin(m.cold_credential@))) + (words::txt(("hot"@))
        + (words::bin(m.hot_credential@)));
    assert forall|i: int| 0 <= i < x.members@.len() implies words::spells(
        f0(#[trigger] x.members@[i]),
        g0(x.members@[i]),
    ) by {
        lemma_member_is_read(x.members@[i]);
    }
    words::lemma_arr_of(x.members@, f0, g0);
    let f1 = |b: Vec<u8>| cbor::bytes_item(b@);
    let g1 = |b: Vec<u8>| words::bin(b@);
    words::lemma_arr_of(x.resigned@, f1, g1);
}

/// An output is read by the names of its fields.
pub proof fn lemma_utxo_is_read(x: UtxoSnapshot)
    requires
        reading::text_fits(x.address@),
    ensures
        words::spells(
            query::utxo_item(x),
            words::dict(5)
            + (words::txt(("tx_hash"@)) + (words::bin(x.tx_hash@)))
            + (words::txt(("output_index"@)) + (words::num(x.output_index as nat)))
            + (words::txt(("address"@)) + (words::txt(x.address@)))
            + (words::txt(("lovelace"@)) + (words::num(x.lovelace as nat)))
            + (words::txt(("has_datum"@)) + (words::truth(x.has_datum))),
        ),
{
    broadcast use {words::group_words, reading::lemma_list_fits};

    reveal_strlit("tx_hash");
    reading::lemma_short_text_fits("tx_hash"@);
    reveal_strlit("output_index");
    reading::lemma_short_text_fits("output_index"@);
    reveal_strlit("address");
    reading::lemma_short_text_fits("address"@);
    reveal_strlit("lovelace");
    reading::lemma_short_text_fits("lovelace"@);
    reveal_strlit("has_datum");
    reading::lemma_short_text_fits("has_datum"@);
}

/// A stake address is read by the names of its fields.
pub proof fn lemma_stake_address_is_read(x: StakeAddressSnapshot)
    ensures
        words::spells(
            query::stake_address_item(x),
            words::dict(3)
            + (words::txt(("credential"@)) + (words::bin(x.credential_hash@)))
            + (words::txt(("delegated_pool"@)) + ((match x.delegated_pool {
            Some(b) => words::bin(b@),
            None => words::null(),
            })))
            + (words::txt(("reward_balance"@)) + (words::num(x.reward_balance as nat))),
        ),
{
    broadcast use {words::group_words, reading::lemma_list_fits};

    reveal_strlit("credential");
    reading::lemma_short_text_fits("credential"@);
    reveal_strlit("delegated_pool");
    reading::lemma_short_text_fits("delegated_pool"@);
    reveal_strlit("reward_balance");
    reading::lemma_short_text_fits("reward_balance"@);
}

/// The stake of a pool is read by the names of the three snapshots.
pub proof fn lemma_pool_snapshot_is_read(x: PoolStakeSnapshotEntry)
    ensures
        words::spells(
            query::pool_snapshot_item(x),
            words::dict(4)
            + (words::txt(("pool_id"@)) + (words::bin(x.pool_id@)))
            + (words::txt(("mark_stake"@)) + (words::num(x.mark_stake as nat)))
            + (words::txt(("set_stake"@)) + (words::num(x.set_stake as nat)))
            + (words::txt(("go_stake"@)) + (words::num(x.go_stake as nat))),
        ),
{
    broadcast use {words::group_words, reading::lemma_list_fits};

    reveal_strlit("pool_id");
    reading::lemma_short_text_fits("pool_id"@);
    reveal_strlit("mark_stake");
    reading::lemma_short_text_fits("mark_stake"@);
    reveal_strlit("set_stake");
    reading::lemma_short_text_fits("set_stake"@);
    reveal_strlit("go_stake");
    reading::lemma_short_text_fits("go_stake"@);
}

/// The pools are read first, then the totals by the names of the three snapshots.
pub proof fn lemma_snapshots_are_read(x: StakeSnapshotsResult)
    ensures
        words::spells(
            query::snapshots_bytes(x),
            words::dict(4)
            + (words::txt(("pools"@)) + (words::arr_of(x.pools@, |p: PoolStakeSnapshotEntry|
                (words::dict(4)
            + (words::txt(("pool_id"@)) + (words::bin(p.pool_id@)))
            + (words::txt(("mark_stake"@)) + (words::num(p.mark_stake as nat)))
            + (words::txt(("set_stake"@)) + (words::num(p.set_stake as nat)))
            + (words::txt(("go_stake"@)) + (words::num(p.go_stake as nat)))))))
            + (words::txt(("total_mark_stake"@)) + (words::num(x.total_mark_stake as nat)))
            + (words::txt(("total_set_stake"@)) + (words::num(x.total_set_stake as nat)))
            + (words::txt(("total_go_stake"@)) + (words::num(x.total_go_stake as nat))),
        ),
{
    broadcast use {words::group_words, reading::lemma_list_fits};

    reveal_strlit("pools");
    reading::lemma_short_text_fits("pools"@);
    reveal_strlit("total_mark_stake");
    reading::lemma_short_text_fits("total_mark_stake"@);
    reveal_strlit("total_set_stake");
    reading::lemma_short_text_fits("total_set_stake"@);
    reveal_strlit("total_go_stake");
    reading::lemma_short_text_fits("total_go_stake"@);
    let f0 = |p: PoolStakeSnapshotEntry| query::pool_snapshot_item(p);
    let g0 = |p: PoolStakeSnapshotEntry| words::dict(4) + (words::txt(("pool_id"@))
        + (words::bin(p.pool_id@))) + (words::txt(("mark_stake"@))
        + (words::num(p.mark_stake as nat))) + (words::txt(("set_stake"@))
        + (words::num(p.set_stake as nat))) + (words::txt(("go_stake"@))
        + (words::num(p.go_stake as nat)));
    assert forall|i: int| 0 <= i < x.pools@.len() implies words::spells(
        f0(#[trigger] x.pools@[i]),
        g0(x.pools@[i]),
    ) by {
        lemma_pool_snapshot_is_read(x.pools@[i]);
    }
    words::lemma_arr_of(x.pools@, f0, g0);
}

/// The parameters of a pool are read by their names.
pub proof fn lemma_pool_params_are_read(x: PoolParamsSnapshot)
    requires
        forall|i: int| 0 <= i < x.relays@.len() ==> reading::text_fits((#[trigger] x.relays@[i])@),
    ensures
        words::spells(
            query::pool_params_item(x),
            words::dict(7)
            + (words::txt(("pool_id"@)) + (words::bin(x.pool_id@)))
            + (words::txt(("vrf_keyhash"@)) + (words::bin(x.vrf_keyhash@)))
            + (words::txt(("pledge"@)) + (words::num(x.pledge as nat)))
            + (words::txt(("cost"@)) + (words::num(x.cost as nat)))
            + (words::txt(("margin_num"@)) + (words::num(x.margin_num as nat)))
            + (words::txt(("margin_den"@)) + (words::num(x.margin_den as nat)))
            + (words::txt(("relays"@)) + (words::arr_of(x.relays@, |s: String| words::txt(s@)))),
        ),
{
    broadcast use {words::group_words, reading::lemma_list_fits};

    reveal_strlit("pool_id");
    reading::lemma_short_text_fits("pool_id"@);
    reveal_strlit("vrf_keyhash");
    reading::lemma_short_text_fits("vrf_keyhash"@);
    reveal_strlit("pledge");
    reading::lemma_short_text_fits("pledge"@);
    reveal_strlit("cost");
    reading::lemma_short_text_fits("cost"@);
    reveal_strlit("margin_num");
    reading::lemma_short_text_fits("margin_num"@);
    reveal_strlit("margin_den");
    reading::lemma_short_text_fits("margin_den"@);
    reveal_strlit("relays");
    reading::lemma_short_text_fits("relays"@);
    let f0 = |s: String| cbor::text_item(s@);
    let g0 = |s: String| words::txt(s@);
    words::lemma_arr_of(x.relays@, f0, g0);
}

/// Each is read in its place, in the order in which they are given.
pub proof fn lemma_stake_distribution_answer(pools: Vec<StakePoolSnapshot>)
    ensures
        words::spells(
            query::value_bytes(QueryResult::StakeDistribution(pools)),
            words::dict_of(pools@, |x: StakePoolSnapshot| words::bin(x.pool_id@) + (words::arr(3)
                + words::num(x.stake as nat) + words::num(x.pledge as nat)
                + words::num(x.cost as nat))),
        ),
{
    broadcast use reading::lemma_list_fits;

    let f = |x: StakePoolSnapshot| query::pool_item(x);
    let g = |x: StakePoolSnapshot| words::bin(x.pool_id@) + (words::arr(3)
        + words::num(x.stake as nat) + words::num(x.pledge as nat) + words::num(x.cost as nat));
    assert forall|i: int| 0 <= i < pools@.len() implies words::spells(
        f(#[trigger] pools@[i]),
        g(pools@[i]),
    ) by {
        lemma_pool_is_read(pools@[i]);
    }
    words::lemma_dict_of(pools@, f, g);
}

/// Each is read in its place, in the order in which they are given.
pub proof fn lemma_drep_state_answer(dreps: Vec<DRepSnapshot>)
    requires
        forall|i: int| 0 <= i < dreps@.len()
            ==> ((#[trigger] dreps@[i]).anchor_url matches Some(u) ==> reading::text_fits(u@)),
    ensures
        words::spells(
            query::value_bytes(QueryResult::DRepState(dreps)),
            words::arr_of(dreps@, |x: DRepSnapshot| words::dict(4) + (words::txt(("credential"@))
                + (words::bin(x.credential_hash@))) + (words::txt(("deposit"@))
                + (words::num(x.deposit as nat))) + (words::txt(("anchor_url"@))
                + ((match x.anchor_url { Some(s) => words::txt(s@), None => words::null(), })))
                + (words::txt(("registered_epoch"@)) + (words::num(x.registered_epoch as nat)))),
        ),
{
    broadcast use reading::lemma_list_fits;

    let f = |x: DRepSnapshot| query::drep_item(x);
    let g = |x: DRepSnapshot| words::dict(4) + (words::txt(("credential"@))
        + (words::bin(x.credential_hash@))) + (words::txt(("deposit"@))
        + (words::num(x.deposit as nat))) + (words::txt(("anchor_url"@))
        + ((match x.anchor_url { Some(s) => words::txt(s@), None => words::null(), })))
        + (words::txt(("registered_epoch"@)) + (words::num(x.registered_epoch as nat)));
    assert forall|i: int| 0 <= i < dreps@.len() implies words::spells(
        f(#[trigger] dreps@[i]),
        g(dreps@[i]),
    ) by {
        lemma_drep_is_read(dreps@[i]);
    }
    words::lemma_arr_of(dreps@, f, g);
}

/// Each is read in its place, in the order in which they are given.
pub proof fn lemma_utxo_by_address_answer(utxos: Vec<UtxoSnapshot>)
    requires
        forall|i: int| 0 <= i < utxos@.len()
            ==> (reading::text_fits((#[trigger] utxos@[i]).address@)),
    ensures
        words::spells(
            query::value_bytes(QueryResult::UtxoByAddress(utxos)),
            words::arr_of(utxos@, |x: UtxoSnapshot| words::dict(5) + (words::txt(("tx_hash"@))
                + (words::bin(x.tx_hash@))) + (words::txt(("output_index"@))
                + (words::num(x.output_index as nat))) + (words::txt(("address"@))
                + (words::txt(x.address@))) + (words::txt(("lovelace"@))
                + (words::num(x.lovelace as nat))) + (words::txt(("has_datum"@))
                + (words::truth(x.has_datum)))),
        ),
{
    broadcast use reading::lemma_list_fits;

    let f = |x: UtxoSnapshot| query::utxo_item(x);
    let g = |x: UtxoSnapshot| words::dict(5) + (words::txt(("tx_hash"@))
        + (words::bin(x.tx_hash@))) + (words::txt(("output_index"@))
        + (words::num(x.output_index as nat))) + (words::txt(("address"@))
        + (words::txt(x.address@))) + (words::txt(("lovelace"@))
        + (words::num(x.lovelace as nat))) + (words::txt(("has_datum"@))
        + (words::truth(x.has_datum)));
    assert forall|i: int| 0 <= i < utxos@.len() implies words::spells(
        f(#[trigger] utxos@[i]),
        g(utxos@[i]),
    ) by {
        lemma_utxo_is_read(utxos@[i]);
    }
    words::lemma_arr_of(utxos@, f, g);
}

/// Each is read in its place, in the order in which they are given.
pub proof fn lemma_stake_address_info_answer(addrs: Vec<StakeAddressSnapshot>)
    ensures
        words::spells(
            query::value_bytes(QueryResult::StakeAddressInfo(addrs)),
            words::arr_of(addrs@, |x: StakeAddressSnapshot| words::dict(3)
                + (words::txt(("credential"@)) + (words::bin(x.credential_hash@)))
                + (words::txt(("delegated_pool"@))
                + ((match x.delegated_pool { Some(b) => words::bin(b@), None => words::null(),
                }))) + (words::txt(("reward_balance"@)) + (words::num(x.reward_balance as nat)))),
        ),
{
    broadcast use reading::lemma_list_fits;

    let f = |x: StakeAddressSnapshot| query::stake_address_item(x);
    let g = |x: StakeAddressSnapshot| words::dict(3) + (words::txt(("credential"@))
        + (words::bin(x.credential_hash@))) + (words::txt(("delegated_pool"@))
        + ((match x.delegated_pool { Some(b) => words::bin(b@), None => words::null(), })))
        + (words::txt(("reward_balance"@)) + (words::num(x.reward_balance as nat)));
    assert forall|i: int| 0 <= i < addrs@.len() implies words::spells(
        f(#[trigger] addrs@[i]),
        g(addrs@[i]),
    ) by {
        lemma_stake_address_is_read(addrs@[i]);
    }
    words::lemma_arr_of(addrs@, f, g);
}

/// The parameters of pools are read in the order in which they are given.
pub proof fn lemma_pool_params_answer(
    pools: Vec<PoolParamsSnapshot>,
    each_pool: spec_fn(PoolParamsSnapshot) -> Seq<Word>,
)
    requires
        forall|i: int|
            0 <= i < pools@.len() ==> words::spells(
                query::pool_params_item(#[trigger] pools@[i]),
                each_pool(pools@[i]),
            ),
    ensures
        words::spells(
            query::value_bytes(QueryResult::PoolParams(pools)),
            words::arr_of(pools@, |x: PoolParamsSnapshot| each_pool(x)),
        ),
{
    broadcast use reading::lemma_list_fits;

    let f = |x: PoolParamsSnapshot| query::pool_params_item(x);
    words::lemma_arr_of(pools@, f, |x: PoolParamsSnapshot| each_pool(x));
}

/// The answers that are a few values are read in the order of their fields.
pub proof fn lemma_short_answers(r: QueryResult)
    requires
        r matches QueryResult::Error(m) ==> reading::text_fits(m@),
        r matches QueryResult::SystemStart(m) ==> reading::text_fits(m@),
    ensures
        ({
            let b = query::value_bytes(r);
            match r {
                QueryResult::EpochNo(n) => words::spells(b, words::num(n as nat)),
                QueryResult::ChainTip { slot, hash, block_no } => words::spells(
                    b,
                    words::arr(2) + (words::arr(2) + words::num(slot as nat) + words::bin(hash@))
                        + words::num(block_no as nat),
                ),
                QueryResult::CurrentEra(n) => words::spells(b, words::num(n as nat)),
                QueryResult::SystemStart(s) => words::spells(b, words::txt(s@)),
                QueryResult::ChainBlockNo(n) => words::spells(b, words::num(n as nat)),
                QueryResult::Error(m) => words::spells(b, words::txt(m@)),
                _ => true,
            }
        }),
{
    broadcast use {words::group_words, reading::lemma_list_fits};

}

/// The long answers are what was asked for and nothing else.
pub proof fn lemma_long_answers(r: QueryResult)
    ensures
        r matches QueryResult::ProtocolParams(pp) ==> query::value_bytes(r)
            == params::params_bytes(*pp),
        r matches QueryResult::GovState(g) ==> query::value_bytes(r) == query::gov_state_bytes(g),
        r matches QueryResult::CommitteeState(c) ==> query::value_bytes(r)
            == query::committee_bytes(c),
        r matches QueryResult::StakeSnapshots(s) ==> query::value_bytes(r)
            == query::snapshots_bytes(s),
{
}

/// MsgResult is read as 4 and the answer.
pub proof fn lemma_result_is_read(r: QueryResult, answer: Seq<Word>)
    requires
        words::spells(query::value_bytes(r), answer),
    ensures
        words::spells(query::result_bytes(r), words::arr(2) + words::num(4) + answer),
{
    broadcast use words::group_words;

}

} // verus!
