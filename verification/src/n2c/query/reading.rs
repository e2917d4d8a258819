//! What a client reads from the answers, word by word: which value stands at which place.
use crate::cbor;
use crate::n2c::query::encoding;
use crate::n2c::query::governance;
use crate::n2c::query::ledger;
use crate::n2c::query::protocol;
use crate::n2c::query::utctime;
use crate::order;
use crate::query_handler::{
    CommitteeMemberSnapshot, CommitteeSnapshot, DRepSnapshot, DRepStakeEntry, EraBound, EraSummary,
    GenesisConfigSnapshot, GovActionId, GovStateSnapshot, LedgerPeerEntry, NonMyopicRewardEntry,
    PoolDefaultVoteEntry, PoolParamsSnapshot, PoolRewardInfo, PoolStakeSnapshotEntry,
    ProposalSnapshot, ProtocolParamsSnapshot, QueryResult, RelaySnapshot, ShelleyPParamsSnapshot,
    StakeAddressSnapshot, StakeDelegDepositEntry, StakePoolSnapshot, StakeSnapshotsResult,
    UtxoSnapshot, VoteDelegateeEntry,
};
use crate::words;
use crate::words::Word;
use vstd::prelude::*;

verus! {

/// A list in memory has a length that fits 64 bits.
pub broadcast proof fn lemma_list_fits<T>(v: Vec<T>)
    ensures
        #[trigger] v@.len() <= u64::MAX,
{
    assert(v.len() == v@.len());
}

/// Whether the bytes of a text can be counted in 64 bits.
pub open spec fn text_fits(s: Seq<char>) -> bool {
    vstd::utf8::encode_utf8(s).len() <= u64::MAX
}

/// A text takes at most four bytes for each of its characters.
pub proof fn lemma_text_len(s: Seq<char>)
    ensures
        vstd::utf8::encode_utf8(s).len() <= 4 * s.len(),
    decreases s.len(),
{
    if s.len() > 0 {
        lemma_text_len(s.drop_first());
    }
}

/// A short text fits.
pub proof fn lemma_short_text_fits(s: Seq<char>)
    requires
        s.len() <= 1000,
    ensures
        text_fits(s),
{
    lemma_text_len(s);
}

/// Whether the name of a relay fits.
pub open spec fn relay_fits(r: RelaySnapshot) -> bool {
    match r {
        RelaySnapshot::SingleHostAddr { .. } => true,
        RelaySnapshot::SingleHostName { port, dns_name } => text_fits(dns_name@),
        RelaySnapshot::MultiHostName { dns_name } => text_fits(dns_name@),
    }
}

proof fn lemma_members_fit(v: Seq<Vec<u8>>)
    ensures
        ({
            let r = order::sorted_bytes(order::contents(v));
            &&& r.len() == v.len()
            &&& forall|i: int| 0 <= i < r.len() ==> (#[trigger] r[i]).len() <= u64::MAX
        }),
{
    broadcast use vstd::seq_lib::group_to_multiset_ensures;

    let c = order::contents(v);
    let r = order::sorted_bytes(c);
    order::lemma_lex_total_preorder();
    order::lemma_sorted_by(c, |a: Seq<u8>, b: Seq<u8>| order::lex_le(a, b));
    assert forall|i: int| 0 <= i < r.len() implies (#[trigger] r[i]).len() <= u64::MAX by {
        assert(r.contains(r[i]));
        assert(c.to_multiset().count(r[i]) > 0);
        assert(c.contains(r[i]));
        let j = choose|j: int| 0 <= j < c.len() && c[j] == r[i];
        lemma_list_fits(v[j]);
    }
}

/// A fraction is read as tag 30 on its numerator and its denominator.
pub proof fn lemma_rational_is_read(num: u64, den: u64)
    ensures
        words::spells(
            protocol::rational(num, den),
            words::tag(30) + words::arr(2) + words::num(num as nat) + words::num(den as nat),
        ),
{
    broadcast use {words::group_words, lemma_list_fits};

}

/// A pair is read in the order in which it is given.
pub proof fn lemma_pair_is_read(a: u64, b: u64)
    ensures
        words::spells(
            protocol::pair(a, b),
            words::arr(2) + words::num(a as nat) + words::num(b as nat),
        ),
{
    broadcast use {words::group_words, lemma_list_fits};

}

/// The cost parameters of a language are read in their order.
pub proof fn lemma_costs_array_is_read(costs: Seq<i64>)
    requires
        costs.len() <= u64::MAX,
    ensures
        words::spells(
            protocol::costs_array(costs),
            words::arr_of(costs, |c: i64| words::int_of(c as int)),
        ),
{
    broadcast use {words::group_words, lemma_list_fits};

    let f0 = |c: i64| cbor::sint(c as int);
    let g0 = |c: i64| words::int_of(c as int);
    words::lemma_arr_of(costs, f0, g0);
}

/// A cost model is read behind the number of its language, where there is one.
pub proof fn lemma_cost_model_is_read(language: nat, costs: Option<Vec<i64>>)
    requires
        language <= u64::MAX,
    ensures
        words::spells(
            protocol::cost_model(language, costs),
            match costs {
                Some(v) => words::num(language) + (words::arr_of(v@, |c: i64|
                    words::int_of(c as int))),
                None => Seq::empty(),
            },
        ),
{
    broadcast use {words::group_words, lemma_list_fits};

    if let Some(v) = costs {
        lemma_costs_array_is_read(v@);
    }
}

/// As many cost models are read as there are, by language.
pub proof fn lemma_cost_models_are_read(pp: ProtocolParamsSnapshot)
    ensures
        words::spells(
            protocol::cost_models(pp),
            words::dict((if pp.cost_models_v1 is Some { 1nat } else { 0 })
                + (if pp.cost_models_v2 is Some { 1nat } else { 0 })
                + (if pp.cost_models_v3 is Some { 1nat } else { 0 }))
                + (match pp.cost_models_v1 {
                Some(v) => words::num(0) + (words::arr_of(v@, |c: i64| words::int_of(c as int))),
                None => Seq::empty(),
            })
                + (match pp.cost_models_v2 {
                Some(v) => words::num(1) + (words::arr_of(v@, |c: i64| words::int_of(c as int))),
                None => Seq::empty(),
            })
                + (match pp.cost_models_v3 {
                Some(v) => words::num(2) + (words::arr_of(v@, |c: i64| words::int_of(c as int))),
                None => Seq::empty(),
            }),
        ),
{
    broadcast use {words::group_words, lemma_list_fits};

    lemma_cost_model_is_read(0, pp.cost_models_v1);
    lemma_cost_model_is_read(1, pp.cost_models_v2);
    lemma_cost_model_is_read(2, pp.cost_models_v3);
}

/// The five voting thresholds of the pools are read in their places.
pub proof fn lemma_pool_voting_thresholds_are_read(pp: ProtocolParamsSnapshot)
    ensures
        words::spells(
            protocol::pool_voting_thresholds(pp),
            words::arr(5)
                + (words::tag(30) + words::arr(2)
                    + words::num(pp.pvt_motion_no_confidence_num as nat)
                    + words::num(pp.pvt_motion_no_confidence_den as nat))
                + (words::tag(30) + words::arr(2)
                    + words::num(pp.pvt_committee_normal_num as nat)
                    + words::num(pp.pvt_committee_normal_den as nat))
                + (words::tag(30) + words::arr(2)
                    + words::num(pp.pvt_committee_no_confidence_num as nat)
                    + words::num(pp.pvt_committee_no_confidence_den as nat))
                + (words::tag(30) + words::arr(2) + words::num(pp.pvt_hard_fork_num as nat)
                    + words::num(pp.pvt_hard_fork_den as nat))
                + (words::tag(30) + words::arr(2)
                    + words::num(pp.pvt_pp_security_group_num as nat)
                    + words::num(pp.pvt_pp_security_group_den as nat)),
        ),
{
    broadcast use {words::group_words, lemma_list_fits};

}

/// The ten voting thresholds of the DReps are read in their places.
pub proof fn lemma_drep_voting_thresholds_are_read(pp: ProtocolParamsSnapshot)
    ensures
        words::spells(
            protocol::drep_voting_thresholds(pp),
            words::arr(10)
                + (words::tag(30) + words::arr(2) + words::num(pp.dvt_no_confidence_num as nat)
                    + words::num(pp.dvt_no_confidence_den as nat))
                + (words::tag(30) + words::arr(2)
                    + words::num(pp.dvt_committee_normal_num as nat)
                    + words::num(pp.dvt_committee_normal_den as nat))
                + (words::tag(30) + words::arr(2)
                    + words::num(pp.dvt_committee_no_confidence_num as nat)
                    + words::num(pp.dvt_committee_no_confidence_den as nat))
                + (words::tag(30) + words::arr(2) + words::num(pp.dvt_constitution_num as nat)
                    + words::num(pp.dvt_constitution_den as nat))
                + (words::tag(30) + words::arr(2) + words::num(pp.dvt_hard_fork_num as nat)
                    + words::num(pp.dvt_hard_fork_den as nat))
                + (words::tag(30) + words::arr(2)
                    + words::num(pp.dvt_pp_network_group_num as nat)
                    + words::num(pp.dvt_pp_network_group_den as nat))
                + (words::tag(30) + words::arr(2)
                    + words::num(pp.dvt_pp_economic_group_num as nat)
                    + words::num(pp.dvt_pp_economic_group_den as nat))
                + (words::tag(30) + words::arr(2)
                    + words::num(pp.dvt_pp_technical_group_num as nat)
                    + words::num(pp.dvt_pp_technical_group_den as nat))
                + (words::tag(30) + words::arr(2) + words::num(pp.dvt_pp_gov_group_num as nat)
                    + words::num(pp.dvt_pp_gov_group_den as nat))
                + (words::tag(30) + words::arr(2)
                    + words::num(pp.dvt_treasury_withdrawal_num as nat)
                    + words::num(pp.dvt_treasury_withdrawal_den as nat)),
        ),
{
    broadcast use {words::group_words, lemma_list_fits};

}

/// The 31 protocol parameters are read in their places.
#[verifier::rlimit(60)]
#[verifier::spinoff_prover]
pub proof fn lemma_params_are_read(
    pp: ProtocolParamsSnapshot,
    cost_models: Seq<Word>,
    pool_voting_thresholds: Seq<Word>,
    drep_voting_thresholds: Seq<Word>,
)
    requires
        words::spells(protocol::cost_models(pp), cost_models),
        words::spells(protocol::pool_voting_thresholds(pp), pool_voting_thresholds),
        words::spells(protocol::drep_voting_thresholds(pp), drep_voting_thresholds),
    ensures
        words::spells(
            protocol::params_bytes(pp),
            words::arr(31)
                + words::num(pp.min_fee_a as nat)
                + words::num(pp.min_fee_b as nat)
                + words::num(pp.max_block_body_size as nat)
                + words::num(pp.max_tx_size as nat)
                + words::num(pp.max_block_header_size as nat)
                + words::num(pp.key_deposit as nat)
                + words::num(pp.pool_deposit as nat)
                + words::num(pp.e_max as nat)
                + words::num(pp.n_opt as nat)
                + (words::tag(30) + words::arr(2) + words::num(pp.a0_num as nat)
                    + words::num(pp.a0_den as nat))
                + (words::tag(30) + words::arr(2) + words::num(pp.rho_num as nat)
                    + words::num(pp.rho_den as nat))
                + (words::tag(30) + words::arr(2) + words::num(pp.tau_num as nat)
                    + words::num(pp.tau_den as nat))
                + (words::arr(2) + words::num(pp.protocol_version_major as nat)
                    + words::num(pp.protocol_version_minor as nat))
                + words::num(pp.min_pool_cost as nat)
                + words::num(pp.ada_per_utxo_byte as nat)
                + cost_models
                + (words::arr(2)
                    + (words::tag(30) + words::arr(2)
                        + words::num(pp.execution_costs_mem_num as nat)
                        + words::num(pp.execution_costs_mem_den as nat))
                    + (words::tag(30) + words::arr(2)
                        + words::num(pp.execution_costs_step_num as nat)
                        + words::num(pp.execution_costs_step_den as nat)))
                + (words::arr(2) + words::num(pp.max_tx_ex_mem as nat)
                    + words::num(pp.max_tx_ex_steps as nat))
                + (words::arr(2) + words::num(pp.max_block_ex_mem as nat)
                    + words::num(pp.max_block_ex_steps as nat))
                + words::num(pp.max_val_size as nat)
                + words::num(pp.collateral_percentage as nat)
                + words::num(pp.max_collateral_inputs as nat)
                + pool_voting_thresholds
                + drep_voting_thresholds
                + words::num(pp.committee_min_size as nat)
                + words::num(pp.committee_max_term_length as nat)
                + words::num(pp.gov_action_lifetime as nat)
                + words::num(pp.gov_action_deposit as nat)
                + words::num(pp.drep_deposit as nat)
                + words::num(pp.drep_activity as nat)
                + (words::tag(30) + words::arr(2)
                    + words::num(pp.min_fee_ref_script_cost_per_byte as nat)
                    + words::num(1 as nat)),
        ),
{
    broadcast use {words::group_words, lemma_list_fits};

}

/// The 18 fields of the Shelley parameters are read in their places.
pub proof fn lemma_shelley_params_are_read(pp: ShelleyPParamsSnapshot)
    ensures
        words::spells(
            protocol::shelley_params_bytes(pp),
            words::arr(18)
                + words::num(pp.min_fee_a as nat)
                + words::num(pp.min_fee_b as nat)
                + words::num(pp.max_block_body_size as nat)
                + words::num(pp.max_tx_size as nat)
                + words::num(pp.max_block_header_size as nat)
                + words::num(pp.key_deposit as nat)
                + words::num(pp.pool_deposit as nat)
                + words::num(pp.e_max as nat)
                + words::num(pp.n_opt as nat)
                + (words::tag(30) + words::arr(2) + words::num(pp.a0_num as nat)
                    + words::num(pp.a0_den as nat))
                + (words::tag(30) + words::arr(2) + words::num(pp.rho_num as nat)
                    + words::num(pp.rho_den as nat))
                + (words::tag(30) + words::arr(2) + words::num(pp.tau_num as nat)
                    + words::num(pp.tau_den as nat))
                + (words::tag(30) + words::arr(2) + words::num(pp.d_num as nat)
                    + words::num(pp.d_den as nat))
                + (words::arr(1) + words::num(0))
                + words::num(pp.protocol_version_major as nat)
                + words::num(pp.protocol_version_minor as nat)
                + words::num(pp.min_utxo_value as nat)
                + words::num(pp.min_pool_cost as nat),
        ),
{
    broadcast use {words::group_words, lemma_list_fits};

}

/// A genesis delegation is read as genesis hash, delegate hash and VRF hash.
pub proof fn lemma_gen_deleg_is_read(d: (Vec<u8>, Vec<u8>, Vec<u8>))
    ensures
        words::spells(
            protocol::gen_deleg_item(d),
            words::bin(d.0@) + words::arr(2) + words::bin(d.1@) + words::bin(d.2@),
        ),
{
    broadcast use {words::group_words, lemma_list_fits};

}

/// The 15 fields of the genesis are read in their places.
#[verifier::rlimit(60)]
#[verifier::spinoff_prover]
pub proof fn lemma_genesis_is_read(
    gc: GenesisConfigSnapshot,
    utctime: Seq<Word>,
    shelley_params: Seq<Word>,
)
    requires
        words::spells(protocol::utctime_bytes(gc.system_start@), utctime),
        words::spells(protocol::shelley_params_bytes(gc.protocol_params), shelley_params),
    ensures
        words::spells(
            protocol::genesis_bytes(gc),
            words::arr(15)
                + utctime
                + words::num(gc.network_magic as nat)
                + words::num(gc.network_id as nat)
                + (words::arr(2) + words::num(gc.active_slots_coeff_num as nat)
                    + words::num(gc.active_slots_coeff_den as nat))
                + words::num(gc.security_param as nat)
                + words::num(gc.epoch_length as nat)
                + words::num(gc.slots_per_kes_period as nat)
                + words::num(gc.max_kes_evolutions as nat)
                + words::num(gc.slot_length_micros as nat)
                + words::num(gc.update_quorum as nat)
                + words::num(gc.max_lovelace_supply as nat)
                + shelley_params
                + words::dict_of(gc.gen_delegs@, |d: (Vec<u8>, Vec<u8>, Vec<u8>)|
                    (words::bin(d.0@) + words::arr(2) + words::bin(d.1@) + words::bin(d.2@)))
                + words::dict(0)
                + (words::arr(2) + words::dict(0) + words::dict(0)),
        ),
{
    broadcast use {words::group_words, lemma_list_fits};

    let f0 = |d: (Vec<u8>, Vec<u8>, Vec<u8>)| protocol::gen_deleg_item(d);
    let g0 = |d: (Vec<u8>, Vec<u8>, Vec<u8>)| words::bin(d.0@) + words::arr(2) + words::bin(d.1@)
        + words::bin(d.2@);
    assert forall|i: int| 0 <= i < gc.gen_delegs@.len() implies words::spells(
        f0(#[trigger] gc.gen_delegs@[i]),
        g0(gc.gen_delegs@[i]),
    ) by {
        lemma_gen_deleg_is_read(gc.gen_delegs@[i]);
    }
    words::lemma_dict_of(gc.gen_delegs@, f0, g0);
}

/// A bound is read as time, slot and epoch.
pub proof fn lemma_bound_is_read(time_pico: u64, slot: u64, epoch: u64)
    ensures
        words::spells(
            protocol::bound_bytes(time_pico, slot, epoch),
            words::arr(3)
                + words::num(time_pico as nat)
                + words::num(slot as nat)
                + words::num(epoch as nat),
        ),
{
    broadcast use {words::group_words, lemma_list_fits};

}

/// The safe zone is read as its number of slots, or as unbounded for a last era without end.
pub proof fn lemma_safe_zone_is_read(e: EraSummary, last: bool)
    ensures
        words::spells(
            protocol::safe_zone_bytes(e, last),
            if last && e.end is None {
                words::arr(1) + words::num(1)
            } else {
                words::arr(3)
                    + words::num(0)
                    + words::num(e.safe_zone as nat)
                    + (words::arr(1) + words::num(0))
            },
        ),
{
    broadcast use {words::group_words, lemma_list_fits};

}

/// An era is read as start, end if any, and parameters.
pub proof fn lemma_era_is_read(e: EraSummary, last: bool, safe_zone: Seq<Word>)
    requires
        words::spells(protocol::safe_zone_bytes(e, last), safe_zone),
    ensures
        words::spells(
            protocol::era_item(e, last),
            words::arr(3)
                + (words::arr(3)
                + words::num(e.start_time_pico as nat)
                + words::num(e.start_slot as nat)
                + words::num(e.start_epoch as nat))
                + (match e.end { Some(b) => (words::arr(3)
                + words::num(b.time_pico as nat)
                + words::num(b.slot as nat)
                + words::num(b.epoch as nat)), None => words::null() })
                + (words::arr(4)
                    + words::num(e.epoch_size as nat)
                    + words::num(e.slot_length_ms as nat)
                    + safe_zone
                    + words::num(e.genesis_window as nat)),
        ),
{
    broadcast use {words::group_words, lemma_list_fits};

}

/// An amount is read behind its name.
pub proof fn lemma_amount_is_read(a: (Vec<u8>, u64))
    ensures
        words::spells(
            ledger::amount_item(a),
            words::bin(a.0@) + words::num(a.1 as nat),
        ),
{
    broadcast use {words::group_words, lemma_list_fits};

}

/// Amounts are read by name, in their order.
pub proof fn lemma_amounts_are_read(v: Seq<(Vec<u8>, u64)>)
    requires
        v.len() <= u64::MAX,
    ensures
        words::spells(
            ledger::amounts(v),
            words::dict_of(v, |x: (Vec<u8>, u64)| (words::bin(x.0@) + words::num(x.1 as nat))),
        ),
{
    broadcast use {words::group_words, lemma_list_fits};

    let f0 = |x: (Vec<u8>, u64)| ledger::amount_item(x);
    let g0 = |x: (Vec<u8>, u64)| words::bin(x.0@) + words::num(x.1 as nat);
    assert forall|i: int| 0 <= i < v.len() implies words::spells(
        f0(#[trigger] v[i]),
        g0(v[i]),
    ) by {
        lemma_amount_is_read(v[i]);
    }
    words::lemma_dict_of(v, f0, g0);
}

/// The assets of a policy are read behind its id.
pub proof fn lemma_policy_is_read(p: (Vec<u8>, Vec<(Vec<u8>, u64)>))
    ensures
        words::spells(
            ledger::policy_item(p),
            words::bin(p.0@) + (words::dict_of(p.1@, |x: (Vec<u8>, u64)| (words::bin(x.0@)
                + words::num(x.1 as nat)))),
        ),
{
    broadcast use {words::group_words, lemma_list_fits};

    lemma_amounts_are_read(p.1@);
}

/// A value is read as the coin, with the assets by policy where there are any.
pub proof fn lemma_value_is_read(u: UtxoSnapshot)
    ensures
        words::spells(
            ledger::value_bytes(u),
            if u.multi_asset@.len() == 0 {
                words::num(u.lovelace as nat)
            } else {
                words::arr(2)
                    + words::num(u.lovelace as nat)
                    + words::dict_of(u.multi_asset@, |x: (Vec<u8>, Vec<(Vec<u8>, u64)>)|
                        (words::bin(x.0@) + (words::dict_of(x.1@, |x: (Vec<u8>, u64)|
                        (words::bin(x.0@) + words::num(x.1 as nat))))))
            },
        ),
{
    broadcast use {words::group_words, lemma_list_fits};

    let f0 = |x: (Vec<u8>, Vec<(Vec<u8>, u64)>)| ledger::policy_item(x);
    let g0 = |x: (Vec<u8>, Vec<(Vec<u8>, u64)>)| words::bin(x.0@)
        + (words::dict_of(x.1@, |x: (Vec<u8>, u64)| (words::bin(x.0@) + words::num(x.1 as nat))));
    assert forall|i: int| 0 <= i < u.multi_asset@.len() implies words::spells(
        f0(#[trigger] u.multi_asset@[i]),
        g0(u.multi_asset@[i]),
    ) by {
        lemma_policy_is_read(u.multi_asset@[i]);
    }
    words::lemma_dict_of(u.multi_asset@, f0, g0);
}

/// An output is read as address, value, and datum hash if any.
pub proof fn lemma_output_is_read(u: UtxoSnapshot, value: Seq<Word>)
    requires
        words::spells(ledger::value_bytes(u), value),
    ensures
        words::spells(
            ledger::output_bytes(u),
            words::dict(if u.datum_hash is Some { 3 } else { 2 })
                + (words::num(0) + words::bin(u.address_bytes@))
                + (words::num(1) + value)
                + match u.datum_hash {
                    Some(h) => words::num(2) + (words::arr(2) + words::num(0) + words::bin(h@)),
                    None => Seq::empty(),
                },
        ),
{
    broadcast use {words::group_words, lemma_list_fits};

}

/// A pool is read as its id, its share of the active stake and its VRF key.
pub proof fn lemma_pool_stake_is_read(p: StakePoolSnapshot)
    ensures
        words::spells(
            ledger::pool_stake_item(p),
            words::bin(p.pool_id@)
                + (words::arr(2)
                    + (words::tag(30) + words::arr(2) + words::num(p.stake as nat)
                        + words::num(if p.total_active_stake < 1 { 1 } else { p.total_active_stake as nat }))
                    + words::bin(p.vrf_keyhash@)),
        ),
{
    broadcast use {words::group_words, lemma_list_fits};

}

/// A pool is read as its id, its share of the total, its stake and its VRF key.
pub proof fn lemma_pool_stake2_is_read(p: StakePoolSnapshot, total: u64)
    ensures
        words::spells(
            ledger::pool_stake2_item(p, total),
            words::bin(p.pool_id@)
                + (words::arr(3)
                    + (if total > 0 { (words::tag(30) + words::arr(2)
                        + words::num(p.stake as nat)
                        + words::num(total as nat)) } else { (words::tag(30) + words::arr(2)
                        + words::num(0 as nat) + words::num(1 as nat)) })
                    + words::num(p.stake as nat)
                    + words::bin(p.vrf_keyhash@)),
        ),
{
    broadcast use {words::group_words, lemma_list_fits};

}

/// The hash of a key is read as a credential of type 0.
pub proof fn lemma_key_credential_is_read(hash: Seq<u8>)
    requires
        hash.len() <= u64::MAX,
    ensures
        words::spells(
            ledger::key_credential(hash),
            words::arr(2) + words::num(0) + words::bin(hash),
        ),
{
    broadcast use {words::group_words, lemma_list_fits};

}

/// A credential is read as its type and its hash.
pub proof fn lemma_credential_is_read(kind: u8, hash: Seq<u8>)
    requires
        hash.len() <= u64::MAX,
    ensures
        words::spells(
            ledger::credential(kind, hash),
            words::arr(2) + words::num(kind as nat) + words::bin(hash),
        ),
{
    broadcast use {words::group_words, lemma_list_fits};

}

/// The pool to which an address delegates is read behind its credential.
pub proof fn lemma_delegation_is_read(a: StakeAddressSnapshot)
    ensures
        words::spells(
            ledger::delegation_item(a),
            (words::arr(2) + words::num(0) + words::bin(a.credential_hash@))
                + match a.delegated_pool {
                Some(pool) => words::bin(pool@),
                None => words::bin(Seq::empty()),
            },
        ),
{
    broadcast use {words::group_words, lemma_list_fits};

}

/// The rewards of an address are read behind its credential.
pub proof fn lemma_reward_is_read(a: StakeAddressSnapshot)
    ensures
        words::spells(
            ledger::reward_item(a),
            (words::arr(2) + words::num(0) + words::bin(a.credential_hash@))
                + words::num(a.reward_balance as nat),
        ),
{
    broadcast use {words::group_words, lemma_list_fits};

}

/// The delegations of those that delegate are read first, then the rewards of all.
pub proof fn lemma_stake_address_info_is_read(addrs: Seq<StakeAddressSnapshot>)
    requires
        addrs.len() <= u64::MAX,
    ensures
        words::spells(
            ledger::stake_address_info(addrs),
            words::arr(2)
                + words::dict_of(
                    addrs.filter(|a: StakeAddressSnapshot| a.delegated_pool is Some),
                    |x: StakeAddressSnapshot| ((words::arr(2) + words::num(0) + words::bin(x.credential_hash@)) + match x.delegated_pool {
                Some(pool) => words::bin(pool@),
                None => words::bin(Seq::empty()),
            }))
                + words::dict_of(addrs, |x: StakeAddressSnapshot| ((words::arr(2) + words::num(0)
                    + words::bin(x.credential_hash@)) + words::num(x.reward_balance as nat))),
        ),
{
    broadcast use {words::group_words, lemma_list_fits};

    let s0 = addrs.filter(|a: StakeAddressSnapshot| a.delegated_pool is Some);
    addrs.lemma_filter_len(|a: StakeAddressSnapshot| a.delegated_pool is Some);
    let f0 = |x: StakeAddressSnapshot| ledger::delegation_item(x);
    let g0 = |x: StakeAddressSnapshot| (words::arr(2) + words::num(0)
        + words::bin(x.credential_hash@))
        + match x.delegated_pool { Some(pool) => words::bin(pool@),
        None => words::bin(Seq::empty()), };
    assert forall|i: int| 0 <= i < s0.len() implies words::spells(
        f0(#[trigger] s0[i]),
        g0(s0[i]),
    ) by {
        lemma_delegation_is_read(s0[i]);
    }
    words::lemma_dict_of(s0, f0, g0);
    let f1 = |x: StakeAddressSnapshot| ledger::reward_item(x);
    let g1 = |x: StakeAddressSnapshot| (words::arr(2) + words::num(0)
        + words::bin(x.credential_hash@)) + words::num(x.reward_balance as nat);
    assert forall|i: int| 0 <= i < addrs.len() implies words::spells(
        f1(#[trigger] addrs[i]),
        g1(addrs[i]),
    ) by {
        lemma_reward_is_read(addrs[i]);
    }
    words::lemma_dict_of(addrs, f1, g1);
}

/// The stake of a pool is read as its id, then its stake in the mark, the set and the go snapshot.
pub proof fn lemma_snapshot_is_read(p: PoolStakeSnapshotEntry)
    ensures
        words::spells(
            ledger::snapshot_item(p),
            words::bin(p.pool_id@)
                + (words::arr(3)
                    + words::num(p.mark_stake as nat)
                    + words::num(p.set_stake as nat)
                    + words::num(p.go_stake as nat)),
        ),
{
    broadcast use {words::group_words, lemma_list_fits};

}

/// The stakes by pool are read first, then the totals of the mark, the set and the go snapshot,
/// none of them less than 1.
pub proof fn lemma_stake_snapshots_are_read(s: StakeSnapshotsResult)
    ensures
        words::spells(
            ledger::stake_snapshots_bytes(s),
            words::arr(4)
                + words::dict_of(s.pools@, |x: PoolStakeSnapshotEntry| (words::bin(x.pool_id@)
                + (words::arr(3)
                    + words::num(x.mark_stake as nat)
                    + words::num(x.set_stake as nat)
                    + words::num(x.go_stake as nat))))
                + words::num(if s.total_mark_stake < 1 { 1 } else { s.total_mark_stake as nat })
                + words::num(if s.total_set_stake < 1 { 1 } else { s.total_set_stake as nat })
                + words::num(if s.total_go_stake < 1 { 1 } else { s.total_go_stake as nat }),
        ),
{
    broadcast use {words::group_words, lemma_list_fits};

    let f0 = |x: PoolStakeSnapshotEntry| ledger::snapshot_item(x);
    let g0 = |x: PoolStakeSnapshotEntry| words::bin(x.pool_id@) + (words::arr(3)
        + words::num(x.mark_stake as nat) + words::num(x.set_stake as nat)
        + words::num(x.go_stake as nat));
    assert forall|i: int| 0 <= i < s.pools@.len() implies words::spells(
        f0(#[trigger] s.pools@[i]),
        g0(s.pools@[i]),
    ) by {
        lemma_snapshot_is_read(s.pools@[i]);
    }
    words::lemma_dict_of(s.pools@, f0, g0);
}

/// What each pool would pay is read behind the stake.
pub proof fn lemma_non_myopic_is_read(e: NonMyopicRewardEntry)
    ensures
        words::spells(
            ledger::non_myopic_item(e),
            words::num(e.stake_amount as nat) + (words::dict_of(e.pool_rewards@, |x: (Vec<u8>,
                u64)| (words::bin(x.0@) + words::num(x.1 as nat)))),
        ),
{
    broadcast use {words::group_words, lemma_list_fits};

    lemma_amounts_are_read(e.pool_rewards@);
}

/// A deposit is read behind its credential.
pub proof fn lemma_deposit_is_read(e: StakeDelegDepositEntry)
    ensures
        words::spells(
            ledger::deposit_item(e),
            (words::arr(2) + words::num(e.credential_type as nat)
                + words::bin(e.credential_hash@)) + words::num(e.deposit as nat),
        ),
{
    broadcast use {words::group_words, lemma_list_fits};

}

/// A DRep of type 0 or 1 is read as its type and its hash, any other as its type alone.
pub proof fn lemma_drep_is_read(kind: u8, hash: Option<Vec<u8>>)
    ensures
        words::spells(
            ledger::drep_bytes(kind, hash),
            if kind <= 1 {
                words::arr(2) + words::num(kind as nat) + match hash {
                    Some(h) => words::bin(h@),
                    None => Seq::empty(),
                }
            } else {
                words::arr(1) + words::num(kind as nat)
            },
        ),
{
    broadcast use {words::group_words, lemma_list_fits};

}

/// The stake behind a DRep is read behind the DRep.
pub proof fn lemma_drep_stake_is_read(e: DRepStakeEntry)
    ensures
        words::spells(
            ledger::drep_stake_item(e),
            (if e.drep_type <= 1 {
                words::arr(2) + words::num(e.drep_type as nat) + match e.drep_hash {
                    Some(h) => words::bin(h@),
                    None => Seq::empty(),
                }
            } else {
                words::arr(1) + words::num(e.drep_type as nat)
            }) + words::num(e.stake as nat),
        ),
{
    broadcast use {words::group_words, lemma_list_fits};

}

/// The DRep of a credential is read behind the credential.
pub proof fn lemma_vote_delegatee_is_read(e: VoteDelegateeEntry)
    ensures
        words::spells(
            ledger::vote_delegatee_item(e),
            (words::arr(2) + words::num(e.credential_type as nat)
                + words::bin(e.credential_hash@)) + (if e.drep_type <= 1 {
                words::arr(2) + words::num(e.drep_type as nat) + match e.drep_hash {
                    Some(h) => words::bin(h@),
                    None => Seq::empty(),
                }
            } else {
                words::arr(1) + words::num(e.drep_type as nat)
            }),
        ),
{
    broadcast use {words::group_words, lemma_list_fits};

}

/// The seven reward details of a pool are read in their places.
pub proof fn lemma_reward_info_is_read(p: PoolRewardInfo)
    ensures
        words::spells(
            ledger::reward_info_item(p),
            words::bin(p.pool_id@)
                + (words::arr(7)
                    + words::num(p.stake as nat)
                    + words::num(p.owner_stake as nat)
                    + words::num(p.pool_reward as nat)
                    + words::num(p.leader_reward as nat)
                    + words::num(p.member_reward as nat)
                    + (words::tag(30) + words::arr(2) + words::num(p.margin.0 as nat)
                        + words::num(p.margin.1 as nat))
                    + words::num(p.cost as nat)),
        ),
{
    broadcast use {words::group_words, lemma_list_fits};

}

/// The default vote of a pool is read behind its id.
pub proof fn lemma_default_vote_is_read(e: PoolDefaultVoteEntry)
    ensures
        words::spells(
            ledger::default_vote_item(e),
            words::bin(e.pool_id@) + (words::arr(1) + words::num(e.default_vote as nat)),
        ),
{
    broadcast use {words::group_words, lemma_list_fits};

}

/// The pools are read first, then the total.
pub proof fn lemma_pool_distr2_is_read(v: Seq<StakePoolSnapshot>, total: u64)
    requires
        v.len() <= u64::MAX,
    ensures
        words::spells(
            ledger::pool_distr2_bytes(v, total),
            words::arr(2)
                + words::dict_of(v, |x: StakePoolSnapshot| (words::bin(x.pool_id@)
                + (words::arr(3)
                    + (if total > 0 { (words::tag(30) + words::arr(2)
                        + words::num(x.stake as nat)
                        + words::num(total as nat)) } else { (words::tag(30) + words::arr(2)
                        + words::num(0 as nat) + words::num(1 as nat)) })
                    + words::num(x.stake as nat)
                    + words::bin(x.vrf_keyhash@))))
                + words::num(total as nat),
        ),
{
    broadcast use {words::group_words, lemma_list_fits};

    let f0 = |x: StakePoolSnapshot| ledger::pool_stake2_item(x, total);
    let g0 = |x: StakePoolSnapshot| words::bin(x.pool_id@) + (words::arr(3)
        + (if total > 0 { (words::tag(30) + words::arr(2) + words::num(x.stake as nat)
        + words::num(total as nat)) } else { (words::tag(30) + words::arr(2)
        + words::num(0 as nat) + words::num(1 as nat)) }) + words::num(x.stake as nat)
        + words::bin(x.vrf_keyhash@));
    assert forall|i: int| 0 <= i < v.len() implies words::spells(
        f0(#[trigger] v[i]),
        g0(v[i]),
    ) by {
        lemma_pool_stake2_is_read(v[i], total);
    }
    words::lemma_dict_of(v, f0, g0);
}

/// A set is read as tag 258 on its members, in lexicographic order.
pub proof fn lemma_set_of_is_read(v: Seq<Vec<u8>>)
    requires
        v.len() <= u64::MAX,
    ensures
        words::spells(
            ledger::set_of_bytes(v),
            words::tag(258)
                + words::arr_of(
                    order::sorted_bytes(order::contents(v)),
                    |x: Seq<u8>| words::bin(x),
                ),
        ),
{
    broadcast use {words::group_words, lemma_list_fits};

    let s0 = order::sorted_bytes(order::contents(v));
    lemma_members_fit(v);
    let f0 = |x: Seq<u8>| cbor::bytes_item(x);
    let g0 = |x: Seq<u8>| words::bin(x);
    words::lemma_arr_of(s0, f0, g0);
}

/// A port is read as its number, or as nothing.
pub proof fn lemma_port_is_read(port: Option<u16>)
    ensures
        words::spells(
            ledger::port_bytes(port),
            match port {
                Some(p) => words::num(p as nat),
                None => words::null(),
            },
        ),
{
    broadcast use {words::group_words, lemma_list_fits};

}

/// A relay is read as the number of its kind and then its port and addresses, or its name.
pub proof fn lemma_relay_is_read(r: RelaySnapshot)
    requires
        relay_fits(r),
    ensures
        words::spells(
            ledger::relay_bytes(r),
            match r {
                RelaySnapshot::SingleHostAddr { port, ipv4, ipv6 } => words::arr(4)
                    + words::num(0)
                    + (match port {
                Some(p) => words::num(p as nat),
                None => words::null(),
            })
                    + (match ipv4 {
                        Some(ip) => words::bin(ip@),
                        None => words::null(),
                    })
                    + (match ipv6 {
                        Some(ip) => words::bin(ip@),
                        None => words::null(),
                    }),
                RelaySnapshot::SingleHostName { port, dns_name } => words::arr(3)
                    + words::num(1)
                    + (match port {
                Some(p) => words::num(p as nat),
                None => words::null(),
            })
                    + words::txt(dns_name@),
                RelaySnapshot::MultiHostName { dns_name } => words::arr(2)
                    + words::num(2)
                    + words::txt(dns_name@),
            },
        ),
{
    broadcast use {words::group_words, lemma_list_fits};

}

/// Metadata are read as URL and hash, or as nothing.
pub proof fn lemma_metadata_are_read(url: Option<String>, hash: Option<Vec<u8>>)
    requires
        url matches Some(u) ==> text_fits(u@),
    ensures
        words::spells(
            ledger::metadata_bytes(url, hash),
            match url {
                Some(u) => words::arr(2) + words::txt(u@) + match hash {
                    Some(h) => words::bin(h@),
                    None => words::bin(Seq::new(32, |i: int| 0u8)),
                },
                None => words::null(),
            },
        ),
{
    broadcast use {words::group_words, lemma_list_fits};

}

/// The nine parameters of a pool are read behind its id, in their places.
pub proof fn lemma_pool_params_are_read(
    p: PoolParamsSnapshot,
    set_of: Seq<Word>,
    each_relay: spec_fn(RelaySnapshot) -> Seq<Word>,
    metadata: Seq<Word>,
)
    requires
        words::spells(ledger::set_of_bytes(p.owners@), set_of),
        forall|i: int| 0 <= i < p.relays@.len()
            ==> words::spells(ledger::relay_bytes(#[trigger] p.relays@[i]),
            each_relay(p.relays@[i])),
        words::spells(ledger::metadata_bytes(p.metadata_url, p.metadata_hash), metadata),
    ensures
        words::spells(
            ledger::pool_params_item(p),
            words::bin(p.pool_id@)
                + (words::arr(9)
                    + words::bin(p.pool_id@)
                    + words::bin(p.vrf_keyhash@)
                    + words::num(p.pledge as nat)
                    + words::num(p.cost as nat)
                    + (words::tag(30) + words::arr(2) + words::num(p.margin_num as nat)
                        + words::num(p.margin_den as nat))
                    + words::bin(p.reward_account@)
                    + set_of
                    + words::arr_of(p.relays@, |x: RelaySnapshot| each_relay(x))
                    + metadata),
        ),
{
    broadcast use {words::group_words, lemma_list_fits};

    let f0 = |x: RelaySnapshot| ledger::relay_bytes(x);
    let g0 = |x: RelaySnapshot| each_relay(x);
    words::lemma_arr_of(p.relays@, f0, g0);
}

/// The parameters of pools are read by pool, in their order.
pub proof fn lemma_pool_params_map_is_read(
    v: Seq<PoolParamsSnapshot>,
    each_pool_params: spec_fn(PoolParamsSnapshot) -> Seq<Word>,
)
    requires
        v.len() <= u64::MAX,
        forall|i: int| 0 <= i < v.len()
            ==> words::spells(ledger::pool_params_item(#[trigger] v[i]), each_pool_params(v[i])),
    ensures
        words::spells(
            ledger::pool_params_map(v),
            words::dict_of(v, |x: PoolParamsSnapshot| each_pool_params(x)),
        ),
{
    broadcast use {words::group_words, lemma_list_fits};

    let f0 = |x: PoolParamsSnapshot| ledger::pool_params_item(x);
    let g0 = |x: PoolParamsSnapshot| each_pool_params(x);
    words::lemma_dict_of(v, f0, g0);
}

/// A relay is read as an access point: by name, by four octets or by four words.
pub proof fn lemma_access_point_is_read(r: RelaySnapshot)
    requires
        relay_fits(r),
    ensures
        words::spells(
            ledger::access_point_bytes(r),
            match r {
                RelaySnapshot::SingleHostAddr { port, ipv4, ipv6 } => {
                    let p = words::int_of(port.unwrap_or(3001) as int);
                    match (ipv4, ipv6) {
                        (Some(ip), _) => words::arr(3)
                            + words::num(1)
                            + p
                            + (words::arr(4)
                                + words::int_of(ip@[0] as int)
                                + words::int_of(ip@[1] as int)
                                + words::int_of(ip@[2] as int)
                                + words::int_of(ip@[3] as int)),
                        (None, Some(ip)) => words::arr(3)
                            + words::num(2)
                            + p
                            + (words::arr(4)
                                + words::int_of(ip@[0] * 0x100_0000 + ip@[1] * 0x1_0000
                                    + ip@[2] * 0x100 + ip@[3])
                                + words::int_of(ip@[4] * 0x100_0000 + ip@[5] * 0x1_0000
                                    + ip@[6] * 0x100 + ip@[7])
                                + words::int_of(ip@[8] * 0x100_0000 + ip@[9] * 0x1_0000
                                    + ip@[10] * 0x100 + ip@[11])
                                + words::int_of(ip@[12] * 0x100_0000 + ip@[13] * 0x1_0000
                                    + ip@[14] * 0x100 + ip@[15])),
                        (None, None) => words::arr(3)
                            + words::num(1)
                            + p
                            + (words::arr(4)
                                + words::int_of(0)
                                + words::int_of(0)
                                + words::int_of(0)
                                + words::int_of(0)),
                    }
                },
                RelaySnapshot::SingleHostName { port, dns_name } => words::arr(3)
                    + words::num(0)
                    + words::int_of(port.unwrap_or(3001) as int)
                    + words::bin(vstd::utf8::encode_utf8(dns_name@)),
                RelaySnapshot::MultiHostName { dns_name } => words::arr(3)
                    + words::num(0)
                    + words::int_of(3001)
                    + words::bin(vstd::utf8::encode_utf8(dns_name@)),
            },
        ),
{
    broadcast use {words::group_words, lemma_list_fits};

}

/// A governance action is read as the hash of its transaction and its index.
pub proof fn lemma_action_id_is_read(tx_id: Seq<u8>, index: u32)
    requires
        tx_id.len() <= u64::MAX,
    ensures
        words::spells(
            governance::action_id(tx_id, index),
            words::arr(2) + words::bin(tx_id) + words::num(index as nat),
        ),
{
    broadcast use {words::group_words, lemma_list_fits};

}

/// An anchor is read as URL and hash.
pub proof fn lemma_anchor_is_read(url: Seq<char>, hash: Seq<u8>)
    requires
        text_fits(url),
        hash.len() <= u64::MAX,
    ensures
        words::spells(
            governance::anchor(url, hash),
            words::arr(2) + words::txt(url) + words::bin(hash),
        ),
{
    broadcast use {words::group_words, lemma_list_fits};

}

/// A vote is read behind the type and the hash of its credential.
pub proof fn lemma_vote_is_read(v: (Vec<u8>, u8, u8))
    ensures
        words::spells(
            governance::vote_item(v),
            (words::arr(2) + words::num(v.1 as nat) + words::bin(v.0@)) + words::num(v.2 as nat),
        ),
{
    broadcast use {words::group_words, lemma_list_fits};

}

/// The vote of a pool is read behind its hash.
pub proof fn lemma_pool_vote_is_read(v: (Vec<u8>, u8))
    ensures
        words::spells(
            governance::pool_vote_item(v),
            words::bin(v.0@) + words::num(v.1 as nat),
        ),
{
    broadcast use {words::group_words, lemma_list_fits};

}

/// A proposal is read as its id, the three groups of votes, its contents, and the epochs in
/// which it was made and expires.
#[verifier::rlimit(60)]
#[verifier::spinoff_prover]
pub proof fn lemma_proposal_is_read(p: ProposalSnapshot, gov_action: Seq<Word>)
    requires
        text_fits(p.anchor_url@),
        words::spells(governance::gov_action_bytes(p.action_type@), gov_action),
    ensures
        words::spells(
            governance::proposal_item(p),
            words::arr(7)
                + (words::arr(2) + words::bin(p.tx_id@) + words::num(p.action_index as nat))
                + words::dict_of(p.committee_votes@, |x: (Vec<u8>, u8, u8)| ((words::arr(2)
                    + words::num(x.1 as nat) + words::bin(x.0@)) + words::num(x.2 as nat)))
                + words::dict_of(p.drep_votes@, |x: (Vec<u8>, u8, u8)| ((words::arr(2)
                    + words::num(x.1 as nat) + words::bin(x.0@)) + words::num(x.2 as nat)))
                + words::dict_of(p.spo_votes@, |x: (Vec<u8>, u8)| (words::bin(x.0@)
                    + words::num(x.1 as nat)))
                + (words::arr(4)
                    + words::num(p.deposit as nat)
                    + words::bin(p.return_addr@)
                    + gov_action
                    + (words::arr(2) + words::txt(p.anchor_url@) + words::bin(p.anchor_hash@)))
                + words::num(p.proposed_epoch as nat)
                + words::num(p.expires_epoch as nat),
        ),
{
    broadcast use {words::group_words, lemma_list_fits};

    let f0 = |x: (Vec<u8>, u8, u8)| governance::vote_item(x);
    let g0 = |x: (Vec<u8>, u8, u8)| (words::arr(2) + words::num(x.1 as nat) + words::bin(x.0@))
        + words::num(x.2 as nat);
    assert forall|i: int| 0 <= i < p.committee_votes@.len() implies words::spells(
        f0(#[trigger] p.committee_votes@[i]),
        g0(p.committee_votes@[i]),
    ) by {
        lemma_vote_is_read(p.committee_votes@[i]);
    }
    words::lemma_dict_of(p.committee_votes@, f0, g0);
    let f1 = |x: (Vec<u8>, u8, u8)| governance::vote_item(x);
    let g1 = |x: (Vec<u8>, u8, u8)| (words::arr(2) + words::num(x.1 as nat) + words::bin(x.0@))
        + words::num(x.2 as nat);
    assert forall|i: int| 0 <= i < p.drep_votes@.len() implies words::spells(
        f1(#[trigger] p.drep_votes@[i]),
        g1(p.drep_votes@[i]),
    ) by {
        lemma_vote_is_read(p.drep_votes@[i]);
    }
    words::lemma_dict_of(p.drep_votes@, f1, g1);
    let f2 = |x: (Vec<u8>, u8)| governance::pool_vote_item(x);
    let g2 = |x: (Vec<u8>, u8)| words::bin(x.0@) + words::num(x.1 as nat);
    assert forall|i: int| 0 <= i < p.spo_votes@.len() implies words::spells(
        f2(#[trigger] p.spo_votes@[i]),
        g2(p.spo_votes@[i]),
    ) by {
        lemma_pool_vote_is_read(p.spo_votes@[i]);
    }
    words::lemma_dict_of(p.spo_votes@, f2, g2);
}

/// Proposals are read in their order.
pub proof fn lemma_proposals_are_read(
    v: Seq<ProposalSnapshot>,
    each_proposal: spec_fn(ProposalSnapshot) -> Seq<Word>,
)
    requires
        v.len() <= u64::MAX,
        forall|i: int| 0 <= i < v.len()
            ==> words::spells(governance::proposal_item(#[trigger] v[i]), each_proposal(v[i])),
    ensures
        words::spells(
            governance::proposals_bytes(v),
            words::arr_of(v, |x: ProposalSnapshot| each_proposal(x)),
        ),
{
    broadcast use {words::group_words, lemma_list_fits};

    let f0 = |x: ProposalSnapshot| governance::proposal_item(x);
    let g0 = |x: ProposalSnapshot| each_proposal(x);
    words::lemma_arr_of(v, f0, g0);
}

/// An enacted proposal is read before its id.
pub proof fn lemma_enacted_is_read(e: (ProposalSnapshot, GovActionId), proposal: Seq<Word>)
    requires
        words::spells(governance::proposal_item(e.0), proposal),
    ensures
        words::spells(
            governance::enacted_item(e),
            words::arr(2) + proposal + (words::arr(2) + words::bin(e.1.tx_id@)
                + words::num(e.1.action_index as nat)),
        ),
{
    broadcast use {words::group_words, lemma_list_fits};

}

/// An expired proposal is read as its id.
pub proof fn lemma_expired_is_read(id: GovActionId)
    ensures
        words::spells(
            governance::expired_item(id),
            (words::arr(2) + words::bin(id.tx_id@) + words::num(id.action_index as nat)),
        ),
{
    broadcast use {words::group_words, lemma_list_fits};

}

/// The enacted proposals are read first, then the expired ones, then whether others are delayed.
pub proof fn lemma_ratify_state_is_read(
    enacted: Seq<(ProposalSnapshot, GovActionId)>,
    expired: Seq<GovActionId>,
    delayed: bool,
    each_enacted: spec_fn((ProposalSnapshot, GovActionId)) -> Seq<Word>,
)
    requires
        enacted.len() <= u64::MAX,
        expired.len() <= u64::MAX,
        forall|i: int| 0 <= i < enacted.len()
            ==> words::spells(governance::enacted_item(#[trigger] enacted[i]),
            each_enacted(enacted[i])),
    ensures
        words::spells(
            governance::ratify_state_bytes(enacted, expired, delayed),
            words::arr(4)
                + words::arr_of(enacted, |x: (ProposalSnapshot, GovActionId)| each_enacted(x))
                + words::arr_of(expired, |x: GovActionId| ((words::arr(2) + words::bin(x.tx_id@)
                    + words::num(x.action_index as nat))))
                + words::truth(delayed)
                + (words::arr(1) + words::num(0)),
        ),
{
    broadcast use {words::group_words, lemma_list_fits};

    let f0 = |x: (ProposalSnapshot, GovActionId)| governance::enacted_item(x);
    let g0 = |x: (ProposalSnapshot, GovActionId)| each_enacted(x);
    words::lemma_arr_of(enacted, f0, g0);
    let f1 = |x: GovActionId| governance::expired_item(x);
    let g1 = |x: GovActionId| (words::arr(2) + words::bin(x.tx_id@)
        + words::num(x.action_index as nat));
    assert forall|i: int| 0 <= i < expired.len() implies words::spells(
        f1(#[trigger] expired[i]),
        g1(expired[i]),
    ) by {
        lemma_expired_is_read(expired[i]);
    }
    words::lemma_arr_of(expired, f1, g1);
}

/// The anchor of a DRep is read where both URL and hash are there.
pub proof fn lemma_drep_anchor_is_read(d: DRepSnapshot)
    requires
        d.anchor_url matches Some(u) ==> text_fits(u@),
    ensures
        words::spells(
            governance::drep_anchor(d),
            match (d.anchor_url, d.anchor_hash) {
                (Some(url), Some(hash)) => words::arr(1) + (words::arr(2) + words::txt(url@)
                    + words::bin(hash@)),
                _ => words::arr(0),
            },
        ),
{
    broadcast use {words::group_words, lemma_list_fits};

}

/// Those who delegate to a DRep are read as a set.
pub proof fn lemma_delegators_are_read(v: Seq<Vec<u8>>)
    requires
        v.len() <= u64::MAX,
    ensures
        words::spells(
            governance::delegators_bytes(v),
            words::tag(258)
                + words::arr_of(
                    order::sorted_bytes(order::contents(v)),
                    |x: Seq<u8>| (words::arr(2) + words::num(0) + words::bin(x)),
                ),
        ),
{
    broadcast use {words::group_words, lemma_list_fits};

    let s0 = order::sorted_bytes(order::contents(v));
    lemma_members_fit(v);
    let f0 = |x: Seq<u8>| ledger::key_credential(x);
    let g0 = |x: Seq<u8>| words::arr(2) + words::num(0) + words::bin(x);
    assert forall|i: int| 0 <= i < s0.len() implies words::spells(
        f0(#[trigger] s0[i]),
        g0(s0[i]),
    ) by {
        lemma_key_credential_is_read(s0[i]);
    }
    words::lemma_arr_of(s0, f0, g0);
}

/// A DRep is read as its credential, its expiry, its anchor if any, its deposit and those who
/// delegate to it.
pub proof fn lemma_drep_state_is_read(
    d: DRepSnapshot,
    drep_anchor: Seq<Word>,
    delegators: Seq<Word>,
)
    requires
        words::spells(governance::drep_anchor(d), drep_anchor),
        words::spells(governance::delegators_bytes(d.delegator_hashes@), delegators),
    ensures
        words::spells(
            governance::drep_item(d),
            (words::arr(2) + words::num(d.credential_type as nat) + words::bin(d.credential_hash@))
                + (words::arr(4)
                    + words::num(d.expiry_epoch as nat)
                    + drep_anchor
                    + words::num(d.deposit as nat)
                    + delegators),
        ),
{
    broadcast use {words::group_words, lemma_list_fits};

}

/// Whether a member is authorised is read as 0 with the credential, as 1, or as 2 where it
/// resigned.
pub proof fn lemma_hot_status_is_read(m: CommitteeMemberSnapshot)
    ensures
        words::spells(
            governance::hot_status_bytes(m),
            if m.hot_status == 0 {
                words::arr(2) + words::num(0) + match m.hot_credential {
                    Some(hot) => (words::arr(2) + words::num(0) + words::bin(hot@)),
                    None => Seq::empty(),
                }
            } else if m.hot_status == 1 {
                words::arr(1) + words::num(1)
            } else {
                words::arr(2) + words::num(2) + words::arr(0)
            },
        ),
{
    broadcast use {words::group_words, lemma_list_fits};

}

/// An epoch is read where there is one.
pub proof fn lemma_maybe_epoch_is_read(epoch: Option<u64>)
    ensures
        words::spells(
            governance::maybe_epoch(epoch),
            match epoch {
                Some(e) => words::arr(1) + words::num(e as nat),
                None => words::arr(0),
            },
        ),
{
    broadcast use {words::group_words, lemma_list_fits};

}

/// A member is read as its cold credential, how it is authorised, its status and the end of its
/// term.
pub proof fn lemma_member_is_read(m: CommitteeMemberSnapshot, hot_status: Seq<Word>)
    requires
        words::spells(governance::hot_status_bytes(m), hot_status),
    ensures
        words::spells(
            governance::member_item(m),
            (words::arr(2) + words::num(m.cold_credential_type as nat)
                + words::bin(m.cold_credential@))
                + (words::arr(4)
                    + hot_status
                    + words::num(m.member_status as nat)
                    + (match m.expiry_epoch {
                Some(e) => words::arr(1) + words::num(e as nat),
                None => words::arr(0),
            })
                    + (words::arr(1) + words::num(2))),
        ),
{
    broadcast use {words::group_words, lemma_list_fits};

}

/// The members are read first, then the threshold if any, then the epoch.
pub proof fn lemma_committee_is_read(
    c: CommitteeSnapshot,
    each_member: spec_fn(CommitteeMemberSnapshot) -> Seq<Word>,
)
    requires
        forall|i: int| 0 <= i < c.members@.len()
            ==> words::spells(governance::member_item(#[trigger] c.members@[i]),
            each_member(c.members@[i])),
    ensures
        words::spells(
            governance::committee_bytes(c),
            words::arr(3)
                + words::dict_of(c.members@, |x: CommitteeMemberSnapshot| each_member(x))
                + (match c.threshold {
                    Some(t) => words::arr(1) + (words::tag(30) + words::arr(2)
                        + words::num(t.0 as nat) + words::num(t.1 as nat)),
                    None => words::arr(0),
                })
                + words::num(c.current_epoch as nat),
        ),
{
    broadcast use {words::group_words, lemma_list_fits};

    let f0 = |x: CommitteeMemberSnapshot| governance::member_item(x);
    let g0 = |x: CommitteeMemberSnapshot| each_member(x);
    words::lemma_dict_of(c.members@, f0, g0);
}

/// The end of the term of a member is read behind its credential.
pub proof fn lemma_member_expiry_is_read(m: CommitteeMemberSnapshot)
    ensures
        words::spells(
            governance::member_expiry_item(m),
            (words::arr(2) + words::num(m.cold_credential_type as nat)
                + words::bin(m.cold_credential@)) + words::num(
                m.expiry_epoch.unwrap_or(0) as nat,
            ),
        ),
{
    broadcast use {words::group_words, lemma_list_fits};

}

/// The committee is read as its members and its threshold, two thirds where none is given.
pub proof fn lemma_gov_committee_is_read(c: CommitteeSnapshot)
    ensures
        words::spells(
            governance::gov_committee_bytes(c),
            if c.members@.len() == 0 && c.threshold is None {
                words::arr(0)
            } else {
                words::arr(1)
                    + (words::arr(2)
                        + words::dict_of(c.members@, |x: CommitteeMemberSnapshot| ((words::arr(2)
                            + words::num(x.cold_credential_type as nat)
                            + words::bin(x.cold_credential@)) + words::num(
                x.expiry_epoch.unwrap_or(0) as nat,
            )))
                        + (match c.threshold {
                            Some(t) => (words::tag(30) + words::arr(2) + words::num(t.0 as nat)
                                + words::num(t.1 as nat)),
                            None => (words::tag(30) + words::arr(2) + words::num(2 as nat)
                                + words::num(3 as nat)),
                        }))
            },
        ),
{
    broadcast use {words::group_words, lemma_list_fits};

    let f0 = |x: CommitteeMemberSnapshot| governance::member_expiry_item(x);
    let g0 = |x: CommitteeMemberSnapshot| (words::arr(2)
        + words::num(x.cold_credential_type as nat) + words::bin(x.cold_credential@))
        + words::num( x.expiry_epoch.unwrap_or(0) as nat, );
    assert forall|i: int| 0 <= i < c.members@.len() implies words::spells(
        f0(#[trigger] c.members@[i]),
        g0(c.members@[i]),
    ) by {
        lemma_member_expiry_is_read(c.members@[i]);
    }
    words::lemma_dict_of(c.members@, f0, g0);
}

/// The constitution is read as its anchor and its script if any.
pub proof fn lemma_constitution_is_read(url: Seq<char>, hash: Seq<u8>, script: Option<Vec<u8>>)
    requires
        text_fits(url),
        hash.len() <= u64::MAX,
    ensures
        words::spells(
            governance::constitution_bytes(url, hash, script),
            words::arr(2) + (words::arr(2) + words::txt(url) + words::bin(hash)) + match script {
                Some(s) => words::bin(s@),
                None => words::null(),
            },
        ),
{
    broadcast use {words::group_words, lemma_list_fits};

}

/// The last enacted action is read where there is one.
pub proof fn lemma_root_is_read(root: Option<(Vec<u8>, u32)>)
    ensures
        words::spells(
            governance::root_bytes(root),
            match root {
                Some(r) => words::arr(1) + (words::arr(2) + words::bin(r.0@)
                    + words::num(r.1 as nat)),
                None => words::arr(0),
            },
        ),
{
    broadcast use {words::group_words, lemma_list_fits};

}

/// The state of DRep pulsing is read as empty.
pub proof fn lemma_pulsing_state_is_read()
    ensures
        words::spells(
            governance::pulsing_state_bytes(),
            words::arr(2)
                + (words::arr(4)
                    + words::dict(0)
                    + words::dict(0)
                    + words::dict(0)
                    + words::dict(0))
                + (words::arr(4)
                    + (words::tag(258) + words::arr(0))
                    + (words::tag(258) + words::arr(0))
                    + words::truth(false)
                    + (words::arr(1) + words::num(0))),
        ),
{
    broadcast use {words::group_words, lemma_list_fits};

}

/// The governance state is read as the last enacted actions of each kind, the proposals, the
/// committee, the constitution, the current parameters and the previous ones.
#[verifier::rlimit(60)]
#[verifier::spinoff_prover]
pub proof fn lemma_gov_state_is_read(
    g: GovStateSnapshot,
    proposals: Seq<Word>,
    gov_committee: Seq<Word>,
    constitution: Seq<Word>,
    params: Seq<Word>,
    previous: Seq<Word>,
    pulsing_state: Seq<Word>,
)
    requires
        words::spells(governance::proposals_bytes(g.proposals@), proposals),
        words::spells(governance::gov_committee_bytes(g.committee), gov_committee),
        words::spells(governance::constitution_bytes(g.constitution_url@, g.constitution_hash@,
            g.constitution_script), constitution),
        words::spells(protocol::params_bytes(*g.cur_pparams), params),
        words::spells(protocol::params_bytes(*g.prev_pparams), previous),
        words::spells(governance::pulsing_state_bytes(), pulsing_state),
    ensures
        words::spells(
            governance::gov_state_bytes(g),
            words::arr(7)
                + (words::arr(2)
                    + (words::arr(4)
                        + (match g.enacted_pparam_update {
                Some(r) => words::arr(1) + (words::arr(2) + words::bin(r.0@)
                    + words::num(r.1 as nat)),
                None => words::arr(0),
            })
                        + (match g.enacted_hard_fork {
                Some(r) => words::arr(1) + (words::arr(2) + words::bin(r.0@)
                    + words::num(r.1 as nat)),
                None => words::arr(0),
            })
                        + (match g.enacted_committee {
                Some(r) => words::arr(1) + (words::arr(2) + words::bin(r.0@)
                    + words::num(r.1 as nat)),
                None => words::arr(0),
            })
                        + (match g.enacted_constitution {
                Some(r) => words::arr(1) + (words::arr(2) + words::bin(r.0@)
                    + words::num(r.1 as nat)),
                None => words::arr(0),
            }))
                    + proposals)
                + gov_committee
                + constitution
                + params
                + previous
                + (words::arr(1) + words::num(0))
                + pulsing_state,
        ),
{
    lemma_root_is_read(g.enacted_pparam_update);
    lemma_root_is_read(g.enacted_hard_fork);
    lemma_root_is_read(g.enacted_committee);
    lemma_root_is_read(g.enacted_constitution);
    lemma_roots_are_read(
        governance::root_bytes(g.enacted_pparam_update),
        governance::root_bytes(g.enacted_hard_fork),
        governance::root_bytes(g.enacted_committee),
        governance::root_bytes(g.enacted_constitution),
        root_words(g.enacted_pparam_update),
        root_words(g.enacted_hard_fork),
        root_words(g.enacted_committee),
        root_words(g.enacted_constitution),
    );
    lemma_gov_parts_are_read(
        cbor::array_head(4)
            + governance::root_bytes(g.enacted_pparam_update)
            + governance::root_bytes(g.enacted_hard_fork)
            + governance::root_bytes(g.enacted_committee)
            + governance::root_bytes(g.enacted_constitution),
        governance::proposals_bytes(g.proposals@),
        governance::gov_committee_bytes(g.committee),
        governance::constitution_bytes(
            g.constitution_url@,
            g.constitution_hash@,
            g.constitution_script,
        ),
        protocol::params_bytes(*g.cur_pparams),
        protocol::params_bytes(*g.prev_pparams),
        governance::pulsing_state_bytes(),
        words::arr(4)
            + root_words(g.enacted_pparam_update)
            + root_words(g.enacted_hard_fork)
            + root_words(g.enacted_committee)
            + root_words(g.enacted_constitution),
        proposals,
        gov_committee,
        constitution,
        params,
        previous,
        pulsing_state,
    );
}

/// The last enacted action, if there is one.
spec fn root_words(root: Option<(Vec<u8>, u32)>) -> Seq<Word> {
    match root {
        Some(r) => words::arr(1) + (words::arr(2) + words::bin(r.0@) + words::num(r.1 as nat)),
        None => words::arr(0),
    }
}

proof fn lemma_roots_are_read(
    a: Seq<u8>,
    b: Seq<u8>,
    c: Seq<u8>,
    d: Seq<u8>,
    v: Seq<Word>,
    w: Seq<Word>,
    x: Seq<Word>,
    y: Seq<Word>,
)
    requires
        words::spells(a, v),
        words::spells(b, w),
        words::spells(c, x),
        words::spells(d, y),
    ensures
        words::spells(cbor::array_head(4) + a + b + c + d, words::arr(4) + v + w + x + y),
{
    broadcast use words::group_words;

}

proof fn lemma_gov_parts_are_read(
    roots: Seq<u8>,
    a: Seq<u8>,
    b: Seq<u8>,
    c: Seq<u8>,
    d: Seq<u8>,
    e: Seq<u8>,
    f: Seq<u8>,
    r: Seq<Word>,
    v: Seq<Word>,
    w: Seq<Word>,
    x: Seq<Word>,
    y: Seq<Word>,
    z: Seq<Word>,
    p: Seq<Word>,
)
    requires
        words::spells(roots, r),
        words::spells(a, v),
        words::spells(b, w),
        words::spells(c, x),
        words::spells(d, y),
        words::spells(e, z),
        words::spells(f, p),
    ensures
        words::spells(
            cbor::array_head(7)
                + (cbor::array_head(2) + roots + a)
                + b
                + c
                + d
                + e
                + (cbor::array_head(1) + cbor::uint(0))
                + f,
            words::arr(7)
                + (words::arr(2) + r + v)
                + w
                + x
                + y
                + z
                + (words::arr(1) + words::num(0))
                + p,
        ),
{
    broadcast use words::group_words;

}

/// A time stamp is read as the year, the day of the year and the picoseconds of the day.
pub proof fn lemma_utctime_is_read(s: Seq<char>)
    requires
        utctime::utctime_fits(s),
    ensures
        words::spells(
            protocol::utctime_bytes(s),
            words::arr(3) + words::num(utctime::utctime(s).0 as nat) + words::num(
                utctime::utctime(s).1 as nat,
            ) + words::num(utctime::utctime(s).2 as nat),
        ),
{
    broadcast use words::group_words;

    if let Some((date, time)) = utctime::date_and_time(s) {
        utctime::lemma_days_are_not_negative(date[1] - 1, utctime::is_leap(date[0] as int));
    }
}

/// An action is read as the number of its type, from 0 for a change of parameters to 5 for
/// a new constitution, with empty contents; any other type is read as 6.
pub proof fn lemma_gov_action_is_read(action_type: Seq<char>)
    ensures
        action_type == "ParameterChange"@ ==> words::spells(
            governance::gov_action_bytes(action_type),
            words::arr(4) + words::num(0) + words::null() + words::dict(0) + words::null(),
        ),
        action_type == "HardForkInitiation"@ ==> words::spells(
            governance::gov_action_bytes(action_type),
            words::arr(3) + words::num(1) + words::null() + (words::arr(2) + words::num(0)
                + words::num(0)),
        ),
        action_type == "TreasuryWithdrawals"@ ==> words::spells(
            governance::gov_action_bytes(action_type),
            words::arr(3) + words::num(2) + words::dict(0) + words::null(),
        ),
        action_type == "NoConfidence"@ ==> words::spells(
            governance::gov_action_bytes(action_type),
            words::arr(2) + words::num(3) + words::null(),
        ),
        action_type == "UpdateCommittee"@ ==> words::spells(
            governance::gov_action_bytes(action_type),
            words::arr(5) + words::num(4) + words::null() + (words::tag(258) + words::arr(0))
                + words::dict(0) + (words::tag(30) + words::arr(2) + words::num(2) + words::num(3)),
        ),
        action_type == "NewConstitution"@ ==> words::spells(
            governance::gov_action_bytes(action_type),
            words::arr(3) + words::num(5) + words::null() + (words::arr(2) + (words::arr(2)
                + words::txt(""@) + words::bin(Seq::new(32, |i: int| 0u8))) + words::null()),
        ),
        action_type != "ParameterChange"@ && action_type != "HardForkInitiation"@ && action_type
            != "TreasuryWithdrawals"@ && action_type != "NoConfidence"@ && action_type
            != "UpdateCommittee"@ && action_type != "NewConstitution"@ ==> words::spells(
            governance::gov_action_bytes(action_type),
            words::arr(1) + words::num(6),
        ),
{
    lemma_action_names_differ();
    if action_type == "ParameterChange"@ {
        broadcast use words::group_words;

    } else if action_type == "HardForkInitiation"@ {
        broadcast use words::group_words;

    } else if action_type == "TreasuryWithdrawals"@ {
        broadcast use words::group_words;

    } else if action_type == "NoConfidence"@ {
        broadcast use words::group_words;

    } else if action_type == "UpdateCommittee"@ {
        broadcast use words::group_words;

    } else if action_type == "NewConstitution"@ {
        broadcast use words::group_words;

        lemma_no_text_fits();
    } else {
        broadcast use words::group_words;

    }
}

proof fn lemma_no_text_fits()
    ensures
        text_fits(""@),
{
    reveal_strlit("");
    assert(""@ =~= Seq::empty());
    reveal_with_fuel(vstd::utf8::encode_utf8, 2);
}

proof fn lemma_action_names_differ()
    ensures
        "ParameterChange"@.len() == 15 && "ParameterChange"@[0] == 'P',
        "HardForkInitiation"@.len() == 18,
        "TreasuryWithdrawals"@.len() == 19,
        "NoConfidence"@.len() == 12,
        "UpdateCommittee"@.len() == 15 && "UpdateCommittee"@[0] == 'U',
        "NewConstitution"@.len() == 15 && "NewConstitution"@[0] == 'N',
{
    reveal_strlit("ParameterChange");
    reveal_strlit("HardForkInitiation");
    reveal_strlit("TreasuryWithdrawals");
    reveal_strlit("NoConfidence");
    reveal_strlit("UpdateCommittee");
    reveal_strlit("NewConstitution");
}

// ---------------------------------------------------------------------------
// Answers
// ---------------------------------------------------------------------------

/// The stake distribution is read by pool: each share of the active stake and each VRF key
/// behind the id of its pool.
pub proof fn lemma_stake_distribution_answer(pools: Vec<StakePoolSnapshot>)
    ensures
        words::spells(
            encoding::result_bytes(QueryResult::StakeDistribution(pools)),
            words::dict_of(
                pools@,
                |x: StakePoolSnapshot| words::bin(x.pool_id@) + (words::arr(2) + (words::tag(30)
                    + words::arr(2) + words::num(x.stake as nat)
                    + words::num(if x.total_active_stake < 1 { 1 } else { x.total_active_stake as nat })) + words::bin(x.vrf_keyhash@)),
            ),
        ),
{
    broadcast use lemma_list_fits;

    let f = |x: StakePoolSnapshot| ledger::pool_stake_item(x);
    let g = |x: StakePoolSnapshot| words::bin(x.pool_id@) + (words::arr(2) + (words::tag(30)
        + words::arr(2) + words::num(x.stake as nat)
        + words::num(if x.total_active_stake < 1 { 1 } else { x.total_active_stake as nat }))
        + words::bin(x.vrf_keyhash@));
    assert forall|i: int| 0 <= i < pools@.len() implies words::spells(
        f(#[trigger] pools@[i]),
        g(pools@[i]),
    ) by {
        lemma_pool_stake_is_read(pools@[i]);
    }
    words::lemma_dict_of(pools@, f, g);
}

/// The distribution of pools is read by pool: each share of the active stake and each VRF key
/// behind the id of its pool.
pub proof fn lemma_pool_distr_answer(pools: Vec<StakePoolSnapshot>)
    ensures
        words::spells(
            encoding::result_bytes(QueryResult::PoolDistr(pools)),
            words::dict_of(
                pools@,
                |x: StakePoolSnapshot| words::bin(x.pool_id@) + (words::arr(2) + (words::tag(30)
                    + words::arr(2) + words::num(x.stake as nat)
                    + words::num(if x.total_active_stake < 1 { 1 } else { x.total_active_stake as nat })) + words::bin(x.vrf_keyhash@)),
            ),
        ),
{
    broadcast use lemma_list_fits;

    let f = |x: StakePoolSnapshot| ledger::pool_stake_item(x);
    let g = |x: StakePoolSnapshot| words::bin(x.pool_id@) + (words::arr(2) + (words::tag(30)
        + words::arr(2) + words::num(x.stake as nat)
        + words::num(if x.total_active_stake < 1 { 1 } else { x.total_active_stake as nat }))
        + words::bin(x.vrf_keyhash@));
    assert forall|i: int| 0 <= i < pools@.len() implies words::spells(
        f(#[trigger] pools@[i]),
        g(pools@[i]),
    ) by {
        lemma_pool_stake_is_read(pools@[i]);
    }
    words::lemma_dict_of(pools@, f, g);
}

/// The rewards are read by stake, and for each by pool.
pub proof fn lemma_non_myopic_member_rewards_answer(rewards: Vec<NonMyopicRewardEntry>)
    ensures
        words::spells(
            encoding::result_bytes(QueryResult::NonMyopicMemberRewards(rewards)),
            words::dict_of(
                rewards@,
                |x: NonMyopicRewardEntry| words::num(x.stake_amount as nat)
                    + (words::dict_of(x.pool_rewards@, |x: (Vec<u8>, u64)| (words::bin(x.0@)
                    + words::num(x.1 as nat)))),
            ),
        ),
{
    broadcast use lemma_list_fits;

    let f = |x: NonMyopicRewardEntry| ledger::non_myopic_item(x);
    let g = |x: NonMyopicRewardEntry| words::num(x.stake_amount as nat)
        + (words::dict_of(x.pool_rewards@, |x: (Vec<u8>, u64)| (words::bin(x.0@)
        + words::num(x.1 as nat))));
    assert forall|i: int| 0 <= i < rewards@.len() implies words::spells(
        f(#[trigger] rewards@[i]),
        g(rewards@[i]),
    ) by {
        lemma_non_myopic_is_read(rewards@[i]);
    }
    words::lemma_dict_of(rewards@, f, g);
}

/// The deposits are read by credential.
pub proof fn lemma_stake_deleg_deposits_answer(deposits: Vec<StakeDelegDepositEntry>)
    ensures
        words::spells(
            encoding::result_bytes(QueryResult::StakeDelegDeposits(deposits)),
            words::dict_of(
                deposits@,
                |x: StakeDelegDepositEntry| (words::arr(2) + words::num(x.credential_type as nat)
                    + words::bin(x.credential_hash@)) + words::num(x.deposit as nat),
            ),
        ),
{
    broadcast use lemma_list_fits;

    let f = |x: StakeDelegDepositEntry| ledger::deposit_item(x);
    let g = |x: StakeDelegDepositEntry| (words::arr(2) + words::num(x.credential_type as nat)
        + words::bin(x.credential_hash@)) + words::num(x.deposit as nat);
    assert forall|i: int| 0 <= i < deposits@.len() implies words::spells(
        f(#[trigger] deposits@[i]),
        g(deposits@[i]),
    ) by {
        lemma_deposit_is_read(deposits@[i]);
    }
    words::lemma_dict_of(deposits@, f, g);
}

/// The stakes are read by DRep.
pub proof fn lemma_drep_stake_distr_answer(entries: Vec<DRepStakeEntry>)
    ensures
        words::spells(
            encoding::result_bytes(QueryResult::DRepStakeDistr(entries)),
            words::dict_of(
                entries@,
                |x: DRepStakeEntry| (if x.drep_type <= 1 { words::arr(2)
                    + words::num(x.drep_type as nat)
                    + match x.drep_hash { Some(h) => words::bin(h@), None => Seq::empty(),
                    } } else { words::arr(1) + words::num(x.drep_type as nat) })
                    + words::num(x.stake as nat),
            ),
        ),
{
    broadcast use lemma_list_fits;

    let f = |x: DRepStakeEntry| ledger::drep_stake_item(x);
    let g = |x: DRepStakeEntry| (if x.drep_type <= 1 { words::arr(2)
        + words::num(x.drep_type as nat) + match x.drep_hash { Some(h) => words::bin(h@),
        None => Seq::empty(), } } else { words::arr(1) + words::num(x.drep_type as nat) })
        + words::num(x.stake as nat);
    assert forall|i: int| 0 <= i < entries@.len() implies words::spells(
        f(#[trigger] entries@[i]),
        g(entries@[i]),
    ) by {
        lemma_drep_stake_is_read(entries@[i]);
    }
    words::lemma_dict_of(entries@, f, g);
}

/// The DReps are read by credential.
pub proof fn lemma_filtered_vote_delegatees_answer(delegatees: Vec<VoteDelegateeEntry>)
    ensures
        words::spells(
            encoding::result_bytes(QueryResult::FilteredVoteDelegatees(delegatees)),
            words::dict_of(
                delegatees@,
                |x: VoteDelegateeEntry| (words::arr(2) + words::num(x.credential_type as nat)
                    + words::bin(x.credential_hash@)) + (if x.drep_type <= 1 { words::arr(2)
                    + words::num(x.drep_type as nat)
                    + match x.drep_hash { Some(h) => words::bin(h@), None => Seq::empty(),
                    } } else { words::arr(1) + words::num(x.drep_type as nat) }),
            ),
        ),
{
    broadcast use lemma_list_fits;

    let f = |x: VoteDelegateeEntry| ledger::vote_delegatee_item(x);
    let g = |x: VoteDelegateeEntry| (words::arr(2) + words::num(x.credential_type as nat)
        + words::bin(x.credential_hash@)) + (if x.drep_type <= 1 { words::arr(2)
        + words::num(x.drep_type as nat) + match x.drep_hash { Some(h) => words::bin(h@),
        None => Seq::empty(), } } else { words::arr(1) + words::num(x.drep_type as nat) });
    assert forall|i: int| 0 <= i < delegatees@.len() implies words::spells(
        f(#[trigger] delegatees@[i]),
        g(delegatees@[i]),
    ) by {
        lemma_vote_delegatee_is_read(delegatees@[i]);
    }
    words::lemma_dict_of(delegatees@, f, g);
}

/// The reward details are read by pool.
pub proof fn lemma_reward_info_pools_answer(pools: Vec<PoolRewardInfo>)
    ensures
        words::spells(
            encoding::result_bytes(QueryResult::RewardInfoPools(pools)),
            words::dict_of(
                pools@,
                |x: PoolRewardInfo| words::bin(x.pool_id@) + (words::arr(7)
                    + words::num(x.stake as nat) + words::num(x.owner_stake as nat)
                    + words::num(x.pool_reward as nat) + words::num(x.leader_reward as nat)
                    + words::num(x.member_reward as nat) + (words::tag(30) + words::arr(2)
                    + words::num(x.margin.0 as nat) + words::num(x.margin.1 as nat))
                    + words::num(x.cost as nat)),
            ),
        ),
{
    broadcast use lemma_list_fits;

    let f = |x: PoolRewardInfo| ledger::reward_info_item(x);
    let g = |x: PoolRewardInfo| words::bin(x.pool_id@) + (words::arr(7)
        + words::num(x.stake as nat) + words::num(x.owner_stake as nat)
        + words::num(x.pool_reward as nat) + words::num(x.leader_reward as nat)
        + words::num(x.member_reward as nat) + (words::tag(30) + words::arr(2)
        + words::num(x.margin.0 as nat) + words::num(x.margin.1 as nat))
        + words::num(x.cost as nat));
    assert forall|i: int| 0 <= i < pools@.len() implies words::spells(
        f(#[trigger] pools@[i]),
        g(pools@[i]),
    ) by {
        lemma_reward_info_is_read(pools@[i]);
    }
    words::lemma_dict_of(pools@, f, g);
}

/// The default votes are read by pool.
pub proof fn lemma_stake_pool_default_vote_answer(entries: Vec<PoolDefaultVoteEntry>)
    ensures
        words::spells(
            encoding::result_bytes(QueryResult::StakePoolDefaultVote(entries)),
            words::dict_of(
                entries@,
                |x: PoolDefaultVoteEntry| words::bin(x.pool_id@) + (words::arr(1)
                    + words::num(x.default_vote as nat)),
            ),
        ),
{
    broadcast use lemma_list_fits;

    let f = |x: PoolDefaultVoteEntry| ledger::default_vote_item(x);
    let g = |x: PoolDefaultVoteEntry| words::bin(x.pool_id@) + (words::arr(1)
        + words::num(x.default_vote as nat));
    assert forall|i: int| 0 <= i < entries@.len() implies words::spells(
        f(#[trigger] entries@[i]),
        g(entries@[i]),
    ) by {
        lemma_default_vote_is_read(entries@[i]);
    }
    words::lemma_dict_of(entries@, f, g);
}

/// The state of DReps is read by DRep.
pub proof fn lemma_drep_state_answer(dreps: Vec<DRepSnapshot>,
    each_drep: spec_fn(DRepSnapshot) -> Seq<Word>)
    requires
        forall|i: int| 0 <= i < dreps@.len() ==> words::spells(
            governance::drep_item(#[trigger] dreps@[i]),
            each_drep(dreps@[i]),
        ),
    ensures
        words::spells(
            encoding::result_bytes(QueryResult::DRepState(dreps)),
            words::dict_of(dreps@, |x: DRepSnapshot| each_drep(x)),
        ),
{
    broadcast use lemma_list_fits;

    let f = |x: DRepSnapshot| governance::drep_item(x);
    words::lemma_dict_of(dreps@, f, |x: DRepSnapshot| each_drep(x));
}

/// An unspent output is read behind the hash of its transaction and its index: as the
/// ledger holds it where that is at hand, else from its parts.
pub proof fn lemma_utxo_is_read(u: UtxoSnapshot, output: Seq<Word>)
    requires
        match u.raw_cbor {
            Some(raw) => words::spells(raw@, output),
            None => words::spells(ledger::output_bytes(u), output),
        },
    ensures
        words::spells(
            ledger::utxo_item(u),
            (words::arr(2) + words::bin(u.tx_hash@) + words::num(u.output_index as nat)) + output,
        ),
{
    broadcast use {words::group_words, lemma_list_fits};

}

/// Unspent outputs are read one after another.
pub proof fn lemma_utxo_answer(utxos: Vec<UtxoSnapshot>,
    each_utxo: spec_fn(UtxoSnapshot) -> Seq<Word>)
    requires
        forall|i: int| 0 <= i < utxos@.len() ==> words::spells(
            ledger::utxo_item(#[trigger] utxos@[i]),
            each_utxo(utxos@[i]),
        ),
    ensures
        words::spells(
            encoding::result_bytes(QueryResult::UtxoByAddress(utxos)),
            words::dict_of(utxos@, |x: UtxoSnapshot| each_utxo(x)),
        ),
{
    broadcast use lemma_list_fits;

    let f = |x: UtxoSnapshot| ledger::utxo_item(x);
    words::lemma_dict_of(utxos@, f, |x: UtxoSnapshot| each_utxo(x));
}

/// The answers that are a few values are read in the order of their fields.
pub proof fn lemma_short_answers(r: QueryResult)
    requires
        r matches QueryResult::Error(m) ==> text_fits(m@),
    ensures
        ({
            let b = encoding::result_bytes(r);
            match r {
                QueryResult::EpochNo(n) => words::spells(b, words::num(n as nat)),
                QueryResult::ChainTip { slot, hash, block_no } => words::spells(
                    b,
                    words::arr(2) + (words::arr(2) + words::num(slot as nat) + words::bin(hash@))
                        + words::num(block_no as nat),
                ),
                QueryResult::CurrentEra(n) => words::spells(b, words::num(n as nat)),
                QueryResult::ChainBlockNo(n) => words::spells(
                    b,
                    words::arr(2) + words::num(1) + words::num(n as nat),
                ),
                QueryResult::ChainPoint { slot, hash } => if hash@.len() == 0 {
                    words::spells(b, words::arr(0))
                } else {
                    words::spells(
                        b,
                        words::arr(2) + words::num(slot as nat) + words::bin(hash@),
                    )
                },
                QueryResult::AccountState { treasury, reserves } => words::spells(
                    b,
                    words::arr(2) + words::num(treasury as nat) + words::num(reserves as nat),
                ),
                QueryResult::ProposedPParamsUpdates => words::spells(b, words::dict(0)),
                QueryResult::DebugEpochState {
                    epoch,
                    treasury,
                    reserves,
                    stake_pool_count,
                    utxo_count,
                    active_stake,
                    delegations,
                    rewards,
                } => words::spells(
                    b,
                    words::arr(8) + words::num(epoch as nat) + words::num(treasury as nat)
                        + words::num(reserves as nat) + words::num(stake_pool_count as nat)
                        + words::num(utxo_count as nat) + words::num(active_stake as nat)
                        + words::num(delegations as nat) + words::num(rewards as nat),
                ),
                QueryResult::DebugNewEpochState {
                    epoch,
                    block_number,
                    slot,
                    protocol_major,
                    protocol_minor,
                } => words::spells(
                    b,
                    words::arr(5) + words::num(epoch as nat) + words::num(block_number as nat)
                        + words::num(slot as nat) + words::num(protocol_major as nat)
                        + words::num(protocol_minor as nat),
                ),
                QueryResult::DebugChainDepState {
                    last_slot,
                    epoch_nonce,
                    evolving_nonce,
                    candidate_nonce,
                    lab_nonce,
                } => words::spells(
                    b,
                    words::arr(5) + words::num(last_slot as nat) + words::bin(epoch_nonce@)
                        + words::bin(evolving_nonce@) + words::bin(candidate_nonce@)
                        + words::bin(lab_nonce@),
                ),
                QueryResult::RewardProvenance {
                    epoch,
                    total_rewards_pot,
                    treasury_tax,
                    active_stake,
                } => words::spells(
                    b,
                    words::arr(4) + words::num(epoch as nat) + words::num(total_rewards_pot as nat)
                        + words::num(treasury_tax as nat) + words::num(active_stake as nat),
                ),
                QueryResult::HardForkCurrentEra(n) => words::spells(
                    b,
                    words::num(n as nat % 256),
                ),
                QueryResult::NoFuturePParams => words::spells(b, words::arr(1) + words::num(0)),
                QueryResult::MaxMajorProtocolVersion(n) => words::spells(b, words::num(n as nat)),
                QueryResult::Error(m) => words::spells(b, words::txt(m@)),
                _ => true,
            }
        }),
{
    broadcast use {words::group_words, lemma_list_fits};

}

/// Whoever asks for the system start reads that and nothing else.
pub proof fn lemma_system_start_answer(s: String)
    ensures
        encoding::result_bytes(QueryResult::SystemStart(s)) == protocol::utctime_bytes(s@),
{
}

/// Whoever asks for the protocol parameters reads that and nothing else.
pub proof fn lemma_params_answer(pp: Box<ProtocolParamsSnapshot>)
    ensures
        encoding::result_bytes(QueryResult::ProtocolParams(pp)) == protocol::params_bytes(*pp),
{
}

/// Whoever asks for the governance state reads that and nothing else.
#[verifier::rlimit(60)]
#[verifier::spinoff_prover]
pub proof fn lemma_gov_state_answer(g: Box<GovStateSnapshot>)
    ensures
        encoding::result_bytes(QueryResult::GovState(g)) == governance::gov_state_bytes(*g),
{
}

/// Whoever asks for the committee reads that and nothing else.
pub proof fn lemma_committee_answer(c: CommitteeSnapshot)
    ensures
        encoding::result_bytes(QueryResult::CommitteeState(c)) == governance::committee_bytes(c),
{
}

/// Whoever asks for stake addresses reads that and nothing else.
pub proof fn lemma_stake_addresses_answer(v: Vec<StakeAddressSnapshot>)
    ensures
        encoding::result_bytes(QueryResult::StakeAddressInfo(v)) == ledger::stake_address_info(v@),
{
}

/// Whoever asks for the stake snapshots reads that and nothing else.
pub proof fn lemma_stake_snapshots_answer(s: StakeSnapshotsResult)
    ensures
        encoding::result_bytes(QueryResult::StakeSnapshots(s)) == ledger::stake_snapshots_bytes(s),
{
}

/// Whoever asks for the ids of the pools reads that and nothing else.
pub proof fn lemma_stake_pools_answer(v: Vec<Vec<u8>>)
    ensures
        encoding::result_bytes(QueryResult::StakePools(v)) == ledger::set_of_bytes(v@),
{
}

/// Whoever asks for the parameters of pools reads that and nothing else.
pub proof fn lemma_pool_params_answer(v: Vec<PoolParamsSnapshot>)
    ensures
        encoding::result_bytes(QueryResult::PoolParams(v)) == ledger::pool_params_map(v@),
{
}

/// Whoever asks for the genesis reads that and nothing else.
pub proof fn lemma_genesis_answer(gc: Box<GenesisConfigSnapshot>)
    ensures
        encoding::result_bytes(QueryResult::GenesisConfig(gc)) == protocol::genesis_bytes(*gc),
{
}

/// Whoever asks for the constitution reads that and nothing else.
pub proof fn lemma_constitution_answer(
    url: String,
    data_hash: Vec<u8>,
    script_hash: Option<Vec<u8>>,
)
    ensures
        encoding::result_bytes(QueryResult::Constitution { url, data_hash,
            script_hash }) == governance::constitution_bytes(url@, data_hash@, script_hash),
{
}

/// Whoever asks for the history of eras reads that and nothing else.
pub proof fn lemma_era_history_answer(v: Vec<EraSummary>)
    ensures
        encoding::result_bytes(QueryResult::EraHistory(v)) == protocol::era_history_bytes(v@),
{
}

/// Whoever asks for the proposals reads that and nothing else.
pub proof fn lemma_proposals_answer(v: Vec<ProposalSnapshot>)
    ensures
        encoding::result_bytes(QueryResult::Proposals(v)) == governance::proposals_bytes(v@),
{
}

/// Whoever asks for the state of ratification reads that and nothing else.
pub proof fn lemma_ratify_state_answer(
    enacted: Vec<(ProposalSnapshot, GovActionId)>,
    expired: Vec<GovActionId>,
    delayed: bool,
)
    ensures
        encoding::result_bytes(QueryResult::RatifyState { enacted, expired,
            delayed }) == governance::ratify_state_bytes(enacted@, expired@, delayed),
{
}

/// Whoever asks for the distribution of pools with its total reads that and nothing else.
pub proof fn lemma_pool_distr2_answer(pools: Vec<StakePoolSnapshot>, total_active_stake: u64)
    ensures
        encoding::result_bytes(QueryResult::PoolDistr2 { pools,
            total_active_stake }) == ledger::pool_distr2_bytes(pools@, total_active_stake),
{
}

/// Whoever asks for the ledger peers reads that and nothing else.
pub proof fn lemma_ledger_peers_answer(v: Vec<LedgerPeerEntry>)
    ensures
        encoding::result_bytes(QueryResult::LedgerPeerSnapshot(v)) == ledger::ledger_peers_bytes(v@),
{
}

/// The state of pools is read as their parameters, their future ones, when they retire, and
/// their deposits.
pub proof fn lemma_pool_state_answer(
    pool_params: Vec<PoolParamsSnapshot>,
    future_pool_params: Vec<PoolParamsSnapshot>,
    retiring: Vec<(Vec<u8>, u64)>,
    deposits: Vec<(Vec<u8>, u64)>,
    current: Seq<Word>,
    future: Seq<Word>,
)
    requires
        words::spells(ledger::pool_params_map(pool_params@), current),
        words::spells(ledger::pool_params_map(future_pool_params@), future),
    ensures
        words::spells(
            encoding::result_bytes(
                QueryResult::PoolState { pool_params, future_pool_params, retiring, deposits },
            ),
            words::arr(4) + current + future + words::dict_of(
                retiring@,
                |x: (Vec<u8>, u64)| words::bin(x.0@) + words::num(x.1 as nat),
            ) + words::dict_of(
                deposits@,
                |x: (Vec<u8>, u64)| words::bin(x.0@) + words::num(x.1 as nat),
            ),
        ),
{
    broadcast use {words::group_words, lemma_list_fits};

    lemma_amounts_are_read(retiring@);
    lemma_amounts_are_read(deposits@);
}

/// A wrapped answer is read as tag 24 on the bytes of the answer.
pub proof fn lemma_wrapped_answer(inner: Box<QueryResult>)
    requires
        encoding::result_bytes(*inner).len() <= u64::MAX,
    ensures
        words::spells(
            encoding::result_bytes(QueryResult::WrappedCbor(inner)),
            words::tag(24) + words::bin(encoding::result_bytes(*inner)),
        ),
{
    broadcast use words::group_words;

}

/// MsgResult is read as 4 and the answer, which stands in an array of one exactly where the
/// query depends on the era.
pub proof fn lemma_result_is_read(r: QueryResult, answer: Seq<Word>)
    requires
        words::spells(encoding::result_bytes(r), answer),
    ensures
        ({
            let free = r is SystemStart || r is ChainBlockNo || r is ChainTip || r is ChainPoint
                || r is CurrentEra || r is HardForkCurrentEra || r is EraHistory;
            words::spells(
                encoding::msg_result_bytes(r),
                if free {
                    words::arr(2) + words::num(4) + answer
                } else {
                    words::arr(2) + words::num(4) + words::arr(1) + answer
                },
            )
        }),
{
    broadcast use words::group_words;

    assert(cbor::array_head(2) + cbor::uint(4) + Seq::<u8>::empty() =~= cbor::array_head(2)
        + cbor::uint(4));
}

/// The first `n` of numbered items.
proof fn lemma_era_items_are_read(eras: Seq<EraSummary>, n: int,
    each_era: spec_fn(int) -> Seq<Word>)
    requires
        0 <= n <= eras.len(),
        forall|i: int|
            0 <= i < eras.len() ==> words::spells(
                protocol::era_item(#[trigger] eras[i], i == eras.len() - 1),
                each_era(i),
            ),
    ensures
        words::spells(
            protocol::era_items(eras, n),
            words::each(Seq::new(n as nat, |i: int| i), each_era),
        ),
    decreases n,
{
    broadcast use words::lemma_nothing;

    let s = Seq::new(n as nat, |i: int| i);
    if n > 0 {
        lemma_era_items_are_read(eras, n - 1, each_era);
        assert(s.drop_last() =~= Seq::new((n - 1) as nat, |i: int| i));
        assert(words::spells(protocol::era_item(eras[n - 1], n == eras.len()), each_era(n - 1)));
        words::lemma_spells_append(
            protocol::era_items(eras, n - 1),
            protocol::era_item(eras[n - 1], n == eras.len()),
            words::each(s.drop_last(), each_era),
            each_era(n - 1),
        );
    }
}

/// The eras are read in their order, the oldest first, up to a break; only the last one may
/// be without end.
pub proof fn lemma_era_history_is_read(eras: Seq<EraSummary>, each_era: spec_fn(int) -> Seq<Word>)
    requires
        forall|i: int|
            0 <= i < eras.len() ==> words::spells(
                protocol::era_item(#[trigger] eras[i], i == eras.len() - 1),
                each_era(i),
            ),
    ensures
        words::spells(
            protocol::era_history_bytes(eras),
            seq![Word::OpenArray] + words::each(Seq::new(eras.len(), |i: int| i), each_era) + seq![
                Word::Break,
            ],
        ),
{
    broadcast use words::group_words;

    lemma_era_items_are_read(eras, eras.len() as int, each_era);
}

/// A big ledger peer is read as the stake up to it and its own stake, both over the total,
/// and its relays in their order.
pub proof fn lemma_big_peer_is_read(
    s: Seq<LedgerPeerEntry>,
    n: int,
    total: int,
    each_relay: spec_fn(RelaySnapshot) -> Seq<Word>,
)
    requires
        0 <= n < s.len(),
        0 <= ledger::stake_sum(s.take(n + 1)) <= u64::MAX,
        0 <= total <= u64::MAX,
        forall|i: int|
            0 <= i < s[n].relays@.len() ==> words::spells(
                ledger::access_point_bytes(#[trigger] s[n].relays@[i]),
                each_relay(s[n].relays@[i]),
            ),
    ensures
        words::spells(
            ledger::big_peer_item(s, n, total),
            words::arr(2) + (words::arr(2) + words::num(ledger::stake_sum(s.take(n + 1)) as nat)
                + words::num(total as nat)) + (words::arr(2) + (words::arr(2) + words::num(
                s[n].stake as nat,
            ) + words::num(total as nat)) + (seq![Word::OpenArray] + words::each(
                s[n].relays@,
                |x: RelaySnapshot| each_relay(x),
            ) + seq![Word::Break])),
        ),
{
    broadcast use words::group_words;

    let f = |x: RelaySnapshot| ledger::access_point_bytes(x);
    words::lemma_each(s[n].relays@, f, |x: RelaySnapshot| each_relay(x));
}

proof fn lemma_big_peers_are_read(
    s: Seq<LedgerPeerEntry>,
    n: int,
    total: int,
    each_peer: spec_fn(int) -> Seq<Word>,
)
    requires
        0 <= n <= s.len(),
        forall|i: int|
            0 <= i < s.len() ==> words::spells(
                #[trigger] ledger::big_peer_item(s, i, total),
                each_peer(i),
            ),
    ensures
        words::spells(
            ledger::big_peer_items(s, n, total),
            words::each(Seq::new(n as nat, |i: int| i), each_peer),
        ),
    decreases n,
{
    broadcast use words::lemma_nothing;

    let w = Seq::new(n as nat, |i: int| i);
    if n > 0 {
        lemma_big_peers_are_read(s, n - 1, total, each_peer);
        assert(w.drop_last() =~= Seq::new((n - 1) as nat, |i: int| i));
        words::lemma_spells_append(
            ledger::big_peer_items(s, n - 1, total),
            ledger::big_peer_item(s, n - 1, total),
            words::each(w.drop_last(), each_peer),
            each_peer(n - 1),
        );
    }
}

/// The snapshot of ledger peers is read as version 1, an unknown slot, and the big ledger
/// peers, the largest first, up to a break. Their stakes are over the stake of all peers that
/// have some, or over 1 where there is none.
pub proof fn lemma_ledger_peers_are_read(
    peers: Seq<LedgerPeerEntry>,
    total: int,
    each_peer: spec_fn(int) -> Seq<Word>,
)
    requires
        ({
            let all = ledger::stake_sum(
                order::sorted_by(
                    peers.filter(|p: LedgerPeerEntry| p.stake > 0),
                    |a: LedgerPeerEntry, b: LedgerPeerEntry| a.stake >= b.stake,
                ),
            );
            total == if all < 1 {
                1
            } else {
                all
            }
        }),
        forall|i: int|
            0 <= i < ledger::big_peers(peers).len() ==> words::spells(
                #[trigger] ledger::big_peer_item(ledger::big_peers(peers), i, total),
                each_peer(i),
            ),
    ensures
        words::spells(
            ledger::ledger_peers_bytes(peers),
            words::arr(2) + words::num(1) + (words::arr(2) + (words::arr(1) + words::num(0))
                + (seq![
                Word::OpenArray,
            ] + words::each(Seq::new(ledger::big_peers(peers).len(), |i: int| i), each_peer)
                + seq![Word::Break])),
        ),
{
    broadcast use words::group_words;

    let big = ledger::big_peers(peers);
    lemma_big_peers_are_read(big, big.len() as int, total, each_peer);
}

proof fn lemma_item_in_list<T>(s: Seq<T>, f: spec_fn(T) -> Seq<u8>, i: int)
    requires
        0 <= i < s.len(),
    ensures
        exists|pre: Seq<u8>, rest: Seq<u8>|
            cbor::concat_map(s, f) == #[trigger] (pre + f(s[i]) + rest),
    decreases s.len(),
{
    let init = s.drop_last();
    if i == s.len() - 1 {
        let none = Seq::<u8>::empty();
        assert(cbor::concat_map(s, f) =~= cbor::concat_map(init, f) + f(s[i]) + none);
    } else {
        lemma_item_in_list(init, f, i);
        let (pre, rest) = choose|pre: Seq<u8>, rest: Seq<u8>|
            cbor::concat_map(init, f) == #[trigger] (pre + f(init[i]) + rest);
        assert(cbor::concat_map(s, f) =~= pre + f(s[i]) + (rest + f(s.last())));
    }
}

/// Whether the id of the pool decodes at `p`, and behind it an array of three numbers: its
/// stake in the mark, the set and the go snapshot.
pub open spec fn stakes_decode_at(b: Seq<u8>, p: int, x: PoolStakeSnapshotEntry) -> bool {
    let id = cbor::bytes_at(b, p);
    let a = cbor::len_at(b, id.end, 4);
    let mark = cbor::uint_at(b, a.end, u64::MAX as nat);
    let set = cbor::uint_at(b, mark.end, u64::MAX as nat);
    let go = cbor::uint_at(b, set.end, u64::MAX as nat);
    &&& id.value == Some(x.pool_id@)
    &&& a.value == Some(Some(3nat))
    &&& mark.value == Some(x.mark_stake as nat)
    &&& set.value == Some(x.set_stake as nat)
    &&& go.value == Some(x.go_stake as nat)
}

/// Wherever the stake of a pool stands in the answer to a query for the stake snapshots, the
/// first item behind its id decodes to its stake in the mark snapshot, the second one to that
/// in the set snapshot and the third one to that in the go snapshot.
pub proof fn lemma_stakes_decode_by_position(s: StakeSnapshotsResult, i: int)
    requires
        0 <= i < s.pools@.len(),
    ensures
        exists|p: int| #[trigger]
            stakes_decode_at(
                encoding::result_bytes(QueryResult::StakeSnapshots(s)),
                p,
                s.pools@[i],
            ),
{
    let b = encoding::result_bytes(QueryResult::StakeSnapshots(s));
    let x = s.pools@[i];
    let f = |x: PoolStakeSnapshotEntry| ledger::snapshot_item(x);
    lemma_item_in_list(s.pools@, f, i);
    let (pre, rest) = choose|pre: Seq<u8>, rest: Seq<u8>|
        cbor::concat_map(s.pools@, f) == #[trigger] (pre + f(s.pools@[i]) + rest);
    lemma_stake_snapshots_answer(s);
    lemma_within(
        cbor::array_head(4),
        cbor::map_head(s.pools@.len()),
        pre,
        ledger::snapshot_item(x),
        rest,
        cbor::uint(ledger::at_least_one(s.total_mark_stake) as nat),
        cbor::uint(ledger::at_least_one(s.total_set_stake) as nat),
        cbor::uint(ledger::at_least_one(s.total_go_stake) as nat),
    );
    let before = cbor::array_head(4) + cbor::map_head(s.pools@.len()) + pre;
    let after = rest + cbor::uint(ledger::at_least_one(s.total_mark_stake) as nat) + cbor::uint(
        ledger::at_least_one(s.total_set_stake) as nat,
    ) + cbor::uint(ledger::at_least_one(s.total_go_stake) as nat);
    assert(b == before + ledger::snapshot_item(x) + after);
    lemma_stakes_decode(before, x, after);
}

proof fn lemma_within(
    a: Seq<u8>,
    m: Seq<u8>,
    pre: Seq<u8>,
    x: Seq<u8>,
    rest: Seq<u8>,
    u: Seq<u8>,
    v: Seq<u8>,
    w: Seq<u8>,
)
    ensures
        a + (m + (pre + x + rest)) + u + v + w == (a + m + pre) + x + (rest + u + v + w),
{
    assert(a + (m + (pre + x + rest)) + u + v + w =~= (a + m + pre) + x + (rest + u + v + w));
}

proof fn lemma_stakes_decode(before: Seq<u8>, x: PoolStakeSnapshotEntry, after: Seq<u8>)
    ensures
        stakes_decode_at(
            before + ledger::snapshot_item(x) + after,
            before.len() as int,
            x,
        ),
{
    let b = before + ledger::snapshot_item(x) + after;
    let id = cbor::bytes_item(x.pool_id@);
    let a = cbor::array_head(3);
    let mark = cbor::uint(x.mark_stake as nat);
    let set = cbor::uint(x.set_stake as nat);
    let go = cbor::uint(x.go_stake as nat);
    lemma_list_fits(x.pool_id);
    lemma_five(before, id, a, mark, set, go, after);
    cbor::lemma_bytes_read_back(before, x.pool_id@, a + mark + set + go + after);
    cbor::lemma_len_reads_back(before + id, 4, 3, mark + set + go + after);
    cbor::lemma_uint_reads_back(
        before + id + a,
        x.mark_stake as nat,
        u64::MAX as nat,
        set + go + after,
    );
    cbor::lemma_uint_reads_back(
        before + id + a + mark,
        x.set_stake as nat,
        u64::MAX as nat,
        go + after,
    );
    cbor::lemma_uint_reads_back(
        before + id + a + mark + set,
        x.go_stake as nat,
        u64::MAX as nat,
        after,
    );
}

proof fn lemma_five(
    p: Seq<u8>,
    a: Seq<u8>,
    b: Seq<u8>,
    c: Seq<u8>,
    d: Seq<u8>,
    e: Seq<u8>,
    q: Seq<u8>,
)
    ensures
        ({
            let s = p + (a + (b + c + d + e)) + q;
            &&& s == p + a + (b + c + d + e + q)
            &&& s == p + a + b + (c + d + e + q)
            &&& s == p + a + b + c + (d + e + q)
            &&& s == p + a + b + c + d + (e + q)
            &&& s == p + a + b + c + d + e + q
        }),
{
    let s = p + (a + (b + c + d + e)) + q;
    assert(s =~= p + a + (b + c + d + e + q));
    assert(s =~= p + a + b + (c + d + e + q));
    assert(s =~= p + a + b + c + (d + e + q));
    assert(s =~= p + a + b + c + d + (e + q));
    assert(s =~= p + a + b + c + d + e + q);
}

} // verus!
