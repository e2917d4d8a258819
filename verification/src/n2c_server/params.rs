//! Protocol parameters as a map with numbers for keys.
//!
//! The keys are 0 to 11, 16 to 33; key 18, the cost models, is there only if there is a
//! cost model.
use crate::cbor;
use crate::cbor::{put_array, put_i64, put_map, put_u32, put_u64};
use crate::n2c::query::protocol;
use crate::n2c::query::protocol::{encode_tagged_rational, put_pair};
use crate::n2c_server::snapshot::ProtocolParamsSnapshot;
use vstd::prelude::*;

verus! {

/// An entry of a map with numbers for keys.
pub open spec fn entry(key: nat, value: Seq<u8>) -> Seq<u8> {
    cbor::uint(key) + value
}

/// Appends an entry whose value is a number.
fn put_entry(enc: &mut Vec<u8>, key: u32, value: u64)
    ensures
        final(enc)@ == old(enc)@ + entry(key as nat, cbor::uint(value as nat)),
{
    broadcast use {crate::cbor::lemma_append_assoc, crate::cbor::lemma_append_empty};

    put_u32(enc, key);
    put_u64(enc, value);
}

/// The cost parameters of one language.
pub open spec fn costs_array(costs: Seq<i64>) -> Seq<u8> {
    cbor::array_of(costs, |c: i64| cbor::sint(c as int))
}

/// One entry of the map of cost models, if the model is there.
pub open spec fn cost_model(language: nat, costs: Option<Vec<i64>>) -> Seq<u8> {
    match costs {
        Some(v) => entry(language, costs_array(v@)),
        None => Seq::empty(),
    }
}

/// Number of cost models that are there.
pub open spec fn cost_model_count(pp: ProtocolParamsSnapshot) -> nat {
    (if pp.cost_models_v1 is Some {
        1nat
    } else {
        0
    }) + (if pp.cost_models_v2 is Some {
        1nat
    } else {
        0
    }) + (if pp.cost_models_v3 is Some {
        1nat
    } else {
        0
    })
}

/// The entry of the cost models, if there is one of them.
pub open spec fn cost_models_entry(pp: ProtocolParamsSnapshot) -> Seq<u8> {
    if cost_model_count(pp) == 0 {
        Seq::empty()
    } else {
        entry(
            18,
            cbor::map_head(cost_model_count(pp))
                + cost_model(0, pp.cost_models_v1)
                + cost_model(1, pp.cost_models_v2)
                + cost_model(2, pp.cost_models_v3),
        )
    }
}

/// The entries 0 to 17.
pub open spec fn first_entries(pp: ProtocolParamsSnapshot) -> Seq<u8> {
    entry(0, cbor::uint(pp.min_fee_a as nat))
        + entry(1, cbor::uint(pp.min_fee_b as nat))
        + entry(2, cbor::uint(pp.max_block_body_size as nat))
        + entry(3, cbor::uint(pp.max_tx_size as nat))
        + entry(4, cbor::uint(pp.max_block_header_size as nat))
        + entry(5, cbor::uint(pp.key_deposit as nat))
        + entry(6, cbor::uint(pp.pool_deposit as nat))
        + entry(7, cbor::uint(pp.e_max as nat))
        + entry(8, cbor::uint(pp.n_opt as nat))
        + entry(9, protocol::rational(pp.a0_num, pp.a0_den))
        + entry(10, protocol::rational(pp.rho_num, pp.rho_den))
        + entry(11, protocol::rational(pp.tau_num, pp.tau_den))
        + entry(16, cbor::uint(pp.min_pool_cost as nat))
        + entry(17, cbor::uint(pp.ada_per_utxo_byte as nat))
}

/// The prices of execution: of memory, and of steps.
pub open spec fn execution_costs(pp: ProtocolParamsSnapshot) -> Seq<u8> {
    cbor::array_head(2)
        + protocol::rational(pp.execution_costs_mem_num, pp.execution_costs_mem_den)
        + protocol::rational(pp.execution_costs_step_num, pp.execution_costs_step_den)
}

/// The entries 19 to 25.
pub open spec fn middle_entries(pp: ProtocolParamsSnapshot) -> Seq<u8> {
    entry(19, execution_costs(pp))
        + entry(20, protocol::pair(pp.max_tx_ex_mem, pp.max_tx_ex_steps))
        + entry(21, protocol::pair(pp.max_block_ex_mem, pp.max_block_ex_steps))
        + entry(22, cbor::uint(pp.max_val_size as nat))
        + entry(23, cbor::uint(pp.collateral_percentage as nat))
        + entry(24, cbor::uint(pp.max_collateral_inputs as nat))
        + entry(25, protocol::pair(pp.protocol_version_major, pp.protocol_version_minor))
}

/// Voting thresholds of the pools.
pub open spec fn pool_voting_thresholds(pp: ProtocolParamsSnapshot) -> Seq<u8> {
    cbor::array_head(5)
        + protocol::rational(pp.pvt_committee_num, pp.pvt_committee_den)
        + protocol::rational(pp.pvt_committee_num, pp.pvt_committee_den)
        + protocol::rational(pp.pvt_committee_num, pp.pvt_committee_den)
        + protocol::rational(pp.pvt_hard_fork_num, pp.pvt_hard_fork_den)
        + protocol::rational(pp.pvt_committee_num, pp.pvt_committee_den)
}

/// Voting thresholds of the DReps. All groups of parameters share one.
pub open spec fn drep_voting_thresholds(pp: ProtocolParamsSnapshot) -> Seq<u8> {
    cbor::array_head(10)
        + protocol::rational(pp.dvt_no_confidence_num, pp.dvt_no_confidence_den)
        + protocol::rational(pp.dvt_committee_normal_num, pp.dvt_committee_normal_den)
        + protocol::rational(pp.dvt_committee_no_confidence_num, pp.dvt_committee_no_confidence_den)
        + protocol::rational(pp.dvt_constitution_num, pp.dvt_constitution_den)
        + protocol::rational(pp.dvt_hard_fork_num, pp.dvt_hard_fork_den)
        + protocol::rational(pp.dvt_p_param_change_num, pp.dvt_p_param_change_den)
        + protocol::rational(pp.dvt_p_param_change_num, pp.dvt_p_param_change_den)
        + protocol::rational(pp.dvt_p_param_change_num, pp.dvt_p_param_change_den)
        + protocol::rational(pp.dvt_p_param_change_num, pp.dvt_p_param_change_den)
        + protocol::rational(pp.dvt_treasury_withdrawal_num, pp.dvt_treasury_withdrawal_den)
}

/// The entries 26 to 34.
pub open spec fn last_entries(pp: ProtocolParamsSnapshot) -> Seq<u8> {
    entry(26, pool_voting_thresholds(pp))
        + entry(27, drep_voting_thresholds(pp))
        + entry(28, cbor::uint(pp.committee_min_size as nat))
        + entry(29, cbor::uint(pp.committee_max_term_length as nat))
        + entry(30, cbor::uint(pp.gov_action_lifetime as nat))
        + entry(31, cbor::uint(pp.gov_action_deposit as nat))
        + entry(32, cbor::uint(pp.drep_deposit as nat))
        + entry(33, cbor::uint(pp.drep_activity as nat))
        + entry(34, protocol::rational(pp.min_fee_ref_script_cost_per_byte, 1))
}

/// Number of entries.
pub open spec fn params_count(pp: ProtocolParamsSnapshot) -> nat {
    if cost_model_count(pp) == 0 {
        30
    } else {
        31
    }
}

/// The protocol parameters.
pub open spec fn params_bytes(pp: ProtocolParamsSnapshot) -> Seq<u8> {
    cbor::map_head(params_count(pp))
        + first_entries(pp)
        + cost_models_entry(pp)
        + middle_entries(pp)
        + last_entries(pp)
}

fn put_cost(enc: &mut Vec<u8>, c: &i64)
    ensures
        final(enc)@ == old(enc)@ + cbor::sint(*c as int),
{
    put_i64(enc, *c);
}

fn put_costs(enc: &mut Vec<u8>, v: &Vec<i64>)
    ensures
        final(enc)@ == old(enc)@ + costs_array(v@),
{
    put_array(enc, v.len() as u64);
    let ghost pre = enc@;
    let ghost f = |c: i64| cbor::sint(c as int);
    let mut i: usize = 0;
    assert(enc@ =~= pre + cbor::concat_map(v@.take(0), f));
    while i < v.len()
        invariant
            i <= v.len(),
            f == (|c: i64| cbor::sint(c as int)),
            enc@ == pre + cbor::concat_map(v@.take(i as int), f),
        decreases v.len() - i,
    {
        proof {
            cbor::lemma_concat_map_step(v@, f, i as int);
            cbor::lemma_append_assoc(pre, cbor::concat_map(v@.take(i as int), f), f(v@[i as int]));
        }
        put_cost(enc, &v[i]);
        i += 1;
    }
    proof {
        assert(v@.take(v.len() as int) =~= v@);
        cbor::lemma_append_assoc(
            old(enc)@,
            cbor::array_head(v@.len()),
            cbor::concat_map(v@, f),
        );
    }
}

fn put_cost_model(enc: &mut Vec<u8>, language: u32, costs: &Option<Vec<i64>>)
    ensures
        final(enc)@ == old(enc)@ + cost_model(language as nat, *costs),
{
    broadcast use {crate::cbor::lemma_append_assoc, crate::cbor::lemma_append_empty};

    if let Some(v) = costs {
        put_u32(enc, language);
        put_costs(enc, v);
    }
}

fn put_cost_models(enc: &mut Vec<u8>, pp: &ProtocolParamsSnapshot)
    ensures
        final(enc)@ == old(enc)@ + cost_models_entry(*pp),
{
    broadcast use {crate::cbor::lemma_append_assoc, crate::cbor::lemma_append_empty};

    let mut count: u64 = 0;
    if pp.cost_models_v1.is_some() {
        count += 1;
    }
    if pp.cost_models_v2.is_some() {
        count += 1;
    }
    if pp.cost_models_v3.is_some() {
        count += 1;
    }
    if count > 0 {
        put_u32(enc, 18);
        put_map(enc, count);
        put_cost_model(enc, 0, &pp.cost_models_v1);
        put_cost_model(enc, 1, &pp.cost_models_v2);
        put_cost_model(enc, 2, &pp.cost_models_v3);
    }
}

fn put_first_entries(enc: &mut Vec<u8>, pp: &ProtocolParamsSnapshot)
    ensures
        final(enc)@ == old(enc)@ + first_entries(*pp),
{
    broadcast use {crate::cbor::lemma_append_assoc, crate::cbor::lemma_append_empty};

    put_entry(enc, 0, pp.min_fee_a);
    put_entry(enc, 1, pp.min_fee_b);
    put_entry(enc, 2, pp.max_block_body_size);
    put_entry(enc, 3, pp.max_tx_size);
    put_entry(enc, 4, pp.max_block_header_size);
    put_entry(enc, 5, pp.key_deposit);
    put_entry(enc, 6, pp.pool_deposit);
    put_entry(enc, 7, pp.e_max);
    put_entry(enc, 8, pp.n_opt);
    put_u32(enc, 9);
    encode_tagged_rational(enc, pp.a0_num, pp.a0_den);
    put_u32(enc, 10);
    encode_tagged_rational(enc, pp.rho_num, pp.rho_den);
    put_u32(enc, 11);
    encode_tagged_rational(enc, pp.tau_num, pp.tau_den);
    put_entry(enc, 16, pp.min_pool_cost);
    put_entry(enc, 17, pp.ada_per_utxo_byte);
}

fn put_middle_entries(enc: &mut Vec<u8>, pp: &ProtocolParamsSnapshot)
    ensures
        final(enc)@ == old(enc)@ + middle_entries(*pp),
{
    broadcast use {crate::cbor::lemma_append_assoc, crate::cbor::lemma_append_empty};

    put_u32(enc, 19);
    put_array(enc, 2);
    encode_tagged_rational(enc, pp.execution_costs_mem_num, pp.execution_costs_mem_den);
    encode_tagged_rational(enc, pp.execution_costs_step_num, pp.execution_costs_step_den);
    put_u32(enc, 20);
    put_pair(enc, pp.max_tx_ex_mem, pp.max_tx_ex_steps);
    put_u32(enc, 21);
    put_pair(enc, pp.max_block_ex_mem, pp.max_block_ex_steps);
    put_entry(enc, 22, pp.max_val_size);
    put_entry(enc, 23, pp.collateral_percentage);
    put_entry(enc, 24, pp.max_collateral_inputs);
    put_u32(enc, 25);
    put_pair(enc, pp.protocol_version_major, pp.protocol_version_minor);
}

fn put_pool_thresholds(enc: &mut Vec<u8>, pp: &ProtocolParamsSnapshot)
    ensures
        final(enc)@ == old(enc)@ + pool_voting_thresholds(*pp),
{
    broadcast use {crate::cbor::lemma_append_assoc, crate::cbor::lemma_append_empty};

    put_array(enc, 5);
    encode_tagged_rational(enc, pp.pvt_committee_num, pp.pvt_committee_den);
    encode_tagged_rational(enc, pp.pvt_committee_num, pp.pvt_committee_den);
    encode_tagged_rational(enc, pp.pvt_committee_num, pp.pvt_committee_den);
    encode_tagged_rational(enc, pp.pvt_hard_fork_num, pp.pvt_hard_fork_den);
    encode_tagged_rational(enc, pp.pvt_committee_num, pp.pvt_committee_den);
}

fn put_drep_thresholds(enc: &mut Vec<u8>, pp: &ProtocolParamsSnapshot)
    ensures
        final(enc)@ == old(enc)@ + drep_voting_thresholds(*pp),
{
    broadcast use {crate::cbor::lemma_append_assoc, crate::cbor::lemma_append_empty};

    put_array(enc, 10);
    encode_tagged_rational(enc, pp.dvt_no_confidence_num, pp.dvt_no_confidence_den);
    encode_tagged_rational(enc, pp.dvt_committee_normal_num, pp.dvt_committee_normal_den);
    encode_tagged_rational(enc, pp.dvt_committee_no_confidence_num, pp.dvt_committee_no_confidence_den);
    encode_tagged_rational(enc, pp.dvt_constitution_num, pp.dvt_constitution_den);
    encode_tagged_rational(enc, pp.dvt_hard_fork_num, pp.dvt_hard_fork_den);
    encode_tagged_rational(enc, pp.dvt_p_param_change_num, pp.dvt_p_param_change_den);
    encode_tagged_rational(enc, pp.dvt_p_param_change_num, pp.dvt_p_param_change_den);
    encode_tagged_rational(enc, pp.dvt_p_param_change_num, pp.dvt_p_param_change_den);
    encode_tagged_rational(enc, pp.dvt_p_param_change_num, pp.dvt_p_param_change_den);
    encode_tagged_rational(enc, pp.dvt_treasury_withdrawal_num, pp.dvt_treasury_withdrawal_den);
}

fn put_last_entries(enc: &mut Vec<u8>, pp: &ProtocolParamsSnapshot)
    ensures
        final(enc)@ == old(enc)@ + last_entries(*pp),
{
    broadcast use {crate::cbor::lemma_append_assoc, crate::cbor::lemma_append_empty};

    put_u32(enc, 26);
    put_pool_thresholds(enc, pp);
    put_u32(enc, 27);
    put_drep_thresholds(enc, pp);
    put_entry(enc, 28, pp.committee_min_size);
    put_entry(enc, 29, pp.committee_max_term_length);
    put_entry(enc, 30, pp.gov_action_lifetime);
    put_entry(enc, 31, pp.gov_action_deposit);
    put_entry(enc, 32, pp.drep_deposit);
    put_entry(enc, 33, pp.drep_activity);
    put_u32(enc, 34);
    encode_tagged_rational(enc, pp.min_fee_ref_script_cost_per_byte, 1);
}

/// Appends the protocol parameters.
pub fn encode_protocol_params_cbor(enc: &mut Vec<u8>, pp: &ProtocolParamsSnapshot)
    ensures
        final(enc)@ == old(enc)@ + params_bytes(*pp),
{
    broadcast use {crate::cbor::lemma_append_assoc, crate::cbor::lemma_append_empty};

    let mut count: u64 = 30;
    if pp.cost_models_v1.is_some() || pp.cost_models_v2.is_some() || pp.cost_models_v3.is_some() {
        count += 1;
    }
    put_map(enc, count);
    put_first_entries(enc, pp);
    put_cost_models(enc, pp);
    put_middle_entries(enc, pp);
    put_last_entries(enc, pp);
}

} // verus!
