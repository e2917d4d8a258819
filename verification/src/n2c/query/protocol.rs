//! Protocol parameters, genesis and era history.
use crate::cbor;
use crate::cbor::{
    put_array, put_begin_array, put_bytes, put_end, put_i64, put_map, put_null, put_tag, put_u16,
    put_u32, put_u64, put_u8,
};
use crate::n2c::query::utctime;
use crate::n2c::query::utctime::parse_utctime;
use crate::query_handler::{
    EraBound, EraSummary, GenesisConfigSnapshot, ProtocolParamsSnapshot, ShelleyPParamsSnapshot,
};
use vstd::prelude::*;

verus! {

broadcast use {crate::cbor::lemma_append_assoc, crate::cbor::lemma_append_empty};

/// A rational number: tag 30 on `[numerator, denominator]`.
pub open spec fn rational(num: u64, den: u64) -> Seq<u8> {
    cbor::tag_head(30) + cbor::array_head(2) + cbor::uint(num as nat) + cbor::uint(den as nat)
}

/// A pair of unsigned integers.
pub open spec fn pair(a: u64, b: u64) -> Seq<u8> {
    cbor::array_head(2) + cbor::uint(a as nat) + cbor::uint(b as nat)
}

/// Appends tag 30 on `[num, den]`.
pub fn encode_tagged_rational(enc: &mut Vec<u8>, num: u64, den: u64)
    ensures
        final(enc)@ == old(enc)@ + rational(num, den),
{
    put_tag(enc, 30);
    put_array(enc, 2);
    put_u64(enc, num);
    put_u64(enc, den);
}

/// Appends `[a, b]`.
pub(crate) fn put_pair(enc: &mut Vec<u8>, a: u64, b: u64)
    ensures
        final(enc)@ == old(enc)@ + pair(a, b),
{
    put_array(enc, 2);
    put_u64(enc, a);
    put_u64(enc, b);
}

/// The cost parameters of one language.
pub open spec fn costs_array(costs: Seq<i64>) -> Seq<u8> {
    cbor::array_of(costs, |c: i64| cbor::sint(c as int))
}

/// One entry of the cost model map, if the model is there.
pub open spec fn cost_model(language: nat, costs: Option<Vec<i64>>) -> Seq<u8> {
    match costs {
        Some(v) => cbor::uint(language) + costs_array(v@),
        None => Seq::empty(),
    }
}

/// Number of cost models that are there.
pub open spec fn cost_model_count(pp: ProtocolParamsSnapshot) -> nat {
    (if pp.cost_models_v1 is Some { 1nat } else { 0 })
        + (if pp.cost_models_v2 is Some { 1nat } else { 0 })
        + (if pp.cost_models_v3 is Some { 1nat } else { 0 })
}

/// The cost models that are there, keyed by language.
pub open spec fn cost_models(pp: ProtocolParamsSnapshot) -> Seq<u8> {
    cbor::map_head(cost_model_count(pp))
        + cost_model(0, pp.cost_models_v1)
        + cost_model(1, pp.cost_models_v2)
        + cost_model(2, pp.cost_models_v3)
}

/// Voting thresholds of the pools.
pub open spec fn pool_voting_thresholds(pp: ProtocolParamsSnapshot) -> Seq<u8> {
    cbor::array_head(5)
        + rational(pp.pvt_motion_no_confidence_num, pp.pvt_motion_no_confidence_den)
        + rational(pp.pvt_committee_normal_num, pp.pvt_committee_normal_den)
        + rational(pp.pvt_committee_no_confidence_num, pp.pvt_committee_no_confidence_den)
        + rational(pp.pvt_hard_fork_num, pp.pvt_hard_fork_den)
        + rational(pp.pvt_pp_security_group_num, pp.pvt_pp_security_group_den)
}

/// Voting thresholds of the DReps.
pub open spec fn drep_voting_thresholds(pp: ProtocolParamsSnapshot) -> Seq<u8> {
    cbor::array_head(10)
        + rational(pp.dvt_no_confidence_num, pp.dvt_no_confidence_den)
        + rational(pp.dvt_committee_normal_num, pp.dvt_committee_normal_den)
        + rational(pp.dvt_committee_no_confidence_num, pp.dvt_committee_no_confidence_den)
        + rational(pp.dvt_constitution_num, pp.dvt_constitution_den)
        + rational(pp.dvt_hard_fork_num, pp.dvt_hard_fork_den)
        + rational(pp.dvt_pp_network_group_num, pp.dvt_pp_network_group_den)
        + rational(pp.dvt_pp_economic_group_num, pp.dvt_pp_economic_group_den)
        + rational(pp.dvt_pp_technical_group_num, pp.dvt_pp_technical_group_den)
        + rational(pp.dvt_pp_gov_group_num, pp.dvt_pp_gov_group_den)
        + rational(pp.dvt_treasury_withdrawal_num, pp.dvt_treasury_withdrawal_den)
}

/// The protocol parameters as an array of 31 fields, by position.
pub open spec fn params_bytes(pp: ProtocolParamsSnapshot) -> Seq<u8> {
    cbor::array_head(31)
        + cbor::uint(pp.min_fee_a as nat)
        + cbor::uint(pp.min_fee_b as nat)
        + cbor::uint(pp.max_block_body_size as nat)
        + cbor::uint(pp.max_tx_size as nat)
        + cbor::uint(pp.max_block_header_size as nat)
        + cbor::uint(pp.key_deposit as nat)
        + cbor::uint(pp.pool_deposit as nat)
        + cbor::uint(pp.e_max as nat)
        + cbor::uint(pp.n_opt as nat)
        + rational(pp.a0_num, pp.a0_den)
        + rational(pp.rho_num, pp.rho_den)
        + rational(pp.tau_num, pp.tau_den)
        + pair(pp.protocol_version_major, pp.protocol_version_minor)
        + cbor::uint(pp.min_pool_cost as nat)
        + cbor::uint(pp.ada_per_utxo_byte as nat)
        + cost_models(pp)
        + (cbor::array_head(2)
            + rational(pp.execution_costs_mem_num, pp.execution_costs_mem_den)
            + rational(pp.execution_costs_step_num, pp.execution_costs_step_den))
        + pair(pp.max_tx_ex_mem, pp.max_tx_ex_steps)
        + pair(pp.max_block_ex_mem, pp.max_block_ex_steps)
        + cbor::uint(pp.max_val_size as nat)
        + cbor::uint(pp.collateral_percentage as nat)
        + cbor::uint(pp.max_collateral_inputs as nat)
        + pool_voting_thresholds(pp)
        + drep_voting_thresholds(pp)
        + cbor::uint(pp.committee_min_size as nat)
        + cbor::uint(pp.committee_max_term_length as nat)
        + cbor::uint(pp.gov_action_lifetime as nat)
        + cbor::uint(pp.gov_action_deposit as nat)
        + cbor::uint(pp.drep_deposit as nat)
        + cbor::uint(pp.drep_activity as nat)
        + rational(pp.min_fee_ref_script_cost_per_byte, 1)
}

fn put_costs(enc: &mut Vec<u8>, costs: &Vec<i64>)
    ensures
        final(enc)@ == old(enc)@ + costs_array(costs@),
{
    put_array(enc, costs.len() as u64);
    let ghost pre = enc@;
    let mut i: usize = 0;
    while i < costs.len()
        invariant
            i <= costs.len(),
            enc@ == pre + cbor::concat_map(costs@.take(i as int), |c: i64| cbor::sint(c as int)),
        decreases costs.len() - i,
    {
        proof {
            cbor::lemma_concat_map_step(costs@, |c: i64| cbor::sint(c as int), i as int);
        }
        put_i64(enc, costs[i]);
        i += 1;
    }
    assert(costs@.take(costs.len() as int) =~= costs@);
}

fn put_cost_model(enc: &mut Vec<u8>, language: u32, costs: &Option<Vec<i64>>)
    ensures
        final(enc)@ == old(enc)@ + cost_model(language as nat, *costs),
{
    if let Some(v) = costs {
        put_u32(enc, language);
        put_costs(enc, v);
    }
}

fn put_cost_models(enc: &mut Vec<u8>, pp: &ProtocolParamsSnapshot)
    ensures
        final(enc)@ == old(enc)@ + cost_models(*pp),
{
    let mut count: u64 = 0;
    if pp.cost_models_v1.is_some() {
        count += 1;
    }
    if pp.cost_models_v2.is_some() {
        count += 1;
    }
    if pp.cost_models_v3.is_some() {
        count += 1;
    }
    put_map(enc, count);
    put_cost_model(enc, 0, &pp.cost_models_v1);
    put_cost_model(enc, 1, &pp.cost_models_v2);
    put_cost_model(enc, 2, &pp.cost_models_v3);
}

fn put_pool_voting_thresholds(enc: &mut Vec<u8>, pp: &ProtocolParamsSnapshot)
    ensures
        final(enc)@ == old(enc)@ + pool_voting_thresholds(*pp),
{
    put_array(enc, 5);
    encode_tagged_rational(enc, pp.pvt_motion_no_confidence_num, pp.pvt_motion_no_confidence_den);
    encode_tagged_rational(enc, pp.pvt_committee_normal_num, pp.pvt_committee_normal_den);
    encode_tagged_rational(
        enc,
        pp.pvt_committee_no_confidence_num,
        pp.pvt_committee_no_confidence_den,
    );
    encode_tagged_rational(enc, pp.pvt_hard_fork_num, pp.pvt_hard_fork_den);
    encode_tagged_rational(enc, pp.pvt_pp_security_group_num, pp.pvt_pp_security_group_den);
}

fn put_drep_voting_thresholds(enc: &mut Vec<u8>, pp: &ProtocolParamsSnapshot)
    ensures
        final(enc)@ == old(enc)@ + drep_voting_thresholds(*pp),
{
    put_array(enc, 10);
    encode_tagged_rational(enc, pp.dvt_no_confidence_num, pp.dvt_no_confidence_den);
    encode_tagged_rational(enc, pp.dvt_committee_normal_num, pp.dvt_committee_normal_den);
    encode_tagged_rational(
        enc,
        pp.dvt_committee_no_confidence_num,
        pp.dvt_committee_no_confidence_den,
    );
    encode_tagged_rational(enc, pp.dvt_constitution_num, pp.dvt_constitution_den);
    encode_tagged_rational(enc, pp.dvt_hard_fork_num, pp.dvt_hard_fork_den);
    encode_tagged_rational(enc, pp.dvt_pp_network_group_num, pp.dvt_pp_network_group_den);
    encode_tagged_rational(enc, pp.dvt_pp_economic_group_num, pp.dvt_pp_economic_group_den);
    encode_tagged_rational(enc, pp.dvt_pp_technical_group_num, pp.dvt_pp_technical_group_den);
    encode_tagged_rational(enc, pp.dvt_pp_gov_group_num, pp.dvt_pp_gov_group_den);
    encode_tagged_rational(enc, pp.dvt_treasury_withdrawal_num, pp.dvt_treasury_withdrawal_den);
}

/// Appends the protocol parameters as an array of 31 fields, by position.
pub fn encode_protocol_params_cbor(enc: &mut Vec<u8>, pp: &ProtocolParamsSnapshot)
    ensures
        final(enc)@ == old(enc)@ + params_bytes(*pp),
{
    put_array(enc, 31);
    put_u64(enc, pp.min_fee_a);
    put_u64(enc, pp.min_fee_b);
    put_u64(enc, pp.max_block_body_size);
    put_u64(enc, pp.max_tx_size);
    put_u64(enc, pp.max_block_header_size);
    put_u64(enc, pp.key_deposit);
    put_u64(enc, pp.pool_deposit);
    put_u64(enc, pp.e_max);
    put_u64(enc, pp.n_opt);
    encode_tagged_rational(enc, pp.a0_num, pp.a0_den);
    encode_tagged_rational(enc, pp.rho_num, pp.rho_den);
    encode_tagged_rational(enc, pp.tau_num, pp.tau_den);
    put_pair(enc, pp.protocol_version_major, pp.protocol_version_minor);
    put_u64(enc, pp.min_pool_cost);
    put_u64(enc, pp.ada_per_utxo_byte);
    put_cost_models(enc, pp);
    put_array(enc, 2);
    encode_tagged_rational(enc, pp.execution_costs_mem_num, pp.execution_costs_mem_den);
    encode_tagged_rational(enc, pp.execution_costs_step_num, pp.execution_costs_step_den);
    put_pair(enc, pp.max_tx_ex_mem, pp.max_tx_ex_steps);
    put_pair(enc, pp.max_block_ex_mem, pp.max_block_ex_steps);
    put_u64(enc, pp.max_val_size);
    put_u64(enc, pp.collateral_percentage);
    put_u64(enc, pp.max_collateral_inputs);
    put_pool_voting_thresholds(enc, pp);
    put_drep_voting_thresholds(enc, pp);
    put_u64(enc, pp.committee_min_size);
    put_u64(enc, pp.committee_max_term_length);
    put_u64(enc, pp.gov_action_lifetime);
    put_u64(enc, pp.gov_action_deposit);
    put_u64(enc, pp.drep_deposit);
    put_u64(enc, pp.drep_activity);
    encode_tagged_rational(enc, pp.min_fee_ref_script_cost_per_byte, 1);
}

// ---------------------------------------------------------------------------
// System start and genesis
// ---------------------------------------------------------------------------

/// A time stamp as `[year, day of year, picoseconds of day]`.
pub open spec fn utctime_bytes(s: Seq<char>) -> Seq<u8> {
    cbor::array_head(3)
        + cbor::uint(utctime::utctime(s).0 as nat)
        + cbor::uint(utctime::utctime(s).1 as nat)
        + cbor::uint(utctime::utctime(s).2 as nat)
}

/// Appends the system start as `[year, day of year, picoseconds of day]`.
pub fn encode_system_start(enc: &mut Vec<u8>, time_str: &str)
    requires
        utctime::utctime_fits(time_str@),
    ensures
        final(enc)@ == old(enc)@ + utctime_bytes(time_str@),
{
    let (year, day_of_year, picos) = parse_utctime(time_str);
    put_array(enc, 3);
    put_u64(enc, year);
    put_u64(enc, day_of_year);
    put_u64(enc, picos);
}

/// The Shelley protocol parameters as an array of 18 fields. The extra entropy is
/// always the neutral nonce `[0]`.
pub open spec fn shelley_params_bytes(pp: ShelleyPParamsSnapshot) -> Seq<u8> {
    cbor::array_head(18)
        + cbor::uint(pp.min_fee_a as nat)
        + cbor::uint(pp.min_fee_b as nat)
        + cbor::uint(pp.max_block_body_size as nat)
        + cbor::uint(pp.max_tx_size as nat)
        + cbor::uint(pp.max_block_header_size as nat)
        + cbor::uint(pp.key_deposit as nat)
        + cbor::uint(pp.pool_deposit as nat)
        + cbor::uint(pp.e_max as nat)
        + cbor::uint(pp.n_opt as nat)
        + rational(pp.a0_num, pp.a0_den)
        + rational(pp.rho_num, pp.rho_den)
        + rational(pp.tau_num, pp.tau_den)
        + rational(pp.d_num, pp.d_den)
        + (cbor::array_head(1) + cbor::uint(0))
        + cbor::uint(pp.protocol_version_major as nat)
        + cbor::uint(pp.protocol_version_minor as nat)
        + cbor::uint(pp.min_utxo_value as nat)
        + cbor::uint(pp.min_pool_cost as nat)
}

/// Appends the Shelley protocol parameters as an array of 18 fields.
pub fn encode_shelley_pparams(enc: &mut Vec<u8>, pp: &ShelleyPParamsSnapshot)
    ensures
        final(enc)@ == old(enc)@ + shelley_params_bytes(*pp),
{
    put_array(enc, 18);
    put_u64(enc, pp.min_fee_a);
    put_u64(enc, pp.min_fee_b);
    put_u32(enc, pp.max_block_body_size);
    put_u32(enc, pp.max_tx_size);
    put_u16(enc, pp.max_block_header_size);
    put_u64(enc, pp.key_deposit);
    put_u64(enc, pp.pool_deposit);
    put_u32(enc, pp.e_max);
    put_u16(enc, pp.n_opt);
    encode_tagged_rational(enc, pp.a0_num, pp.a0_den);
    encode_tagged_rational(enc, pp.rho_num, pp.rho_den);
    encode_tagged_rational(enc, pp.tau_num, pp.tau_den);
    encode_tagged_rational(enc, pp.d_num, pp.d_den);
    put_array(enc, 1);
    put_u32(enc, 0);
    put_u64(enc, pp.protocol_version_major);
    put_u64(enc, pp.protocol_version_minor);
    put_u64(enc, pp.min_utxo_value);
    put_u64(enc, pp.min_pool_cost);
}

/// One genesis delegation: the genesis hash, then `[delegate hash, VRF hash]`.
pub open spec fn gen_deleg_item(d: (Vec<u8>, Vec<u8>, Vec<u8>)) -> Seq<u8> {
    cbor::bytes_item(d.0@) + cbor::array_head(2) + cbor::bytes_item(d.1@) + cbor::bytes_item(d.2@)
}

/// The genesis as an array of 15 fields. Initial funds and staking are empty.
pub open spec fn genesis_bytes(gc: GenesisConfigSnapshot) -> Seq<u8> {
    cbor::array_head(15)
        + utctime_bytes(gc.system_start@)
        + cbor::uint(gc.network_magic as nat)
        + cbor::uint(gc.network_id as nat)
        + pair(gc.active_slots_coeff_num, gc.active_slots_coeff_den)
        + cbor::uint(gc.security_param as nat)
        + cbor::uint(gc.epoch_length as nat)
        + cbor::uint(gc.slots_per_kes_period as nat)
        + cbor::uint(gc.max_kes_evolutions as nat)
        + cbor::uint(gc.slot_length_micros as nat)
        + cbor::uint(gc.update_quorum as nat)
        + cbor::uint(gc.max_lovelace_supply as nat)
        + shelley_params_bytes(gc.protocol_params)
        + cbor::map_of(gc.gen_delegs@, |d: (Vec<u8>, Vec<u8>, Vec<u8>)| gen_deleg_item(d))
        + cbor::map_head(0)
        + (cbor::array_head(2) + cbor::map_head(0) + cbor::map_head(0))
}

fn put_gen_delegs(enc: &mut Vec<u8>, delegs: &Vec<(Vec<u8>, Vec<u8>, Vec<u8>)>)
    ensures
        final(enc)@ == old(enc)@ + cbor::map_of(
            delegs@,
            |d: (Vec<u8>, Vec<u8>, Vec<u8>)| gen_deleg_item(d),
        ),
{
    put_map(enc, delegs.len() as u64);
    let ghost pre = enc@;
    let ghost f = |d: (Vec<u8>, Vec<u8>, Vec<u8>)| gen_deleg_item(d);
    let mut i: usize = 0;
    while i < delegs.len()
        invariant
            i <= delegs.len(),
            f == (|d: (Vec<u8>, Vec<u8>, Vec<u8>)| gen_deleg_item(d)),
            enc@ == pre + cbor::concat_map(delegs@.take(i as int), f),
        decreases delegs.len() - i,
    {
        proof {
            cbor::lemma_concat_map_step(delegs@, f, i as int);
        }
        let d = &delegs[i];
        put_bytes(enc, &d.0);
        put_array(enc, 2);
        put_bytes(enc, &d.1);
        put_bytes(enc, &d.2);
        i += 1;
    }
    assert(delegs@.take(delegs.len() as int) =~= delegs@);
}

/// Appends the genesis as an array of 15 fields.
pub(crate) fn put_genesis(enc: &mut Vec<u8>, gc: &GenesisConfigSnapshot)
    requires
        utctime::utctime_fits(gc.system_start@),
    ensures
        final(enc)@ == old(enc)@ + genesis_bytes(*gc),
{
    put_array(enc, 15);
    encode_system_start(enc, gc.system_start.as_str());
    put_u32(enc, gc.network_magic);
    put_u8(enc, gc.network_id);
    put_pair(enc, gc.active_slots_coeff_num, gc.active_slots_coeff_den);
    put_u64(enc, gc.security_param);
    put_u64(enc, gc.epoch_length);
    put_u64(enc, gc.slots_per_kes_period);
    put_u64(enc, gc.max_kes_evolutions);
    put_u64(enc, gc.slot_length_micros);
    put_u64(enc, gc.update_quorum);
    put_u64(enc, gc.max_lovelace_supply);
    encode_shelley_pparams(enc, &gc.protocol_params);
    put_gen_delegs(enc, &gc.gen_delegs);
    put_map(enc, 0);
    put_array(enc, 2);
    put_map(enc, 0);
    put_map(enc, 0);
}

// ---------------------------------------------------------------------------
// Era history
// ---------------------------------------------------------------------------

/// A bound as `[time, slot, epoch]`.
pub open spec fn bound_bytes(time_pico: u64, slot: u64, epoch: u64) -> Seq<u8> {
    cbor::array_head(3)
        + cbor::uint(time_pico as nat)
        + cbor::uint(slot as nat)
        + cbor::uint(epoch as nat)
}

/// The safe zone: none for the last era while it is unbounded, else a number of
/// slots.
pub open spec fn safe_zone_bytes(e: EraSummary, last: bool) -> Seq<u8> {
    if last && e.end is None {
        cbor::array_head(1) + cbor::uint(1)
    } else {
        cbor::array_head(3)
            + cbor::uint(0)
            + cbor::uint(e.safe_zone as nat)
            + (cbor::array_head(1) + cbor::uint(0))
    }
}

/// One era: start, end (`null` while it is unbounded) and parameters.
pub open spec fn era_item(e: EraSummary, last: bool) -> Seq<u8> {
    cbor::array_head(3)
        + bound_bytes(e.start_time_pico, e.start_slot, e.start_epoch)
        + cbor::nullable(e.end, |b: EraBound| bound_bytes(b.time_pico, b.slot, b.epoch))
        + (cbor::array_head(4)
            + cbor::uint(e.epoch_size as nat)
            + cbor::uint(e.slot_length_ms as nat)
            + safe_zone_bytes(e, last)
            + cbor::uint(e.genesis_window as nat))
}

/// The first `n` eras of a history.
pub open spec fn era_items(eras: Seq<EraSummary>, n: int) -> Seq<u8>
    decreases n,
{
    if n <= 0 {
        Seq::empty()
    } else {
        era_items(eras, n - 1) + era_item(eras[n - 1], n == eras.len())
    }
}

/// The eras, oldest first, in an array of indefinite length.
pub open spec fn era_history_bytes(eras: Seq<EraSummary>) -> Seq<u8> {
    cbor::indef_array_head() + era_items(eras, eras.len() as int) + cbor::break_item()
}

fn put_bound(enc: &mut Vec<u8>, time_pico: u64, slot: u64, epoch: u64)
    ensures
        final(enc)@ == old(enc)@ + bound_bytes(time_pico, slot, epoch),
{
    put_array(enc, 3);
    put_u64(enc, time_pico);
    put_u64(enc, slot);
    put_u64(enc, epoch);
}

fn put_era(enc: &mut Vec<u8>, e: &EraSummary, last: bool)
    ensures
        final(enc)@ == old(enc)@ + era_item(*e, last),
{
    put_array(enc, 3);
    put_bound(enc, e.start_time_pico, e.start_slot, e.start_epoch);
    match &e.end {
        Some(end) => put_bound(enc, end.time_pico, end.slot, end.epoch),
        None => put_null(enc),
    }
    put_array(enc, 4);
    put_u64(enc, e.epoch_size);
    put_u64(enc, e.slot_length_ms);
    if last && e.end.is_none() {
        put_array(enc, 1);
        put_u8(enc, 1);
    } else {
        put_array(enc, 3);
        put_u8(enc, 0);
        put_u64(enc, e.safe_zone);
        put_array(enc, 1);
        put_u8(enc, 0);
    }
    put_u64(enc, e.genesis_window);
}

/// Appends the eras in an array of indefinite length.
pub(crate) fn put_era_history(enc: &mut Vec<u8>, eras: &Vec<EraSummary>)
    ensures
        final(enc)@ == old(enc)@ + era_history_bytes(eras@),
{
    put_begin_array(enc);
    let ghost pre = enc@;
    let mut i: usize = 0;
    while i < eras.len()
        invariant
            i <= eras.len(),
            enc@ == pre + era_items(eras@, i as int),
        decreases eras.len() - i,
    {
        put_era(enc, &eras[i], i + 1 == eras.len());
        i += 1;
    }
    put_end(enc);
}

} // verus!
