//! Answers to ledger queries, as the plain server gives them.
use vstd::prelude::*;

verus! {

/// Stake and parameters of one pool.
#[derive(Debug, Clone)]
pub struct StakePoolSnapshot {
    pub pool_id: Vec<u8>,
    pub stake: u64,
    pub pledge: u64,
    pub cost: u64,
    pub margin_num: u64,
    pub margin_den: u64,
}

/// A governance proposal with the numbers of its votes.
#[derive(Debug, Clone)]
pub struct ProposalSnapshot {
    pub tx_id: Vec<u8>,
    pub action_index: u32,
    pub action_type: String,
    pub proposed_epoch: u64,
    pub expires_epoch: u64,
    pub yes_votes: u64,
    pub no_votes: u64,
    pub abstain_votes: u64,
}

/// Governance in numbers.
#[derive(Debug, Clone)]
pub struct GovStateSnapshot {
    pub proposals: Vec<ProposalSnapshot>,
    pub drep_count: usize,
    pub committee_member_count: usize,
    pub treasury: u64,
}

/// A registered DRep.
#[derive(Debug, Clone)]
pub struct DRepSnapshot {
    pub credential_hash: Vec<u8>,
    pub deposit: u64,
    pub anchor_url: Option<String>,
    pub registered_epoch: u64,
}

/// One member of the constitutional committee.
#[derive(Debug, Clone)]
pub struct CommitteeMemberSnapshot {
    pub cold_credential: Vec<u8>,
    pub hot_credential: Vec<u8>,
}

/// The constitutional committee.
#[derive(Debug, Clone)]
pub struct CommitteeSnapshot {
    pub members: Vec<CommitteeMemberSnapshot>,
    pub resigned: Vec<Vec<u8>>,
}

/// An unspent output.
#[derive(Debug, Clone)]
pub struct UtxoSnapshot {
    pub tx_hash: Vec<u8>,
    pub output_index: u32,
    pub address: String,
    pub lovelace: u64,
    pub has_datum: bool,
}

/// Delegation and rewards of one stake address.
#[derive(Debug, Clone)]
pub struct StakeAddressSnapshot {
    pub credential_hash: Vec<u8>,
    pub delegated_pool: Option<Vec<u8>>,
    pub reward_balance: u64,
}

/// Stake of one pool in the three snapshots.
#[derive(Debug, Clone)]
pub struct PoolStakeSnapshotEntry {
    pub pool_id: Vec<u8>,
    pub mark_stake: u64,
    pub set_stake: u64,
    pub go_stake: u64,
}

/// The mark, set and go snapshots.
#[derive(Debug, Clone)]
pub struct StakeSnapshotsResult {
    pub pools: Vec<PoolStakeSnapshotEntry>,
    pub total_mark_stake: u64,
    pub total_set_stake: u64,
    pub total_go_stake: u64,
}

/// Registered parameters of one pool.
#[derive(Debug, Clone)]
pub struct PoolParamsSnapshot {
    pub pool_id: Vec<u8>,
    pub vrf_keyhash: Vec<u8>,
    pub pledge: u64,
    pub cost: u64,
    pub margin_num: u64,
    pub margin_den: u64,
    pub relays: Vec<String>,
}

/// Protocol parameters. Rationals are given as numerator and denominator.
#[derive(Debug, Clone)]
pub struct ProtocolParamsSnapshot {
    pub min_fee_a: u64,
    pub min_fee_b: u64,
    pub max_block_body_size: u64,
    pub max_tx_size: u64,
    pub max_block_header_size: u64,
    pub key_deposit: u64,
    pub pool_deposit: u64,
    pub e_max: u64,
    pub n_opt: u64,
    pub a0_num: u64,
    pub a0_den: u64,
    pub rho_num: u64,
    pub rho_den: u64,
    pub tau_num: u64,
    pub tau_den: u64,
    pub min_pool_cost: u64,
    pub ada_per_utxo_byte: u64,
    pub cost_models_v1: Option<Vec<i64>>,
    pub cost_models_v2: Option<Vec<i64>>,
    pub cost_models_v3: Option<Vec<i64>>,
    pub execution_costs_mem_num: u64,
    pub execution_costs_mem_den: u64,
    pub execution_costs_step_num: u64,
    pub execution_costs_step_den: u64,
    pub max_tx_ex_mem: u64,
    pub max_tx_ex_steps: u64,
    pub max_block_ex_mem: u64,
    pub max_block_ex_steps: u64,
    pub max_val_size: u64,
    pub collateral_percentage: u64,
    pub max_collateral_inputs: u64,
    pub protocol_version_major: u64,
    pub protocol_version_minor: u64,
    pub pvt_committee_num: u64,
    pub pvt_committee_den: u64,
    pub pvt_hard_fork_num: u64,
    pub pvt_hard_fork_den: u64,
    pub dvt_no_confidence_num: u64,
    pub dvt_no_confidence_den: u64,
    pub dvt_committee_normal_num: u64,
    pub dvt_committee_normal_den: u64,
    pub dvt_committee_no_confidence_num: u64,
    pub dvt_committee_no_confidence_den: u64,
    pub dvt_constitution_num: u64,
    pub dvt_constitution_den: u64,
    pub dvt_hard_fork_num: u64,
    pub dvt_hard_fork_den: u64,
    pub dvt_p_param_change_num: u64,
    pub dvt_p_param_change_den: u64,
    pub dvt_treasury_withdrawal_num: u64,
    pub dvt_treasury_withdrawal_den: u64,
    pub committee_min_size: u64,
    pub committee_max_term_length: u64,
    pub gov_action_lifetime: u64,
    pub gov_action_deposit: u64,
    pub drep_deposit: u64,
    pub drep_activity: u64,
    pub min_fee_ref_script_cost_per_byte: u64,
}

/// Mainnet values, without cost models.
pub open spec fn default_params() -> ProtocolParamsSnapshot {
    ProtocolParamsSnapshot {
        min_fee_a: 44,
        min_fee_b: 155381,
        max_block_body_size: 90112,
        max_tx_size: 16384,
        max_block_header_size: 1100,
        key_deposit: 2_000_000,
        pool_deposit: 500_000_000,
        e_max: 18,
        n_opt: 500,
        a0_num: 3,
        a0_den: 10,
        rho_num: 3,
        rho_den: 1000,
        tau_num: 2,
        tau_den: 10,
        min_pool_cost: 170_000_000,
        ada_per_utxo_byte: 4310,
        cost_models_v1: None,
        cost_models_v2: None,
        cost_models_v3: None,
        execution_costs_mem_num: 577,
        execution_costs_mem_den: 10_000,
        execution_costs_step_num: 721,
        execution_costs_step_den: 10_000_000,
        max_tx_ex_mem: 14_000_000,
        max_tx_ex_steps: 10_000_000_000,
        max_block_ex_mem: 62_000_000,
        max_block_ex_steps: 40_000_000_000,
        max_val_size: 5000,
        collateral_percentage: 150,
        max_collateral_inputs: 3,
        protocol_version_major: 9,
        protocol_version_minor: 0,
        pvt_committee_num: 51,
        pvt_committee_den: 100,
        pvt_hard_fork_num: 51,
        pvt_hard_fork_den: 100,
        dvt_no_confidence_num: 67,
        dvt_no_confidence_den: 100,
        dvt_committee_normal_num: 67,
        dvt_committee_normal_den: 100,
        dvt_committee_no_confidence_num: 60,
        dvt_committee_no_confidence_den: 100,
        dvt_constitution_num: 75,
        dvt_constitution_den: 100,
        dvt_hard_fork_num: 60,
        dvt_hard_fork_den: 100,
        dvt_p_param_change_num: 67,
        dvt_p_param_change_den: 100,
        dvt_treasury_withdrawal_num: 67,
        dvt_treasury_withdrawal_den: 100,
        committee_min_size: 7,
        committee_max_term_length: 146,
        gov_action_lifetime: 6,
        gov_action_deposit: 100_000_000_000,
        drep_deposit: 500_000_000,
        drep_activity: 20,
        min_fee_ref_script_cost_per_byte: 15,
    }
}

impl Default for ProtocolParamsSnapshot {
    fn default() -> (r: ProtocolParamsSnapshot)
        ensures
            r == default_params(),
    {
        ProtocolParamsSnapshot {
            min_fee_a: 44,
            min_fee_b: 155381,
            max_block_body_size: 90112,
            max_tx_size: 16384,
            max_block_header_size: 1100,
            key_deposit: 2_000_000,
            pool_deposit: 500_000_000,
            e_max: 18,
            n_opt: 500,
            a0_num: 3,
            a0_den: 10,
            rho_num: 3,
            rho_den: 1000,
            tau_num: 2,
            tau_den: 10,
            min_pool_cost: 170_000_000,
            ada_per_utxo_byte: 4310,
            cost_models_v1: None,
            cost_models_v2: None,
            cost_models_v3: None,
            execution_costs_mem_num: 577,
            execution_costs_mem_den: 10_000,
            execution_costs_step_num: 721,
            execution_costs_step_den: 10_000_000,
            max_tx_ex_mem: 14_000_000,
            max_tx_ex_steps: 10_000_000_000,
            max_block_ex_mem: 62_000_000,
            max_block_ex_steps: 40_000_000_000,
            max_val_size: 5000,
            collateral_percentage: 150,
            max_collateral_inputs: 3,
            protocol_version_major: 9,
            protocol_version_minor: 0,
            pvt_committee_num: 51,
            pvt_committee_den: 100,
            pvt_hard_fork_num: 51,
            pvt_hard_fork_den: 100,
            dvt_no_confidence_num: 67,
            dvt_no_confidence_den: 100,
            dvt_committee_normal_num: 67,
            dvt_committee_normal_den: 100,
            dvt_committee_no_confidence_num: 60,
            dvt_committee_no_confidence_den: 100,
            dvt_constitution_num: 75,
            dvt_constitution_den: 100,
            dvt_hard_fork_num: 60,
            dvt_hard_fork_den: 100,
            dvt_p_param_change_num: 67,
            dvt_p_param_change_den: 100,
            dvt_treasury_withdrawal_num: 67,
            dvt_treasury_withdrawal_den: 100,
            committee_min_size: 7,
            committee_max_term_length: 146,
            gov_action_lifetime: 6,
            gov_action_deposit: 100_000_000_000,
            drep_deposit: 500_000_000,
            drep_activity: 20,
            min_fee_ref_script_cost_per_byte: 15,
        }
    }
}

/// An answer to a query.
#[derive(Debug)]
pub enum QueryResult {
    EpochNo(u64),
    ChainTip { slot: u64, hash: Vec<u8>, block_no: u64 },
    CurrentEra(u32),
    SystemStart(String),
    ChainBlockNo(u64),
    ProtocolParams(Box<ProtocolParamsSnapshot>),
    StakeDistribution(Vec<StakePoolSnapshot>),
    GovState(GovStateSnapshot),
    DRepState(Vec<DRepSnapshot>),
    CommitteeState(CommitteeSnapshot),
    UtxoByAddress(Vec<UtxoSnapshot>),
    StakeAddressInfo(Vec<StakeAddressSnapshot>),
    StakeSnapshots(StakeSnapshotsResult),
    PoolParams(Vec<PoolParamsSnapshot>),
    Error(String),
}

/// The values where none are given are those of mainnet.
pub proof fn lemma_default_params()
    ensures
        default_params() == (
    ProtocolParamsSnapshot {
        min_fee_a: 44,
        min_fee_b: 155381,
        max_block_body_size: 90112,
        max_tx_size: 16384,
        max_block_header_size: 1100,
        key_deposit: 2_000_000,
        pool_deposit: 500_000_000,
        e_max: 18,
        n_opt: 500,
        a0_num: 3,
        a0_den: 10,
        rho_num: 3,
        rho_den: 1000,
        tau_num: 2,
        tau_den: 10,
        min_pool_cost: 170_000_000,
        ada_per_utxo_byte: 4310,
        cost_models_v1: None,
        cost_models_v2: None,
        cost_models_v3: None,
        execution_costs_mem_num: 577,
        execution_costs_mem_den: 10_000,
        execution_costs_step_num: 721,
        execution_costs_step_den: 10_000_000,
        max_tx_ex_mem: 14_000_000,
        max_tx_ex_steps: 10_000_000_000,
        max_block_ex_mem: 62_000_000,
        max_block_ex_steps: 40_000_000_000,
        max_val_size: 5000,
        collateral_percentage: 150,
        max_collateral_inputs: 3,
        protocol_version_major: 9,
        protocol_version_minor: 0,
        pvt_committee_num: 51,
        pvt_committee_den: 100,
        pvt_hard_fork_num: 51,
        pvt_hard_fork_den: 100,
        dvt_no_confidence_num: 67,
        dvt_no_confidence_den: 100,
        dvt_committee_normal_num: 67,
        dvt_committee_normal_den: 100,
        dvt_committee_no_confidence_num: 60,
        dvt_committee_no_confidence_den: 100,
        dvt_constitution_num: 75,
        dvt_constitution_den: 100,
        dvt_hard_fork_num: 60,
        dvt_hard_fork_den: 100,
        dvt_p_param_change_num: 67,
        dvt_p_param_change_den: 100,
        dvt_treasury_withdrawal_num: 67,
        dvt_treasury_withdrawal_den: 100,
        committee_min_size: 7,
        committee_max_term_length: 146,
        gov_action_lifetime: 6,
        gov_action_deposit: 100_000_000_000,
        drep_deposit: 500_000_000,
        drep_activity: 20,
        min_fee_ref_script_cost_per_byte: 15,
    }
        ),
{
}

} // verus!
