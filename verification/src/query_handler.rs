//! Answers to ledger queries, as plain values.
//!
//! A query handler fills these from the ledger state; [`crate::n2c::state_query`]
//! turns them into wire bytes.
use vstd::prelude::*;

verus! {

/// Stake of one pool.
#[derive(Debug, Clone)]
pub struct StakePoolSnapshot {
    pub pool_id: Vec<u8>,
    pub stake: u64,
    pub vrf_keyhash: Vec<u8>,
    pub total_active_stake: u64,
}

/// Identifier of a governance action.
#[derive(Debug, Clone)]
pub struct GovActionId {
    pub tx_id: Vec<u8>,
    pub action_index: u32,
}

/// An active governance proposal with its votes.
///
/// A committee or DRep vote is (credential hash, credential type, vote), a pool
/// vote is (pool hash, vote).
#[derive(Debug, Clone)]
pub struct ProposalSnapshot {
    pub tx_id: Vec<u8>,
    pub action_index: u32,
    pub action_type: String,
    pub proposed_epoch: u64,
    pub expires_epoch: u64,
    pub yes_votes: u64,
    pub no_votes: u64,
    pub abstain_votes: u64,
    pub deposit: u64,
    pub return_addr: Vec<u8>,
    pub anchor_url: String,
    pub anchor_hash: Vec<u8>,
    pub committee_votes: Vec<(Vec<u8>, u8, u8)>,
    pub drep_votes: Vec<(Vec<u8>, u8, u8)>,
    pub spo_votes: Vec<(Vec<u8>, u8)>,
}

/// One member of the constitutional committee.
#[derive(Debug, Clone)]
pub struct CommitteeMemberSnapshot {
    pub cold_credential: Vec<u8>,
    pub cold_credential_type: u8,
    /// 0 = authorized, 1 = not authorized, anything else = resigned.
    pub hot_status: u8,
    pub hot_credential: Option<Vec<u8>>,
    /// 0 = active, 1 = expired, 2 = unrecognized.
    pub member_status: u8,
    pub expiry_epoch: Option<u64>,
}

/// The constitutional committee.
#[derive(Debug, Clone)]
pub struct CommitteeSnapshot {
    pub members: Vec<CommitteeMemberSnapshot>,
    pub threshold: Option<(u64, u64)>,
    pub current_epoch: u64,
}

impl Default for CommitteeSnapshot {
    /// No members, no threshold, epoch 0.
    fn default() -> (r: Self)
        ensures
            r.members@.len() == 0,
            r.threshold is None,
            r.current_epoch == 0,
    {
        CommitteeSnapshot { members: Vec::new(), threshold: None, current_epoch: 0 }
    }
}

/// Governance state.
#[derive(Debug, Clone)]
pub struct GovStateSnapshot {
    pub proposals: Vec<ProposalSnapshot>,
    pub committee: CommitteeSnapshot,
    pub constitution_url: String,
    pub constitution_hash: Vec<u8>,
    pub constitution_script: Option<Vec<u8>>,
    pub cur_pparams: Box<ProtocolParamsSnapshot>,
    pub prev_pparams: Box<ProtocolParamsSnapshot>,
    pub enacted_pparam_update: Option<(Vec<u8>, u32)>,
    pub enacted_hard_fork: Option<(Vec<u8>, u32)>,
    pub enacted_committee: Option<(Vec<u8>, u32)>,
    pub enacted_constitution: Option<(Vec<u8>, u32)>,
}

/// A registered DRep.
#[derive(Debug, Clone)]
pub struct DRepSnapshot {
    pub credential_hash: Vec<u8>,
    pub credential_type: u8,
    pub deposit: u64,
    pub anchor_url: Option<String>,
    pub anchor_hash: Option<Vec<u8>>,
    pub expiry_epoch: u64,
    pub delegator_hashes: Vec<Vec<u8>>,
}

/// An unspent output. Multi-asset values map policy ids to (asset name, quantity)
/// lists.
#[derive(Debug, Clone)]
pub struct UtxoSnapshot {
    pub tx_hash: Vec<u8>,
    pub output_index: u32,
    pub address_bytes: Vec<u8>,
    pub lovelace: u64,
    pub multi_asset: Vec<(Vec<u8>, Vec<(Vec<u8>, u64)>)>,
    pub datum_hash: Option<Vec<u8>>,
    /// The output as it stands in the ledger, if it is at hand.
    pub raw_cbor: Option<Vec<u8>>,
}

/// Delegation and rewards of one stake address.
#[derive(Debug, Clone)]
pub struct StakeAddressSnapshot {
    pub credential_hash: Vec<u8>,
    pub delegated_pool: Option<Vec<u8>>,
    pub reward_balance: u64,
}

/// Stake of one pool in the three snapshots.
#[derive(Debug, Clone)]
pub struct PoolStakeSnapshotEntry {
    pub pool_id: Vec<u8>,
    pub mark_stake: u64,
    pub set_stake: u64,
    pub go_stake: u64,
}

/// The mark, set and go snapshots.
#[derive(Debug, Clone)]
pub struct StakeSnapshotsResult {
    pub pools: Vec<PoolStakeSnapshotEntry>,
    pub total_mark_stake: u64,
    pub total_set_stake: u64,
    pub total_go_stake: u64,
}

/// A relay that a pool registered.
#[derive(Debug, Clone)]
pub enum RelaySnapshot {
    SingleHostAddr { port: Option<u16>, ipv4: Option<[u8; 4]>, ipv6: Option<[u8; 16]> },
    SingleHostName { port: Option<u16>, dns_name: String },
    MultiHostName { dns_name: String },
}

/// Registered parameters of one pool.
#[derive(Debug, Clone)]
pub struct PoolParamsSnapshot {
    pub pool_id: Vec<u8>,
    pub vrf_keyhash: Vec<u8>,
    pub pledge: u64,
    pub cost: u64,
    pub margin_num: u64,
    pub margin_den: u64,
    pub reward_account: Vec<u8>,
    pub owners: Vec<Vec<u8>>,
    pub relays: Vec<RelaySnapshot>,
    pub metadata_url: Option<String>,
    pub metadata_hash: Option<Vec<u8>>,
}

/// Protocol parameters of the Shelley genesis.
#[derive(Debug, Clone)]
pub struct ShelleyPParamsSnapshot {
    pub min_fee_a: u64,
    pub min_fee_b: u64,
    pub max_block_body_size: u32,
    pub max_tx_size: u32,
    pub max_block_header_size: u16,
    pub key_deposit: u64,
    pub pool_deposit: u64,
    pub e_max: u32,
    pub n_opt: u16,
    pub a0_num: u64,
    pub a0_den: u64,
    pub rho_num: u64,
    pub rho_den: u64,
    pub tau_num: u64,
    pub tau_den: u64,
    pub d_num: u64,
    pub d_den: u64,
    pub protocol_version_major: u64,
    pub protocol_version_minor: u64,
    pub min_utxo_value: u64,
    pub min_pool_cost: u64,
}

/// The Shelley genesis. A genesis delegation is (genesis hash, delegate hash, VRF
/// hash).
#[derive(Debug, Clone)]
pub struct GenesisConfigSnapshot {
    pub system_start: String,
    pub network_magic: u32,
    pub network_id: u8,
    pub active_slots_coeff_num: u64,
    pub active_slots_coeff_den: u64,
    pub security_param: u64,
    pub epoch_length: u64,
    pub slots_per_kes_period: u64,
    pub max_kes_evolutions: u64,
    pub slot_length_micros: u64,
    pub update_quorum: u64,
    pub max_lovelace_supply: u64,
    pub protocol_params: ShelleyPParamsSnapshot,
    pub gen_delegs: Vec<(Vec<u8>, Vec<u8>, Vec<u8>)>,
}

/// Rewards that each pool would pay a member with the given stake.
#[derive(Debug, Clone)]
pub struct NonMyopicRewardEntry {
    pub stake_amount: u64,
    pub pool_rewards: Vec<(Vec<u8>, u64)>,
}

/// Deposit of one stake credential.
#[derive(Debug, Clone)]
pub struct StakeDelegDepositEntry {
    pub credential_hash: Vec<u8>,
    pub credential_type: u8,
    pub deposit: u64,
}

/// Stake that votes through one DRep.
#[derive(Debug, Clone)]
pub struct DRepStakeEntry {
    pub drep_type: u8,
    pub drep_hash: Option<Vec<u8>>,
    pub stake: u64,
}

/// The DRep that a credential delegates its vote to.
#[derive(Debug, Clone)]
pub struct VoteDelegateeEntry {
    pub credential_hash: Vec<u8>,
    pub credential_type: u8,
    pub drep_type: u8,
    pub drep_hash: Option<Vec<u8>>,
}

/// A point at which an era ends.
#[derive(Debug, Clone, Copy)]
pub struct EraBound {
    pub time_pico: u64,
    pub slot: u64,
    pub epoch: u64,
}

/// Start, end and parameters of an era.
#[derive(Debug, Clone)]
pub struct EraSummary {
    pub start_slot: u64,
    pub start_epoch: u64,
    pub start_time_pico: u64,
    pub end: Option<EraBound>,
    pub slot_length_ms: u64,
    pub epoch_size: u64,
    pub safe_zone: u64,
    pub genesis_window: u64,
}

/// Reward details of one pool.
#[derive(Debug)]
pub struct PoolRewardInfo {
    pub pool_id: Vec<u8>,
    pub stake: u64,
    pub owner_stake: u64,
    pub pool_reward: u64,
    pub leader_reward: u64,
    pub member_reward: u64,
    pub margin: (u64, u64),
    pub cost: u64,
}

impl Clone for PoolRewardInfo {
    fn clone(&self) -> (r: Self)
        ensures
            r.pool_id@ == self.pool_id@,
            r.stake == self.stake,
            r.owner_stake == self.owner_stake,
            r.pool_reward == self.pool_reward,
            r.leader_reward == self.leader_reward,
            r.member_reward == self.member_reward,
            r.margin == self.margin,
            r.cost == self.cost,
    {
        let pool_id = self.pool_id.clone();
        assert(pool_id@ =~= self.pool_id@);
        PoolRewardInfo {
            pool_id,
            stake: self.stake,
            owner_stake: self.owner_stake,
            pool_reward: self.pool_reward,
            leader_reward: self.leader_reward,
            member_reward: self.member_reward,
            margin: self.margin,
            cost: self.cost,
        }
    }
}

/// A pool with its stake and relays.
#[derive(Debug, Clone)]
pub struct LedgerPeerEntry {
    pub pool_id: Vec<u8>,
    pub stake: u64,
    pub relays: Vec<RelaySnapshot>,
}

/// Default vote of one pool: 0 = no confidence, 1 = abstain, 2 = follows a DRep.
#[derive(Debug, Clone)]
pub struct PoolDefaultVoteEntry {
    pub pool_id: Vec<u8>,
    pub default_vote: u8,
}

/// Protocol parameters of the Conway era. Rationals are given as numerator and
/// denominator.
#[derive(Debug, Clone)]
pub struct ProtocolParamsSnapshot {
    pub min_fee_a: u64,
    pub min_fee_b: u64,
    pub max_block_body_size: u64,
    pub max_tx_size: u64,
    pub max_block_header_size: u64,
    pub key_deposit: u64,
    pub pool_deposit: u64,
    pub e_max: u64,
    pub n_opt: u64,
    pub a0_num: u64,
    pub a0_den: u64,
    pub rho_num: u64,
    pub rho_den: u64,
    pub tau_num: u64,
    pub tau_den: u64,
    pub min_pool_cost: u64,
    pub ada_per_utxo_byte: u64,
    pub cost_models_v1: Option<Vec<i64>>,
    pub cost_models_v2: Option<Vec<i64>>,
    pub cost_models_v3: Option<Vec<i64>>,
    pub execution_costs_mem_num: u64,
    pub execution_costs_mem_den: u64,
    pub execution_costs_step_num: u64,
    pub execution_costs_step_den: u64,
    pub max_tx_ex_mem: u64,
    pub max_tx_ex_steps: u64,
    pub max_block_ex_mem: u64,
    pub max_block_ex_steps: u64,
    pub max_val_size: u64,
    pub collateral_percentage: u64,
    pub max_collateral_inputs: u64,
    pub protocol_version_major: u64,
    pub protocol_version_minor: u64,
    pub min_fee_ref_script_cost_per_byte: u64,
    pub drep_deposit: u64,
    pub drep_activity: u64,
    pub gov_action_deposit: u64,
    pub gov_action_lifetime: u64,
    pub committee_min_size: u64,
    pub committee_max_term_length: u64,
    pub dvt_pp_network_group_num: u64,
    pub dvt_pp_network_group_den: u64,
    pub dvt_pp_economic_group_num: u64,
    pub dvt_pp_economic_group_den: u64,
    pub dvt_pp_technical_group_num: u64,
    pub dvt_pp_technical_group_den: u64,
    pub dvt_pp_gov_group_num: u64,
    pub dvt_pp_gov_group_den: u64,
    pub dvt_hard_fork_num: u64,
    pub dvt_hard_fork_den: u64,
    pub dvt_no_confidence_num: u64,
    pub dvt_no_confidence_den: u64,
    pub dvt_committee_normal_num: u64,
    pub dvt_committee_normal_den: u64,
    pub dvt_committee_no_confidence_num: u64,
    pub dvt_committee_no_confidence_den: u64,
    pub dvt_constitution_num: u64,
    pub dvt_constitution_den: u64,
    pub dvt_treasury_withdrawal_num: u64,
    pub dvt_treasury_withdrawal_den: u64,
    pub pvt_motion_no_confidence_num: u64,
    pub pvt_motion_no_confidence_den: u64,
    pub pvt_committee_normal_num: u64,
    pub pvt_committee_normal_den: u64,
    pub pvt_committee_no_confidence_num: u64,
    pub pvt_committee_no_confidence_den: u64,
    pub pvt_hard_fork_num: u64,
    pub pvt_hard_fork_den: u64,
    pub pvt_pp_security_group_num: u64,
    pub pvt_pp_security_group_den: u64,
}

/// Mainnet values, without cost models.
pub open spec fn default_params() -> ProtocolParamsSnapshot {
    ProtocolParamsSnapshot {
        min_fee_a: 44,
        min_fee_b: 155381,
        max_block_body_size: 90112,
        max_tx_size: 16384,
        max_block_header_size: 1100,
        key_deposit: 2_000_000,
        pool_deposit: 500_000_000,
        e_max: 18,
        n_opt: 500,
        a0_num: 3,
        a0_den: 10,
        rho_num: 3,
        rho_den: 1000,
        tau_num: 2,
        tau_den: 10,
        min_pool_cost: 170_000_000,
        ada_per_utxo_byte: 4310,
        cost_models_v1: None,
        cost_models_v2: None,
        cost_models_v3: None,
        execution_costs_mem_num: 577,
        execution_costs_mem_den: 10_000,
        execution_costs_step_num: 721,
        execution_costs_step_den: 10_000_000,
        max_tx_ex_mem: 14_000_000,
        max_tx_ex_steps: 10_000_000_000,
        max_block_ex_mem: 62_000_000,
        max_block_ex_steps: 40_000_000_000,
        max_val_size: 5000,
        collateral_percentage: 150,
        max_collateral_inputs: 3,
        protocol_version_major: 9,
        protocol_version_minor: 0,
        min_fee_ref_script_cost_per_byte: 15,
        drep_deposit: 500_000_000,
        drep_activity: 20,
        gov_action_deposit: 100_000_000_000,
        gov_action_lifetime: 6,
        committee_min_size: 7,
        committee_max_term_length: 146,
        dvt_pp_network_group_num: 67,
        dvt_pp_network_group_den: 100,
        dvt_pp_economic_group_num: 67,
        dvt_pp_economic_group_den: 100,
        dvt_pp_technical_group_num: 67,
        dvt_pp_technical_group_den: 100,
        dvt_pp_gov_group_num: 67,
        dvt_pp_gov_group_den: 100,
        dvt_hard_fork_num: 60,
        dvt_hard_fork_den: 100,
        dvt_no_confidence_num: 67,
        dvt_no_confidence_den: 100,
        dvt_committee_normal_num: 67,
        dvt_committee_normal_den: 100,
        dvt_committee_no_confidence_num: 60,
        dvt_committee_no_confidence_den: 100,
        dvt_constitution_num: 75,
        dvt_constitution_den: 100,
        dvt_treasury_withdrawal_num: 67,
        dvt_treasury_withdrawal_den: 100,
        pvt_motion_no_confidence_num: 51,
        pvt_motion_no_confidence_den: 100,
        pvt_committee_normal_num: 51,
        pvt_committee_normal_den: 100,
        pvt_committee_no_confidence_num: 51,
        pvt_committee_no_confidence_den: 100,
        pvt_hard_fork_num: 51,
        pvt_hard_fork_den: 100,
        pvt_pp_security_group_num: 51,
        pvt_pp_security_group_den: 100,
    }
}

impl Default for ProtocolParamsSnapshot {
    /// Mainnet values, without cost models.
    fn default() -> (r: Self)
        ensures
            r == default_params(),
    {
        ProtocolParamsSnapshot {
            min_fee_a: 44,
            min_fee_b: 155381,
            max_block_body_size: 90112,
            max_tx_size: 16384,
            max_block_header_size: 1100,
            key_deposit: 2_000_000,
            pool_deposit: 500_000_000,
            e_max: 18,
            n_opt: 500,
            a0_num: 3,
            a0_den: 10,
            rho_num: 3,
            rho_den: 1000,
            tau_num: 2,
            tau_den: 10,
            min_pool_cost: 170_000_000,
            ada_per_utxo_byte: 4310,
            cost_models_v1: None,
            cost_models_v2: None,
            cost_models_v3: None,
            execution_costs_mem_num: 577,
            execution_costs_mem_den: 10_000,
            execution_costs_step_num: 721,
            execution_costs_step_den: 10_000_000,
            max_tx_ex_mem: 14_000_000,
            max_tx_ex_steps: 10_000_000_000,
            max_block_ex_mem: 62_000_000,
            max_block_ex_steps: 40_000_000_000,
            max_val_size: 5000,
            collateral_percentage: 150,
            max_collateral_inputs: 3,
            protocol_version_major: 9,
            protocol_version_minor: 0,
            min_fee_ref_script_cost_per_byte: 15,
            drep_deposit: 500_000_000,
            drep_activity: 20,
            gov_action_deposit: 100_000_000_000,
            gov_action_lifetime: 6,
            committee_min_size: 7,
            committee_max_term_length: 146,
            dvt_pp_network_group_num: 67,
            dvt_pp_network_group_den: 100,
            dvt_pp_economic_group_num: 67,
            dvt_pp_economic_group_den: 100,
            dvt_pp_technical_group_num: 67,
            dvt_pp_technical_group_den: 100,
            dvt_pp_gov_group_num: 67,
            dvt_pp_gov_group_den: 100,
            dvt_hard_fork_num: 60,
            dvt_hard_fork_den: 100,
            dvt_no_confidence_num: 67,
            dvt_no_confidence_den: 100,
            dvt_committee_normal_num: 67,
            dvt_committee_normal_den: 100,
            dvt_committee_no_confidence_num: 60,
            dvt_committee_no_confidence_den: 100,
            dvt_constitution_num: 75,
            dvt_constitution_den: 100,
            dvt_treasury_withdrawal_num: 67,
            dvt_treasury_withdrawal_den: 100,
            pvt_motion_no_confidence_num: 51,
            pvt_motion_no_confidence_den: 100,
            pvt_committee_normal_num: 51,
            pvt_committee_normal_den: 100,
            pvt_committee_no_confidence_num: 51,
            pvt_committee_no_confidence_den: 100,
            pvt_hard_fork_num: 51,
            pvt_hard_fork_den: 100,
            pvt_pp_security_group_num: 51,
            pvt_pp_security_group_den: 100,
        }
    }
}

/// The answer to a query.
#[derive(Debug)]
pub enum QueryResult {
    EpochNo(u64),
    ChainTip { slot: u64, hash: Vec<u8>, block_no: u64 },
    CurrentEra(u32),
    SystemStart(String),
    ChainBlockNo(u64),
    ChainPoint { slot: u64, hash: Vec<u8> },
    ProtocolParams(Box<ProtocolParamsSnapshot>),
    StakeDistribution(Vec<StakePoolSnapshot>),
    GovState(Box<GovStateSnapshot>),
    DRepState(Vec<DRepSnapshot>),
    CommitteeState(CommitteeSnapshot),
    UtxoByAddress(Vec<UtxoSnapshot>),
    StakeAddressInfo(Vec<StakeAddressSnapshot>),
    StakeSnapshots(StakeSnapshotsResult),
    StakePools(Vec<Vec<u8>>),
    PoolParams(Vec<PoolParamsSnapshot>),
    PoolState {
        pool_params: Vec<PoolParamsSnapshot>,
        future_pool_params: Vec<PoolParamsSnapshot>,
        retiring: Vec<(Vec<u8>, u64)>,
        deposits: Vec<(Vec<u8>, u64)>,
    },
    AccountState { treasury: u64, reserves: u64 },
    GenesisConfig(Box<GenesisConfigSnapshot>),
    NonMyopicMemberRewards(Vec<NonMyopicRewardEntry>),
    ProposedPParamsUpdates,
    Constitution { url: String, data_hash: Vec<u8>, script_hash: Option<Vec<u8>> },
    PoolDistr(Vec<StakePoolSnapshot>),
    StakeDelegDeposits(Vec<StakeDelegDepositEntry>),
    DRepStakeDistr(Vec<DRepStakeEntry>),
    FilteredVoteDelegatees(Vec<VoteDelegateeEntry>),
    EraHistory(Vec<EraSummary>),
    /// A result to be handed out as an embedded CBOR byte string.
    WrappedCbor(Box<QueryResult>),
    DebugEpochState {
        epoch: u64,
        treasury: u64,
        reserves: u64,
        stake_pool_count: u64,
        utxo_count: u64,
        active_stake: u64,
        delegations: u64,
        rewards: u64,
    },
    DebugNewEpochState {
        epoch: u64,
        block_number: u64,
        slot: u64,
        protocol_major: u64,
        protocol_minor: u64,
    },
    DebugChainDepState {
        last_slot: u64,
        epoch_nonce: Vec<u8>,
        evolving_nonce: Vec<u8>,
        candidate_nonce: Vec<u8>,
        lab_nonce: Vec<u8>,
    },
    RewardProvenance { epoch: u64, total_rewards_pot: u64, treasury_tax: u64, active_stake: u64 },
    RewardInfoPools(Vec<PoolRewardInfo>),
    HardForkCurrentEra(u32),
    Proposals(Vec<ProposalSnapshot>),
    RatifyState {
        enacted: Vec<(ProposalSnapshot, GovActionId)>,
        expired: Vec<GovActionId>,
        delayed: bool,
    },
    NoFuturePParams,
    PoolDistr2 { pools: Vec<StakePoolSnapshot>, total_active_stake: u64 },
    MaxMajorProtocolVersion(u32),
    LedgerPeerSnapshot(Vec<LedgerPeerEntry>),
    StakePoolDefaultVote(Vec<PoolDefaultVoteEntry>),
    Error(String),
}

/// The values where none are given are those of mainnet.
pub proof fn lemma_default_params()
    ensures
        default_params() == (
    ProtocolParamsSnapshot {
        min_fee_a: 44,
        min_fee_b: 155381,
        max_block_body_size: 90112,
        max_tx_size: 16384,
        max_block_header_size: 1100,
        key_deposit: 2_000_000,
        pool_deposit: 500_000_000,
        e_max: 18,
        n_opt: 500,
        a0_num: 3,
        a0_den: 10,
        rho_num: 3,
        rho_den: 1000,
        tau_num: 2,
        tau_den: 10,
        min_pool_cost: 170_000_000,
        ada_per_utxo_byte: 4310,
        cost_models_v1: None,
        cost_models_v2: None,
        cost_models_v3: None,
        execution_costs_mem_num: 577,
        execution_costs_mem_den: 10_000,
        execution_costs_step_num: 721,
        execution_costs_step_den: 10_000_000,
        max_tx_ex_mem: 14_000_000,
        max_tx_ex_steps: 10_000_000_000,
        max_block_ex_mem: 62_000_000,
        max_block_ex_steps: 40_000_000_000,
        max_val_size: 5000,
        collateral_percentage: 150,
        max_collateral_inputs: 3,
        protocol_version_major: 9,
        protocol_version_minor: 0,
        min_fee_ref_script_cost_per_byte: 15,
        drep_deposit: 500_000_000,
        drep_activity: 20,
        gov_action_deposit: 100_000_000_000,
        gov_action_lifetime: 6,
        committee_min_size: 7,
        committee_max_term_length: 146,
        dvt_pp_network_group_num: 67,
        dvt_pp_network_group_den: 100,
        dvt_pp_economic_group_num: 67,
        dvt_pp_economic_group_den: 100,
        dvt_pp_technical_group_num: 67,
        dvt_pp_technical_group_den: 100,
        dvt_pp_gov_group_num: 67,
        dvt_pp_gov_group_den: 100,
        dvt_hard_fork_num: 60,
        dvt_hard_fork_den: 100,
        dvt_no_confidence_num: 67,
        dvt_no_confidence_den: 100,
        dvt_committee_normal_num: 67,
        dvt_committee_normal_den: 100,
        dvt_committee_no_confidence_num: 60,
        dvt_committee_no_confidence_den: 100,
        dvt_constitution_num: 75,
        dvt_constitution_den: 100,
        dvt_treasury_withdrawal_num: 67,
        dvt_treasury_withdrawal_den: 100,
        pvt_motion_no_confidence_num: 51,
        pvt_motion_no_confidence_den: 100,
        pvt_committee_normal_num: 51,
        pvt_committee_normal_den: 100,
        pvt_committee_no_confidence_num: 51,
        pvt_committee_no_confidence_den: 100,
        pvt_hard_fork_num: 51,
        pvt_hard_fork_den: 100,
        pvt_pp_security_group_num: 51,
        pvt_pp_security_group_den: 100,
    }
        ),
{
}

} // verus!
