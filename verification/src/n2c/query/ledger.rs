//! Outputs, stake and pools.
use crate::cbor;
use crate::cbor::{
    put_array, put_begin_array, put_bytes, put_end, put_i64, put_map, put_null, put_raw, put_str,
    put_tag, put_u16, put_u32, put_u64, put_u8,
};
use crate::n2c::query::protocol;
use crate::n2c::query::protocol::{encode_tagged_rational, put_pair};
use crate::order;
use crate::order::sort_bytes;
use crate::query_handler::{
    DRepStakeEntry, LedgerPeerEntry, NonMyopicRewardEntry, PoolDefaultVoteEntry,
    PoolParamsSnapshot, PoolRewardInfo, PoolStakeSnapshotEntry, RelaySnapshot,
    StakeAddressSnapshot, StakeDelegDepositEntry, StakePoolSnapshot, StakeSnapshotsResult,
    UtxoSnapshot, VoteDelegateeEntry,
};
use vstd::prelude::*;

verus! {

// ---------------------------------------------------------------------------
// Outputs
// ---------------------------------------------------------------------------

/// A byte string with an amount.
pub open spec fn amount_item(a: (Vec<u8>, u64)) -> Seq<u8> {
    cbor::bytes_item(a.0@) + cbor::uint(a.1 as nat)
}

/// Amounts by name.
pub open spec fn amounts(v: Seq<(Vec<u8>, u64)>) -> Seq<u8> {
    cbor::map_of(v, |x: (Vec<u8>, u64)| amount_item(x))
}

/// A policy with its assets.
pub open spec fn policy_item(p: (Vec<u8>, Vec<(Vec<u8>, u64)>)) -> Seq<u8> {
    cbor::bytes_item(p.0@) + amounts(p.1@)
}

/// The value of an output: the coin alone, or the coin with the assets by policy.
pub open spec fn value_bytes(u: UtxoSnapshot) -> Seq<u8> {
    if u.multi_asset@.len() == 0 {
        cbor::uint(u.lovelace as nat)
    } else {
        cbor::array_head(2)
            + cbor::uint(u.lovelace as nat)
            + cbor::map_of(u.multi_asset@, |x: (Vec<u8>, Vec<(Vec<u8>, u64)>)| policy_item(x))
    }
}

/// An output as a map: 0 is the address, 1 the value, 2 the datum hash if any.
pub open spec fn output_bytes(u: UtxoSnapshot) -> Seq<u8> {
    cbor::map_head(if u.datum_hash is Some { 3 } else { 2 })
        + (cbor::uint(0) + cbor::bytes_item(u.address_bytes@))
        + (cbor::uint(1) + value_bytes(u))
        + match u.datum_hash {
            Some(h) => cbor::uint(2) + (cbor::array_head(2) + cbor::uint(0) + cbor::bytes_item(h@)),
            None => Seq::empty(),
        }
}

/// One entry of a map of outputs: `[tx hash, index]`, then the output, as the ledger
/// holds it where that is at hand.
pub open spec fn utxo_item(u: UtxoSnapshot) -> Seq<u8> {
    (cbor::array_head(2) + cbor::bytes_item(u.tx_hash@) + cbor::uint(u.output_index as nat))
        + match u.raw_cbor {
            Some(raw) => raw@,
            None => output_bytes(u),
        }
}

fn put_amount_item(enc: &mut Vec<u8>, x: &(Vec<u8>, u64))
    ensures
        final(enc)@ == old(enc)@ + amount_item(*x),
{
    broadcast use {crate::cbor::lemma_append_assoc, crate::cbor::lemma_append_empty};

    put_bytes(enc, &x.0);
    put_u64(enc, x.1);
}

/// Appends amounts by name.
pub(crate) fn put_amounts(enc: &mut Vec<u8>, v: &Vec<(Vec<u8>, u64)>)
    ensures
        final(enc)@ == old(enc)@ + cbor::map_of(v@, |x: (Vec<u8>, u64)| amount_item(x)),
{
    put_map(enc, v.len() as u64);
    let ghost pre = enc@;
    let ghost f = |x: (Vec<u8>, u64)| amount_item(x);
    let mut i: usize = 0;
    assert(enc@ =~= pre + cbor::concat_map(v@.take(0), f));
    while i < v.len()
        invariant
            i <= v.len(),
            f == (|x: (Vec<u8>, u64)| amount_item(x)),
            enc@ == pre + cbor::concat_map(v@.take(i as int), f),
        decreases v.len() - i,
    {
        proof {
            cbor::lemma_concat_map_step(v@, f, i as int);
            cbor::lemma_append_assoc(pre, cbor::concat_map(v@.take(i as int), f), f(v@[i as int]));
        }
        put_amount_item(enc, &v[i]);
        i += 1;
    }
    proof {
        assert(v@.take(v.len() as int) =~= v@);
        cbor::lemma_append_assoc(
            old(enc)@,
            cbor::map_head(v@.len()),
            cbor::concat_map(v@, f),
        );
    }
}

fn put_policy_item(enc: &mut Vec<u8>, x: &(Vec<u8>, Vec<(Vec<u8>, u64)>))
    ensures
        final(enc)@ == old(enc)@ + policy_item(*x),
{
    broadcast use {crate::cbor::lemma_append_assoc, crate::cbor::lemma_append_empty};

    put_bytes(enc, &x.0);
    put_amounts(enc, &x.1);
}

fn put_policies(enc: &mut Vec<u8>, v: &Vec<(Vec<u8>, Vec<(Vec<u8>, u64)>)>)
    ensures
        final(enc)@ == old(enc)@ + cbor::map_of(v@, |x: (Vec<u8>, Vec<(Vec<u8>, u64)>)| policy_item(x)),
{
    put_map(enc, v.len() as u64);
    let ghost pre = enc@;
    let ghost f = |x: (Vec<u8>, Vec<(Vec<u8>, u64)>)| policy_item(x);
    let mut i: usize = 0;
    assert(enc@ =~= pre + cbor::concat_map(v@.take(0), f));
    while i < v.len()
        invariant
            i <= v.len(),
            f == (|x: (Vec<u8>, Vec<(Vec<u8>, u64)>)| policy_item(x)),
            enc@ == pre + cbor::concat_map(v@.take(i as int), f),
        decreases v.len() - i,
    {
        proof {
            cbor::lemma_concat_map_step(v@, f, i as int);
            cbor::lemma_append_assoc(pre, cbor::concat_map(v@.take(i as int), f), f(v@[i as int]));
        }
        put_policy_item(enc, &v[i]);
        i += 1;
    }
    proof {
        assert(v@.take(v.len() as int) =~= v@);
        cbor::lemma_append_assoc(
            old(enc)@,
            cbor::map_head(v@.len()),
            cbor::concat_map(v@, f),
        );
    }
}

/// Appends an output as a map with integer keys.
pub fn encode_utxo_output(enc: &mut Vec<u8>, utxo: &UtxoSnapshot)
    ensures
        final(enc)@ == old(enc)@ + output_bytes(*utxo),
{
    broadcast use {crate::cbor::lemma_append_assoc, crate::cbor::lemma_append_empty};

    let field_count: u64 = if utxo.datum_hash.is_some() {
        3
    } else {
        2
    };
    put_map(enc, field_count);
    put_u32(enc, 0);
    put_bytes(enc, &utxo.address_bytes);
    put_u32(enc, 1);
    if utxo.multi_asset.is_empty() {
        put_u64(enc, utxo.lovelace);
    } else {
        put_array(enc, 2);
        put_u64(enc, utxo.lovelace);
        put_policies(enc, &utxo.multi_asset);
    }
    if let Some(datum_hash) = &utxo.datum_hash {
        put_u32(enc, 2);
        put_array(enc, 2);
        put_u32(enc, 0);
        put_bytes(enc, datum_hash);
    }
}

fn put_utxo(enc: &mut Vec<u8>, x: &UtxoSnapshot)
    ensures
        final(enc)@ == old(enc)@ + utxo_item(*x),
{
    broadcast use {crate::cbor::lemma_append_assoc, crate::cbor::lemma_append_empty};

    put_array(enc, 2);
    put_bytes(enc, &x.tx_hash);
    put_u32(enc, x.output_index);
    match &x.raw_cbor {
        Some(raw) => put_raw(enc, raw),
        None => encode_utxo_output(enc, x),
    }
}

/// Appends the map from transaction inputs to outputs.
pub(crate) fn put_utxos(enc: &mut Vec<u8>, v: &Vec<UtxoSnapshot>)
    ensures
        final(enc)@ == old(enc)@ + cbor::map_of(v@, |x: UtxoSnapshot| utxo_item(x)),
{
    put_map(enc, v.len() as u64);
    let ghost pre = enc@;
    let ghost f = |x: UtxoSnapshot| utxo_item(x);
    let mut i: usize = 0;
    assert(enc@ =~= pre + cbor::concat_map(v@.take(0), f));
    while i < v.len()
        invariant
            i <= v.len(),
            f == (|x: UtxoSnapshot| utxo_item(x)),
            enc@ == pre + cbor::concat_map(v@.take(i as int), f),
        decreases v.len() - i,
    {
        proof {
            cbor::lemma_concat_map_step(v@, f, i as int);
            cbor::lemma_append_assoc(pre, cbor::concat_map(v@.take(i as int), f), f(v@[i as int]));
        }
        put_utxo(enc, &v[i]);
        i += 1;
    }
    proof {
        assert(v@.take(v.len() as int) =~= v@);
        cbor::lemma_append_assoc(
            old(enc)@,
            cbor::map_head(v@.len()),
            cbor::concat_map(v@, f),
        );
    }
}

// ---------------------------------------------------------------------------
// Stake
// ---------------------------------------------------------------------------

/// The number itself, or 1 in place of 0.
pub open spec fn at_least_one(n: u64) -> u64 {
    if n < 1 {
        1
    } else {
        n
    }
}

fn max_one(n: u64) -> (r: u64)
    ensures
        r == at_least_one(n),
{
    if n < 1 {
        1
    } else {
        n
    }
}

/// One pool with its share of the active stake, as a fraction, and its VRF key.
pub open spec fn pool_stake_item(p: StakePoolSnapshot) -> Seq<u8> {
    cbor::bytes_item(p.pool_id@)
        + (cbor::array_head(2)
            + protocol::rational(p.stake, at_least_one(p.total_active_stake))
            + cbor::bytes_item(p.vrf_keyhash@))
}

/// One pool with its share of `total`, its stake and its VRF key.
pub open spec fn pool_stake2_item(p: StakePoolSnapshot, total: u64) -> Seq<u8> {
    cbor::bytes_item(p.pool_id@)
        + (cbor::array_head(3)
            + (if total > 0 { protocol::rational(p.stake, total) } else { protocol::rational(0, 1) })
            + cbor::uint(p.stake as nat)
            + cbor::bytes_item(p.vrf_keyhash@))
}

/// A key hash credential.
pub open spec fn key_credential(hash: Seq<u8>) -> Seq<u8> {
    cbor::array_head(2) + cbor::uint(0) + cbor::bytes_item(hash)
}

/// A credential: its type and hash.
pub open spec fn credential(kind: u8, hash: Seq<u8>) -> Seq<u8> {
    cbor::array_head(2) + cbor::uint(kind as nat) + cbor::bytes_item(hash)
}

/// The pool that an address delegates to.
pub open spec fn delegation_item(a: StakeAddressSnapshot) -> Seq<u8> {
    key_credential(a.credential_hash@) + match a.delegated_pool {
        Some(pool) => cbor::bytes_item(pool@),
        None => cbor::bytes_item(Seq::empty()),
    }
}

/// The rewards of an address.
pub open spec fn reward_item(a: StakeAddressSnapshot) -> Seq<u8> {
    key_credential(a.credential_hash@) + cbor::uint(a.reward_balance as nat)
}

/// The addresses that delegate, in their order.
pub open spec fn delegating(addrs: Seq<StakeAddressSnapshot>) -> Seq<StakeAddressSnapshot> {
    addrs.filter(|a: StakeAddressSnapshot| a.delegated_pool is Some)
}

/// `[delegations, rewards]`, both by credential.
pub open spec fn stake_address_info(addrs: Seq<StakeAddressSnapshot>) -> Seq<u8> {
    cbor::array_head(2)
        + cbor::map_of(delegating(addrs), |x: StakeAddressSnapshot| delegation_item(x))
        + cbor::map_of(addrs, |x: StakeAddressSnapshot| reward_item(x))
}

/// The stake of a pool in the three snapshots.
pub open spec fn snapshot_item(p: PoolStakeSnapshotEntry) -> Seq<u8> {
    cbor::bytes_item(p.pool_id@)
        + (cbor::array_head(3)
            + cbor::uint(p.mark_stake as nat)
            + cbor::uint(p.set_stake as nat)
            + cbor::uint(p.go_stake as nat))
}

/// `[stake by pool, mark total, set total, go total]`; a total is at least 1.
pub open spec fn stake_snapshots_bytes(s: StakeSnapshotsResult) -> Seq<u8> {
    cbor::array_head(4)
        + cbor::map_of(s.pools@, |x: PoolStakeSnapshotEntry| snapshot_item(x))
        + cbor::uint(at_least_one(s.total_mark_stake) as nat)
        + cbor::uint(at_least_one(s.total_set_stake) as nat)
        + cbor::uint(at_least_one(s.total_go_stake) as nat)
}

/// What each pool would pay on a stake.
pub open spec fn non_myopic_item(e: NonMyopicRewardEntry) -> Seq<u8> {
    cbor::uint(e.stake_amount as nat) + amounts(e.pool_rewards@)
}

/// The deposit of a credential.
pub open spec fn deposit_item(e: StakeDelegDepositEntry) -> Seq<u8> {
    credential(e.credential_type, e.credential_hash@) + cbor::uint(e.deposit as nat)
}

/// A DRep: types 0 and 1 are credentials, any other type stands alone. Where the hash of a
/// credential is not known, its place in the array stays empty.
pub open spec fn drep_bytes(kind: u8, hash: Option<Vec<u8>>) -> Seq<u8> {
    if kind <= 1 {
        cbor::array_head(2) + cbor::uint(kind as nat) + match hash {
            Some(h) => cbor::bytes_item(h@),
            None => Seq::empty(),
        }
    } else {
        cbor::array_head(1) + cbor::uint(kind as nat)
    }
}

/// The stake behind a DRep.
pub open spec fn drep_stake_item(e: DRepStakeEntry) -> Seq<u8> {
    drep_bytes(e.drep_type, e.drep_hash) + cbor::uint(e.stake as nat)
}

/// The DRep behind a credential.
pub open spec fn vote_delegatee_item(e: VoteDelegateeEntry) -> Seq<u8> {
    credential(e.credential_type, e.credential_hash@) + drep_bytes(e.drep_type, e.drep_hash)
}

/// The reward details of a pool.
pub open spec fn reward_info_item(p: PoolRewardInfo) -> Seq<u8> {
    cbor::bytes_item(p.pool_id@)
        + (cbor::array_head(7)
            + cbor::uint(p.stake as nat)
            + cbor::uint(p.owner_stake as nat)
            + cbor::uint(p.pool_reward as nat)
            + cbor::uint(p.leader_reward as nat)
            + cbor::uint(p.member_reward as nat)
            + protocol::rational(p.margin.0, p.margin.1)
            + cbor::uint(p.cost as nat))
}

/// The default vote of a pool.
pub open spec fn default_vote_item(e: PoolDefaultVoteEntry) -> Seq<u8> {
    cbor::bytes_item(e.pool_id@) + (cbor::array_head(1) + cbor::uint(e.default_vote as nat))
}

fn put_pool_stake_item(enc: &mut Vec<u8>, x: &StakePoolSnapshot)
    ensures
        final(enc)@ == old(enc)@ + pool_stake_item(*x),
{
    broadcast use {crate::cbor::lemma_append_assoc, crate::cbor::lemma_append_empty};

    put_bytes(enc, &x.pool_id);
    put_array(enc, 2);
    encode_tagged_rational(enc, x.stake, max_one(x.total_active_stake));
    put_bytes(enc, &x.vrf_keyhash);
}

/// Appends the stake distribution by pool.
pub(crate) fn put_pool_stakes(enc: &mut Vec<u8>, v: &Vec<StakePoolSnapshot>)
    ensures
        final(enc)@ == old(enc)@ + cbor::map_of(v@, |x: StakePoolSnapshot| pool_stake_item(x)),
{
    put_map(enc, v.len() as u64);
    let ghost pre = enc@;
    let ghost f = |x: StakePoolSnapshot| pool_stake_item(x);
    let mut i: usize = 0;
    assert(enc@ =~= pre + cbor::concat_map(v@.take(0), f));
    while i < v.len()
        invariant
            i <= v.len(),
            f == (|x: StakePoolSnapshot| pool_stake_item(x)),
            enc@ == pre + cbor::concat_map(v@.take(i as int), f),
        decreases v.len() - i,
    {
        proof {
            cbor::lemma_concat_map_step(v@, f, i as int);
            cbor::lemma_append_assoc(pre, cbor::concat_map(v@.take(i as int), f), f(v@[i as int]));
        }
        put_pool_stake_item(enc, &v[i]);
        i += 1;
    }
    proof {
        assert(v@.take(v.len() as int) =~= v@);
        cbor::lemma_append_assoc(
            old(enc)@,
            cbor::map_head(v@.len()),
            cbor::concat_map(v@, f),
        );
    }
}

fn put_pool_stake2_item(enc: &mut Vec<u8>, x: &StakePoolSnapshot, total: u64)
    ensures
        final(enc)@ == old(enc)@ + pool_stake2_item(*x, total),
{
    broadcast use {crate::cbor::lemma_append_assoc, crate::cbor::lemma_append_empty};

    put_bytes(enc, &x.pool_id);
    put_array(enc, 3);
    if total > 0 {
        encode_tagged_rational(enc, x.stake, total);
    } else {
        encode_tagged_rational(enc, 0, 1);
    }
    put_u64(enc, x.stake);
    put_bytes(enc, &x.vrf_keyhash);
}

/// Stake by pool, as a fraction of the total and in lovelace, with the total.
pub open spec fn pool_distr2_bytes(v: Seq<StakePoolSnapshot>, total: u64) -> Seq<u8> {
    cbor::array_head(2)
        + cbor::map_of(v, |x: StakePoolSnapshot| pool_stake2_item(x, total))
        + cbor::uint(total as nat)
}

/// Appends the stake by pool with the total.
pub(crate) fn put_pool_distr2(enc: &mut Vec<u8>, v: &Vec<StakePoolSnapshot>, total: u64)
    ensures
        final(enc)@ == old(enc)@ + pool_distr2_bytes(v@, total),
{
    put_array(enc, 2);
    put_map(enc, v.len() as u64);
    let ghost pre = enc@;
    let ghost f = |x: StakePoolSnapshot| pool_stake2_item(x, total);
    let mut i: usize = 0;
    assert(enc@ =~= pre + cbor::concat_map(v@.take(0), f));
    while i < v.len()
        invariant
            i <= v.len(),
            f == (|x: StakePoolSnapshot| pool_stake2_item(x, total)),
            enc@ == pre + cbor::concat_map(v@.take(i as int), f),
        decreases v.len() - i,
    {
        proof {
            cbor::lemma_concat_map_step(v@, f, i as int);
            cbor::lemma_append_assoc(pre, cbor::concat_map(v@.take(i as int), f), f(v@[i as int]));
        }
        put_pool_stake2_item(enc, &v[i], total);
        i += 1;
    }
    put_u64(enc, total);
    proof {
        broadcast use {crate::cbor::lemma_append_assoc, crate::cbor::lemma_append_empty};

        assert(v@.take(v.len() as int) =~= v@);
    }
}

fn put_key_credential(enc: &mut Vec<u8>, hash: &Vec<u8>)
    ensures
        final(enc)@ == old(enc)@ + key_credential(hash@),
{
    broadcast use {crate::cbor::lemma_append_assoc, crate::cbor::lemma_append_empty};

    put_array(enc, 2);
    put_u32(enc, 0);
    put_bytes(enc, hash);
}

/// Appends a credential.
pub(crate) fn put_credential(enc: &mut Vec<u8>, kind: u8, hash: &Vec<u8>)
    ensures
        final(enc)@ == old(enc)@ + credential(kind, hash@),
{
    broadcast use {crate::cbor::lemma_append_assoc, crate::cbor::lemma_append_empty};

    put_array(enc, 2);
    put_u8(enc, kind);
    put_bytes(enc, hash);
}

fn count_delegating(addrs: &Vec<StakeAddressSnapshot>) -> (n: usize)
    ensures
        n == delegating(addrs@).len(),
{
    let mut n: usize = 0;
    let mut i: usize = 0;
    reveal(Seq::filter);
    assert(addrs@.take(0).len() == 0);
    while i < addrs.len()
        invariant
            i <= addrs.len(),
            n <= i,
            n == delegating(addrs@.take(i as int)).len(),
        decreases addrs.len() - i,
    {
        reveal(Seq::filter);
        assert(addrs@.take(i + 1).drop_last() =~= addrs@.take(i as int));
        if addrs[i].delegated_pool.is_some() {
            n += 1;
        }
        i += 1;
    }
    assert(addrs@.take(addrs.len() as int) =~= addrs@);
    n
}

fn put_delegations(enc: &mut Vec<u8>, addrs: &Vec<StakeAddressSnapshot>)
    ensures
        final(enc)@ == old(enc)@ + cbor::map_of(
            delegating(addrs@),
            |x: StakeAddressSnapshot| delegation_item(x),
        ),
{
    broadcast use {crate::cbor::lemma_append_assoc, crate::cbor::lemma_append_empty};

    let n: usize = count_delegating(addrs);
    put_map(enc, n as u64);
    let ghost pre = enc@;
    let ghost f = |x: StakeAddressSnapshot| delegation_item(x);
    let mut i: usize = 0;
    proof {
        reveal(Seq::filter);
        assert(addrs@.take(0).len() == 0);
    }
    while i < addrs.len()
        invariant
            i <= addrs.len(),
            f == (|x: StakeAddressSnapshot| delegation_item(x)),
            enc@ == pre + cbor::concat_map(delegating(addrs@.take(i as int)), f),
        decreases addrs.len() - i,
    {
        proof {
            reveal(Seq::filter);
            assert(addrs@.take(i + 1).drop_last() =~= addrs@.take(i as int));
            let done = delegating(addrs@.take(i as int));
            assert(done.push(addrs@[i as int]).drop_last() =~= done);
        }
        let a = &addrs[i];
        if let Some(pool) = &a.delegated_pool {
            put_key_credential(enc, &a.credential_hash);
            put_bytes(enc, pool);
        }
        i += 1;
    }
    assert(addrs@.take(addrs.len() as int) =~= addrs@);
}

fn put_reward_item(enc: &mut Vec<u8>, x: &StakeAddressSnapshot)
    ensures
        final(enc)@ == old(enc)@ + reward_item(*x),
{
    broadcast use {crate::cbor::lemma_append_assoc, crate::cbor::lemma_append_empty};

    put_key_credential(enc, &x.credential_hash);
    put_u64(enc, x.reward_balance);
}

fn put_rewards(enc: &mut Vec<u8>, v: &Vec<StakeAddressSnapshot>)
    ensures
        final(enc)@ == old(enc)@ + cbor::map_of(v@, |x: StakeAddressSnapshot| reward_item(x)),
{
    put_map(enc, v.len() as u64);
    let ghost pre = enc@;
    let ghost f = |x: StakeAddressSnapshot| reward_item(x);
    let mut i: usize = 0;
    assert(enc@ =~= pre + cbor::concat_map(v@.take(0), f));
    while i < v.len()
        invariant
            i <= v.len(),
            f == (|x: StakeAddressSnapshot| reward_item(x)),
            enc@ == pre + cbor::concat_map(v@.take(i as int), f),
        decreases v.len() - i,
    {
        proof {
            cbor::lemma_concat_map_step(v@, f, i as int);
            cbor::lemma_append_assoc(pre, cbor::concat_map(v@.take(i as int), f), f(v@[i as int]));
        }
        put_reward_item(enc, &v[i]);
        i += 1;
    }
    proof {
        assert(v@.take(v.len() as int) =~= v@);
        cbor::lemma_append_assoc(
            old(enc)@,
            cbor::map_head(v@.len()),
            cbor::concat_map(v@, f),
        );
    }
}

/// Appends `[delegations, rewards]`.
pub(crate) fn put_stake_address_info(enc: &mut Vec<u8>, addrs: &Vec<StakeAddressSnapshot>)
    ensures
        final(enc)@ == old(enc)@ + stake_address_info(addrs@),
{
    broadcast use {crate::cbor::lemma_append_assoc, crate::cbor::lemma_append_empty};

    put_array(enc, 2);
    put_delegations(enc, addrs);
    put_rewards(enc, addrs);
}

fn put_snapshot_item(enc: &mut Vec<u8>, x: &PoolStakeSnapshotEntry)
    ensures
        final(enc)@ == old(enc)@ + snapshot_item(*x),
{
    broadcast use {crate::cbor::lemma_append_assoc, crate::cbor::lemma_append_empty};

    put_bytes(enc, &x.pool_id);
    put_array(enc, 3);
    put_u64(enc, x.mark_stake);
    put_u64(enc, x.set_stake);
    put_u64(enc, x.go_stake);
}

fn put_snapshot_pools(enc: &mut Vec<u8>, v: &Vec<PoolStakeSnapshotEntry>)
    ensures
        final(enc)@ == old(enc)@ + cbor::map_of(v@, |x: PoolStakeSnapshotEntry| snapshot_item(x)),
{
    put_map(enc, v.len() as u64);
    let ghost pre = enc@;
    let ghost f = |x: PoolStakeSnapshotEntry| snapshot_item(x);
    let mut i: usize = 0;
    assert(enc@ =~= pre + cbor::concat_map(v@.take(0), f));
    while i < v.len()
        invariant
            i <= v.len(),
            f == (|x: PoolStakeSnapshotEntry| snapshot_item(x)),
            enc@ == pre + cbor::concat_map(v@.take(i as int), f),
        decreases v.len() - i,
    {
        proof {
            cbor::lemma_concat_map_step(v@, f, i as int);
            cbor::lemma_append_assoc(pre, cbor::concat_map(v@.take(i as int), f), f(v@[i as int]));
        }
        put_snapshot_item(enc, &v[i]);
        i += 1;
    }
    proof {
        assert(v@.take(v.len() as int) =~= v@);
        cbor::lemma_append_assoc(
            old(enc)@,
            cbor::map_head(v@.len()),
            cbor::concat_map(v@, f),
        );
    }
}

/// Appends the three stake snapshots.
pub(crate) fn put_stake_snapshots(enc: &mut Vec<u8>, s: &StakeSnapshotsResult)
    ensures
        final(enc)@ == old(enc)@ + stake_snapshots_bytes(*s),
{
    broadcast use {crate::cbor::lemma_append_assoc, crate::cbor::lemma_append_empty};

    put_array(enc, 4);
    put_snapshot_pools(enc, &s.pools);
    put_u64(enc, max_one(s.total_mark_stake));
    put_u64(enc, max_one(s.total_set_stake));
    put_u64(enc, max_one(s.total_go_stake));
}

fn put_non_myopic_item(enc: &mut Vec<u8>, x: &NonMyopicRewardEntry)
    ensures
        final(enc)@ == old(enc)@ + non_myopic_item(*x),
{
    broadcast use {crate::cbor::lemma_append_assoc, crate::cbor::lemma_append_empty};

    put_u64(enc, x.stake_amount);
    put_amounts(enc, &x.pool_rewards);
}

/// Appends the rewards by stake.
pub(crate) fn put_non_myopic(enc: &mut Vec<u8>, v: &Vec<NonMyopicRewardEntry>)
    ensures
        final(enc)@ == old(enc)@ + cbor::map_of(v@, |x: NonMyopicRewardEntry| non_myopic_item(x)),
{
    put_map(enc, v.len() as u64);
    let ghost pre = enc@;
    let ghost f = |x: NonMyopicRewardEntry| non_myopic_item(x);
    let mut i: usize = 0;
    assert(enc@ =~= pre + cbor::concat_map(v@.take(0), f));
    while i < v.len()
        invariant
            i <= v.len(),
            f == (|x: NonMyopicRewardEntry| non_myopic_item(x)),
            enc@ == pre + cbor::concat_map(v@.take(i as int), f),
        decreases v.len() - i,
    {
        proof {
            cbor::lemma_concat_map_step(v@, f, i as int);
            cbor::lemma_append_assoc(pre, cbor::concat_map(v@.take(i as int), f), f(v@[i as int]));
        }
        put_non_myopic_item(enc, &v[i]);
        i += 1;
    }
    proof {
        assert(v@.take(v.len() as int) =~= v@);
        cbor::lemma_append_assoc(
            old(enc)@,
            cbor::map_head(v@.len()),
            cbor::concat_map(v@, f),
        );
    }
}

fn put_deposit_item(enc: &mut Vec<u8>, x: &StakeDelegDepositEntry)
    ensures
        final(enc)@ == old(enc)@ + deposit_item(*x),
{
    broadcast use {crate::cbor::lemma_append_assoc, crate::cbor::lemma_append_empty};

    put_credential(enc, x.credential_type, &x.credential_hash);
    put_u64(enc, x.deposit);
}

/// Appends the deposits by credential.
pub(crate) fn put_deposits(enc: &mut Vec<u8>, v: &Vec<StakeDelegDepositEntry>)
    ensures
        final(enc)@ == old(enc)@ + cbor::map_of(v@, |x: StakeDelegDepositEntry| deposit_item(x)),
{
    put_map(enc, v.len() as u64);
    let ghost pre = enc@;
    let ghost f = |x: StakeDelegDepositEntry| deposit_item(x);
    let mut i: usize = 0;
    assert(enc@ =~= pre + cbor::concat_map(v@.take(0), f));
    while i < v.len()
        invariant
            i <= v.len(),
            f == (|x: StakeDelegDepositEntry| deposit_item(x)),
            enc@ == pre + cbor::concat_map(v@.take(i as int), f),
        decreases v.len() - i,
    {
        proof {
            cbor::lemma_concat_map_step(v@, f, i as int);
            cbor::lemma_append_assoc(pre, cbor::concat_map(v@.take(i as int), f), f(v@[i as int]));
        }
        put_deposit_item(enc, &v[i]);
        i += 1;
    }
    proof {
        assert(v@.take(v.len() as int) =~= v@);
        cbor::lemma_append_assoc(
            old(enc)@,
            cbor::map_head(v@.len()),
            cbor::concat_map(v@, f),
        );
    }
}

fn put_drep(enc: &mut Vec<u8>, kind: u8, hash: &Option<Vec<u8>>)
    ensures
        final(enc)@ == old(enc)@ + drep_bytes(kind, *hash),
{
    broadcast use {crate::cbor::lemma_append_assoc, crate::cbor::lemma_append_empty};

    if kind <= 1 {
        put_array(enc, 2);
        put_u8(enc, kind);
        if let Some(h) = hash {
            put_bytes(enc, h);
        }
    } else {
        put_array(enc, 1);
        put_u8(enc, kind);
    }
}

fn put_drep_stake_item(enc: &mut Vec<u8>, x: &DRepStakeEntry)
    ensures
        final(enc)@ == old(enc)@ + drep_stake_item(*x),
{
    broadcast use {crate::cbor::lemma_append_assoc, crate::cbor::lemma_append_empty};

    put_drep(enc, x.drep_type, &x.drep_hash);
    put_u64(enc, x.stake);
}

/// Appends the stake by DRep.
pub(crate) fn put_drep_stakes(enc: &mut Vec<u8>, v: &Vec<DRepStakeEntry>)
    ensures
        final(enc)@ == old(enc)@ + cbor::map_of(v@, |x: DRepStakeEntry| drep_stake_item(x)),
{
    put_map(enc, v.len() as u64);
    let ghost pre = enc@;
    let ghost f = |x: DRepStakeEntry| drep_stake_item(x);
    let mut i: usize = 0;
    assert(enc@ =~= pre + cbor::concat_map(v@.take(0), f));
    while i < v.len()
        invariant
            i <= v.len(),
            f == (|x: DRepStakeEntry| drep_stake_item(x)),
            enc@ == pre + cbor::concat_map(v@.take(i as int), f),
        decreases v.len() - i,
    {
        proof {
            cbor::lemma_concat_map_step(v@, f, i as int);
            cbor::lemma_append_assoc(pre, cbor::concat_map(v@.take(i as int), f), f(v@[i as int]));
        }
        put_drep_stake_item(enc, &v[i]);
        i += 1;
    }
    proof {
        assert(v@.take(v.len() as int) =~= v@);
        cbor::lemma_append_assoc(
            old(enc)@,
            cbor::map_head(v@.len()),
            cbor::concat_map(v@, f),
        );
    }
}

fn put_vote_delegatee_item(enc: &mut Vec<u8>, x: &VoteDelegateeEntry)
    ensures
        final(enc)@ == old(enc)@ + vote_delegatee_item(*x),
{
    broadcast use {crate::cbor::lemma_append_assoc, crate::cbor::lemma_append_empty};

    put_credential(enc, x.credential_type, &x.credential_hash);
    put_drep(enc, x.drep_type, &x.drep_hash);
}

/// Appends the DReps by credential.
pub(crate) fn put_vote_delegatees(enc: &mut Vec<u8>, v: &Vec<VoteDelegateeEntry>)
    ensures
        final(enc)@ == old(enc)@ + cbor::map_of(v@, |x: VoteDelegateeEntry| vote_delegatee_item(x)),
{
    put_map(enc, v.len() as u64);
    let ghost pre = enc@;
    let ghost f = |x: VoteDelegateeEntry| vote_delegatee_item(x);
    let mut i: usize = 0;
    assert(enc@ =~= pre + cbor::concat_map(v@.take(0), f));
    while i < v.len()
        invariant
            i <= v.len(),
            f == (|x: VoteDelegateeEntry| vote_delegatee_item(x)),
            enc@ == pre + cbor::concat_map(v@.take(i as int), f),
        decreases v.len() - i,
    {
        proof {
            cbor::lemma_concat_map_step(v@, f, i as int);
            cbor::lemma_append_assoc(pre, cbor::concat_map(v@.take(i as int), f), f(v@[i as int]));
        }
        put_vote_delegatee_item(enc, &v[i]);
        i += 1;
    }
    proof {
        assert(v@.take(v.len() as int) =~= v@);
        cbor::lemma_append_assoc(
            old(enc)@,
            cbor::map_head(v@.len()),
            cbor::concat_map(v@, f),
        );
    }
}

fn put_reward_info_item(enc: &mut Vec<u8>, x: &PoolRewardInfo)
    ensures
        final(enc)@ == old(enc)@ + reward_info_item(*x),
{
    broadcast use {crate::cbor::lemma_append_assoc, crate::cbor::lemma_append_empty};

    put_bytes(enc, &x.pool_id);
    put_array(enc, 7);
    put_u64(enc, x.stake);
    put_u64(enc, x.owner_stake);
    put_u64(enc, x.pool_reward);
    put_u64(enc, x.leader_reward);
    put_u64(enc, x.member_reward);
    encode_tagged_rational(enc, x.margin.0, x.margin.1);
    put_u64(enc, x.cost);
}

/// Appends the reward details by pool.
pub(crate) fn put_reward_infos(enc: &mut Vec<u8>, v: &Vec<PoolRewardInfo>)
    ensures
        final(enc)@ == old(enc)@ + cbor::map_of(v@, |x: PoolRewardInfo| reward_info_item(x)),
{
    put_map(enc, v.len() as u64);
    let ghost pre = enc@;
    let ghost f = |x: PoolRewardInfo| reward_info_item(x);
    let mut i: usize = 0;
    assert(enc@ =~= pre + cbor::concat_map(v@.take(0), f));
    while i < v.len()
        invariant
            i <= v.len(),
            f == (|x: PoolRewardInfo| reward_info_item(x)),
            enc@ == pre + cbor::concat_map(v@.take(i as int), f),
        decreases v.len() - i,
    {
        proof {
            cbor::lemma_concat_map_step(v@, f, i as int);
            cbor::lemma_append_assoc(pre, cbor::concat_map(v@.take(i as int), f), f(v@[i as int]));
        }
        put_reward_info_item(enc, &v[i]);
        i += 1;
    }
    proof {
        assert(v@.take(v.len() as int) =~= v@);
        cbor::lemma_append_assoc(
            old(enc)@,
            cbor::map_head(v@.len()),
            cbor::concat_map(v@, f),
        );
    }
}

fn put_default_vote_item(enc: &mut Vec<u8>, x: &PoolDefaultVoteEntry)
    ensures
        final(enc)@ == old(enc)@ + default_vote_item(*x),
{
    broadcast use {crate::cbor::lemma_append_assoc, crate::cbor::lemma_append_empty};

    put_bytes(enc, &x.pool_id);
    put_array(enc, 1);
    put_u32(enc, x.default_vote as u32);
}

/// Appends the default votes by pool.
pub(crate) fn put_default_votes(enc: &mut Vec<u8>, v: &Vec<PoolDefaultVoteEntry>)
    ensures
        final(enc)@ == old(enc)@ + cbor::map_of(v@, |x: PoolDefaultVoteEntry| default_vote_item(x)),
{
    put_map(enc, v.len() as u64);
    let ghost pre = enc@;
    let ghost f = |x: PoolDefaultVoteEntry| default_vote_item(x);
    let mut i: usize = 0;
    assert(enc@ =~= pre + cbor::concat_map(v@.take(0), f));
    while i < v.len()
        invariant
            i <= v.len(),
            f == (|x: PoolDefaultVoteEntry| default_vote_item(x)),
            enc@ == pre + cbor::concat_map(v@.take(i as int), f),
        decreases v.len() - i,
    {
        proof {
            cbor::lemma_concat_map_step(v@, f, i as int);
            cbor::lemma_append_assoc(pre, cbor::concat_map(v@.take(i as int), f), f(v@[i as int]));
        }
        put_default_vote_item(enc, &v[i]);
        i += 1;
    }
    proof {
        assert(v@.take(v.len() as int) =~= v@);
        cbor::lemma_append_assoc(
            old(enc)@,
            cbor::map_head(v@.len()),
            cbor::concat_map(v@, f),
        );
    }
}

// ---------------------------------------------------------------------------
// Pools
// ---------------------------------------------------------------------------

/// A set of byte strings: tag 258 on the array of its members in lexicographic
/// order.
pub open spec fn set_of_bytes(v: Seq<Vec<u8>>) -> Seq<u8> {
    cbor::tag_head(258)
        + cbor::array_of(
            order::sorted_bytes(order::contents(v)),
            |x: Seq<u8>| cbor::bytes_item(x),
        )
}

/// An optional port.
pub open spec fn port_bytes(port: Option<u16>) -> Seq<u8> {
    match port {
        Some(p) => cbor::uint(p as nat),
        None => cbor::null_item(),
    }
}

/// A relay as it stands in a pool registration.
pub open spec fn relay_bytes(r: RelaySnapshot) -> Seq<u8> {
    match r {
        RelaySnapshot::SingleHostAddr { port, ipv4, ipv6 } => cbor::array_head(4)
            + cbor::uint(0)
            + port_bytes(port)
            + (match ipv4 {
                Some(ip) => cbor::bytes_item(ip@),
                None => cbor::null_item(),
            })
            + (match ipv6 {
                Some(ip) => cbor::bytes_item(ip@),
                None => cbor::null_item(),
            }),
        RelaySnapshot::SingleHostName { port, dns_name } => cbor::array_head(3)
            + cbor::uint(1)
            + port_bytes(port)
            + cbor::text_item(dns_name@),
        RelaySnapshot::MultiHostName { dns_name } => cbor::array_head(2)
            + cbor::uint(2)
            + cbor::text_item(dns_name@),
    }
}

/// Metadata of a pool: `[url, hash]`, with 32 zero bytes in place of a missing hash,
/// or `null` where there is no URL.
pub open spec fn metadata_bytes(url: Option<String>, hash: Option<Vec<u8>>) -> Seq<u8> {
    match url {
        Some(u) => cbor::array_head(2) + cbor::text_item(u@) + match hash {
            Some(h) => cbor::bytes_item(h@),
            None => cbor::bytes_item(Seq::new(32, |i: int| 0u8)),
        },
        None => cbor::null_item(),
    }
}

/// A pool with its registered parameters.
pub open spec fn pool_params_item(p: PoolParamsSnapshot) -> Seq<u8> {
    cbor::bytes_item(p.pool_id@)
        + (cbor::array_head(9)
            + cbor::bytes_item(p.pool_id@)
            + cbor::bytes_item(p.vrf_keyhash@)
            + cbor::uint(p.pledge as nat)
            + cbor::uint(p.cost as nat)
            + protocol::rational(p.margin_num, p.margin_den)
            + cbor::bytes_item(p.reward_account@)
            + set_of_bytes(p.owners@)
            + cbor::array_of(p.relays@, |x: RelaySnapshot| relay_bytes(x))
            + metadata_bytes(p.metadata_url, p.metadata_hash))
}

/// Registered parameters by pool.
pub open spec fn pool_params_map(v: Seq<PoolParamsSnapshot>) -> Seq<u8> {
    cbor::map_of(v, |x: PoolParamsSnapshot| pool_params_item(x))
}

/// Appends a set of byte strings.
pub(crate) fn put_set_of_bytes(enc: &mut Vec<u8>, v: &Vec<Vec<u8>>)
    ensures
        final(enc)@ == old(enc)@ + set_of_bytes(v@),
{
    broadcast use {crate::cbor::lemma_append_assoc, crate::cbor::lemma_append_empty};

    let sorted = sort_bytes(v);
    let ghost s = order::ref_contents(sorted@);
    put_tag(enc, 258);
    put_array(enc, sorted.len() as u64);
    let ghost pre = enc@;
    let mut i: usize = 0;
    while i < sorted.len()
        invariant
            i <= sorted.len(),
            s == order::ref_contents(sorted@),
            enc@ == pre + cbor::concat_map(s.take(i as int), |x: Seq<u8>| cbor::bytes_item(x)),
        decreases sorted.len() - i,
    {
        proof {
            cbor::lemma_concat_map_step(s, |x: Seq<u8>| cbor::bytes_item(x), i as int);
        }
        put_bytes(enc, sorted[i]);
        i += 1;
    }
    assert(s.take(sorted.len() as int) =~= s);
}

fn put_port(enc: &mut Vec<u8>, port: &Option<u16>)
    ensures
        final(enc)@ == old(enc)@ + port_bytes(*port),
{
    broadcast use {crate::cbor::lemma_append_assoc, crate::cbor::lemma_append_empty};

    match port {
        Some(p) => put_u16(enc, *p),
        None => put_null(enc),
    }
}

/// Appends a relay as it stands in a pool registration.
pub fn encode_relay_cbor(enc: &mut Vec<u8>, relay: &RelaySnapshot)
    ensures
        final(enc)@ == old(enc)@ + relay_bytes(*relay),
{
    broadcast use {crate::cbor::lemma_append_assoc, crate::cbor::lemma_append_empty};

    match relay {
        RelaySnapshot::SingleHostAddr { port, ipv4, ipv6 } => {
            put_array(enc, 4);
            put_u32(enc, 0);
            put_port(enc, port);
            match ipv4 {
                Some(ip) => put_bytes(enc, ip.as_slice()),
                None => put_null(enc),
            }
            match ipv6 {
                Some(ip) => put_bytes(enc, ip.as_slice()),
                None => put_null(enc),
            }
        },
        RelaySnapshot::SingleHostName { port, dns_name } => {
            put_array(enc, 3);
            put_u32(enc, 1);
            put_port(enc, port);
            put_str(enc, dns_name.as_str());
        },
        RelaySnapshot::MultiHostName { dns_name } => {
            put_array(enc, 2);
            put_u32(enc, 2);
            put_str(enc, dns_name.as_str());
        },
    }
}

fn put_relay_bytes(enc: &mut Vec<u8>, x: &RelaySnapshot)
    ensures
        final(enc)@ == old(enc)@ + relay_bytes(*x),
{
    broadcast use {crate::cbor::lemma_append_assoc, crate::cbor::lemma_append_empty};

    encode_relay_cbor(enc, x);
}

fn put_relays(enc: &mut Vec<u8>, v: &Vec<RelaySnapshot>)
    ensures
        final(enc)@ == old(enc)@ + cbor::array_of(v@, |x: RelaySnapshot| relay_bytes(x)),
{
    put_array(enc, v.len() as u64);
    let ghost pre = enc@;
    let ghost f = |x: RelaySnapshot| relay_bytes(x);
    let mut i: usize = 0;
    assert(enc@ =~= pre + cbor::concat_map(v@.take(0), f));
    while i < v.len()
        invariant
            i <= v.len(),
            f == (|x: RelaySnapshot| relay_bytes(x)),
            enc@ == pre + cbor::concat_map(v@.take(i as int), f),
        decreases v.len() - i,
    {
        proof {
            cbor::lemma_concat_map_step(v@, f, i as int);
            cbor::lemma_append_assoc(pre, cbor::concat_map(v@.take(i as int), f), f(v@[i as int]));
        }
        put_relay_bytes(enc, &v[i]);
        i += 1;
    }
    proof {
        assert(v@.take(v.len() as int) =~= v@);
        cbor::lemma_append_assoc(
            old(enc)@,
            cbor::array_head(v@.len()),
            cbor::concat_map(v@, f),
        );
    }
}

/// Appends 32 zero bytes as a byte string.
pub(crate) fn put_zero_hash(enc: &mut Vec<u8>)
    ensures
        final(enc)@ == old(enc)@ + cbor::bytes_item(Seq::new(32, |i: int| 0u8)),
{
    broadcast use {crate::cbor::lemma_append_assoc, crate::cbor::lemma_append_empty};

    let zeros: [u8; 32] = [0u8; 32];
    assert(zeros@ =~= Seq::new(32, |i: int| 0u8));
    put_bytes(enc, zeros.as_slice());
}

fn put_metadata(enc: &mut Vec<u8>, url: &Option<String>, hash: &Option<Vec<u8>>)
    ensures
        final(enc)@ == old(enc)@ + metadata_bytes(*url, *hash),
{
    broadcast use {crate::cbor::lemma_append_assoc, crate::cbor::lemma_append_empty};

    match url {
        Some(u) => {
            put_array(enc, 2);
            put_str(enc, u.as_str());
            match hash {
                Some(h) => put_bytes(enc, h),
                None => put_zero_hash(enc),
            }
        },
        None => put_null(enc),
    }
}

fn put_pool_params(enc: &mut Vec<u8>, pool: &PoolParamsSnapshot)
    ensures
        final(enc)@ == old(enc)@ + pool_params_item(*pool),
{
    broadcast use {crate::cbor::lemma_append_assoc, crate::cbor::lemma_append_empty};

    put_bytes(enc, &pool.pool_id);
    put_array(enc, 9);
    put_bytes(enc, &pool.pool_id);
    put_bytes(enc, &pool.vrf_keyhash);
    put_u64(enc, pool.pledge);
    put_u64(enc, pool.cost);
    encode_tagged_rational(enc, pool.margin_num, pool.margin_den);
    put_bytes(enc, &pool.reward_account);
    put_set_of_bytes(enc, &pool.owners);
    put_relays(enc, &pool.relays);
    put_metadata(enc, &pool.metadata_url, &pool.metadata_hash);
}

/// Appends the registered parameters by pool.
pub fn encode_pool_params_map(enc: &mut Vec<u8>, v: &Vec<PoolParamsSnapshot>)
    ensures
        final(enc)@ == old(enc)@ + pool_params_map(v@),
{
    put_map(enc, v.len() as u64);
    let ghost pre = enc@;
    let ghost f = |x: PoolParamsSnapshot| pool_params_item(x);
    let mut i: usize = 0;
    assert(enc@ =~= pre + cbor::concat_map(v@.take(0), f));
    while i < v.len()
        invariant
            i <= v.len(),
            f == (|x: PoolParamsSnapshot| pool_params_item(x)),
            enc@ == pre + cbor::concat_map(v@.take(i as int), f),
        decreases v.len() - i,
    {
        proof {
            cbor::lemma_concat_map_step(v@, f, i as int);
            cbor::lemma_append_assoc(pre, cbor::concat_map(v@.take(i as int), f), f(v@[i as int]));
        }
        put_pool_params(enc, &v[i]);
        i += 1;
    }
    proof {
        assert(v@.take(v.len() as int) =~= v@);
        cbor::lemma_append_assoc(
            old(enc)@,
            cbor::map_head(v@.len()),
            cbor::concat_map(v@, f),
        );
    }
}

// ---------------------------------------------------------------------------
// Big ledger peers
// ---------------------------------------------------------------------------

/// The number that four bytes write, most significant first.
pub open spec fn word_at(ip: Seq<u8>, k: int) -> int {
    ip[4 * k] * 0x100_0000 + ip[4 * k + 1] * 0x1_0000 + ip[4 * k + 2] * 0x100 + ip[4 * k + 3]
}

/// A relay as an access point: `[0, port, domain]`, `[1, port, [four octets]]` or
/// `[2, port, [four words]]`. A missing port is 3001, a missing address 0.0.0.0.
pub open spec fn access_point_bytes(r: RelaySnapshot) -> Seq<u8> {
    match r {
        RelaySnapshot::SingleHostAddr { port, ipv4, ipv6 } => {
            let p = cbor::sint(port.unwrap_or(3001) as int);
            match (ipv4, ipv6) {
                (Some(ip), _) => cbor::array_head(3)
                    + cbor::uint(1)
                    + p
                    + (cbor::array_head(4)
                        + cbor::sint(ip@[0] as int)
                        + cbor::sint(ip@[1] as int)
                        + cbor::sint(ip@[2] as int)
                        + cbor::sint(ip@[3] as int)),
                (None, Some(ip)) => cbor::array_head(3)
                    + cbor::uint(2)
                    + p
                    + (cbor::array_head(4)
                        + cbor::sint(word_at(ip@, 0))
                        + cbor::sint(word_at(ip@, 1))
                        + cbor::sint(word_at(ip@, 2))
                        + cbor::sint(word_at(ip@, 3))),
                (None, None) => cbor::array_head(3)
                    + cbor::uint(1)
                    + p
                    + (cbor::array_head(4)
                        + cbor::sint(0)
                        + cbor::sint(0)
                        + cbor::sint(0)
                        + cbor::sint(0)),
            }
        },
        RelaySnapshot::SingleHostName { port, dns_name } => cbor::array_head(3)
            + cbor::uint(0)
            + cbor::sint(port.unwrap_or(3001) as int)
            + cbor::bytes_item(vstd::utf8::encode_utf8(dns_name@)),
        RelaySnapshot::MultiHostName { dns_name } => cbor::array_head(3)
            + cbor::uint(0)
            + cbor::sint(3001)
            + cbor::bytes_item(vstd::utf8::encode_utf8(dns_name@)),
    }
}

/// The stake of all peers together.
pub open spec fn stake_sum(s: Seq<LedgerPeerEntry>) -> int
    decreases s.len(),
{
    if s.len() == 0 {
        0
    } else {
        stake_sum(s.drop_last()) + s.last().stake
    }
}

/// The peers that have stake, largest stake first.
pub open spec fn by_stake(peers: Seq<LedgerPeerEntry>) -> Seq<LedgerPeerEntry> {
    order::sorted_by(
        peers.filter(|p: LedgerPeerEntry| p.stake > 0),
        |a: LedgerPeerEntry, b: LedgerPeerEntry| a.stake >= b.stake,
    )
}

/// Length of the shortest prefix, longer than `n`, whose stake reaches `cutoff`; the
/// whole length if none does.
pub open spec fn reaching(s: Seq<LedgerPeerEntry>, cutoff: int, n: int) -> int
    decreases s.len() - n,
{
    if n >= s.len() {
        s.len() as int
    } else if stake_sum(s.take(n + 1)) >= cutoff {
        n + 1
    } else {
        reaching(s, cutoff, n + 1)
    }
}

/// The big ledger peers: the largest ones, as many as it takes to hold nine tenths
/// of the stake.
pub open spec fn big_peers(peers: Seq<LedgerPeerEntry>) -> Seq<LedgerPeerEntry> {
    let s = by_stake(peers);
    s.take(reaching(s, stake_sum(s) * 9 / 10, 0))
}

/// A pool among `s`, the `n`-th: the stake accumulated so far and its own stake, both
/// over the total, then its relays.
pub open spec fn big_peer_item(s: Seq<LedgerPeerEntry>, n: int, total: int) -> Seq<u8> {
    cbor::array_head(2)
        + (cbor::array_head(2) + cbor::uint(stake_sum(s.take(n + 1)) as nat) + cbor::uint(
            total as nat,
        ))
        + (cbor::array_head(2)
            + (cbor::array_head(2) + cbor::uint(s[n].stake as nat) + cbor::uint(total as nat))
            + (cbor::indef_array_head()
                + cbor::concat_map(s[n].relays@, |x: RelaySnapshot| access_point_bytes(x))
                + cbor::break_item()))
}

/// The first `n` pools of `s`.
pub open spec fn big_peer_items(s: Seq<LedgerPeerEntry>, n: int, total: int) -> Seq<u8>
    decreases n,
{
    if n <= 0 {
        Seq::empty()
    } else {
        big_peer_items(s, n - 1, total) + big_peer_item(s, n - 1, total)
    }
}

/// A snapshot of the big ledger peers at an unknown slot, in version 1 of the format.
pub open spec fn ledger_peers_bytes(peers: Seq<LedgerPeerEntry>) -> Seq<u8> {
    let total = stake_sum(by_stake(peers));
    let big = big_peers(peers);
    cbor::array_head(2)
        + cbor::uint(1)
        + (cbor::array_head(2)
            + (cbor::array_head(1) + cbor::uint(0))
            + (cbor::indef_array_head()
                + big_peer_items(big, big.len() as int, if total < 1 { 1 } else { total })
                + cbor::break_item()))
}

/// Whether nine times the stake of the peers fits 64 bits.
pub open spec fn ledger_peers_fit(peers: Seq<LedgerPeerEntry>) -> bool {
    stake_sum(by_stake(peers)) * 9 <= u64::MAX
}

fn word(ip: &[u8; 16], k: usize) -> (w: i64)
    requires
        k < 4,
    ensures
        w == word_at(ip@, k as int),
{
    let a: i64 = ip[4 * k] as i64;
    let b: i64 = ip[4 * k + 1] as i64;
    let c: i64 = ip[4 * k + 2] as i64;
    let d: i64 = ip[4 * k + 3] as i64;
    a * 0x100_0000 + b * 0x1_0000 + c * 0x100 + d
}

/// Appends a relay as an access point.
pub fn encode_ledger_relay(enc: &mut Vec<u8>, relay: &RelaySnapshot)
    ensures
        final(enc)@ == old(enc)@ + access_point_bytes(*relay),
{
    broadcast use {crate::cbor::lemma_append_assoc, crate::cbor::lemma_append_empty};

    match relay {
        RelaySnapshot::SingleHostAddr { port, ipv4, ipv6 } => {
            let p: i64 = port.unwrap_or(3001) as i64;
            if let Some(ip) = ipv4 {
                put_array(enc, 3);
                put_u32(enc, 1);
                put_i64(enc, p);
                put_array(enc, 4);
                put_i64(enc, ip[0] as i64);
                put_i64(enc, ip[1] as i64);
                put_i64(enc, ip[2] as i64);
                put_i64(enc, ip[3] as i64);
            } else if let Some(ip) = ipv6 {
                put_array(enc, 3);
                put_u32(enc, 2);
                put_i64(enc, p);
                put_array(enc, 4);
                put_i64(enc, word(ip, 0));
                put_i64(enc, word(ip, 1));
                put_i64(enc, word(ip, 2));
                put_i64(enc, word(ip, 3));
            } else {
                put_array(enc, 3);
                put_u32(enc, 1);
                put_i64(enc, p);
                put_array(enc, 4);
                put_i64(enc, 0);
                put_i64(enc, 0);
                put_i64(enc, 0);
                put_i64(enc, 0);
            }
        },
        RelaySnapshot::SingleHostName { port, dns_name } => {
            put_array(enc, 3);
            put_u32(enc, 0);
            put_i64(enc, port.unwrap_or(3001) as i64);
            put_bytes(enc, dns_name.as_str().as_bytes());
        },
        RelaySnapshot::MultiHostName { dns_name } => {
            put_array(enc, 3);
            put_u32(enc, 0);
            put_i64(enc, 3001);
            put_bytes(enc, dns_name.as_str().as_bytes());
        },
    }
}

fn put_access_points(enc: &mut Vec<u8>, v: &Vec<RelaySnapshot>)
    ensures
        final(enc)@ == old(enc)@ + (cbor::indef_array_head()
            + cbor::concat_map(v@, |x: RelaySnapshot| access_point_bytes(x))
            + cbor::break_item()),
{
    broadcast use {crate::cbor::lemma_append_assoc, crate::cbor::lemma_append_empty};

    put_begin_array(enc);
    let ghost pre = enc@;
    let mut i: usize = 0;
    while i < v.len()
        invariant
            i <= v.len(),
            enc@ == pre + cbor::concat_map(
                v@.take(i as int),
                |x: RelaySnapshot| access_point_bytes(x),
            ),
        decreases v.len() - i,
    {
        proof {
            cbor::lemma_concat_map_step(v@, |x: RelaySnapshot| access_point_bytes(x), i as int);
        }
        encode_ledger_relay(enc, &v[i]);
        i += 1;
    }
    assert(v@.take(v.len() as int) =~= v@);
    put_end(enc);
}

spec fn deref(v: Seq<&LedgerPeerEntry>) -> Seq<LedgerPeerEntry> {
    v.map_values(|p: &LedgerPeerEntry| *p)
}

fn peers_by_stake<'a>(peers: &'a Vec<LedgerPeerEntry>) -> (r: Vec<&'a LedgerPeerEntry>)
    ensures
        deref(r@) == by_stake(peers@),
{
    let ghost ge = |a: LedgerPeerEntry, b: LedgerPeerEntry| a.stake >= b.stake;
    let ghost staked = |p: LedgerPeerEntry| p.stake > 0;
    let mut r: Vec<&'a LedgerPeerEntry> = Vec::new();
    let mut i: usize = 0;
    proof {
        reveal(Seq::filter);
        assert(peers@.take(0).filter(staked) =~= Seq::empty());
        assert(deref(r@) =~= order::sorted_by(peers@.take(0).filter(staked), ge));
    }
    while i < peers.len()
        invariant
            i <= peers.len(),
            ge == (|a: LedgerPeerEntry, b: LedgerPeerEntry| a.stake >= b.stake),
            staked == (|p: LedgerPeerEntry| p.stake > 0),
            deref(r@) == order::sorted_by(peers@.take(i as int).filter(staked), ge),
        decreases peers.len() - i,
    {
        let x = &peers[i];
        proof {
            reveal(Seq::filter);
            assert(peers@.take(i + 1).drop_last() =~= peers@.take(i as int));
            let done = peers@.take(i as int).filter(staked);
            assert(done.push(*x).drop_last() =~= done);
        }
        if x.stake > 0 {
            let mut p: usize = r.len();
            while p > 0 && r[p - 1].stake < x.stake
                invariant
                    p <= r.len(),
                    ge == (|a: LedgerPeerEntry, b: LedgerPeerEntry| a.stake >= b.stake),
                    forall|j: int| p <= j < r.len() ==> !ge(#[trigger] deref(r@)[j], *x),
                decreases p,
            {
                p -= 1;
            }
            proof {
                order::lemma_insert_position(deref(r@), *x, ge, p as int);
            }
            let ghost before = r@;
            r.insert(p, x);
            assert(deref(r@) =~= deref(before).insert(p as int, *x));
        }
        i += 1;
    }
    assert(peers@.take(peers.len() as int) =~= peers@);
    r
}

proof fn lemma_stake_sum_step(s: Seq<LedgerPeerEntry>, i: int)
    requires
        0 <= i < s.len(),
    ensures
        stake_sum(s.take(i + 1)) == stake_sum(s.take(i)) + s[i].stake,
{
    assert(s.take(i + 1).drop_last() =~= s.take(i));
}

proof fn lemma_stake_sum_monotone(s: Seq<LedgerPeerEntry>, i: int, j: int)
    requires
        0 <= i <= j <= s.len(),
    ensures
        0 <= stake_sum(s.take(i)) <= stake_sum(s.take(j)),
    decreases j,
{
    if i < j {
        lemma_stake_sum_step(s, j - 1);
        lemma_stake_sum_monotone(s, i, j - 1);
    } else if i > 0 {
        lemma_stake_sum_step(s, i - 1);
        lemma_stake_sum_monotone(s, i - 1, i - 1);
    }
}

proof fn lemma_stake_sum_prefix(s: Seq<LedgerPeerEntry>, i: int)
    requires
        0 <= i <= s.len(),
    ensures
        0 <= stake_sum(s.take(i)) <= stake_sum(s),
{
    assert(s.take(s.len() as int) =~= s);
    lemma_stake_sum_monotone(s, i, s.len() as int);
}

/// The big ledger peers hold at least nine tenths of the stake, rounded down, and
/// without the smallest of them they do not.
pub proof fn lemma_big_peers_hold_nine_tenths(peers: Seq<LedgerPeerEntry>)
    ensures
        ({
            let s = by_stake(peers);
            let big = big_peers(peers);
            let cutoff = stake_sum(s) * 9 / 10;
            &&& big.is_prefix_of(s)
            &&& stake_sum(big) >= cutoff
            &&& big.len() > 1 ==> stake_sum(big.drop_last()) < cutoff
        }),
{
    let s = by_stake(peers);
    let cutoff = stake_sum(s) * 9 / 10;
    lemma_reaching(s, cutoff, 0);
    let n = reaching(s, cutoff, 0);
    assert(s.take(s.len() as int) =~= s);
    lemma_stake_sum_prefix(s, 0);
    assert(big_peers(peers) =~= s.take(n));
    if n > 1 {
        assert(s.take(n).drop_last() =~= s.take(n - 1));
    }
}

proof fn lemma_reaching(s: Seq<LedgerPeerEntry>, cutoff: int, n: int)
    requires
        0 <= n <= s.len(),
    ensures
        ({
            let m = reaching(s, cutoff, n);
            &&& n <= m <= s.len()
            &&& m < s.len() ==> stake_sum(s.take(m)) >= cutoff
            &&& m > n + 1 ==> stake_sum(s.take(m - 1)) < cutoff
        }),
    decreases s.len() - n,
{
    if n < s.len() && stake_sum(s.take(n + 1)) < cutoff {
        lemma_reaching(s, cutoff, n + 1);
        let m = reaching(s, cutoff, n + 1);
        if m == n + 2 {
            assert(s.take(m - 1) =~= s.take(n + 1));
        }
    }
}

/// Whether the stake of the peers can be added up.
pub(crate) fn can_put_ledger_peers(peers: &Vec<LedgerPeerEntry>) -> (r: bool)
    ensures
        r == ledger_peers_fit(peers@),
{
    let sorted = peers_by_stake(peers);
    let ghost s = deref(sorted@);
    let mut total: u128 = 0;
    let mut i: usize = 0;
    while i < sorted.len()
        invariant
            i <= sorted.len(),
            s == deref(sorted@),
            s == by_stake(peers@),
            total == stake_sum(s.take(i as int)),
            total * 9 <= u64::MAX,
        decreases sorted.len() - i,
    {
        proof {
            lemma_stake_sum_step(s, i as int);
            lemma_stake_sum_prefix(s, i + 1);
        }
        total += sorted[i].stake as u128;
        if total * 9 > u64::MAX as u128 {
            return false;
        }
        i += 1;
    }
    assert(s.take(sorted.len() as int) =~= s);
    true
}

/// Appends the snapshot of the big ledger peers.
pub(crate) fn put_ledger_peers(enc: &mut Vec<u8>, peers: &Vec<LedgerPeerEntry>)
    requires
        ledger_peers_fit(peers@),
    ensures
        final(enc)@ == old(enc)@ + ledger_peers_bytes(peers@),
{
    broadcast use {crate::cbor::lemma_append_assoc, crate::cbor::lemma_append_empty};

    let sorted = peers_by_stake(peers);
    let ghost s = deref(sorted@);
    let mut total: u64 = 0;
    let mut i: usize = 0;
    while i < sorted.len()
        invariant
            i <= sorted.len(),
            s == deref(sorted@),
            stake_sum(s) * 9 <= u64::MAX,
            total == stake_sum(s.take(i as int)),
        decreases sorted.len() - i,
    {
        proof {
            lemma_stake_sum_step(s, i as int);
            lemma_stake_sum_prefix(s, i + 1);
        }
        total += sorted[i].stake;
        i += 1;
    }
    assert(s.take(sorted.len() as int) =~= s);
    let cutoff: u64 = total * 9 / 10;
    let mut acc: u64 = 0;
    let mut n: usize = 0;
    let mut reached: bool = false;
    while n < sorted.len() && !reached
        invariant
            n <= sorted.len(),
            s == deref(sorted@),
            stake_sum(s) * 9 <= u64::MAX,
            acc == stake_sum(s.take(n as int)),
            reached ==> reaching(s, cutoff as int, 0) == n,
            !reached ==> reaching(s, cutoff as int, 0) == reaching(s, cutoff as int, n as int),
        decreases sorted.len() - n,
    {
        proof {
            lemma_stake_sum_step(s, n as int);
            lemma_stake_sum_prefix(s, n + 1);
        }
        acc += sorted[n].stake;
        n += 1;
        if acc >= cutoff {
            reached = true;
        }
    }
    let ghost big = big_peers(peers@);
    assert(big =~= s.take(n as int));
    let den: u64 = max_one(total);
    put_array(enc, 2);
    put_u32(enc, 1);
    put_array(enc, 2);
    put_array(enc, 1);
    put_u32(enc, 0);
    put_begin_array(enc);
    let ghost pre = enc@;
    let mut acc_num: u64 = 0;
    let mut k: usize = 0;
    while k < n
        invariant
            k <= n <= sorted.len(),
            s == deref(sorted@),
            big == s.take(n as int),
            stake_sum(s) * 9 <= u64::MAX,
            acc_num == stake_sum(big.take(k as int)),
            enc@ == pre + big_peer_items(big, k as int, den as int),
        decreases n - k,
    {
        let peer = sorted[k];
        proof {
            lemma_stake_sum_step(big, k as int);
            assert(big.take(k + 1) =~= s.take(k + 1));
            lemma_stake_sum_prefix(s, k + 1);
        }
        acc_num += peer.stake;
        put_array(enc, 2);
        put_pair(enc, acc_num, den);
        put_array(enc, 2);
        put_pair(enc, peer.stake, den);
        put_access_points(enc, &peer.relays);
        k += 1;
    }
    put_end(enc);
}

/// The ledger peers that count are those that have stake, and no other; the one with the
/// larger stake comes first.
pub proof fn lemma_peers_by_stake(peers: Seq<LedgerPeerEntry>)
    ensures
        by_stake(peers).to_multiset() == peers.filter(
            |p: LedgerPeerEntry| p.stake > 0,
        ).to_multiset(),
        forall|i: int, j: int|
            0 <= i < j < by_stake(peers).len() ==> (#[trigger] by_stake(peers)[i]).stake
                >= (#[trigger] by_stake(peers)[j]).stake,
{
    let le = |a: LedgerPeerEntry, b: LedgerPeerEntry| a.stake >= b.stake;
    let s = peers.filter(|p: LedgerPeerEntry| p.stake > 0);
    order::lemma_sorted_by(s, le);
    assert forall|i: int, j: int| 0 <= i < j < by_stake(peers).len() implies (#[trigger] by_stake(
        peers,
    )[i]).stake >= (#[trigger] by_stake(peers)[j]).stake by {
        assert(le(by_stake(peers)[i], by_stake(peers)[j]));
    }
}

/// The stake of all peers together grows by that of each peer.
pub proof fn lemma_stake_adds_up(s: Seq<LedgerPeerEntry>, p: LedgerPeerEntry)
    ensures
        stake_sum(s.push(p)) == stake_sum(s) + p.stake,
        stake_sum(Seq::empty()) == 0,
{
    assert(s.push(p).drop_last() =~= s);
}

} // verus!
