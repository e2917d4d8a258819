//! Points of the chain, and its tip, as both servers write them.
use crate::cbor;
use crate::cbor::{get_array, get_u32, put_array, put_bytes, put_u64};
use crate::words;
use vstd::prelude::*;

verus! {

/// A point: `[slot, hash]`.
pub open spec fn point_bytes(slot: u64, hash: Seq<u8>) -> Seq<u8> {
    cbor::array_head(2) + cbor::uint(slot as nat) + cbor::bytes_item(hash)
}

/// A tip: `[[slot, hash], block number]`.
pub open spec fn tip_bytes(slot: u64, hash: Seq<u8>, block_no: u64) -> Seq<u8> {
    cbor::array_head(2) + point_bytes(slot, hash) + cbor::uint(block_no as nat)
}

/// Appends a point.
pub fn encode_point(enc: &mut Vec<u8>, slot: u64, hash: &[u8; 32])
    ensures
        final(enc)@ == old(enc)@ + point_bytes(slot, hash@),
{
    broadcast use crate::cbor::lemma_append_assoc;

    put_array(enc, 2);
    put_u64(enc, slot);
    put_bytes(enc, hash.as_slice());
}

/// Appends a tip.
pub fn encode_tip(enc: &mut Vec<u8>, slot: u64, hash: &[u8; 32], block_no: u64)
    ensures
        final(enc)@ == old(enc)@ + tip_bytes(slot, hash@, block_no),
{
    broadcast use crate::cbor::lemma_append_assoc;

    put_array(enc, 2);
    encode_point(enc, slot, hash);
    put_u64(enc, block_no);
}

/// The number of the era that a block starts with: `[era, ...]`. Without one it is 6.
pub open spec fn era_of(block: Seq<u8>) -> u32 {
    let a = cbor::len_at(block, 0, 4);
    match cbor::uint_at(block, a.end, u32::MAX as nat).value {
        Some(n) => n as u32,
        None => 6,
    }
}

/// The number of the era that a block starts with.
pub fn block_era(block: &[u8]) -> (r: u32)
    ensures
        r == era_of(block@),
{
    let mut pos: usize = 0;
    let _ = get_array(block, &mut pos);
    match get_u32(block, &mut pos) {
        Ok(n) => n,
        Err(_) => 6,
    }
}

/// A point is read as its slot and its hash.
pub broadcast proof fn lemma_point_is_read(slot: u64, hash: Seq<u8>)
    requires
        hash.len() <= u64::MAX,
    ensures
        #[trigger] words::spells(
            point_bytes(slot, hash),
            words::arr(2) + words::num(slot as nat) + words::bin(hash),
        ),
{
    broadcast use words::group_words;

}

/// A tip is read as its point and its block number.
pub broadcast proof fn lemma_tip_is_read(slot: u64, hash: Seq<u8>, block_no: u64)
    requires
        hash.len() <= u64::MAX,
    ensures
        #[trigger] words::spells(
            tip_bytes(slot, hash, block_no),
            words::arr(2) + (words::arr(2) + words::num(slot as nat) + words::bin(hash))
                + words::num(block_no as nat),
        ),
{
    broadcast use words::group_words;

}

/// The era of a block is the number that is read first in its array.
pub proof fn lemma_era_is_read(block: Seq<u8>, n: nat, era: u32, q: int)
    requires
        words::reads(block, 0, words::arr(n) + words::num(era as nat), q),
    ensures
        era_of(block) == era,
{
    let m = words::lemma_reads_split(block, 0, words::arr(n), words::num(era as nat), q);
    words::lemma_array_at(block, 0, n, m);
    words::lemma_number_at(block, m, era as nat, q);
}

} // verus!
