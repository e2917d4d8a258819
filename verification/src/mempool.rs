//! The mempool, as the mini-protocols see it.
use vstd::prelude::*;

verus! {

/// What became of a transaction that was handed to the mempool.
#[derive(Debug)]
pub enum AddTxOutcome {
    /// It was added.
    Added,
    /// It was there already.
    AlreadyExists,
    /// It does not decode in the given era.
    Undecodable(String),
    /// The mempool does not take it.
    Refused(String),
}

/// A mempool. It may change between any two calls, so each method comes with a
/// relation that says which answers it may give, and with no more. A mempool that does
/// not define a relation may give any answer.
///
/// The two methods that add transactions also say what they may be given. A caller has
/// to know that they may, so it adds nothing else. A mempool that does not define this
/// may be given anything.
pub trait MempoolProvider: Send + Sync + 'static {
    /// What `add_tx` may be given.
    open spec fn may_be_offered(&self, era_id: u16, tx: Seq<u8>) -> bool {
        true
    }

    /// What `add_tx_with_fee` may be given.
    open spec fn may_be_given(&self, hash: Seq<u8>, era_id: u16, tx: Seq<u8>) -> bool {
        true
    }

    /// What `add_tx` may return.
    open spec fn may_add(&self, era_id: u16, tx: Seq<u8>, r: AddTxOutcome) -> bool {
        true
    }

    /// What `add_tx_with_fee` may return.
    open spec fn may_add_with_fee(
        &self,
        hash: Seq<u8>,
        era_id: u16,
        tx: Seq<u8>,
        r: AddTxOutcome,
    ) -> bool {
        true
    }

    /// What `contains` may return.
    open spec fn may_contain(&self, hash: Seq<u8>, r: bool) -> bool {
        true
    }

    /// What `tx_hashes_ordered` may return.
    open spec fn may_list(&self, r: Seq<[u8; 32]>) -> bool {
        true
    }

    /// What `first_tx_hash` may return.
    open spec fn may_start_with(&self, r: Option<[u8; 32]>) -> bool {
        true
    }

    /// What `get_tx_cbor` may return.
    open spec fn may_hold(&self, hash: Seq<u8>, r: Option<Seq<u8>>) -> bool {
        true
    }

    /// What `get_tx_raw` may return.
    open spec fn may_keep(&self, hash: Seq<u8>, r: Option<Seq<u8>>) -> bool {
        true
    }

    /// What `get_tx_size` may return.
    open spec fn may_measure(&self, hash: Seq<u8>, r: Option<usize>) -> bool {
        true
    }

    /// What `len` may return.
    open spec fn may_count(&self, len: usize) -> bool {
        true
    }

    /// What `total_bytes` may return.
    open spec fn may_weigh(&self, total_bytes: usize) -> bool {
        true
    }

    /// What `capacity` may return.
    open spec fn may_fit(&self, capacity: usize) -> bool {
        true
    }

    /// Decodes a transaction of the given era and adds it, keeping its bytes.
    fn add_tx(&self, era_id: u16, tx_bytes: &[u8]) -> (r: AddTxOutcome)
        requires
            self.may_be_offered(era_id, tx_bytes@),
        ensures
            self.may_add(era_id, tx_bytes@, r),
    ;

    /// Decodes a transaction of the given era, which a peer announced under `hash`,
    /// and adds it with its fee.
    fn add_tx_with_fee(&self, hash: &[u8; 32], era_id: u16, tx_bytes: &[u8]) -> (r: AddTxOutcome)
        requires
            self.may_be_given(hash@, era_id, tx_bytes@),
        ensures
            self.may_add_with_fee(hash@, era_id, tx_bytes@, r),
    ;

    /// Whether the transaction is there.
    fn contains(&self, hash: &[u8; 32]) -> (r: bool)
        ensures
            self.may_contain(hash@, r),
    ;

    /// The hashes of the transactions, in the order in which they were added.
    fn tx_hashes_ordered(&self) -> (r: Vec<[u8; 32]>)
        ensures
            self.may_list(r@),
    ;

    /// The hash of the first transaction.
    fn first_tx_hash(&self) -> (r: Option<[u8; 32]>)
        ensures
            self.may_start_with(r),
    ;

    /// The bytes of a transaction.
    fn get_tx_cbor(&self, hash: &[u8; 32]) -> (r: Option<Vec<u8>>)
        ensures
            self.may_hold(hash@, opt_bytes(r)),
    ;

    /// The bytes from which a transaction was decoded, where the decoded transaction
    /// keeps them.
    fn get_tx_raw(&self, hash: &[u8; 32]) -> (r: Option<Vec<u8>>)
        ensures
            self.may_keep(hash@, opt_bytes(r)),
    ;

    /// The size of a transaction.
    fn get_tx_size(&self, hash: &[u8; 32]) -> (r: Option<usize>)
        ensures
            self.may_measure(hash@, r),
    ;

    /// Number of transactions.
    fn len(&self) -> (r: usize)
        ensures
            self.may_count(r),
    ;

    /// Bytes of all transactions.
    fn total_bytes(&self) -> (r: usize)
        ensures
            self.may_weigh(r),
    ;

    /// Number of transactions that fit.
    fn capacity(&self) -> (r: usize)
        ensures
            self.may_fit(r),
    ;
}

/// The contents of an optional byte string.
pub open spec fn opt_bytes(o: Option<Vec<u8>>) -> Option<Seq<u8>> {
    match o {
        Some(v) => Some(v@),
        None => None,
    }
}

} // verus!
