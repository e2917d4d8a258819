//! Hashes of 32 bytes.
use vstd::prelude::*;

verus! {

/// The hash of nothing: 32 zero bytes.
pub open spec fn zero_hash() -> Seq<u8> {
    Seq::new(32, |i: int| 0u8)
}

/// The 32 bytes of `s` as a hash.
pub(crate) fn to_hash(s: &[u8]) -> (r: [u8; 32])
    requires
        s@.len() == 32,
    ensures
        r@ == s@,
{
    let mut r: [u8; 32] = [0u8; 32];
    let mut i: usize = 0;
    while i < 32
        invariant
            i <= 32,
            s@.len() == 32,
            r@.take(i as int) == s@.take(i as int),
        decreases 32 - i,
    {
        let ghost before = r@;
        r[i] = s[i];
        proof {
            assert(r@.take(i + 1) =~= before.take(i as int).push(s@[i as int]));
            assert(s@.take(i + 1) =~= s@.take(i as int).push(s@[i as int]));
        }
        i += 1;
    }
    assert(r@.take(32) =~= r@);
    assert(s@.take(32) =~= s@);
    r
}

/// Whether two hashes are equal.
pub(crate) fn same_hash(a: &[u8; 32], b: &[u8; 32]) -> (r: bool)
    ensures
        r == (*a == *b),
        r == (a@ == b@),
{
    let mut i: usize = 0;
    while i < 32
        invariant
            i <= 32,
            forall|j: int| 0 <= j < i ==> a@[j] == b@[j],
        decreases 32 - i,
    {
        if a[i] != b[i] {
            assert(a@[i as int] != b@[i as int]);
            return false;
        }
        i += 1;
    }
    assert(a@ =~= b@);
    assert(*a =~= *b);
    true
}

/// A hash of 32 zero bytes.
pub(crate) fn no_hash() -> (r: [u8; 32])
    ensures
        r@ == zero_hash(),
{
    let r: [u8; 32] = [0u8; 32];
    assert(r@ =~= zero_hash());
    r
}

} // verus!
