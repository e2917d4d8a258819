//! Ranking peers by a score. Scores come as integers of which the larger is the better.
use crate::address::SocketAddr;
use crate::order;
use vstd::prelude::*;

verus! {

/// A peer with its score.
pub type Scored = (SocketAddr, i64);

/// The order of a ranking: the better peer comes first.
pub open spec fn not_worse() -> spec_fn(Scored, Scored) -> bool {
    |a: Scored, b: Scored| a.1 >= b.1
}

/// The addresses of scored peers.
pub open spec fn addresses(v: Seq<Scored>) -> Seq<SocketAddr> {
    v.map_values(|x: Scored| x.0)
}

/// The `n` best peers, the best one first; equal ones keep their order.
pub open spec fn best(v: Seq<Scored>, n: nat) -> Seq<SocketAddr> {
    let ranked = addresses(order::sorted_by(v, not_worse()));
    if n < ranked.len() {
        ranked.take(n as int)
    } else {
        ranked
    }
}

/// Whether `v` lists the members of `s`, each once and with its score.
pub open spec fn enumerates(
    v: Seq<Scored>,
    s: Set<SocketAddr>,
    score: spec_fn(SocketAddr) -> i64,
) -> bool {
    &&& addresses(v).no_duplicates()
    &&& addresses(v).to_set() == s
    &&& forall|i: int| 0 <= i < v.len() ==> (#[trigger] v[i]).1 == score(v[i].0)
}

proof fn lemma_ranked(v: Seq<Scored>, s: Set<SocketAddr>, score: spec_fn(SocketAddr) -> i64)
    requires
        enumerates(v, s, score),
    ensures
        enumerates(order::sorted_by(v, not_worse()), s, score),
        order::ordered(order::sorted_by(v, not_worse()), not_worse()),
        order::sorted_by(v, not_worse()).len() == v.len(),
{
    let r = order::sorted_by(v, not_worse());
    order::lemma_sorted_by(v, not_worse());
    broadcast use vstd::seq_lib::group_to_multiset_ensures;

    assert forall|x: Scored| v.contains(x) <==> r.contains(x) by {
        assert(v.contains(x) <==> v.to_multiset().count(x) > 0);
        assert(r.contains(x) <==> r.to_multiset().count(x) > 0);
    }
    assert(v.no_duplicates()) by {
        assert forall|i: int, j: int| 0 <= i < v.len() && 0 <= j < v.len() && i != j implies v[i]
            != v[j] by {
            assert(addresses(v)[i] != addresses(v)[j]);
        }
    }
    v.lemma_multiset_has_no_duplicates();
    r.lemma_multiset_has_no_duplicates_conv();
    assert forall|i: int| 0 <= i < r.len() implies (#[trigger] r[i]).1 == score(r[i].0) by {
        assert(r.contains(r[i]));
        let j = choose|j: int| 0 <= j < v.len() && v[j] == r[i];
        assert(v[j].1 == score(v[j].0));
    }
    assert forall|i: int, j: int|
        0 <= i < r.len() && 0 <= j < r.len() && i != j implies addresses(r)[i]
        != addresses(r)[j] by {
        if r[i].0 == r[j].0 {
            assert(r[i] == r[j]);
        }
    }
    assert forall|a: SocketAddr| addresses(v).contains(a) <==> addresses(r).contains(a) by {
        if addresses(v).contains(a) {
            let i = choose|i: int| 0 <= i < v.len() && addresses(v)[i] == a;
            assert(v.contains(v[i]));
            let j = choose|j: int| 0 <= j < r.len() && r[j] == v[i];
            assert(addresses(r)[j] == a);
        }
        if addresses(r).contains(a) {
            let i = choose|i: int| 0 <= i < r.len() && addresses(r)[i] == a;
            assert(r.contains(r[i]));
            let j = choose|j: int| 0 <= j < v.len() && v[j] == r[i];
            assert(addresses(v)[j] == a);
        }
    }
    assert(addresses(r).to_set() =~= addresses(v).to_set());
}

/// Ranking neither loses nor adds a peer.
pub proof fn lemma_ranking_keeps_len(v: Seq<Scored>)
    ensures
        order::sorted_by(v, not_worse()).len() == v.len(),
{
    order::lemma_sorted_by(v, not_worse());
}

/// Whichever way the members of `s` are listed, the `n` best of them are members of it,
/// none of them twice, as many as there are up to `n`; each has at least the score of the
/// next one, and of every member that is not among them.
pub proof fn lemma_best(
    v: Seq<Scored>,
    s: Set<SocketAddr>,
    score: spec_fn(SocketAddr) -> i64,
    n: nat,
)
    requires
        enumerates(v, s, score),
    ensures
        ({
            let r = best(v, n);
            &&& s.finite()
            &&& r.len() == if n < s.len() {
                n
            } else {
                s.len()
            }
            &&& r.no_duplicates()
            &&& forall|i: int| 0 <= i < r.len() ==> s.contains(#[trigger] r[i])
            &&& forall|i: int, j: int|
                0 <= i < j < r.len() ==> score(#[trigger] r[i]) >= score(#[trigger] r[j])
            &&& forall|i: int, a: SocketAddr|
                0 <= i < r.len() && #[trigger] s.contains(a) && !r.contains(a) ==> score(
                    #[trigger] r[i],
                ) >= score(a)
        }),
{
    let sorted = order::sorted_by(v, not_worse());
    lemma_ranked(v, s, score);
    addresses(v).unique_seq_to_set();
    let r = best(v, n);
    let all = addresses(sorted);
    assert forall|i: int| 0 <= i < r.len() implies s.contains(#[trigger] r[i]) && r[i]
        == sorted[i].0 by {
        assert(r[i] == all[i]);
        assert(all.contains(all[i]));
    }
    assert forall|i: int, j: int| 0 <= i < j < r.len() implies score(#[trigger] r[i]) >= score(
        #[trigger] r[j],
    ) by {
        assert(not_worse()(sorted[i], sorted[j]));
    }
    assert forall|i: int, a: SocketAddr|
        0 <= i < r.len() && #[trigger] s.contains(a) && !r.contains(a) implies score(
        #[trigger] r[i],
    ) >= score(a) by {
        assert(all.contains(a));
        let j = choose|j: int| 0 <= j < all.len() && all[j] == a;
        if j < r.len() {
            assert(r[j] == a);
        }
        assert(not_worse()(sorted[i], sorted[j]));
    }
}

/// The `n` best peers, the best one first.
pub fn best_of(v: &Vec<Scored>, n: usize) -> (r: Vec<SocketAddr>)
    ensures
        r@ == best(v@, n as nat),
{
    let ghost le = not_worse();
    let mut sorted: Vec<Scored> = Vec::new();
    let mut i: usize = 0;
    assert(sorted@ =~= order::sorted_by(v@.take(0), le));
    while i < v.len()
        invariant
            i <= v.len(),
            le == not_worse(),
            sorted@ == order::sorted_by(v@.take(i as int), le),
            sorted.len() == i,
        decreases v.len() - i,
    {
        let x: Scored = v[i];
        let mut p: usize = sorted.len();
        while p > 0 && sorted[p - 1].1 < x.1
            invariant
                p <= sorted.len(),
                le == not_worse(),
                forall|j: int| p <= j < sorted.len() ==> !le(#[trigger] sorted@[j], x),
            decreases p,
        {
            p -= 1;
        }
        proof {
            order::lemma_insert_position(sorted@, x, le, p as int);
            assert(v@.take(i + 1).drop_last() =~= v@.take(i as int));
        }
        sorted.insert(p, x);
        i += 1;
    }
    assert(v@.take(i as int) =~= v@);
    let count: usize = if n < sorted.len() {
        n
    } else {
        sorted.len()
    };
    let mut r: Vec<SocketAddr> = Vec::new();
    let mut k: usize = 0;
    while k < count
        invariant
            k <= count <= sorted.len(),
            r@.len() == k,
            forall|j: int| 0 <= j < k ==> r@[j] == sorted@[j].0,
        decreases count - k,
    {
        r.push(sorted[k].0);
        k += 1;
    }
    assert(r@ =~= best(v@, n as nat));
    r
}

} // verus!
