//! Sorting.
use vstd::prelude::*;

verus! {

/// `x` put into `s`: behind the last item that is not greater than `x`, with the
/// items after that one moved up.
pub open spec fn insert_by<T>(s: Seq<T>, x: T, le: spec_fn(T, T) -> bool) -> Seq<T>
    decreases s.len(),
{
    if s.len() == 0 || le(s.last(), x) {
        s.push(x)
    } else {
        insert_by(s.drop_last(), x, le).push(s.last())
    }
}

/// The items of `s` in the order of `le`; items that `le` does not tell apart keep
/// their order.
pub open spec fn sorted_by<T>(s: Seq<T>, le: spec_fn(T, T) -> bool) -> Seq<T>
    decreases s.len(),
{
    if s.len() == 0 {
        s
    } else {
        insert_by(sorted_by(s.drop_last(), le), s.last(), le)
    }
}

/// Whether `le` compares any two items, and is transitive.
pub open spec fn total_preorder<T>(le: spec_fn(T, T) -> bool) -> bool {
    &&& forall|a: T, b: T| #[trigger] le(a, b) || le(b, a)
    &&& forall|a: T, b: T, c: T| #[trigger] le(a, b) && #[trigger] le(b, c) ==> le(a, c)
}

/// Whether no item is followed by a smaller one.
pub open spec fn ordered<T>(s: Seq<T>, le: spec_fn(T, T) -> bool) -> bool {
    forall|i: int, j: int| 0 <= i < j < s.len() ==> le(#[trigger] s[i], #[trigger] s[j])
}

proof fn lemma_insert_by<T>(s: Seq<T>, x: T, le: spec_fn(T, T) -> bool)
    requires
        total_preorder(le),
        ordered(s, le),
    ensures
        ordered(insert_by(s, x, le), le),
        insert_by(s, x, le).to_multiset() == s.to_multiset().insert(x),
        insert_by(s, x, le).len() == s.len() + 1,
        s.len() > 0 ==> insert_by(s, x, le).last() == s.last() || insert_by(s, x, le).last() == x,
        s.len() > 0 && !le(s.last(), x) ==> insert_by(s, x, le).last() == s.last(),
    decreases s.len(),
{
    broadcast use vstd::seq_lib::group_to_multiset_ensures;

    if s.len() == 0 || le(s.last(), x) {
        assert forall|i: int, j: int| 0 <= i < j < s.push(x).len() implies le(
            #[trigger] s.push(x)[i],
            #[trigger] s.push(x)[j],
        ) by {
            if j == s.len() && i < s.len() - 1 {
                assert(le(s[i], s[s.len() - 1]));
            }
        }
    } else {
        let init = s.drop_last();
        let rest = insert_by(init, x, le);
        lemma_insert_by(init, x, le);
        assert(s =~= init.push(s.last()));
        assert forall|i: int| 0 <= i < rest.len() implies le(#[trigger] rest[i], s.last()) by {
            assert(le(x, s.last()));
            lemma_insert_by_members(init, x, le, i);
        }
        assert forall|i: int, j: int| 0 <= i < j < rest.push(s.last()).len() implies le(
            #[trigger] rest.push(s.last())[i],
            #[trigger] rest.push(s.last())[j],
        ) by {
            if j == rest.len() {
                assert(le(rest[i], s.last()));
            }
        }
    }
}

proof fn lemma_insert_by_members<T>(s: Seq<T>, x: T, le: spec_fn(T, T) -> bool, i: int)
    requires
        0 <= i < insert_by(s, x, le).len(),
    ensures
        insert_by(s, x, le)[i] == x || exists|j: int|
            0 <= j < s.len() && insert_by(s, x, le)[i] == #[trigger] s[j],
        insert_by(s, x, le).len() == s.len() + 1,
    decreases s.len(),
{
    if s.len() == 0 || le(s.last(), x) {
        if i < s.len() {
            assert(insert_by(s, x, le)[i] == s[i]);
        }
    } else {
        let rest = insert_by(s.drop_last(), x, le);
        lemma_insert_by_len(s.drop_last(), x, le);
        if i < rest.len() {
            lemma_insert_by_members(s.drop_last(), x, le, i);
            if rest[i] != x {
                let j = choose|j: int|
                    0 <= j < s.drop_last().len() && rest[i] == #[trigger] s.drop_last()[j];
                assert(s[j] == rest[i]);
            }
        } else {
            assert(insert_by(s, x, le)[i] == s[s.len() - 1]);
        }
    }
}

proof fn lemma_insert_by_len<T>(s: Seq<T>, x: T, le: spec_fn(T, T) -> bool)
    ensures
        insert_by(s, x, le).len() == s.len() + 1,
    decreases s.len(),
{
    if s.len() > 0 && !le(s.last(), x) {
        lemma_insert_by_len(s.drop_last(), x, le);
    }
}

/// Sorting neither loses nor adds an item, and no item of the result is followed by
/// a smaller one.
pub proof fn lemma_sorted_by<T>(s: Seq<T>, le: spec_fn(T, T) -> bool)
    requires
        total_preorder(le),
    ensures
        sorted_by(s, le).to_multiset() == s.to_multiset(),
        ordered(sorted_by(s, le), le),
        sorted_by(s, le).len() == s.len(),
    decreases s.len(),
{
    broadcast use vstd::seq_lib::group_to_multiset_ensures;

    if s.len() > 0 {
        lemma_sorted_by(s.drop_last(), le);
        lemma_insert_by(sorted_by(s.drop_last(), le), s.last(), le);
        assert(s =~= s.drop_last().push(s.last()));
    }
}

/// Where an item goes: position `p`, if the item before `p` is not greater and those
/// from `p` on are.
pub proof fn lemma_insert_position<T>(s: Seq<T>, x: T, le: spec_fn(T, T) -> bool, p: int)
    requires
        0 <= p <= s.len(),
        p == 0 || le(s[p - 1], x),
        forall|j: int| p <= j < s.len() ==> !le(#[trigger] s[j], x),
    ensures
        insert_by(s, x, le) == s.insert(p, x),
    decreases s.len(),
{
    if p == s.len() {
        assert(s.insert(p, x) =~= s.push(x));
    } else {
        assert(!le(s[s.len() - 1], x));
        lemma_insert_position(s.drop_last(), x, le, p);
        assert(s.insert(p, x) =~= s.drop_last().insert(p, x).push(s.last()));
    }
}

// ---------------------------------------------------------------------------
// Byte strings
// ---------------------------------------------------------------------------

/// Lexicographic order: a proper prefix comes first, else the first byte that
/// differs decides.
pub open spec fn lex_le(a: Seq<u8>, b: Seq<u8>) -> bool
    decreases a.len(),
{
    if a.len() == 0 {
        true
    } else if b.len() == 0 {
        false
    } else if a[0] != b[0] {
        a[0] < b[0]
    } else {
        lex_le(a.skip(1), b.skip(1))
    }
}

/// The contents of a list of byte strings.
pub open spec fn contents(v: Seq<Vec<u8>>) -> Seq<Seq<u8>> {
    v.map_values(|x: Vec<u8>| x@)
}

/// Byte strings in lexicographic order.
pub open spec fn sorted_bytes(s: Seq<Seq<u8>>) -> Seq<Seq<u8>> {
    sorted_by(s, |a: Seq<u8>, b: Seq<u8>| lex_le(a, b))
}

/// Lexicographic order compares any two byte strings, and is transitive.
pub proof fn lemma_lex_total_preorder()
    ensures
        total_preorder(|a: Seq<u8>, b: Seq<u8>| lex_le(a, b)),
{
    let le = |a: Seq<u8>, b: Seq<u8>| lex_le(a, b);
    assert forall|a: Seq<u8>, b: Seq<u8>| #[trigger] le(a, b) || le(b, a) by {
        lemma_lex_total(a, b);
    }
    assert forall|a: Seq<u8>, b: Seq<u8>, c: Seq<u8>|
        #[trigger] le(a, b) && #[trigger] le(b, c) implies le(a, c) by {
        lemma_lex_transitive(a, b, c);
    }
}

proof fn lemma_lex_total(a: Seq<u8>, b: Seq<u8>)
    ensures
        lex_le(a, b) || lex_le(b, a),
    decreases a.len(),
{
    if a.len() > 0 && b.len() > 0 && a[0] == b[0] {
        lemma_lex_total(a.skip(1), b.skip(1));
    }
}

proof fn lemma_lex_transitive(a: Seq<u8>, b: Seq<u8>, c: Seq<u8>)
    requires
        lex_le(a, b),
        lex_le(b, c),
    ensures
        lex_le(a, c),
    decreases a.len(),
{
    if a.len() > 0 && b.len() > 0 && c.len() > 0 && a[0] == b[0] && b[0] == c[0] {
        lemma_lex_transitive(a.skip(1), b.skip(1), c.skip(1));
    }
}

/// Whether `a` comes before `b` or equals it.
pub fn lex_not_after(a: &[u8], b: &[u8]) -> (r: bool)
    ensures
        r == lex_le(a@, b@),
{
    let mut i: usize = 0;
    assert(a@.skip(0) =~= a@);
    assert(b@.skip(0) =~= b@);
    while i < a.len() && i < b.len()
        invariant
            i <= a@.len(),
            i <= b@.len(),
            lex_le(a@, b@) == lex_le(a@.skip(i as int), b@.skip(i as int)),
        decreases a@.len() - i,
    {
        assert(a@.skip(i as int)[0] == a@[i as int]);
        assert(b@.skip(i as int)[0] == b@[i as int]);
        if a[i] != b[i] {
            return a[i] < b[i];
        }
        assert(a@.skip(i as int).skip(1) =~= a@.skip(i + 1));
        assert(b@.skip(i as int).skip(1) =~= b@.skip(i + 1));
        i += 1;
    }
    i == a.len()
}

/// The contents of a list of borrowed byte strings.
pub open spec fn ref_contents(v: Seq<&Vec<u8>>) -> Seq<Seq<u8>> {
    v.map_values(|x: &Vec<u8>| x@)
}

/// The byte strings in lexicographic order.
pub fn sort_bytes<'a>(v: &'a Vec<Vec<u8>>) -> (r: Vec<&'a Vec<u8>>)
    ensures
        ref_contents(r@) == sorted_bytes(contents(v@)),
{
    let ghost le = |a: Seq<u8>, b: Seq<u8>| lex_le(a, b);
    let mut r: Vec<&'a Vec<u8>> = Vec::new();
    let mut i: usize = 0;
    assert(ref_contents(r@) =~= sorted_bytes(contents(v@).take(0)));
    while i < v.len()
        invariant
            i <= v.len(),
            le == (|a: Seq<u8>, b: Seq<u8>| lex_le(a, b)),
            ref_contents(r@) == sorted_bytes(contents(v@).take(i as int)),
            r.len() == i,
        decreases v.len() - i,
    {
        let x = &v[i];
        let mut p: usize = r.len();
        while p > 0 && !lex_not_after(r[p - 1], x)
            invariant
                p <= r.len(),
                le == (|a: Seq<u8>, b: Seq<u8>| lex_le(a, b)),
                forall|j: int| p <= j < r.len() ==> !le(#[trigger] ref_contents(r@)[j], x@),
            decreases p,
        {
            p -= 1;
        }
        proof {
            lemma_insert_position(ref_contents(r@), x@, le, p as int);
            let done = contents(v@).take(i + 1);
            assert(done.drop_last() =~= contents(v@).take(i as int));
            assert(done.last() == x@);
        }
        let ghost before = r@;
        r.insert(p, x);
        assert(ref_contents(r@) =~= ref_contents(before).insert(p as int, x@));
        i += 1;
    }
    assert(contents(v@).take(v.len() as int) =~= contents(v@));
    r
}

/// The first byte that differs decides the order of two byte strings, and a string comes before
/// those that it is the start of.
pub proof fn lemma_first_difference_decides(a: Seq<u8>, b: Seq<u8>, k: int)
    requires
        0 <= k <= a.len(),
        k <= b.len(),
        forall|i: int| 0 <= i < k ==> a[i] == b[i],
    ensures
        k < a.len() && k < b.len() && a[k] < b[k] ==> lex_le(a, b) && !lex_le(b, a),
        k == a.len() ==> lex_le(a, b),
        k == a.len() && k < b.len() ==> !lex_le(b, a),
    decreases k,
{
    if k > 0 {
        assert forall|i: int| 0 <= i < k - 1 implies a.skip(1)[i] == b.skip(1)[i] by {
            assert(a[i + 1] == b[i + 1]);
        }
        assert(a[0] == b[0]);
        lemma_first_difference_decides(a.skip(1), b.skip(1), k - 1);
    }
}

proof fn lemma_insert_keeps_equals<T>(s: Seq<T>, x: T, a: T, le: spec_fn(T, T) -> bool)
    requires
        total_preorder(le),
    ensures
        insert_by(s, x, le).filter(|y: T| le(y, a) && le(a, y)) == s.push(x).filter(
            |y: T| le(y, a) && le(a, y),
        ),
    decreases s.len(),
{
    let p = |y: T| le(y, a) && le(a, y);
    reveal(Seq::filter);
    if s.len() > 0 && !le(s.last(), x) {
        let init = s.drop_last();
        lemma_insert_keeps_equals(init, x, a, le);
        let r = insert_by(init, x, le).push(s.last());
        assert(r.drop_last() =~= insert_by(init, x, le));
        assert(r.last() == s.last());
        assert(init.push(x).drop_last() =~= init);
        assert(s.push(x).drop_last() =~= s);
        if p(x) && p(s.last()) {
            assert(le(s.last(), a) && le(a, x));
            assert(le(s.last(), x));
        }
        let kept = init.filter(p);
        assert(s.filter(p) == if p(s.last()) {
            kept.push(s.last())
        } else {
            kept
        });
        assert(init.push(x).filter(p) == if p(x) {
            kept.push(x)
        } else {
            kept
        });
        assert(s.push(x).filter(p) == if p(x) {
            s.filter(p).push(x)
        } else {
            s.filter(p)
        });
        assert(r.filter(p) == if p(s.last()) {
            insert_by(init, x, le).filter(p).push(s.last())
        } else {
            insert_by(init, x, le).filter(p)
        });
    }
}

/// Items that the order does not tell apart come out in the order in which they went in.
pub proof fn lemma_equals_keep_their_order<T>(s: Seq<T>, a: T, le: spec_fn(T, T) -> bool)
    requires
        total_preorder(le),
    ensures
        sorted_by(s, le).filter(|y: T| le(y, a) && le(a, y)) == s.filter(
            |y: T| le(y, a) && le(a, y),
        ),
    decreases s.len(),
{
    let p = |y: T| le(y, a) && le(a, y);
    reveal(Seq::filter);
    if s.len() > 0 {
        let init = s.drop_last();
        let before = sorted_by(init, le);
        lemma_equals_keep_their_order(init, a, le);
        lemma_insert_keeps_equals(before, s.last(), a, le);
        assert(before.push(s.last()).drop_last() =~= before);
    }
}

} // verus!
