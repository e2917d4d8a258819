//! Tables and sets with few entries, as lists that hold no key twice.
use vstd::prelude::*;

verus! {

/// What can be looked up in a table.
pub trait Key: Copy {
    /// Whether two keys are equal.
    fn same(&self, other: &Self) -> (r: bool)
        ensures
            r == (*self == *other),
    ;
}

impl Key for u64 {
    fn same(&self, other: &Self) -> (r: bool) {
        *self == *other
    }
}

/// The keys of a list of entries.
pub open spec fn keys<K, V>(s: Seq<(K, V)>) -> Seq<K> {
    s.map_values(|e: (K, V)| e.0)
}

/// Where the entry of a key is.
pub open spec fn position<K, V>(s: Seq<(K, V)>, k: K) -> int {
    choose|i: int| 0 <= i < s.len() && (#[trigger] s[i]).0 == k
}

/// The list of entries as a map.
pub open spec fn map_of<K, V>(s: Seq<(K, V)>) -> Map<K, V> {
    Map::new(|k: K| keys(s).contains(k), |k: K| s[position(s, k)].1)
}

/// A table.
#[derive(Debug)]
pub struct Table<K, V> {
    pub entries: Vec<(K, V)>,
}

impl<K, V> View for Table<K, V> {
    type V = Map<K, V>;

    open spec fn view(&self) -> Map<K, V> {
        map_of(self.entries@)
    }
}

proof fn lemma_position<K, V>(s: Seq<(K, V)>, i: int)
    requires
        keys(s).no_duplicates(),
        0 <= i < s.len(),
    ensures
        keys(s).contains(s[i].0),
        position(s, s[i].0) == i,
        map_of(s).dom().contains(s[i].0),
        map_of(s)[s[i].0] == s[i].1,
{
    assert(keys(s)[i] == s[i].0);
    let p = position(s, s[i].0);
    assert(0 <= p < s.len() && s[p].0 == s[i].0);
    assert(keys(s)[p] == s[p].0);
}

/// The entries of a well-formed table are those of its map, one for each key.
pub proof fn lemma_entries<K, V>(s: Seq<(K, V)>)
    requires
        keys(s).no_duplicates(),
    ensures
        map_of(s).dom() == keys(s).to_set(),
        map_of(s).dom().finite(),
        map_of(s).dom().len() == s.len(),
        forall|i: int|
            0 <= i < s.len() ==> map_of(s).dom().contains((#[trigger] s[i]).0) && map_of(s)[s[i].0]
                == s[i].1,
        forall|k: K|
            map_of(s).dom().contains(k) ==> exists|i: int|
                0 <= i < s.len() && (#[trigger] s[i]).0 == k,
{
    assert(map_of(s).dom() =~= keys(s).to_set());
    keys(s).unique_seq_to_set();
    assert forall|i: int| 0 <= i < s.len() implies map_of(s).dom().contains((#[trigger] s[i]).0)
        && map_of(s)[s[i].0] == s[i].1 by {
        lemma_position(s, i);
    }
    assert forall|k: K| map_of(s).dom().contains(k) implies exists|i: int|
        0 <= i < s.len() && (#[trigger] s[i]).0 == k by {
        let i = choose|i: int| 0 <= i < keys(s).len() && keys(s)[i] == k;
        assert(s[i].0 == k);
    }
}

proof fn lemma_push<K, V>(s: Seq<(K, V)>, k: K, v: V)
    requires
        keys(s).no_duplicates(),
        !keys(s).contains(k),
    ensures
        keys(s.push((k, v))).no_duplicates(),
        map_of(s.push((k, v))) == map_of(s).insert(k, v),
{
    let t = s.push((k, v));
    assert(keys(t) =~= keys(s).push(k));
    assert forall|i: int, j: int| 0 <= i < t.len() && 0 <= j < t.len() && i != j implies keys(t)[i]
        != keys(t)[j] by {
        if i == s.len() {
            assert(keys(s)[j] != k);
        } else if j == s.len() {
            assert(keys(s)[i] != k);
        }
    }
    lemma_position(t, s.len() as int);
    assert forall|x: K| map_of(t).dom().contains(x) <==> map_of(s).insert(k, v).dom().contains(
        x,
    ) by {
        if keys(s).contains(x) {
            let i = choose|i: int| 0 <= i < keys(s).len() && keys(s)[i] == x;
            assert(keys(t)[i] == x);
        }
        if keys(t).contains(x) && x != k {
            let i = choose|i: int| 0 <= i < keys(t).len() && keys(t)[i] == x;
            assert(keys(s)[i] == x);
        }
    }
    assert forall|x: K| map_of(t).dom().contains(x) implies map_of(t)[x] == map_of(s).insert(
        k,
        v,
    )[x] by {
        if x != k {
            let i = choose|i: int| 0 <= i < keys(s).len() && keys(s)[i] == x;
            lemma_position(s, i);
            assert(t[i] == s[i]);
            lemma_position(t, i);
        }
    }
    assert(map_of(t) =~= map_of(s).insert(k, v));
}

proof fn lemma_update<K, V>(s: Seq<(K, V)>, i: int, v: V)
    requires
        keys(s).no_duplicates(),
        0 <= i < s.len(),
    ensures
        keys(s.update(i, (s[i].0, v))).no_duplicates(),
        map_of(s.update(i, (s[i].0, v))) == map_of(s).insert(s[i].0, v),
{
    let t = s.update(i, (s[i].0, v));
    assert(keys(t) =~= keys(s));
    lemma_position(s, i);
    lemma_position(t, i);
    assert forall|x: K| map_of(t).dom().contains(x) implies map_of(t)[x] == map_of(s).insert(
        s[i].0,
        v,
    )[x] by {
        let j = choose|j: int| 0 <= j < keys(s).len() && keys(s)[j] == x;
        lemma_position(s, j);
        lemma_position(t, j);
    }
    assert(map_of(t) =~= map_of(s).insert(s[i].0, v));
}

proof fn lemma_remove<K, V>(s: Seq<(K, V)>, i: int)
    requires
        keys(s).no_duplicates(),
        0 <= i < s.len(),
    ensures
        keys(s.remove(i)).no_duplicates(),
        map_of(s.remove(i)) == map_of(s).remove(s[i].0),
{
    let t = s.remove(i);
    let k = s[i].0;
    assert(keys(t) =~= keys(s).remove(i));
    assert forall|a: int, b: int| 0 <= a < t.len() && 0 <= b < t.len() && a != b implies keys(t)[a]
        != keys(t)[b] by {
        let a2 = if a < i {
            a
        } else {
            a + 1
        };
        let b2 = if b < i {
            b
        } else {
            b + 1
        };
        assert(keys(t)[a] == keys(s)[a2] && keys(t)[b] == keys(s)[b2]);
    }
    assert(keys(s)[i] == k);
    assert forall|x: K| map_of(t).dom().contains(x) <==> map_of(s).remove(k).dom().contains(x) by {
        if keys(s).contains(x) && x != k {
            let j = choose|j: int| 0 <= j < keys(s).len() && keys(s)[j] == x;
            let j2 = if j < i {
                j
            } else {
                j - 1
            };
            assert(keys(t)[j2] == x);
        }
        if keys(t).contains(x) {
            let j = choose|j: int| 0 <= j < keys(t).len() && keys(t)[j] == x;
            let j2 = if j < i {
                j
            } else {
                j + 1
            };
            assert(keys(s)[j2] == x);
        }
    }
    assert forall|x: K| map_of(t).dom().contains(x) implies map_of(t)[x] == map_of(s).remove(
        k,
    )[x] by {
        let j = choose|j: int| 0 <= j < keys(t).len() && keys(t)[j] == x;
        let j2 = if j < i {
            j
        } else {
            j + 1
        };
        assert(t[j] == s[j2]);
        lemma_position(t, j);
        lemma_position(s, j2);
    }
    assert(map_of(t) =~= map_of(s).remove(k));
}

impl<K: Key, V> Table<K, V> {
    /// Whether the table holds no key twice.
    pub open spec fn wf(&self) -> bool {
        keys(self.entries@).no_duplicates()
    }

    /// An empty table.
    pub fn new() -> (r: Table<K, V>)
        ensures
            r.wf(),
            r@ == Map::<K, V>::empty(),
    {
        let r = Table { entries: Vec::new() };
        assert(r@ =~= Map::empty());
        r
    }

    /// Number of entries.
    pub fn len(&self) -> (r: usize)
        requires
            self.wf(),
        ensures
            r == self@.dom().len(),
            r == self.entries@.len(),
    {
        proof {
            lemma_entries(self.entries@);
        }
        self.entries.len()
    }

    /// Where the entry of `k` is.
    pub fn find(&self, k: &K) -> (r: Option<usize>)
        requires
            self.wf(),
        ensures
            match r {
                Some(i) => i < self.entries@.len() && self.entries@[i as int].0 == *k
                    && self@.dom().contains(*k) && self@[*k] == self.entries@[i as int].1,
                None => !self@.dom().contains(*k),
            },
    {
        let mut i: usize = 0;
        while i < self.entries.len()
            invariant
                self.wf(),
                i <= self.entries@.len(),
                forall|j: int| 0 <= j < i ==> (#[trigger] self.entries@[j]).0 != *k,
            decreases self.entries@.len() - i,
        {
            if self.entries[i].0.same(k) {
                proof {
                    lemma_position(self.entries@, i as int);
                }
                return Some(i);
            }
            i += 1;
        }
        proof {
            lemma_entries(self.entries@);
        }
        None
    }

    /// Whether there is an entry of `k`.
    pub fn contains(&self, k: &K) -> (r: bool)
        requires
            self.wf(),
        ensures
            r == self@.dom().contains(*k),
    {
        self.find(k).is_some()
    }

    /// The value of `k`.
    pub fn get(&self, k: &K) -> (r: Option<&V>)
        requires
            self.wf(),
        ensures
            match r {
                Some(v) => self@.dom().contains(*k) && *v == self@[*k],
                None => !self@.dom().contains(*k),
            },
    {
        match self.find(k) {
            Some(i) => Some(&self.entries[i].1),
            None => None,
        }
    }

    /// Gives `k` the value `v`.
    pub fn insert(&mut self, k: K, v: V)
        requires
            old(self).wf(),
        ensures
            final(self).wf(),
            final(self)@ == old(self)@.insert(k, v),
    {
        match self.find(&k) {
            Some(i) => {
                proof {
                    lemma_update(self.entries@, i as int, v);
                }
                self.entries.set(i, (k, v));
            },
            None => {
                proof {
                    lemma_push(self.entries@, k, v);
                }
                self.entries.push((k, v));
            },
        }
    }

    /// Takes the entry of `k` out.
    pub fn remove(&mut self, k: &K)
        requires
            old(self).wf(),
        ensures
            final(self).wf(),
            final(self)@ == old(self)@.remove(*k),
    {
        match self.find(k) {
            Some(i) => {
                proof {
                    lemma_remove(self.entries@, i as int);
                }
                self.entries.remove(i);
            },
            None => {
                assert(self@ =~= self@.remove(*k));
            },
        }
    }
}

/// A set.
#[derive(Debug)]
pub struct KeySet<K> {
    pub items: Vec<K>,
}

impl<K> View for KeySet<K> {
    type V = Set<K>;

    open spec fn view(&self) -> Set<K> {
        self.items@.to_set()
    }
}

impl<K: Key> KeySet<K> {
    /// Whether the list holds no item twice.
    pub open spec fn wf(&self) -> bool {
        self.items@.no_duplicates()
    }

    /// An empty set.
    pub fn new() -> (r: KeySet<K>)
        ensures
            r.wf(),
            r@ == Set::<K>::empty(),
    {
        let r = KeySet { items: Vec::new() };
        assert(r@ =~= Set::empty());
        r
    }

    /// Number of items.
    pub fn len(&self) -> (r: usize)
        requires
            self.wf(),
        ensures
            r == self@.len(),
            r == self.items@.len(),
            self@.finite(),
    {
        proof {
            self.items@.unique_seq_to_set();
        }
        self.items.len()
    }

    /// Where `k` is in the list.
    pub fn find(&self, k: &K) -> (r: Option<usize>)
        ensures
            match r {
                Some(i) => i < self.items@.len() && self.items@[i as int] == *k && self@.contains(
                    *k,
                ),
                None => !self@.contains(*k),
            },
    {
        let mut i: usize = 0;
        while i < self.items.len()
            invariant
                i <= self.items@.len(),
                forall|j: int| 0 <= j < i ==> self.items@[j] != *k,
            decreases self.items@.len() - i,
        {
            if self.items[i].same(k) {
                assert(self.items@[i as int] == *k);
                return Some(i);
            }
            i += 1;
        }
        None
    }

    /// Whether `k` is in the set.
    pub fn contains(&self, k: &K) -> (r: bool)
        ensures
            r == self@.contains(*k),
    {
        self.find(k).is_some()
    }

    /// Puts `k` into the set.
    pub fn insert(&mut self, k: K)
        requires
            old(self).wf(),
        ensures
            final(self).wf(),
            final(self)@ == old(self)@.insert(k),
    {
        if !self.contains(&k) {
            let ghost before = self.items@;
            self.items.push(k);
            proof {
                let after = self.items@;
                assert forall|i: int, j: int|
                    0 <= i < after.len() && 0 <= j < after.len() && i != j implies after[i]
                    != after[j] by {
                    if i == before.len() {
                        assert(before.contains(after[j]));
                    } else if j == before.len() {
                        assert(before.contains(after[i]));
                    }
                }
                assert forall|x: K| after.contains(x) <==> before.contains(x) || x == k by {
                    if before.contains(x) {
                        let i = choose|i: int| 0 <= i < before.len() && before[i] == x;
                        assert(after[i] == x);
                    }
                    assert(after[before.len() as int] == k);
                }
                assert(after.to_set() =~= before.to_set().insert(k));
            }
        } else {
            assert(self@ =~= self@.insert(k));
        }
    }

    /// Takes `k` out of the set.
    pub fn remove(&mut self, k: &K)
        requires
            old(self).wf(),
        ensures
            final(self).wf(),
            final(self)@ == old(self)@.remove(*k),
    {
        match self.find(k) {
            Some(i) => {
                let ghost before = self.items@;
                self.items.remove(i);
                proof {
                    let after = self.items@;
                    assert(after == before.remove(i as int));
                    assert forall|x: K| after.contains(x) <==> before.contains(x) && x != *k by {
                        if before.contains(x) && x != *k {
                            let j = choose|j: int| 0 <= j < before.len() && before[j] == x;
                            let j2 = if j < i {
                                j
                            } else {
                                j - 1
                            };
                            assert(after[j2] == x);
                        }
                        if after.contains(x) {
                            let j = choose|j: int| 0 <= j < after.len() && after[j] == x;
                            let j2 = if j < i {
                                j
                            } else {
                                j + 1
                            };
                            assert(before[j2] == x);
                        }
                    }
                    assert forall|a: int, b: int|
                        0 <= a < after.len() && 0 <= b < after.len() && a != b implies after[a]
                        != after[b] by {
                        let a2 = if a < i {
                            a
                        } else {
                            a + 1
                        };
                        let b2 = if b < i {
                            b
                        } else {
                            b + 1
                        };
                        assert(after[a] == before[a2] && after[b] == before[b2]);
                    }
                    assert(after.to_set() =~= before.to_set().remove(*k));
                }
            },
            None => {
                assert(self@ =~= self@.remove(*k));
            },
        }
    }
}

} // verus!
