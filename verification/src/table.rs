//! A small keyed table that remembers the order in which its keys arrived.
//!
//! The runtime keeps a handful of entries per table and walks them in a fixed
//! order, which is what keeps replay deterministic.

use vstd::prelude::*;

verus! {

/// A key that can be compared and copied by its mathematical value.
pub trait Key: View + Sized {
    /// Whether two keys stand for the same value.
    fn same(&self, other: &Self) -> (b: bool)
        ensures
            b == (self@ == other@),
    ;

    /// A second key for the same value.
    fn dup(&self) -> (r: Self)
        ensures
            r@ == self@,
    ;
}

impl Key for String {
    fn same(&self, other: &Self) -> (b: bool) {
        *self == *other
    }

    fn dup(&self) -> (r: Self) {
        self.clone()
    }
}

/// Keys with one value each, in the order in which the keys were first inserted.
pub struct Table<K: Key, V> {
    entries: Vec<(K, V)>,
}

impl<K: Key, V> View for Table<K, V> {
    type V = Map<K::V, V>;

    closed spec fn view(&self) -> Map<K::V, V> {
        Map::new(
            |k: K::V| exists|i: int| self.has_at(i, k),
            |k: K::V| self.entries@[choose|i: int| self.has_at(i, k)].1,
        )
    }
}

impl<K: Key, V> Table<K, V> {
    spec fn has_at(&self, i: int, k: K::V) -> bool {
        0 <= i < self.entries@.len() && self.entries@[i].0@ == k
    }

    #[verifier::type_invariant]
    spec fn distinct(&self) -> bool {
        forall|i: int, j: int|
            0 <= i < j < self.entries@.len() ==> (#[trigger] self.entries@[i]).0@ != (
            #[trigger] self.entries@[j]).0@
    }

    /// The keys, in the order in which they were first inserted.
    pub closed spec fn order(&self) -> Seq<K::V> {
        self.entries@.map_values(|e: (K, V)| e.0@)
    }

    proof fn lookup(&self, i: int)
        requires
            self.distinct(),
            0 <= i < self.entries@.len(),
        ensures
            self@.contains_key(self.entries@[i].0@),
            self@[self.entries@[i].0@] == self.entries@[i].1,
    {
        let k = self.entries@[i].0@;
        assert(self.has_at(i, k));
        let j = choose|j: int| self.has_at(j, k);
        assert(self.has_at(j, k));
        assert(i == j);
    }

    proof fn absent(&self, k: K::V)
        requires
            forall|i: int| 0 <= i < self.entries@.len() ==> (#[trigger] self.entries@[i]).0@ != k,
        ensures
            !self@.contains_key(k),
    {
    }

    pub fn new() -> (r: Self)
        ensures
            r@ == Map::<K::V, V>::empty(),
            r.order() == Seq::<K::V>::empty(),
    {
        let r = Table { entries: Vec::new() };
        assert(r@ =~= Map::<K::V, V>::empty());
        assert(r.order() =~= Seq::<K::V>::empty());
        r
    }

    /// Where `k` stands in the order, if it is there.
    fn find(&self, k: &K) -> (r: Option<usize>)
        ensures
            match r {
                Some(i) => i < self.entries@.len() && self.entries@[i as int].0@ == k@,
                None => forall|i: int|
                    0 <= i < self.entries@.len() ==> (#[trigger] self.entries@[i]).0@ != k@,
            },
    {
        let mut i: usize = 0;
        while i < self.entries.len()
            invariant
                i <= self.entries@.len(),
                forall|j: int| 0 <= j < i ==> (#[trigger] self.entries@[j]).0@ != k@,
            decreases self.entries@.len() - i,
        {
            if self.entries[i].0.same(k) {
                return Some(i);
            }
            i += 1;
        }
        None
    }

    pub fn get(&self, k: &K) -> (r: Option<&V>)
        ensures
            match r {
                Some(v) => self@.contains_key(k@) && *v == self@[k@],
                None => !self@.contains_key(k@),
            },
    {
        proof {
            use_type_invariant(self);
        }
        match self.find(k) {
            Some(i) => {
                proof {
                    self.lookup(i as int);
                }
                Some(&self.entries[i].1)
            },
            None => {
                proof {
                    self.absent(k@);
                }
                None
            },
        }
    }

    pub fn contains_key(&self, k: &K) -> (r: bool)
        ensures
            r == self@.contains_key(k@),
    {
        self.get(k).is_some()
    }

    /// How many keys there are. Every key stands in the order exactly once, and
    /// nothing else does.
    pub fn len(&self) -> (r: usize)
        ensures
            r == self.order().len(),
            self.order().no_duplicates(),
            forall|k: K::V| #[trigger] self@.contains_key(k) <==> self.order().contains(k),
            forall|i: int|
                0 <= i < self.order().len() ==> self@.contains_key(#[trigger] self.order()[i]),
    {
        proof {
            use_type_invariant(self);
            let o = self.order();
            assert forall|i: int, j: int| 0 <= i < j < o.len() implies o[i] != o[j] by {
                assert(self.entries@[i].0@ != self.entries@[j].0@);
            }
            assert forall|i: int| 0 <= i < o.len() implies self@.contains_key(
                #[trigger] o[i],
            ) by {
                self.lookup(i);
            }
            assert forall|k: K::V| #[trigger] self@.contains_key(k) implies o.contains(k) by {
                let i = choose|i: int| self.has_at(i, k);
                assert(o[i] == k);
            }
        }
        self.entries.len()
    }

    /// The entry at position `i` of the order.
    pub fn at(&self, i: usize) -> (r: (&K, &V))
        requires
            i < self.order().len(),
        ensures
            r.0@ == self.order()[i as int],
            self@.contains_key(self.order()[i as int]),
            *r.1 == self@[self.order()[i as int]],
    {
        proof {
            use_type_invariant(self);
            self.lookup(i as int);
        }
        (&self.entries[i].0, &self.entries[i].1)
    }

    /// Put `v` under `k`. A key that was there keeps its place in the order.
    pub fn insert(&mut self, k: K, v: V)
        ensures
            final(self)@ == old(self)@.insert(k@, v),
            final(self).order() == if old(self)@.contains_key(k@) {
                old(self).order()
            } else {
                old(self).order().push(k@)
            },
    {
        proof {
            use_type_invariant(&*self);
        }
        let ghost before = *self;
        match self.find(&k) {
            Some(i) => {
                proof {
                    self.lookup(i as int);
                }
                let mut entries: Vec<(K, V)> = Vec::new();
                core::mem::swap(&mut self.entries, &mut entries);
                entries.set(i, (k, v));
                core::mem::swap(&mut self.entries, &mut entries);
                proof {
                    assert forall|x: K::V| self@.contains_key(x) == before@.insert(k@, v).contains_key(
                        x,
                    ) by {
                        if before@.contains_key(x) {
                            let j = choose|j: int| before.has_at(j, x);
                            assert(self.has_at(j, x));
                        }
                        if self@.contains_key(x) {
                            let j = choose|j: int| self.has_at(j, x);
                            assert(before.has_at(j, x));
                        }
                    }
                    assert forall|x: K::V| self@.contains_key(x) implies self@[x] == before@.insert(
                        k@,
                        v,
                    )[x] by {
                        let j = choose|j: int| self.has_at(j, x);
                        self.lookup(j);
                        before.lookup(j);
                    }
                    assert(self@ =~= before@.insert(k@, v));
                    assert(self.order() =~= before.order());
                }
            },
            None => {
                proof {
                    self.absent(k@);
                }
                let mut entries: Vec<(K, V)> = Vec::new();
                core::mem::swap(&mut self.entries, &mut entries);
                entries.push((k, v));
                core::mem::swap(&mut self.entries, &mut entries);
                proof {
                    let n = before.entries@.len() as int;
                    assert forall|x: K::V| self@.contains_key(x) == before@.insert(k@, v).contains_key(
                        x,
                    ) by {
                        if before@.contains_key(x) {
                            let j = choose|j: int| before.has_at(j, x);
                            assert(self.has_at(j, x));
                        }
                        if self@.contains_key(x) {
                            let j = choose|j: int| self.has_at(j, x);
                            if j < n {
                                assert(before.has_at(j, x));
                            }
                        }
                        assert(self.has_at(n, k@));
                    }
                    assert forall|x: K::V| self@.contains_key(x) implies self@[x] == before@.insert(
                        k@,
                        v,
                    )[x] by {
                        let j = choose|j: int| self.has_at(j, x);
                        self.lookup(j);
                        if j < n {
                            before.lookup(j);
                        }
                    }
                    assert(self@ =~= before@.insert(k@, v));
                    assert(self.order() =~= before.order().push(k@));
                }
            },
        }
    }

    /// Take `k` out and give back what stood under it.
    pub fn remove(&mut self, k: &K) -> (r: Option<V>)
        ensures
            final(self)@ == old(self)@.remove(k@),
            match r {
                Some(v) => old(self)@.contains_key(k@) && v == old(self)@[k@],
                None => !old(self)@.contains_key(k@),
            },
            final(self).order() == old(self).order().filter(|x: K::V| x != k@),
    {
        proof {
            use_type_invariant(&*self);
        }
        let ghost before = *self;
        match self.find(k) {
            Some(i) => {
                proof {
                    self.lookup(i as int);
                }
                let mut entries: Vec<(K, V)> = Vec::new();
                core::mem::swap(&mut self.entries, &mut entries);
                let (_, v) = entries.remove(i);
                core::mem::swap(&mut self.entries, &mut entries);
                proof {
                    let p = i as int;
                    assert forall|j: int| 0 <= j < self.entries@.len() implies self.entries@[j]
                        == before.entries@[if j < p { j } else { j + 1 }] by {}
                    assert forall|x: K::V| self@.contains_key(x) == before@.remove(k@).contains_key(x)
                        by {
                        if before@.contains_key(x) && x != k@ {
                            let j = choose|j: int| before.has_at(j, x);
                            assert(self.has_at(if j < p { j } else { j - 1 }, x));
                        }
                        if self@.contains_key(x) {
                            let j = choose|j: int| self.has_at(j, x);
                            let b = if j < p { j } else { j + 1 };
                            assert(before.has_at(b, x));
                            assert(b != p);
                        }
                    }
                    assert forall|x: K::V| self@.contains_key(x) implies self@[x] == before@.remove(
                        k@,
                    )[x] by {
                        let j = choose|j: int| self.has_at(j, x);
                        self.lookup(j);
                        before.lookup(if j < p { j } else { j + 1 });
                    }
                    assert(self@ =~= before@.remove(k@));
                    let keep = |x: K::V| x != k@;
                    let a = before.order().subrange(0, p);
                    let b = before.order().subrange(p + 1, before.order().len() as int);
                    assert(before.order() =~= a + seq![k@] + b);
                    lemma_filter_all(a, keep);
                    lemma_filter_all(b, keep);
                    Seq::filter_distributes_over_add(a + seq![k@], b, keep);
                    Seq::filter_distributes_over_add(a, seq![k@], keep);
                    reveal_with_fuel(Seq::filter, 2);
                    assert(seq![k@].drop_last() =~= Seq::<K::V>::empty());
                    assert(seq![k@].filter(keep) =~= Seq::<K::V>::empty());
                    assert(self.order() =~= a + b);
                    assert(self.order() =~= before.order().filter(keep));
                }
                Some(v)
            },
            None => {
                proof {
                    self.absent(k@);
                    assert(self@ =~= before@.remove(k@));
                    lemma_filter_all(before.order(), |x: K::V| x != k@);
                }
                None
            },
        }
    }
}

pub(crate) proof fn lemma_filter_all<A>(s: Seq<A>, keep: spec_fn(A) -> bool)
    requires
        forall|i: int| 0 <= i < s.len() ==> keep(#[trigger] s[i]),
    ensures
        s.filter(keep) == s,
    decreases s.len(),
{
    reveal(Seq::filter);
    if s.len() > 0 {
        lemma_filter_all(s.drop_last(), keep);
        assert(s =~= s.drop_last().push(s.last()));
    }
}

} // verus!
