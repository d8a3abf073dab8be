//! A table of named entries in the order of their names, so that whatever is
//! numbered from it never depends on the order in which a file lists them.

use vstd::prelude::*;

use crate::text::{text_less, text_lt, text_order_is_total, text_order_is_transitive};

verus! {

/// Named entries, one per name, ordered by name.
#[derive(Debug)]
pub struct Names<V> {
    entries: Vec<(String, V)>,
}

/// Whether texts stand in strictly ascending order.
pub open spec fn ascending(names: Seq<Seq<char>>) -> bool {
    forall|i: int, j: int|
        0 <= i < j < names.len() ==> text_lt(#[trigger] names[i], #[trigger] names[j])
}

impl<V> Names<V> {
    /// The names, in ascending order.
    pub closed spec fn names(&self) -> Seq<Seq<char>> {
        self.entries@.map_values(|e: (String, V)| e.0@)
    }

    /// The entries, in the order of their names.
    pub closed spec fn values(&self) -> Seq<V> {
        self.entries@.map_values(|e: (String, V)| e.1)
    }

    #[verifier::type_invariant]
    spec fn sorted(&self) -> bool {
        ascending(self.names())
    }

    pub fn new() -> (r: Self)
        ensures
            r.names() == Seq::<Seq<char>>::empty(),
            r.values() == Seq::<V>::empty(),
    {
        let r = Names { entries: Vec::new() };
        assert(r.names() =~= Seq::<Seq<char>>::empty());
        assert(r.values() =~= Seq::<V>::empty());
        r
    }

    /// How many entries there are. Their names ascend.
    pub fn len(&self) -> (r: usize)
        ensures
            r == self.names().len(),
            r == self.values().len(),
            ascending(self.names()),
    {
        proof {
            use_type_invariant(self);
        }
        self.entries.len()
    }

    pub fn name(&self, i: usize) -> (r: &String)
        requires
            i < self.names().len(),
        ensures
            r@ == self.names()[i as int],
    {
        &self.entries[i].0
    }

    pub fn value(&self, i: usize) -> (r: &V)
        requires
            i < self.names().len(),
        ensures
            *r == self.values()[i as int],
    {
        &self.entries[i].1
    }

    /// Put an entry in its place. An entry that had the name gives way.
    pub fn insert(&mut self, name: String, v: V)
        ensures
            ascending(final(self).names()),
            exists|p: int| #[trigger]
                placed(
                    old(self).names(),
                    old(self).values(),
                    name@,
                    v,
                    p,
                    final(self).names(),
                    final(self).values(),
                ),
    {
        proof {
            use_type_invariant(&*self);
        }
        let ghost names = self.names();
        let ghost values = self.values();
        let n: usize = self.entries.len();
        let mut p: usize = 0;
        while p < n && text_less(self.entries[p].0.as_str(), name.as_str())
            invariant
                p <= n == self.entries@.len(),
                names == self.names(),
                forall|i: int| 0 <= i < p ==> text_lt(#[trigger] names[i], name@),
            decreases n - p,
        {
            assert(names[p as int] == self.entries@[p as int].0@);
            p += 1;
        }
        let mut entries: Vec<(String, V)> = Vec::new();
        core::mem::swap(&mut self.entries, &mut entries);
        let ghost was = entries@;
        assert(names =~= was.map_values(|e: (String, V)| e.0@));
        assert(values =~= was.map_values(|e: (String, V)| e.1));
        let same = p < n && entries[p].0 == name;
        proof {
            if p < n {
                assert(names[p as int] == was[p as int].0@);
            }
            assert(same == (p < n && names[p as int] == name@));
            assert forall|i: int| p <= i < n && (i > p || !same) implies text_lt(
                name@,
                #[trigger] names[i],
            ) by {
                text_order_is_total(names[p as int], name@);
                assert(was[p as int].0@ == names[p as int]);
                if i > p {
                    assert(text_lt(names[p as int], names[i]));
                    if !same {
                        text_order_is_transitive(name@, names[p as int], names[i]);
                    }
                }
            }
        }
        if same {
            entries.set(p, (name, v));
        } else {
            entries.insert(p, (name, v));
        }
        proof {
            let after_names = entries@.map_values(|e: (String, V)| e.0@);
            let after_values = entries@.map_values(|e: (String, V)| e.1);
            assert(placed(names, values, name@, v, p as int, after_names, after_values)) by {
                if same {
                    assert(after_names =~= names);
                    assert(after_values =~= values.update(p as int, v));
                } else {
                    assert(after_names =~= names.insert(p as int, name@));
                    assert(after_values =~= values.insert(p as int, v));
                }
            }
            assert forall|i: int, j: int| 0 <= i < j < after_names.len() implies text_lt(
                #[trigger] after_names[i],
                #[trigger] after_names[j],
            ) by {
                if same {
                    if i != p && j != p {
                        assert(text_lt(names[i], names[j]));
                    }
                } else {
                    let a = if i < p { i } else { i - 1 };
                    let b = if j < p { j } else { j - 1 };
                    if i != p {
                        assert(after_names[i] == names[a]);
                    }
                    if j != p {
                        assert(after_names[j] == names[b]);
                    }
                    if i != p && j != p {
                        assert(text_lt(names[a], names[b]));
                    }
                }
            }
        }
        let ghost after = entries@;
        core::mem::swap(&mut self.entries, &mut entries);
        assert(self.names() =~= after.map_values(|e: (String, V)| e.0@));
        assert(self.values() =~= after.map_values(|e: (String, V)| e.1));
        assert(placed(names, values, name@, v, p as int, self.names(), self.values()));
    }
}

/// `after` is `before` with `name` at position `p`, which it already held or is
/// inserted at.
pub open spec fn placed<V>(
    names: Seq<Seq<char>>,
    values: Seq<V>,
    name: Seq<char>,
    v: V,
    p: int,
    after_names: Seq<Seq<char>>,
    after_values: Seq<V>,
) -> bool {
    if 0 <= p < names.len() && names[p] == name {
        after_names == names && after_values == values.update(p, v)
    } else {
        0 <= p <= names.len() && after_names == names.insert(p, name) && after_values
            == values.insert(p, v)
    }
}

/// No two names in ascending order are the same.
pub proof fn ascending_names_are_distinct(names: Seq<Seq<char>>)
    requires
        ascending(names),
    ensures
        names.no_duplicates(),
{
    assert forall|i: int, j: int| 0 <= i < j < names.len() implies names[i] != names[j] by {
        assert(text_lt(names[i], names[j]));
        text_order_is_total(names[i], names[i]);
    }
}

} // verus!
