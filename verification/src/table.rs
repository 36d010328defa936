//! A table from names to values that remembers the order in which the names
//! were first entered.

use crate::text::same_text;
use std::sync::Arc;
use vstd::prelude::*;

verus! {

/// A table from names to values. A name occurs once; entering it again
/// replaces its value and leaves its place in the order unchanged.
pub struct Table<V> {
    entries: Vec<(String, V)>,
}

/// The names of the entries, in their order.
spec fn names_of<V>(entries: Seq<(String, V)>) -> Seq<Seq<char>> {
    Seq::new(entries.len(), |i: int| entries[i].0@)
}

/// The values of the entries, in their order.
spec fn values_of<V>(entries: Seq<(String, V)>) -> Seq<V> {
    Seq::new(entries.len(), |i: int| entries[i].1)
}

impl<V> View for Table<V> {
    type V = Map<Seq<char>, V>;

    /// The value that each name stands for.
    closed spec fn view(&self) -> Map<Seq<char>, V> {
        Map::new(
            |name: Seq<char>| self.names().contains(name),
            |name: Seq<char>| self.values()[self.names().index_of(name)],
        )
    }
}

impl<V> Table<V> {
    /// The names, in the order in which they were first entered.
    pub closed spec fn names(&self) -> Seq<Seq<char>> {
        names_of(self.entries@)
    }

    /// The values, each at the place of its name.
    pub closed spec fn values(&self) -> Seq<V> {
        values_of(self.entries@)
    }

    /// No name occurs twice.
    #[verifier::type_invariant]
    pub closed spec fn wf(&self) -> bool {
        self.names().no_duplicates()
    }

    /// How names, values and the view hang together in a well-formed table.
    pub proof fn lemma_view(&self)
        requires
            self.wf(),
        ensures
            self.names().no_duplicates(),
            self.names().len() == self.values().len(),
            self@.dom() == self.names().to_set(),
            self@.dom().finite(),
            self@.dom().len() == self.names().len(),
            forall|i: int|
                0 <= i < self.names().len() ==> self@[#[trigger] self.names()[i]] == self.values()[i],
    {
        assert(self@.dom() =~= self.names().to_set());
        vstd::seq_lib::seq_to_set_is_finite(self.names());
        self.names().unique_seq_to_set();
        assert forall|i: int| 0 <= i < self.names().len() implies self@[#[trigger] self.names()[i]]
            == self.values()[i] by {
            let name = self.names()[i];
            assert(self.names().contains(name));
            let k = self.names().index_of(name);
            assert(0 <= k < self.names().len() && self.names()[k] == name);
        }
    }

    /// An empty table.
    pub fn new() -> (table: Self)
        ensures
            table.wf(),
            table@ == Map::<Seq<char>, V>::empty(),
            table.names() == Seq::<Seq<char>>::empty(),
            table.values() == Seq::<V>::empty(),
    {
        let table = Table { entries: Vec::new() };
        assert(table@ =~= Map::<Seq<char>, V>::empty());
        assert(table.names() =~= Seq::<Seq<char>>::empty());
        assert(table.values() =~= Seq::<V>::empty());
        table
    }

    /// The number of names.
    pub fn len(&self) -> (n: usize)
        ensures
            n == self.names().len(),
            n == self.values().len(),
            n == self@.dom().len(),
    {
        proof {
            use_type_invariant(self);
            self.lemma_view();
        }
        self.entries.len()
    }

    /// The name at place `i` of the order.
    pub fn name_at(&self, i: usize) -> (name: &str)
        requires
            i < self.names().len(),
        ensures
            name@ == self.names()[i as int],
    {
        self.entries[i].0.as_str()
    }

    /// The value at place `i` of the order.
    pub fn value_at(&self, i: usize) -> (value: &V)
        requires
            i < self.names().len(),
        ensures
            *value == self.values()[i as int],
    {
        &self.entries[i].1
    }

    /// The place of `name` in the order, if the table holds it.
    pub fn position(&self, name: &str) -> (at: Option<usize>)
        ensures
            match at {
                Some(i) => i < self.names().len() && self.names()[i as int] == name@,
                None => !self.names().contains(name@),
            },
            at is Some <==> self@.contains_key(name@),
    {
        let mut i: usize = 0;
        while i < self.entries.len()
            invariant
                i <= self.entries.len(),
                forall|j: int| 0 <= j < i ==> self.names()[j] != name@,
            decreases self.entries.len() - i,
        {
            if same_text(self.entries[i].0.as_str(), name) {
                assert(self.names()[i as int] == name@);
                return Some(i);
            }
            i += 1;
        }
        None
    }

    /// The value that `name` stands for.
    pub fn get(&self, name: &str) -> (found: Option<&V>)
        ensures
            match found {
                Some(value) => self@.contains_key(name@) && *value == self@[name@],
                None => !self@.contains_key(name@),
            },
    {
        proof {
            use_type_invariant(self);
            self.lemma_view();
        }
        match self.position(name) {
            Some(i) => Some(&self.entries[i].1),
            None => None,
        }
    }

    /// Enters `value` under `name`, in place of the value that the name had.
    pub fn insert(&mut self, name: String, value: V)
        ensures
            final(self)@ == old(self)@.insert(name@, value),
            old(self)@.contains_key(name@) ==> final(self).names() == old(self).names(),
            !old(self)@.contains_key(name@) ==> final(self).names() == old(self).names().push(name@),
    {
        proof {
            use_type_invariant(&*self);
            self.lemma_view();
        }
        let at = self.position(name.as_str());
        let mut entries: Vec<(String, V)> = Vec::new();
        core::mem::swap(&mut entries, &mut self.entries);
        match at {
            Some(i) => {
                entries[i].1 = value;
            },
            None => {
                entries.push((name, value));
            },
        }
        proof {
            if at is Some {
                assert(names_of(entries@) =~= old(self).names());
                assert(values_of(entries@) =~= old(self).values().update(at->0 as int, value));
            } else {
                assert(names_of(entries@) =~= old(self).names().push(name@));
                assert(values_of(entries@) =~= old(self).values().push(value));
            }
        }
        self.entries = entries;
        proof {
            self.lemma_view();
            assert forall|key: Seq<char>| #[trigger]
                old(self)@.insert(name@, value).contains_key(key) implies self@.contains_key(key)
                && self@[key] == old(self)@.insert(name@, value)[key] by {
                if key == name@ {
                    let i = if at is Some {
                        at->0 as int
                    } else {
                        old(self).names().len() as int
                    };
                    assert(self.names()[i] == key);
                } else {
                    let i = old(self).names().index_of(key);
                    assert(old(self).names().contains(key));
                    assert(self.names()[i] == key);
                    assert(old(self)@[old(self).names()[i]] == old(self).values()[i]);
                }
            }
            assert(self@ =~= old(self)@.insert(name@, value));
        }
    }
}

/// `Arc::clone` of std: a second handle to the value that the first one holds.
#[verifier::external_body]
pub(crate) fn share<T>(handle: &Arc<T>) -> (other: Arc<T>)
    ensures
        other == *handle,
{
    Arc::clone(handle)
}

impl<T> Table<Arc<T>> {
    /// A second table with the same names in the same order, whose values
    /// are shared with this one.
    pub fn duplicate(&self) -> (copy: Self)
        ensures
            copy.wf(),
            copy@ == self@,
            copy.names() == self.names(),
            copy.values() == self.values(),
    {
        proof {
            use_type_invariant(self);
        }
        let mut entries: Vec<(String, Arc<T>)> = Vec::new();
        let mut i: usize = 0;
        while i < self.entries.len()
            invariant
                i <= self.entries.len(),
                entries.len() == i,
                names_of(entries@) == names_of(self.entries@).take(i as int),
                values_of(entries@) == values_of(self.entries@).take(i as int),
            decreases self.entries.len() - i,
        {
            let ghost before = entries@;
            let name = self.entries[i].0.clone();
            let value = share(&self.entries[i].1);
            entries.push((name, value));
            proof {
                assert forall|j: int| 0 <= j < i + 1 implies names_of(entries@)[j] == names_of(
                    self.entries@,
                )[j] && values_of(entries@)[j] == values_of(self.entries@)[j] by {
                    if j < i {
                        assert(names_of(before)[j] == names_of(self.entries@).take(i as int)[j]);
                        assert(values_of(before)[j] == values_of(self.entries@).take(i as int)[j]);
                    }
                }
                assert(names_of(entries@) =~= names_of(self.entries@).take(i + 1));
                assert(values_of(entries@) =~= values_of(self.entries@).take(i + 1));
            }
            i += 1;
        }
        assert(names_of(entries@) =~= names_of(self.entries@));
        assert(values_of(entries@) =~= values_of(self.entries@));
        let copy = Table { entries };
        assert(copy@ =~= self@);
        copy
    }
}

} // verus!
