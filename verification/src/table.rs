//! Tables: values found by their names and kept in the order of insertion.

use crate::keyed::Keyed;
use crate::strings::same;
use vstd::prelude::*;

verus! {

/// A mapping from names to values that keeps the order of insertion. Each
/// value is stored under its own key.
#[derive(Debug, PartialEq)]
pub struct Table<V> {
    pub entries: Vec<V>,
}

impl<V> View for Table<V> {
    type V = Seq<V>;

    /// The values in the order in which they were inserted.
    open spec fn view(&self) -> Seq<V> {
        self.entries@
    }
}

/// Whether no two values of `entries` have the same key.
pub open spec fn distinct_keys<V: Keyed>(entries: Seq<V>) -> bool {
    forall|i: int, j: int|
        0 <= i < j < entries.len() ==> (#[trigger] entries[i]).key_spec() != (
        #[trigger] entries[j]).key_spec()
}

/// Whether some value of `entries` is stored under `key`.
pub open spec fn has_key<V: Keyed>(entries: Seq<V>, key: Seq<char>) -> bool {
    exists|i: int| 0 <= i < entries.len() && (#[trigger] entries[i]).key_spec() == key
}

/// The position in `entries` of a value stored under `key`.
pub open spec fn position<V: Keyed>(entries: Seq<V>, key: Seq<char>) -> int {
    choose|i: int| 0 <= i < entries.len() && (#[trigger] entries[i]).key_spec() == key
}

/// With distinct keys a key has one position only.
pub proof fn lemma_position<V: Keyed>(entries: Seq<V>, key: Seq<char>, i: int)
    requires
        distinct_keys(entries),
        0 <= i < entries.len(),
        entries[i].key_spec() == key,
    ensures
        has_key(entries, key),
        position(entries, key) == i,
{
    let p = position(entries, key);
    assert(0 <= p < entries.len() && entries[p].key_spec() == key);
    if p < i {
        assert(entries[p].key_spec() != entries[i].key_spec());
    } else if i < p {
        assert(entries[i].key_spec() != entries[p].key_spec());
    }
}

/// The position of the first of `entries` that is stored under `key`.
pub fn find<V: Keyed>(entries: &Vec<V>, key: &str) -> (r: Option<usize>)
    ensures
        r is Some == has_key(entries@, key@),
        r matches Some(i) ==> i < entries@.len() && entries@[i as int].key_spec() == key@ && forall|
            j: int,
        | 0 <= j < i ==> (#[trigger] entries@[j]).key_spec() != key@,
        distinct_keys(entries@) ==> (r matches Some(i) ==> i == position(entries@, key@)),
{
    let mut i: usize = 0;
    while i < entries.len()
        invariant
            i <= entries.len(),
            forall|j: int| 0 <= j < i ==> (#[trigger] entries@[j]).key_spec() != key@,
        decreases entries.len() - i,
    {
        if same(entries[i].key(), key) {
            proof {
                if distinct_keys(entries@) {
                    lemma_position(entries@, key@, i as int);
                }
            }
            return Some(i);
        }
        i += 1;
    }
    None
}

impl<V: Keyed> Table<V> {
    /// A table holds at most one value under each key.
    pub open spec fn wf(&self) -> bool {
        distinct_keys(self@)
    }

    pub open spec fn contains(&self, key: Seq<char>) -> bool {
        has_key(self@, key)
    }

    /// The value stored under a key that the table contains.
    pub open spec fn at(&self, key: Seq<char>) -> V {
        self@[position(self@, key)]
    }

    pub fn new() -> (t: Table<V>)
        ensures
            t@ == Seq::<V>::empty(),
            t.wf(),
    {
        Table { entries: Vec::new() }
    }

    pub fn len(&self) -> (n: usize)
        ensures
            n == self@.len(),
    {
        self.entries.len()
    }

    pub fn is_empty(&self) -> (b: bool)
        ensures
            b == (self@.len() == 0),
    {
        self.entries.len() == 0
    }

    /// The position of the first value stored under `key`.
    pub fn index_of(&self, key: &str) -> (r: Option<usize>)
        ensures
            r is Some == self.contains(key@),
            r matches Some(i) ==> i < self@.len() && self@[i as int].key_spec() == key@ && forall|
                j: int,
            | 0 <= j < i ==> (#[trigger] self@[j]).key_spec() != key@,
            self.wf() ==> (r matches Some(i) ==> i == position(self@, key@)),
    {
        find(&self.entries, key)
    }

    pub fn contains_key(&self, key: &str) -> (b: bool)
        ensures
            b == self.contains(key@),
    {
        self.index_of(key).is_some()
    }

    /// The first value stored under `key`.
    pub fn get(&self, key: &str) -> (r: Option<&V>)
        ensures
            r is Some == self.contains(key@),
            r matches Some(v) ==> exists|i: int|
                0 <= i < self@.len() && *v == #[trigger] self@[i] && v.key_spec() == key@ && forall|
                    j: int,
                | 0 <= j < i ==> (#[trigger] self@[j]).key_spec() != key@,
            self.wf() ==> (r matches Some(v) ==> *v == self.at(key@)),
    {
        match self.index_of(key) {
            Some(i) => Some(&self.entries[i]),
            None => None,
        }
    }

    /// Appends a value whose key the table does not hold yet.
    pub fn insert(&mut self, value: V)
        requires
            old(self).wf(),
            !old(self).contains(value.key_spec()),
        ensures
            final(self)@ == old(self)@.push(value),
            final(self).wf(),
    {
        self.entries.push(value);
    }

    /// Removes the value that was inserted last.
    pub fn pop(&mut self) -> (r: Option<V>)
        ensures
            old(self)@.len() == 0 ==> r is None && final(self)@ == old(self)@,
            old(self)@.len() > 0 ==> r == Some(old(self)@.last()) && final(self)@ == old(
                self,
            )@.drop_last(),
            old(self).wf() ==> final(self).wf(),
    {
        self.entries.pop()
    }

    /// The values in the order of insertion.
    pub fn values(&self) -> (r: &Vec<V>)
        ensures
            r@ == self@,
    {
        &self.entries
    }

    /// The keys in the order of insertion.
    pub fn keys(&self) -> (r: Vec<&str>)
        ensures
            r@.len() == self@.len(),
            forall|i: int| 0 <= i < r@.len() ==> (#[trigger] r@[i])@ == self@[i].key_spec(),
    {
        let mut r: Vec<&str> = Vec::new();
        let mut i: usize = 0;
        while i < self.entries.len()
            invariant
                i <= self.entries.len(),
                r@.len() == i,
                forall|j: int| 0 <= j < i ==> (#[trigger] r@[j])@ == self@[j].key_spec(),
            decreases self.entries.len() - i,
        {
            r.push(self.entries[i].key());
            i += 1;
        }
        r
    }
}

} // verus!
