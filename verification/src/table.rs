//! An insertion-ordered table keyed by strings.
//!
//! Keys are kept in the order in which they were first inserted and no key
//! occurs twice. Inserting under a key that is already present replaces the
//! value in place, so the order of the keys never changes.

use vstd::prelude::*;

verus! {

/// The map that sends each key of `keys` to the value at the same position
/// of `values`.
pub open spec fn map_of<W>(keys: Seq<Seq<char>>, values: Seq<W>) -> Map<Seq<char>, W> {
    Map::new(|key: Seq<char>| keys.contains(key), |key: Seq<char>| values[keys.index_of(key)])
}

/// Whether no string occurs twice in `keys`.
pub fn all_distinct(keys: &Vec<String>) -> (distinct: bool)
    ensures
        distinct == keys.deep_view().no_duplicates(),
{
    let mut i: usize = 0;
    while i < keys.len()
        invariant
            i <= keys.len(),
            forall|a: int, b: int|
                0 <= a < b < i ==> #[trigger] keys.deep_view()[a] != #[trigger] keys.deep_view()[b],
        decreases keys.len() - i,
    {
        let mut j: usize = 0;
        while j < i
            invariant
                j <= i < keys.len(),
                forall|a: int|
                    0 <= a < j ==> #[trigger] keys.deep_view()[a] != keys.deep_view()[i as int],
            decreases i - j,
        {
            if keys[j] == keys[i] {
                assert(keys.deep_view()[j as int] == keys.deep_view()[i as int]);
                return false;
            }
            j += 1;
        }
        i += 1;
    }
    let ghost all = keys.deep_view();
    assert forall|a: int, b: int|
        0 <= a < all.len() && 0 <= b < all.len() && a != b implies all[a] != all[b] by {
        if a < b {
            assert(all[a] != all[b]);
        } else {
            assert(all[b] != all[a]);
        }
    }
    true
}

/// A table from string keys to values that remembers insertion order.
pub struct Table<V> {
    keys: Vec<String>,
    values: Vec<V>,
}

impl<V> Table<V> {
    /// The keys, oldest first.
    pub closed spec fn keys(&self) -> Seq<Seq<char>> {
        self.keys.deep_view()
    }

    /// The values; `values()[i]` is stored under `keys()[i]`.
    pub closed spec fn values(&self) -> Seq<V> {
        self.values@
    }

    /// Every key has a value and no key occurs twice.
    pub open spec fn wf(&self) -> bool {
        &&& self.keys().len() == self.values().len()
        &&& self.keys().no_duplicates()
    }

    /// The table holds a value under `key`.
    pub open spec fn contains_key(&self, key: Seq<char>) -> bool {
        self.keys().contains(key)
    }

    /// The value stored under `key`; meaningful only if the key is present.
    pub open spec fn value_of(&self, key: Seq<char>) -> V {
        self.values()[self.keys().index_of(key)]
    }

    /// The table as a map, forgetting the order of insertion.
    pub open spec fn as_map(&self) -> Map<Seq<char>, V> {
        map_of(self.keys(), self.values())
    }

    /// In a well-formed table the key at position `i` is found at position `i`.
    pub proof fn lemma_index_of_key(&self, i: int)
        requires
            self.wf(),
            0 <= i < self.keys().len(),
        ensures
            self.contains_key(self.keys()[i]),
            self.keys().index_of(self.keys()[i]) == i,
            self.value_of(self.keys()[i]) == self.values()[i],
    {
    }

    /// A well-formed table holds as many keys as its map has entries.
    pub proof fn lemma_size(&self)
        requires
            self.wf(),
        ensures
            self.as_map().dom().finite(),
            self.as_map().dom().len() == self.keys().len(),
    {
        vstd::seq_lib::seq_to_set_is_finite(self.keys());
        self.keys().unique_seq_to_set();
        assert(self.as_map().dom() =~= self.keys().to_set());
    }

    /// The empty table.
    pub fn new() -> (table: Self)
        ensures
            table.wf(),
            table.keys() == Seq::<Seq<char>>::empty(),
            table.values() == Seq::<V>::empty(),
            table.as_map() == Map::<Seq<char>, V>::empty(),
    {
        let table = Table { keys: Vec::new(), values: Vec::new() };
        assert(table.keys() =~= Seq::<Seq<char>>::empty());
        assert(table.as_map() =~= Map::<Seq<char>, V>::empty());
        table
    }

    /// The table with the given keys and, position by position, the given
    /// values, or `None` if there are not as many keys as values or a key
    /// occurs twice.
    pub fn from_parts(keys: Vec<String>, values: Vec<V>) -> (res: Option<Self>)
        ensures
            match res {
                Some(table) => {
                    &&& table.wf()
                    &&& table.keys() == keys.deep_view()
                    &&& table.values() == values@
                },
                None => !(keys.len() == values.len() && keys.deep_view().no_duplicates()),
            },
    {
        if keys.len() != values.len() || !all_distinct(&keys) {
            return None;
        }
        Some(Table { keys, values })
    }

    /// The keys and the values of the table, position by position.
    pub fn into_parts(self) -> (parts: (Vec<String>, Vec<V>))
        ensures
            parts.0.deep_view() == self.keys(),
            parts.1@ == self.values(),
    {
        (self.keys, self.values)
    }

    /// The number of keys.
    pub fn len(&self) -> (n: usize)
        ensures
            n == self.keys().len(),
    {
        self.keys.len()
    }

    /// Looks for `key` and returns the first position at which it is
    /// stored, which in a well-formed table is the only one.
    pub fn find(&self, key: &String) -> (found: Option<usize>)
        ensures
            match found {
                Some(i) => {
                    &&& i < self.keys().len()
                    &&& self.keys()[i as int] == key@
                    &&& forall|j: int| 0 <= j < i ==> self.keys()[j] != key@
                    &&& self.wf() ==> self.keys().index_of(key@) == i
                },
                None => !self.contains_key(key@),
            },
    {
        let mut i: usize = 0;
        while i < self.keys.len()
            invariant
                i <= self.keys.len(),
                forall|j: int| 0 <= j < i ==> self.keys()[j] != key@,
            decreases self.keys.len() - i,
        {
            if self.keys[i] == *key {
                proof {
                    if self.wf() {
                        self.lemma_index_of_key(i as int);
                    }
                }
                return Some(i);
            }
            i += 1;
        }
        None
    }

    /// The key at position `i`.
    pub fn key_at(&self, i: usize) -> (key: &String)
        requires
            i < self.keys().len(),
        ensures
            key@ == self.keys()[i as int],
    {
        &self.keys[i]
    }

    /// The value at position `i`.
    pub fn value_at(&self, i: usize) -> (value: &V)
        requires
            i < self.values().len(),
        ensures
            *value == self.values()[i as int],
    {
        &self.values[i]
    }

    /// Replaces the value at position `i`, leaving every key where it is.
    pub fn set_value(&mut self, i: usize, value: V)
        requires
            old(self).wf(),
            i < old(self).values().len(),
        ensures
            final(self).wf(),
            final(self).keys() == old(self).keys(),
            final(self).values() == old(self).values().update(i as int, value),
            final(self).as_map() == old(self).as_map().insert(old(self).keys()[i as int], value),
    {
        self.values.set(i, value);
        proof {
            final(self).lemma_index_of_key(i as int);
            let target = old(self).as_map().insert(old(self).keys()[i as int], value);
            assert forall|key: Seq<char>|
                self.contains_key(key) implies #[trigger] self.as_map()[key] == target[key] by {
                let j = self.keys().index_of(key);
                self.lemma_index_of_key(j);
            }
            assert(self.as_map() =~= old(self).as_map().insert(old(self).keys()[i as int], value));
        }
    }

    /// Stores `value` under a key that the table does not hold yet.
    pub fn append(&mut self, key: String, value: V)
        requires
            old(self).wf(),
            !old(self).contains_key(key@),
        ensures
            final(self).wf(),
            final(self).keys() == old(self).keys().push(key@),
            final(self).values() == old(self).values().push(value),
            final(self).as_map() == old(self).as_map().insert(key@, value),
    {
        self.keys.push(key);
        self.values.push(value);
        proof {
            assert(self.keys() =~= old(self).keys().push(key@));
            let n = old(self).keys().len() as int;
            let target = old(self).as_map().insert(key@, value);
            assert(self.keys()[n] == key@);
            assert forall|k: Seq<char>|
                self.as_map().contains_key(k) <==> target.contains_key(k) by {
                if self.keys().contains(k) {
                    let j = self.keys().index_of(k);
                    if j < n {
                        assert(old(self).keys()[j] == k);
                    }
                }
                if old(self).keys().contains(k) {
                    let j = old(self).keys().index_of(k);
                    assert(self.keys()[j] == k);
                }
            }
            assert forall|k: Seq<char>| self.as_map().contains_key(k) implies self.as_map()[k]
                == target[k] by {
                let j = self.keys().index_of(k);
                self.lemma_index_of_key(j);
                if j < n {
                    old(self).lemma_index_of_key(j);
                }
            }
            assert(self.as_map() =~= old(self).as_map().insert(key@, value));
        }
    }

    /// Stores `value` under `key`: in place if the key is present, at the end
    /// otherwise.
    pub fn insert(&mut self, key: String, value: V)
        requires
            old(self).wf(),
        ensures
            final(self).wf(),
            final(self).as_map() == old(self).as_map().insert(key@, value),
            old(self).contains_key(key@) ==> final(self).keys() == old(self).keys()
                && final(self).values() == old(self).values().update(
                old(self).keys().index_of(key@),
                value,
            ),
            !old(self).contains_key(key@) ==> final(self).keys() == old(self).keys().push(key@)
                && final(self).values() == old(self).values().push(value),
    {
        match self.find(&key) {
            Some(i) => self.set_value(i, value),
            None => self.append(key, value),
        }
    }
}

} // verus!
