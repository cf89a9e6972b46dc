//! An insertion-ordered map from qualified names to values.

use crate::id::{ComponentId, Key};
use crate::index::{index_get, index_insert, index_new, index_position, indexed};
use indexmap::IndexSet;
use vstd::prelude::*;

verus! {

/// The mathematical value of an ordered map: its keys in insertion order,
/// and the value of each key at the key's position.
pub struct Table<T> {
    pub keys: Seq<Key>,
    pub values: Seq<T>,
}

impl<T> Table<T> {
    /// The table without entries.
    pub open spec fn empty() -> Self {
        Table { keys: Seq::empty(), values: Seq::empty() }
    }

    /// Every key has exactly one value and no key occurs twice.
    pub open spec fn wf(self) -> bool {
        &&& self.keys.len() == self.values.len()
        &&& self.keys.no_duplicates()
    }

    /// The number of entries.
    pub open spec fn len(self) -> nat {
        self.keys.len()
    }

    /// Whether `key` is bound.
    pub open spec fn has(self, key: Key) -> bool {
        self.keys.contains(key)
    }

    /// The position of `key`, for a key that is bound.
    pub open spec fn position(self, key: Key) -> int {
        self.keys.index_of(key)
    }

    /// The value of `key`, for a key that is bound.
    pub open spec fn get(self, key: Key) -> T {
        self.values[self.position(key)]
    }

    /// The table after binding `key` to `value`: a bound key keeps its
    /// position and gets the new value, a new key goes to the end.
    pub open spec fn put(self, key: Key, value: T) -> Self {
        if self.has(key) {
            Table { keys: self.keys, values: self.values.update(self.position(key), value) }
        } else {
            Table { keys: self.keys.push(key), values: self.values.push(value) }
        }
    }

    /// The first `n` entries.
    pub open spec fn prefix(self, n: int) -> Self {
        Table { keys: self.keys.take(n), values: self.values.take(n) }
    }

    /// The table after binding the first `n` entries of `other`, one after
    /// the other.
    pub open spec fn put_prefix(self, other: Self, n: nat) -> Self
        decreases n,
    {
        if n == 0 {
            self
        } else {
            self.put_prefix(other, (n - 1) as nat).put(other.keys[n - 1], other.values[n - 1])
        }
    }

    /// The table after binding every entry of `other`, in order.
    pub open spec fn put_all(self, other: Self) -> Self {
        self.put_prefix(other, other.len())
    }

    /// The entries of `self` followed by those of `other`.
    pub open spec fn concat(self, other: Self) -> Self {
        Table { keys: self.keys + other.keys, values: self.values + other.values }
    }

    /// No key of `other` is bound in `self`.
    pub open spec fn disjoint(self, other: Self) -> bool {
        forall|i: int| 0 <= i < other.keys.len() ==> !self.has(#[trigger] other.keys[i])
    }

    /// The table with `f` applied to every value.
    pub open spec fn map<U>(self, f: spec_fn(T) -> U) -> Table<U> {
        Table { keys: self.keys, values: self.values.map_values(f) }
    }

    /// Binding an entry and then applying `f` is applying `f` and then
    /// binding the entry's image.
    pub proof fn lemma_map_put<U>(self, f: spec_fn(T) -> U, key: Key, value: T)
        requires
            self.wf(),
        ensures
            self.put(key, value).map(f) == self.map(f).put(key, f(value)),
    {
        if self.has(key) {
            self.keys.index_of_first_ensures(key);
        }
        assert(self.put(key, value).map(f).values =~= self.map(f).put(key, f(value)).values);
    }

    /// Binding an entry keeps a table well formed.
    pub proof fn lemma_put_wf(self, key: Key, value: T)
        requires
            self.wf(),
        ensures
            self.put(key, value).wf(),
            self.put(key, value).has(key),
            self.put(key, value).get(key) == value,
            forall|k: Key| k != key ==> self.put(key, value).has(k) == self.has(k),
            forall|k: Key| k != key && self.has(k) ==> self.put(key, value).get(k) == self.get(k),
    {
        let after = self.put(key, value);
        if self.has(key) {
            self.keys.index_of_first_ensures(key);
            assert forall|k: Key| k != key && self.has(k) implies after.get(k) == self.get(k) by {
                self.keys.index_of_first_ensures(k);
            }
        } else {
            assert forall|a: int, b: int|
                0 <= a < after.keys.len() && 0 <= b < after.keys.len() && a != b implies after.keys[a]
                != after.keys[b] by {
                if a == self.keys.len() {
                    assert(self.keys.contains(self.keys[b]));
                } else if b == self.keys.len() {
                    assert(self.keys.contains(self.keys[a]));
                }
            }
            assert(after.keys[self.keys.len() as int] == key);
            after.keys.index_of_first_ensures(key);
            assert forall|k: Key| k != key implies after.has(k) == self.has(k) by {
                if self.has(k) {
                    let i = self.keys.index_of(k);
                    self.keys.index_of_first_ensures(k);
                    assert(after.keys[i] == k);
                }
                if after.has(k) {
                    let i = after.keys.index_of(k);
                    after.keys.index_of_first_ensures(k);
                    assert(self.keys[i] == k);
                }
            }
            assert forall|k: Key| k != key && self.has(k) implies after.get(k) == self.get(k) by {
                self.keys.index_of_first_ensures(k);
                after.keys.index_of_first_ensures(k);
                let i = self.keys.index_of(k);
                let j = after.keys.index_of(k);
                assert(after.keys[i] == k);
            }
        }
    }

    /// Binding the entries of a well-formed table whose keys are all new
    /// appends them.
    pub proof fn lemma_put_prefix_disjoint(self, other: Self, n: nat)
        requires
            self.wf(),
            other.wf(),
            self.disjoint(other),
            n <= other.len(),
        ensures
            self.put_prefix(other, n) == self.concat(other.prefix(n as int)),
        decreases n,
    {
        if n == 0 {
            assert(self.concat(other.prefix(0)).keys =~= self.keys);
            assert(self.concat(other.prefix(0)).values =~= self.values);
        } else {
            self.lemma_put_prefix_disjoint(other, (n - 1) as nat);
            let before = self.concat(other.prefix(n - 1));
            let key = other.keys[n - 1];
            assert(!before.has(key)) by {
                if before.has(key) {
                    let i = before.keys.index_of(key);
                    before.keys.index_of_first_ensures(key);
                    if i < self.keys.len() {
                        assert(self.keys[i] == key);
                        assert(self.has(key));
                    } else {
                        assert(other.keys[i - self.keys.len()] == key);
                    }
                }
            }
            let after = before.put(key, other.values[n - 1]);
            assert(after.keys =~= self.concat(other.prefix(n as int)).keys);
            assert(after.values =~= self.concat(other.prefix(n as int)).values);
        }
    }

    /// Binding every entry of a well-formed table whose keys are all new
    /// appends the table.
    pub proof fn lemma_put_all_disjoint(self, other: Self)
        requires
            self.wf(),
            other.wf(),
            self.disjoint(other),
        ensures
            self.put_all(other) == self.concat(other),
    {
        self.lemma_put_prefix_disjoint(other, other.len());
        assert(other.prefix(other.len() as int).keys =~= other.keys);
        assert(other.prefix(other.len() as int).values =~= other.values);
    }
}

/// A map from qualified names to `V` that keeps its entries in the order in
/// which their keys were first inserted.
///
/// The keys live in a hash index; the value of the key at position `i` is
/// the `i`-th element of `values`.
#[derive(Debug)]
pub struct OrderedMap<V> {
    index: IndexSet<(Option<String>, String)>,
    values: Vec<V>,
}

impl<V> View for OrderedMap<V> {
    type V = Table<V>;

    closed spec fn view(&self) -> Table<V> {
        Table { keys: indexed(self.index), values: self.values@ }
    }
}

impl<V> OrderedMap<V> {
    /// Every key has exactly one value and no key occurs twice. Every map
    /// that the functions of this type make is well formed.
    pub open spec fn wf(&self) -> bool {
        self@.wf()
    }

    /// The empty map.
    pub fn new() -> (map: Self)
        ensures
            map.wf(),
            map@ == Table::<V>::empty(),
    {
        OrderedMap { index: index_new(), values: Vec::new() }
    }

    /// The number of entries.
    pub fn len(&self) -> (n: usize)
        requires
            self.wf(),
        ensures
            n == self@.len(),
    {
        self.values.len()
    }

    /// Whether the map has no entry.
    pub fn is_empty(&self) -> (empty: bool)
        requires
            self.wf(),
        ensures
            empty == (self@.len() == 0),
    {
        self.values.len() == 0
    }

    /// The position of `id` among the keys.
    pub fn position(&self, id: &ComponentId) -> (found: Option<usize>)
        requires
            self.wf(),
        ensures
            match found {
                Some(i) => self@.has(id@) && i == self@.position(id@),
                None => !self@.has(id@),
            },
    {
        let found = index_position(&self.index, &id.qualified);
        proof {
            if found is Some {
                self@.keys.index_of_first_ensures(id@);
            }
        }
        found
    }

    /// Whether `id` is bound.
    pub fn contains_key(&self, id: &ComponentId) -> (present: bool)
        requires
            self.wf(),
        ensures
            present == self@.has(id@),
    {
        self.position(id).is_some()
    }

    /// The value bound to `id`.
    pub fn get(&self, id: &ComponentId) -> (value: Option<&V>)
        requires
            self.wf(),
        ensures
            match value {
                Some(v) => self@.has(id@) && *v == self@.get(id@),
                None => !self@.has(id@),
            },
    {
        match self.position(id) {
            Some(i) => Some(&self.values[i]),
            None => None,
        }
    }

    /// Whether the key that `other` holds at position `i` is bound here.
    pub fn shares_key_at(&self, other: &Self, i: usize) -> (shared: bool)
        requires
            self.wf(),
            other.wf(),
            i < other@.len(),
        ensures
            shared == self@.has(other@.keys[i as int]),
    {
        let found = index_position(&self.index, other.raw_key(i));
        found.is_some()
    }

    /// The key at position `i`, as the index holds it.
    pub(crate) fn raw_key(&self, i: usize) -> (key: &(Option<String>, String))
        requires
            self.wf(),
            i < self@.len(),
        ensures
            key.deep_view() == self@.keys[i as int],
    {
        index_get(&self.index, i).unwrap()
    }

    /// The key at position `i`.
    pub fn key_at(&self, i: usize) -> (id: ComponentId)
        requires
            self.wf(),
            i < self@.len(),
        ensures
            id@ == self@.keys[i as int],
    {
        let qualified = self.raw_key(i);
        let scope = match &qualified.0 {
            Some(pipeline) => Some(pipeline.clone()),
            None => None,
        };
        ComponentId { qualified: (scope, qualified.1.clone()) }
    }

    /// The value at position `i`.
    pub fn value_at(&self, i: usize) -> (value: &V)
        requires
            self.wf(),
            i < self@.len(),
        ensures
            *value == self@.values[i as int],
    {
        &self.values[i]
    }

    /// The value at position `i`, for changing it in place.
    pub fn value_at_mut(&mut self, i: usize) -> (value: &mut V)
        requires
            old(self).wf(),
            i < old(self)@.len(),
        ensures
            *value == old(self)@.values[i as int],
            final(self).wf(),
            final(self)@ == (Table {
                keys: old(self)@.keys,
                values: old(self)@.values.update(i as int, *final(value)),
            }),
    {
        &mut self.values[i]
    }

    /// Binds `id` to `value`. A key that is already bound keeps its position
    /// and gets the new value, and the value it had is returned; a new key
    /// goes to the end.
    pub fn insert(&mut self, id: ComponentId, value: V) -> (replaced: Option<V>)
        requires
            old(self).wf(),
        ensures
            final(self).wf(),
            final(self)@ == old(self)@.put(id@, value),
            replaced == if old(self)@.has(id@) {
                Some(old(self)@.get(id@))
            } else {
                None
            },
    {
        proof {
            self@.lemma_put_wf(id@, value);
        }
        let (i, fresh) = index_insert(&mut self.index, id.qualified);
        if fresh {
            self.values.push(value);
            None
        } else {
            proof {
                old(self)@.keys.index_of_first_ensures(id@);
            }
            let mut value = value;
            core::mem::swap(&mut self.values[i], &mut value);
            Some(value)
        }
    }

    /// Takes the map apart into its entries, in order.
    pub fn into_entries(self) -> (entries: Vec<(ComponentId, V)>)
        requires
            self.wf(),
        ensures
            entries@.len() == self@.len(),
            forall|i: int|
                0 <= i < entries@.len() ==> (#[trigger] entries@[i]).0@ == self@.keys[i]
                    && entries@[i].1 == self@.values[i],
    {
        let OrderedMap { index, values } = self;
        let mut entries: Vec<(ComponentId, V)> = Vec::new();
        for value in it: values.into_iter()
            invariant
                it.seq() == values@,
                indexed(index).len() == values@.len(),
                entries@.len() == it.index(),
                forall|i: int|
                    0 <= i < entries@.len() ==> (#[trigger] entries@[i]).0@ == indexed(index)[i]
                        && entries@[i].1 == values@[i],
        {
            let qualified = index_get(&index, entries.len()).unwrap();
            let scope = match &qualified.0 {
                Some(pipeline) => Some(pipeline.clone()),
                None => None,
            };
            entries.push((ComponentId { qualified: (scope, qualified.1.clone()) }, value));
        }
        entries
    }

    /// Binds every entry of `other`, in order, as `insert` does.
    pub fn extend(&mut self, other: Self)
        requires
            old(self).wf(),
            other.wf(),
        ensures
            final(self).wf(),
            final(self)@ == old(self)@.put_all(other@),
    {
        let entries = other.into_entries();
        for entry in it: entries.into_iter()
            invariant
                it.seq() == entries@,
                entries@.len() == other@.len(),
                forall|i: int|
                    0 <= i < entries@.len() ==> (#[trigger] entries@[i]).0@ == other@.keys[i]
                        && entries@[i].1 == other@.values[i],
                self.wf(),
                self@ == old(self)@.put_prefix(other@, it.index() as nat),
        {
            let (id, value) = entry;
            self.insert(id, value);
        }
    }
}

} // verus!
