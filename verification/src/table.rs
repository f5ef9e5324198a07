//! Insertion-ordered tables keyed by symbols.

use crate::ordered::{id_items, ids_get_index, ids_index_of, ids_insert_full, ids_len, ids_new};
use crate::symbol::Symbol;
use indexmap::IndexSet;
use vstd::prelude::*;

verus! {

/// A map from symbols to values that remembers the order in which its keys
/// were first inserted. The keys live in an ordered set; the value of the key
/// at position `i` is the `i`-th value.
#[derive(Debug, PartialEq, Eq)]
pub struct SymbolTable<V> {
    ids: IndexSet<u32>,
    values: Vec<V>,
}

/// The position of the first occurrence of `key` among `keys`, if any.
pub open spec fn position(keys: Seq<Symbol>, key: Symbol) -> Option<nat> {
    if keys.contains(key) {
        Some(keys.index_of_first(key).unwrap() as nat)
    } else {
        None
    }
}

/// `position` is the least position that holds the key.
pub proof fn lemma_position(keys: Seq<Symbol>, key: Symbol)
    ensures
        match position(keys, key) {
            Some(i) => i < keys.len() && keys[i as int] == key && forall|j: int|
                0 <= j < i ==> keys[j] != key,
            None => forall|j: int| 0 <= j < keys.len() ==> keys[j] != key,
        },
{
    keys.index_of_first_ensures(key);
}

/// A position that holds the key, with no earlier position holding it, is
/// the position of the key.
pub proof fn lemma_position_is(keys: Seq<Symbol>, key: Symbol, i: nat)
    requires
        i < keys.len(),
        keys[i as int] == key,
        forall|j: int| 0 <= j < i ==> keys[j] != key,
    ensures
        position(keys, key) == Some(i),
{
    lemma_position(keys, key);
    assert(keys.contains(key));
}

/// Among keys that do not repeat, a position that holds the key is the
/// position of the key.
pub proof fn lemma_position_unique(keys: Seq<Symbol>, key: Symbol, i: nat)
    requires
        keys.no_duplicates(),
        i < keys.len(),
        keys[i as int] == key,
    ensures
        position(keys, key) == Some(i),
{
    lemma_position(keys, key);
    assert(keys.contains(key));
}

impl<V> SymbolTable<V> {
    /// The keys, in insertion order.
    pub closed spec fn keys(&self) -> Seq<Symbol> {
        id_items(self.ids).map_values(|i: u32| Symbol { index: i })
    }

    /// The values, each at the position of its key.
    pub closed spec fn values(&self) -> Seq<V> {
        self.values@
    }

    /// Every key has a value, and no key occurs twice.
    #[verifier::type_invariant]
    pub open spec fn wf(&self) -> bool {
        &&& self.keys().len() == self.values().len()
        &&& self.keys().no_duplicates()
    }

    /// An empty table.
    pub fn new() -> (table: Self)
        ensures
            table.wf(),
            table.keys() == Seq::<Symbol>::empty(),
            table.values() == Seq::<V>::empty(),
    {
        let table = SymbolTable { ids: ids_new(), values: Vec::new() };
        assert(table.keys() =~= Seq::<Symbol>::empty());
        table
    }

    /// The number of entries.
    pub fn len(&self) -> (n: usize)
        ensures
            self.wf(),
            n == self.keys().len(),
    {
        proof {
            use_type_invariant(self);
        }
        ids_len(&self.ids)
    }

    /// The position and value of `key`, if the table has it.
    pub fn get_full(&self, key: Symbol) -> (r: Option<(usize, &V)>)
        ensures
            self.wf(),
            match r {
                Some((i, v)) => position(self.keys(), key) == Some(i as nat) && *v
                    == self.values()[i as int],
                None => position(self.keys(), key).is_none(),
            },
    {
        proof {
            use_type_invariant(self);
        }
        let ghost ids = id_items(self.ids);
        match ids_index_of(&self.ids, key.index) {
            Some(i) => {
                proof {
                    assert(self.keys()[i as int] == key);
                    assert forall|j: int| 0 <= j < i implies self.keys()[j] != key by {
                        assert(ids[j] != key.index);
                    }
                    lemma_position_is(self.keys(), key, i as nat);
                }
                Some((i, &self.values[i]))
            },
            None => {
                proof {
                    if self.keys().contains(key) {
                        let j = choose|j: int| 0 <= j < self.keys().len() && self.keys()[j] == key;
                        assert(ids[j] == key.index);
                        assert(ids.contains(key.index));
                    }
                }
                None
            },
        }
    }

    /// The value of `key`, if the table has it.
    pub fn get(&self, key: Symbol) -> (r: Option<&V>)
        ensures
            self.wf(),
            match r {
                Some(v) => position(self.keys(), key).is_some() && *v == self.values()[position(
                    self.keys(),
                    key,
                ).unwrap() as int],
                None => position(self.keys(), key).is_none(),
            },
    {
        match self.get_full(key) {
            Some((_, v)) => Some(v),
            None => None,
        }
    }

    /// The key and value at a position, if the position is in the table.
    pub fn get_index(&self, index: usize) -> (r: Option<(Symbol, &V)>)
        ensures
            self.wf(),
            match r {
                Some((k, v)) => index < self.keys().len() && k == self.keys()[index as int] && *v
                    == self.values()[index as int],
                None => index >= self.keys().len(),
            },
    {
        proof {
            use_type_invariant(self);
        }
        match ids_get_index(&self.ids, index) {
            Some(id) => Some((Symbol { index: id }, &self.values[index])),
            None => None,
        }
    }

    /// Gives `key` the value `value`. A key already in the table keeps its
    /// position; a new key goes last.
    pub fn insert(&mut self, key: Symbol, value: V)
        ensures
            final(self).wf(),
            final(self).keys() == inserted_keys(old(self).keys(), key),
            final(self).values() == inserted_values(old(self).keys(), old(self).values(), key, value),
    {
        proof {
            use_type_invariant(&*self);
        }
        let ghost keys = self.keys();
        let mut taken = SymbolTable { ids: ids_new(), values: Vec::new() };
        assert(taken.keys() =~= Seq::<Symbol>::empty());
        core::mem::swap(self, &mut taken);
        let SymbolTable { mut ids, mut values } = taken;
        let ghost before = id_items(ids);
        let (i, fresh) = ids_insert_full(&mut ids, key.index);
        proof {
            if keys.contains(key) {
                let j = choose|j: int| 0 <= j < keys.len() && keys[j] == key;
                assert(before[j] == key.index);
                assert(before.contains(key.index));
            }
            if before.contains(key.index) {
                let j = choose|j: int| 0 <= j < before.len() && before[j] == key.index;
                assert(keys[j] == key);
            }
        }
        if fresh {
            values.push(value);
            proof {
                let after = id_items(ids).map_values(|i: u32| Symbol { index: i });
                assert(after =~= keys.push(key));
                assert forall|a: int, b: int|
                    0 <= a < after.len() && 0 <= b < after.len() && a != b implies after[a]
                    != after[b] by {
                    if a < keys.len() && b < keys.len() {
                        assert(keys[a] != keys[b]);
                    }
                }
            }
        } else {
            proof {
                assert(keys[i as int] == key);
                assert forall|j: int| 0 <= j < i implies keys[j] != key by {
                    assert(keys[j] != keys[i as int]);
                }
                lemma_position_is(keys, key, i as nat);
            }
            values.set(i, value);
        }
        *self = SymbolTable { ids, values };
    }
}

impl<V> SymbolTable<V> {
    /// The table as a map from its keys to their values.
    pub open spec fn map(&self) -> Map<Symbol, V> {
        Map::new(
            |k: Symbol| self.keys().contains(k),
            |k: Symbol| self.values()[position(self.keys(), k).unwrap() as int],
        )
    }

    /// The value of `key`, if the table has it.
    pub fn find(&self, key: Symbol) -> (r: Option<&V>)
        ensures
            self.wf(),
            match r {
                Some(v) => self.map().contains_key(key) && *v == self.map()[key],
                None => !self.map().contains_key(key),
            },
    {
        match self.get_full(key) {
            Some((_, v)) => Some(v),
            None => None,
        }
    }

    /// Gives `key` the value `value`.
    pub fn put(&mut self, key: Symbol, value: V)
        ensures
            final(self).wf(),
            final(self).map() == old(self).map().insert(key, value),
            final(self).keys() == inserted_keys(old(self).keys(), key),
            final(self).values() == inserted_values(old(self).keys(), old(self).values(), key, value),
    {
        let _ = self.len();
        let ghost before = *self;
        self.insert(key, value);
        proof {
            let keys = before.keys();
            let after = self.keys();
            lemma_position(keys, key);
            assert forall|k: Symbol| after.contains(k) <==> (k == key || keys.contains(k)) by {
                if after.contains(k) {
                    let j = choose|j: int| 0 <= j < after.len() && after[j] == k;
                    if j < keys.len() {
                        assert(keys[j] == k);
                    }
                }
                if keys.contains(k) {
                    let j = choose|j: int| 0 <= j < keys.len() && keys[j] == k;
                    assert(after[j] == k);
                }
                if k == key && !keys.contains(key) {
                    assert(after[keys.len() as int] == key);
                }
            }
            assert forall|k: Symbol| after.contains(k) implies self.map()[k] == before.map().insert(
                key,
                value,
            )[k] by {
                lemma_position(after, k);
                let p = position(after, k).unwrap();
                if p < keys.len() {
                    assert(keys[p as int] == k);
                    lemma_position_unique(keys, k, p);
                } else {
                    assert(after[p as int] == key);
                }
            }
            assert(self.map() =~= before.map().insert(key, value));
        }
    }
}

/// The keys of a table after `key` was inserted.
pub open spec fn inserted_keys(keys: Seq<Symbol>, key: Symbol) -> Seq<Symbol> {
    if keys.contains(key) {
        keys
    } else {
        keys.push(key)
    }
}

/// The values of a table after `key` was given `value`.
pub open spec fn inserted_values<V>(keys: Seq<Symbol>, values: Seq<V>, key: Symbol, value: V) -> Seq<
    V,
> {
    match position(keys, key) {
        Some(i) => values.update(i as int, value),
        None => values.push(value),
    }
}

/// Whether no symbol occurs twice among `ids`.
pub fn all_distinct(ids: &Vec<Symbol>) -> (r: bool)
    ensures
        r == ids@.no_duplicates(),
{
    let mut seen: SymbolTable<()> = SymbolTable::new();
    let mut i: usize = 0;
    while i < ids.len()
        invariant
            i <= ids.len(),
            seen.wf(),
            seen.keys() =~= ids@.subrange(0, i as int),
        decreases ids.len() - i,
    {
        match seen.get_full(ids[i]) {
            Some((j, _)) => {
                proof {
                    lemma_position(seen.keys(), ids@[i as int]);
                    assert(ids@[j as int] == ids@[i as int]);
                }
                return false;
            },
            None => {
                proof {
                    lemma_position(seen.keys(), ids@[i as int]);
                }
                seen.insert(ids[i], ());
                assert(seen.keys() =~= ids@.subrange(0, i + 1));
            },
        }
        i += 1;
    }
    assert(seen.keys() =~= ids@);
    true
}

} // verus!
