//! An ordered table: keys in strictly ascending order, each with a value.
//!
//! The tables of the dashboard are walked in key order and addressed by
//! ordinal position, so the table keeps its entries sorted and hands them
//! out by position as well as by key.

use crate::order::ascending;
use crate::order::OrderedKey;
use crate::order::Placement;
use vstd::prelude::*;

verus! {

/// Inserting `id` at position `at` keeps a sequence ascending when all
/// that stands before `at` precedes `id` and `id` precedes all that stands
/// from `at` on.
pub proof fn lemma_insert_keeps_ascending<K: OrderedKey>(ids: Seq<K::Id>, at: int, id: K::Id)
    requires
        ascending::<K>(ids),
        0 <= at <= ids.len(),
        forall|k: int| 0 <= k < at ==> K::precedes(#[trigger] ids[k], id),
        forall|k: int| at <= k < ids.len() ==> K::precedes(id, #[trigger] ids[k]),
    ensures
        ascending::<K>(ids.insert(at, id)),
{
    let out = ids.insert(at, id);
    assert forall|p: int, q: int| 0 <= p < q < out.len() implies K::precedes(out[p], out[q]) by {
        if q < at {
            assert(out[p] == ids[p] && out[q] == ids[q]);
        } else if q == at {
            assert(out[p] == ids[p]);
        } else if p < at {
            assert(out[p] == ids[p] && out[q] == ids[q - 1]);
            if p == q - 1 {
            } else {
                assert(K::precedes(ids[p], ids[q - 1]));
            }
            K::lemma_transitive(ids[p], id, ids[q - 1]);
        } else if p == at {
            assert(out[q] == ids[q - 1]);
        } else {
            assert(out[p] == ids[p - 1] && out[q] == ids[q - 1]);
        }
    }
}

/// A sequence with one more member holds what it held and the new member.
pub proof fn lemma_insert_contains<A>(items: Seq<A>, at: int, item: A, other: A)
    requires
        0 <= at <= items.len(),
    ensures
        items.insert(at, item).contains(other) <==> items.contains(other) || other == item,
{
    let more = items.insert(at, item);
    if items.contains(other) {
        let k = choose|k: int| 0 <= k < items.len() && items[k] == other;
        if k < at {
            assert(more[k] == other);
        } else {
            assert(more[k + 1] == other);
        }
    }
    if other == item {
        assert(more[at] == other);
    }
    if more.contains(other) {
        let k = choose|k: int| 0 <= k < more.len() && more[k] == other;
        if k < at {
            assert(items[k] == other);
        } else if k > at {
            assert(items[k - 1] == other);
        }
    }
}

/// A table of values under keys kept in strictly ascending order.
pub struct SortedTable<K: OrderedKey, V> {
    keys: Vec<K>,
    values: Vec<V>,
}

impl<K: OrderedKey, V> SortedTable<K, V> {
    #[verifier::type_invariant]
    spec fn well_formed(&self) -> bool {
        &&& self.keys@.len() == self.values@.len()
        &&& ascending::<K>(self.ids())
    }

    /// The identities of the keys, in the order of the table.
    pub closed spec fn ids(&self) -> Seq<K::Id> {
        Seq::new(self.keys@.len(), |i: int| self.keys@[i].id())
    }

    /// The values, each at the position of its key.
    pub closed spec fn values(&self) -> Seq<V> {
        Seq::new(self.keys@.len(), |i: int| self.values@[i])
    }

    /// The table as a mapping from identity to value.
    pub open spec fn as_map(&self) -> Map<K::Id, V> {
        Map::new(
            |id: K::Id| self.ids().contains(id),
            |id: K::Id| self.values()[self.ids().index_of(id)],
        )
    }

    /// Every key has a value.
    pub proof fn lemma_one_value_per_key(&self)
        ensures
            self.ids().len() == self.values().len(),
    {
    }

    /// An empty table.
    pub fn new() -> (table: Self)
        ensures
            table.ids() == Seq::<K::Id>::empty(),
            table.values() == Seq::<V>::empty(),
    {
        let table = SortedTable { keys: Vec::new(), values: Vec::new() };
        assert(table.ids() =~= Seq::<K::Id>::empty());
        assert(table.values() =~= Seq::<V>::empty());
        table
    }

    /// The number of entries.
    pub fn len(&self) -> (n: usize)
        ensures
            n == self.ids().len(),
            n == self.values().len(),
            ascending::<K>(self.ids()),
    {
        proof {
            use_type_invariant(self);
        }
        self.keys.len()
    }

    /// Removes every entry.
    pub fn clear(&mut self)
        ensures
            final(self).ids() == Seq::<K::Id>::empty(),
            final(self).values() == Seq::<V>::empty(),
    {
        *self = SortedTable::new();
    }

    /// The key at an ordinal position.
    pub fn key_at(&self, index: usize) -> (key: &K)
        requires
            index < self.ids().len(),
        ensures
            key.id() == self.ids()[index as int],
    {
        &self.keys[index]
    }

    /// The value at an ordinal position.
    pub fn value_at(&self, index: usize) -> (value: &V)
        requires
            index < self.ids().len(),
        ensures
            *value == self.values()[index as int],
    {
        proof {
            use_type_invariant(self);
        }
        &self.values[index]
    }

    /// The value at an ordinal position, for changing it in place. The keys
    /// and the other values stay as they are.
    pub fn value_mut(&mut self, index: usize) -> (value: &mut V)
        requires
            index < old(self).ids().len(),
        ensures
            *value == old(self).values()[index as int],
            final(self).ids() == old(self).ids(),
            final(self).values() == old(self).values().update(index as int, *final(value)),
    {
        proof {
            use_type_invariant(&*self);
        }
        &mut self.values[index]
    }

    /// The position at which `key` stands or would stand: the first position
    /// whose key does not precede it, and whether that key is `key` itself.
    fn locate(&self, key: &K) -> (at: (usize, bool))
        ensures
            at.0 <= self.ids().len(),
            forall|k: int| 0 <= k < at.0 ==> K::precedes(#[trigger] self.ids()[k], key.id()),
            forall|k: int|
                at.0 <= k < self.ids().len() && !at.1 ==> K::precedes(
                    key.id(),
                    #[trigger] self.ids()[k],
                ),
            at.1 == self.ids().contains(key.id()),
            at.1 ==> at.0 < self.ids().len() && self.ids()[at.0 as int] == key.id(),
    {
        proof {
            use_type_invariant(self);
        }
        let ghost ids = self.ids();
        let ghost id = key.id();
        let n = self.keys.len();
        let mut i: usize = 0;
        while i < n
            invariant
                i <= n,
                n == self.keys@.len(),
                ids == self.ids(),
                id == key.id(),
                ascending::<K>(ids),
                forall|k: int| 0 <= k < i ==> K::precedes(#[trigger] ids[k], id),
            decreases n - i,
        {
            match self.keys[i].compare(key) {
                Placement::Before => {},
                Placement::Same => {
                    assert(ids[i as int] == id);
                    return (i, true);
                },
                Placement::After => {
                    proof {
                        K::lemma_total(ids[i as int], id);
                        assert forall|k: int| i <= k < ids.len() implies K::precedes(
                            id,
                            #[trigger] ids[k],
                        ) by {
                            if k > i {
                                assert(K::precedes(ids[i as int], ids[k]));
                                K::lemma_transitive(id, ids[i as int], ids[k]);
                            }
                        }
                        assert(!ids.contains(id)) by {
                            K::lemma_irreflexive(id);
                        }
                    }
                    return (i, false);
                },
            }
            i = i + 1;
        }
        proof {
            assert(!ids.contains(id)) by {
                K::lemma_irreflexive(id);
            }
        }
        (i, false)
    }

    /// The ordinal position of `key`, if the table holds it.
    pub fn position_of(&self, key: &K) -> (position: Option<usize>)
        ensures
            ascending::<K>(self.ids()),
            match position {
                Some(index) => index < self.ids().len() && self.ids()[index as int] == key.id(),
                None => !self.ids().contains(key.id()),
            },
    {
        proof {
            use_type_invariant(self);
        }
        let (index, found) = self.locate(key);
        if found {
            Some(index)
        } else {
            None
        }
    }

    /// The value under `key`, if the table holds it.
    pub fn get(&self, key: &K) -> (value: Option<&V>)
        ensures
            match value {
                Some(v) => self.as_map().contains_key(key.id()) && *v == self.as_map()[key.id()],
                None => !self.as_map().contains_key(key.id()),
            },
    {
        proof {
            use_type_invariant(self);
        }
        match self.position_of(key) {
            Some(index) => {
                proof {
                    crate::order::lemma_ascending_distinct::<K>(self.ids());
                    self.ids().index_of_first_ensures(key.id());
                }
                Some(self.value_at(index))
            },
            None => None,
        }
    }

    /// Puts `value` under `key` unless the table already holds the key, in
    /// which case the table stays as it is. Returns the position of the key.
    pub fn insert_if_absent(&mut self, key: K, value: V) -> (index: usize)
        ensures
            index <= old(self).ids().len(),
            index < final(self).ids().len(),
            final(self).ids()[index as int] == key.id(),
            ascending::<K>(final(self).ids()),
            final(self).ids().len() == final(self).values().len(),
            old(self).ids().contains(key.id()) ==> final(self).ids() == old(self).ids()
                && final(self).values() == old(self).values(),
            !old(self).ids().contains(key.id()) ==> final(self).ids() == old(self).ids().insert(
                index as int,
                key.id(),
            ) && final(self).values() == old(self).values().insert(index as int, value),
    {
        proof {
            use_type_invariant(&*self);
        }
        let (index, found) = self.locate(&key);
        if !found {
            let ghost ids = self.ids();
            let ghost vals = self.values();
            let ghost id = key.id();
            let mut taken = SortedTable::new();
            std::mem::swap(self, &mut taken);
            let SortedTable { mut keys, mut values } = taken;
            keys.insert(index, key);
            values.insert(index, value);
            proof {
                let new_ids = Seq::new(keys@.len(), |i: int| keys@[i].id());
                assert(new_ids =~= ids.insert(index as int, id));
                lemma_insert_keeps_ascending::<K>(ids, index as int, id);
            }
            let table = SortedTable { keys, values };
            proof {
                assert(table.ids() =~= ids.insert(index as int, id));
                assert(table.values() =~= vals.insert(index as int, value));
            }
            *self = table;
        }
        index
    }
}

} // verus!
