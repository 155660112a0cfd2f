//! Tables by slot-map keys.

use crate::keys;
use slotmap::{DefaultKey, Key, KeyData, SecondaryMap};
use vstd::prelude::*;

#[allow(unused_imports)]
use crate::keys::{admits, distinct_slots, entered, is_key, is_slot_order, lemma_entered, lemma_slot_order_distinct};

verus! {

/// A secondary map from keys to positions.
#[verifier::external_body]
pub struct KeyIndex {
    positions: SecondaryMap<DefaultKey, usize>,
}

/// The positions in a secondary map, by the numbers of their keys.
pub uninterp spec fn key_positions(index: KeyIndex) -> Map<u64, usize>;

/// No positions at all.
pub open spec fn no_positions() -> Map<u64, usize> {
    Map::empty()
}

/// Calls `SecondaryMap::new`: no entries.
#[verifier::external_body]
fn new_index() -> (index: KeyIndex)
    ensures
        key_positions(index) == no_positions(),
{
    KeyIndex { positions: SecondaryMap::new() }
}

/// Calls `SecondaryMap::get`: the entry under the key, if there is one.
#[verifier::external_body]
fn index_get(index: &KeyIndex, key: u64) -> (position: Option<usize>)
    requires
        is_key(key),
    ensures
        position == (if key_positions(*index).contains_key(key) {
            Some(key_positions(*index)[key])
        } else {
            None::<usize>
        }),
{
    index.positions.get(DefaultKey::from(KeyData::from_ffi(key))).copied()
}

/// Calls `SecondaryMap::entry` and `Entry::or_insert`: an entry that the key
/// has stays, and else it gets this one, in place of that of an older version
/// of the key's slot.
#[verifier::external_body]
fn index_entry(index: &mut KeyIndex, key: u64, position: usize) -> (entry: usize)
    requires
        admits(key_positions(*old(index)).dom(), key),
    ensures
        entry == (if key_positions(*old(index)).contains_key(key) {
            key_positions(*old(index))[key]
        } else {
            position
        }),
        key_positions(*final(index)) == entered(key_positions(*old(index)), key, entry),
{
    *index.positions.entry(DefaultKey::from(KeyData::from_ffi(key))).unwrap().or_insert(position)
}

/// Calls `SecondaryMap::keys`: the keys of all entries, in the order of their
/// slots.
#[verifier::external_body]
fn index_keys(index: &KeyIndex) -> (keys: Vec<u64>)
    ensures
        is_slot_order(key_positions(*index).dom(), keys@),
{
    index.positions.keys().map(|key| key.data().as_ffi()).collect()
}

/// A table of values by keys.
#[verifier::reject_recursive_types(V)]
pub struct NodeTable<V> {
    index: KeyIndex,
    values: Vec<V>,
}

/// The values at the positions of the keys.
spec fn values_at<V>(positions: Map<u64, usize>, values: Seq<V>) -> Map<u64, V> {
    positions.map_values(|position: usize| values[position as int])
}

impl<V> View for NodeTable<V> {
    type V = Map<u64, V>;

    closed spec fn view(&self) -> Map<u64, V> {
        values_at(key_positions(self.index), self.values@)
    }
}

impl<V> NodeTable<V> {
    /// Each key has a value of its own, and a slot.
    pub closed spec fn wf(&self) -> bool {
        let positions = key_positions(self.index);
        &&& forall|key: u64| #[trigger]
            positions.contains_key(key) ==> positions[key] < self.values@.len()
        &&& forall|a: u64, b: u64| #[trigger]
            positions.contains_key(a) && #[trigger] positions.contains_key(b) && a != b
                ==> positions[a] != positions[b]
        &&& distinct_slots(self@.dom())
    }

    /// No two keys of a table are versions of one slot.
    pub proof fn lemma_distinct_slots(&self)
        requires
            self.wf(),
        ensures
            distinct_slots(self@.dom()),
    {
    }

    /// An empty table.
    pub fn new() -> (table: NodeTable<V>)
        ensures
            table.wf(),
            table@ == Map::<u64, V>::empty(),
    {
        let table = NodeTable { index: new_index(), values: Vec::new() };
        assert(table@ =~= Map::<u64, V>::empty());
        table
    }

    /// Whether the table has a value under `key`.
    pub fn contains(&self, key: u64) -> (contained: bool)
        requires
            is_key(key),
        ensures
            contained == self@.contains_key(key),
    {
        index_get(&self.index, key).is_some()
    }

    /// The value under `key`, if there is one.
    pub fn get(&self, key: u64) -> (value: Option<&V>)
        requires
            self.wf(),
            is_key(key),
        ensures
            value == (if self@.contains_key(key) {
                Some(&self@[key])
            } else {
                None
            }),
    {
        match index_get(&self.index, key) {
            Some(position) => Some(&self.values[position]),
            None => None,
        }
    }

    /// The value under a key that has one.
    pub fn get_mut(&mut self, key: u64) -> (value: &mut V)
        requires
            old(self).wf(),
            is_key(key),
            old(self)@.contains_key(key),
        ensures
            *value == old(self)@[key],
            final(self).wf(),
            final(self)@ == old(self)@.insert(key, *final(value)),
    {
        let position: usize = match index_get(&self.index, key) {
            Some(position) => position,
            None => 0,
        };
        let ghost positions = key_positions(self.index);
        let ghost values = self.values@;
        proof {
            assert forall|v: V| #[trigger] values_at(
                positions,
                values.update(position as int, v),
            ) == values_at(positions, values).insert(key, v) by {
                assert(values_at(positions, values.update(position as int, v)) =~= values_at(
                    positions,
                    values,
                ).insert(key, v));
            }
            assert(self@.dom().insert(key) =~= self@.dom());
        }
        &mut self.values[position]
    }

    /// The value under `key`, which is `fresh` where there was none. An older
    /// version of the key's slot leaves the table.
    pub fn or_insert(&mut self, key: u64, fresh: V) -> (value: &mut V)
        requires
            old(self).wf(),
            admits(old(self)@.dom(), key),
        ensures
            *value == (if old(self)@.contains_key(key) {
                old(self)@[key]
            } else {
                fresh
            }),
            final(self).wf(),
            final(self)@ == entered(old(self)@, key, *final(value)),
    {
        let ghost before = self@;
        let ghost positions = key_positions(self.index);
        assert(positions.dom() =~= before.dom());
        let next: usize = self.values.len();
        let position: usize = index_entry(&mut self.index, key, next);
        if position == next {
            self.values.push(fresh);
        }
        proof {
            lemma_entered(before, key, self@[key]);
            assert(self@ =~= entered(before, key, self@[key]));
            assert forall|v: V| #[trigger] self@.insert(key, v) == entered(before, key, v) by {
                assert(self@.insert(key, v) =~= entered(before, key, v));
            }
        }
        self.get_mut(key)
    }

    /// Whether the table takes `key`.
    pub fn takes(&self, key: u64) -> (taken: bool)
        ensures
            taken == admits(self@.dom(), key),
    {
        let keys = self.keys();
        proof {
            lemma_slot_order_distinct(self@.dom(), keys@);
        }
        keys::takes(&keys, key)
    }

    /// The keys of the table, in the order of their slots.
    pub fn keys(&self) -> (keys: Vec<u64>)
        ensures
            is_slot_order(self@.dom(), keys@),
    {
        let keys = index_keys(&self.index);
        assert(self@.dom() =~= key_positions(self.index).dom());
        keys
    }
}

} // verus!
