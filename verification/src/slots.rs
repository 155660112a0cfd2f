//! Slot maps that hold numbers.

use slotmap::{DefaultKey, Key, KeyData, SlotMap};
use vstd::prelude::*;

#[allow(unused_imports)]
use crate::keys::{is_key, slot_of};

verus! {

/// A slot map from keys to numbers.
#[verifier::external_body]
pub struct SlotTable {
    slots: SlotMap<DefaultKey, u64>,
}

/// The numbers in a slot map, by the numbers of their keys.
pub uninterp spec fn slot_values(slots: SlotTable) -> Map<u64, u64>;

/// The most numbers that a slot map holds.
pub open spec fn max_slots() -> nat {
    0xffff_fffe
}

/// No numbers at all.
pub open spec fn no_values() -> Map<u64, u64> {
    Map::empty()
}

/// `pairs` are the entries of `values`, in the order of their slots.
pub open spec fn lists_slots(values: Map<u64, u64>, pairs: Seq<(u64, u64)>) -> bool {
    &&& forall|i: int| 0 <= i < pairs.len() ==> values.contains_key((#[trigger] pairs[i]).0)
    &&& forall|i: int| 0 <= i < pairs.len() ==> values[(#[trigger] pairs[i]).0] == pairs[i].1
    &&& forall|i: int, j: int|
        0 <= i < j < pairs.len() ==> slot_of((#[trigger] pairs[i]).0) < slot_of(
            (#[trigger] pairs[j]).0,
        )
    &&& forall|key: u64| #[trigger]
        values.contains_key(key) ==> exists|i: int|
            0 <= i < pairs.len() && (#[trigger] pairs[i]).0 == key
}

/// Calls `SlotMap::new`: no entries.
#[verifier::external_body]
pub(crate) fn new_slots() -> (slots: SlotTable)
    ensures
        slot_values(slots) == no_values(),
{
    SlotTable { slots: SlotMap::new() }
}

/// Calls `SlotMap::len`.
#[verifier::external_body]
pub(crate) fn slots_len(slots: &SlotTable) -> (len: usize)
    ensures
        len == slot_values(*slots).dom().len(),
{
    slots.slots.len()
}

/// Calls `SlotMap::insert`: the number goes under a new key.
#[verifier::external_body]
pub(crate) fn slots_insert(slots: &mut SlotTable, value: u64) -> (key: u64)
    requires
        slot_values(*old(slots)).dom().len() < max_slots(),
    ensures
        is_key(key),
        !slot_values(*old(slots)).contains_key(key),
        slot_values(*final(slots)) == slot_values(*old(slots)).insert(key, value),
{
    slots.slots.insert(value).data().as_ffi()
}

/// Calls `SlotMap::remove`: the number under the key leaves, if there is one.
#[verifier::external_body]
pub(crate) fn slots_remove(slots: &mut SlotTable, key: u64)
    requires
        is_key(key),
    ensures
        slot_values(*final(slots)) == slot_values(*old(slots)).remove(key),
{
    slots.slots.remove(DefaultKey::from(KeyData::from_ffi(key)));
}

/// Calls `SlotMap::drain`: all numbers leave, in the order of their slots.
#[verifier::external_body]
pub(crate) fn slots_drain(slots: &mut SlotTable) -> (pairs: Vec<(u64, u64)>)
    ensures
        lists_slots(slot_values(*old(slots)), pairs@),
        slot_values(*final(slots)) == no_values(),
{
    slots.slots.drain().map(|(key, value)| (key.data().as_ffi(), value)).collect()
}

/// Calls `SlotMap::get`: the number under the key, if there is one.
#[verifier::external_body]
pub(crate) fn slots_get(slots: &SlotTable, key: u64) -> (value: Option<u64>)
    requires
        is_key(key),
    ensures
        value == (if slot_values(*slots).contains_key(key) {
            Some(slot_values(*slots)[key])
        } else {
            None::<u64>
        }),
{
    slots.slots.get(DefaultKey::from(KeyData::from_ffi(key))).copied()
}

} // verus!
