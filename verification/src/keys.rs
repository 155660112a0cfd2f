//! The keys of slot maps, as numbers.
//!
//! A key is a slot and a version of it. Its number holds the slot in the lower
//! half and the version, which is odd, in the upper half. A table by keys has
//! room for one version of each slot: a newer version takes the place of an
//! older one.

use vstd::prelude::*;

verus! {

/// The slot of the key numbered `key`.
pub open spec fn slot_of(key: u64) -> int {
    key as int % 0x1_0000_0000
}

/// The version of the key numbered `key`.
pub open spec fn version_of(key: u64) -> int {
    key as int / 0x1_0000_0000
}

/// Whether `key` is the number of a key.
pub open spec fn is_key(key: u64) -> bool {
    version_of(key) % 2 == 1
}

/// Whether `key` is the number of a key.
pub fn is_key_number(key: u64) -> (is: bool)
    ensures
        is == is_key(key),
{
    (key / 0x1_0000_0000) % 2 == 1
}

/// Whether `a` and `b` are different versions of one slot.
pub open spec fn rivals(a: u64, b: u64) -> bool {
    a != b && slot_of(a) == slot_of(b)
}

/// Whether a version of a slot is older than another. Versions wrap around, so
/// it is whichever is the shorter way behind.
pub open spec fn is_older(version: int, other: int) -> bool {
    (version - other) % 0x1_0000_0000 >= 0x8000_0000
}

/// Whether a table over `keys` takes `key`: it is not the null key, and not
/// older than the version of its slot that is in use. A slot that is not in use
/// counts as version zero.
pub open spec fn admits(keys: Set<u64>, key: u64) -> bool {
    &&& is_key(key)
    &&& slot_of(key) != 0xffff_ffff
    &&& forall|other: u64| #[trigger]
        keys.contains(other) && rivals(key, other) ==> !is_older(version_of(key), version_of(other))
    &&& is_older(version_of(key), 0) ==> exists|other: u64| #[trigger]
        keys.contains(other) && slot_of(other) == slot_of(key)
}

/// Whether a version of a slot is older than another.
fn is_older_version(version: u64, other: u64) -> (older: bool)
    requires
        version <= 0xffff_ffff,
        other <= 0xffff_ffff,
    ensures
        older == is_older(version as int, other as int),
{
    if version >= other {
        version - other >= 0x8000_0000
    } else {
        proof {
            vstd::arithmetic::div_mod::lemma_fundamental_div_mod_converse(
                version - other,
                0x1_0000_0000,
                -1,
                0x1_0000_0000 + version - other,
            );
        }
        0x1_0000_0000 - (other - version) >= 0x8000_0000
    }
}

/// Whether a table over `keys` takes `key`.
pub fn takes(keys: &Vec<u64>, key: u64) -> (taken: bool)
    ensures
        taken == admits(keys@.to_set(), key),
{
    if !is_key_number(key) || key % 0x1_0000_0000 == 0xffff_ffff {
        return false;
    }
    let version: u64 = key / 0x1_0000_0000;
    let mut in_use: bool = false;
    let mut i: usize = 0;
    while i < keys.len()
        invariant
            i <= keys@.len(),
            version == key / 0x1_0000_0000,
            is_key(key),
            in_use == exists|k: int| 0 <= k < i && slot_of(#[trigger] keys@[k]) == slot_of(key),
            forall|k: int|
                0 <= k < i && rivals(key, #[trigger] keys@[k]) ==> !is_older(
                    version_of(key),
                    version_of(keys@[k]),
                ),
        decreases keys@.len() - i,
    {
        let other: u64 = keys[i];
        if other % 0x1_0000_0000 == key % 0x1_0000_0000 {
            in_use = true;
            if other != key && is_older_version(version, other / 0x1_0000_0000) {
                proof {
                    assert(keys@.to_set().contains(other) && rivals(key, other));
                }
                return false;
            }
            assert(slot_of(keys@[i as int]) == slot_of(key));
        }
        i = i + 1;
    }
    proof {
        let set = keys@.to_set();
        assert forall|other: u64| #[trigger]
            set.contains(other) && rivals(key, other) implies !is_older(
            version_of(key),
            version_of(other),
        ) by {
            let k = keys@.index_of(other);
            assert(rivals(key, keys@[k]));
        }
        if in_use {
            let k = choose|k: int|
                0 <= k < keys@.len() && slot_of(#[trigger] keys@[k]) == slot_of(key);
            assert(set.contains(keys@[k]));
        } else if exists|other: u64| #[trigger]
            set.contains(other) && slot_of(other) == slot_of(key) {
            let other = choose|other: u64| #[trigger]
                set.contains(other) && slot_of(other) == slot_of(key);
            let k = keys@.index_of(other);
            assert(slot_of(keys@[k]) == slot_of(key));
        }
    }
    in_use || !is_older_version(version, 0)
}

/// Each is a key but the null key, and no two are versions of one slot.
pub open spec fn distinct_slots(keys: Set<u64>) -> bool {
    &&& forall|a: u64| #[trigger] keys.contains(a) ==> is_key(a) && slot_of(a) != 0xffff_ffff
    &&& forall|a: u64, b: u64| #[trigger]
        keys.contains(a) && #[trigger] keys.contains(b) ==> !rivals(a, b)
}

/// The entries without those of other versions of the slot of `key`.
pub open spec fn without_rivals<V>(entries: Map<u64, V>, key: u64) -> Map<u64, V> {
    entries.remove_keys(Set::new(|other: u64| rivals(key, other)))
}

/// The entries after `value` was put under `key`.
pub open spec fn entered<V>(entries: Map<u64, V>, key: u64, value: V) -> Map<u64, V> {
    without_rivals(entries, key).insert(key, value)
}

/// `ordered` lists the keys in the order of their slots.
pub open spec fn is_slot_order(keys: Set<u64>, ordered: Seq<u64>) -> bool {
    &&& forall|i: int, j: int|
        0 <= i < j < ordered.len() ==> slot_of(#[trigger] ordered[i]) < slot_of(#[trigger] ordered[j])
    &&& forall|key: u64| #[trigger] keys.contains(key) <==> ordered.contains(key)
}

/// Keys in the order of their slots are distinct.
pub proof fn lemma_slot_order_distinct(keys: Set<u64>, ordered: Seq<u64>)
    requires
        is_slot_order(keys, ordered),
    ensures
        ordered.no_duplicates(),
        ordered.to_set() == keys,
{
    assert(ordered.to_set() =~= keys);
}

/// There is one order of the slots.
pub proof fn lemma_slot_order_unique(keys: Set<u64>, a: Seq<u64>, b: Seq<u64>)
    requires
        is_slot_order(keys, a),
        is_slot_order(keys, b),
    ensures
        a == b,
    decreases a.len(),
{
    if a.len() == 0 {
        if b.len() > 0 {
            assert(b.contains(b[0]));
            assert(keys.contains(b[0]));
            assert(a.contains(b[0]));
        }
        assert(a =~= b);
    } else {
        let last = a.last();
        assert(a.contains(last));
        assert(keys.contains(last));
        assert(b.contains(last));
        let j = b.index_of(last);
        assert(b.contains(b.last()));
        assert(keys.contains(b.last()));
        assert(a.contains(b.last()));
        let i = a.index_of(b.last());
        assert(i == a.len() - 1) by {
            if i < a.len() - 1 {
                assert(slot_of(a[i]) < slot_of(a[a.len() - 1]));
                if j < b.len() - 1 {
                    assert(slot_of(b[j]) < slot_of(b[b.len() - 1]));
                }
            }
        }
        assert(b.last() == last);
        let rest = keys.remove(last);
        lemma_slot_order_rest(keys, a);
        lemma_slot_order_rest(keys, b);
        lemma_slot_order_unique(rest, a.drop_last(), b.drop_last());
        assert(a =~= a.drop_last().push(last));
        assert(b =~= b.drop_last().push(last));
    }
}

proof fn lemma_slot_order_rest(keys: Set<u64>, a: Seq<u64>)
    requires
        is_slot_order(keys, a),
        a.len() > 0,
    ensures
        is_slot_order(keys.remove(a.last()), a.drop_last()),
{
    let rest = a.drop_last();
    assert forall|key: u64| #[trigger]
        keys.remove(a.last()).contains(key) <==> rest.contains(key) by {
        if keys.remove(a.last()).contains(key) {
            assert(keys.contains(key));
            let i = a.index_of(key);
            assert(rest[i] == key);
        }
        if rest.contains(key) {
            let i = rest.index_of(key);
            assert(a[i] == key);
            assert(a.contains(key));
            assert(keys.contains(key));
            assert(slot_of(a[i]) < slot_of(a[a.len() - 1]));
        }
    }
}

/// A table takes a key that it has, and the entry stays alone in its slot.
pub proof fn lemma_known_key<V>(entries: Map<u64, V>, key: u64)
    requires
        distinct_slots(entries.dom()),
        entries.contains_key(key),
    ensures
        without_rivals(entries, key) == entries,
        admits(entries.dom(), key),
{
    assert(entries.dom().contains(key));
    assert(without_rivals(entries, key) =~= entries) by {
        assert forall|other: u64| entries.contains_key(other) implies !rivals(key, other) by {
            assert(entries.dom().contains(other));
        }
    }
}

/// Entering a key keeps one version of each slot.
pub proof fn lemma_entered<V>(entries: Map<u64, V>, key: u64, value: V)
    requires
        distinct_slots(entries.dom()),
        is_key(key),
        slot_of(key) != 0xffff_ffff,
    ensures
        distinct_slots(entered(entries, key, value).dom()),
        admits(entered(entries, key, value).dom(), key),
{
    let after = entered(entries, key, value);
    assert forall|a: u64| #[trigger] after.dom().contains(a) implies is_key(a) && slot_of(a)
        != 0xffff_ffff by {
        if a != key {
            assert(entries.dom().contains(a));
        }
    }
    assert forall|a: u64, b: u64| #[trigger]
        after.dom().contains(a) && #[trigger] after.dom().contains(b) implies !rivals(a, b) by {
        if a != key && b != key {
            assert(entries.dom().contains(a) && entries.dom().contains(b));
        }
    }
    assert(after.dom().contains(key));
}

proof fn lemma_parts(slot: u64, version: u64, key: u64)
    requires
        slot < 0x1_0000_0000,
        key == slot + version * 0x1_0000_0000,
    ensures
        slot_of(key) == slot,
        version_of(key) == version,
{
    vstd::arithmetic::div_mod::lemma_fundamental_div_mod_converse(
        key as int,
        0x1_0000_0000,
        version as int,
        slot as int,
    );
}

/// The lower half of a key is a slot, any, and the upper half a version of it,
/// which is odd.
pub proof fn law_versions_of_keys_are_odd(key: u64, is: bool, slot: u64, version: u64)
    requires
        call_ensures(is_key_number, (key,), is),
        slot < 0x1_0000_0000,
        key == slot + version * 0x1_0000_0000,
    ensures
        is <==> exists|half: int| version == #[trigger] (2 * half) + 1,
{
    lemma_parts(slot, version, key);
    if is {
        let half: int = version as int / 2;
        assert(version == (2 * half) + 1);
    }
}

/// A table takes no key of the null slot, and none whose version is even.
pub proof fn law_null_key_is_not_taken(keys: &Vec<u64>, key: u64, taken: bool, slot: u64, version: u64)
    requires
        call_ensures(takes, (keys, key), taken),
        slot < 0x1_0000_0000,
        key == slot + version * 0x1_0000_0000,
        slot == 0xffff_ffff || version % 2 == 0,
    ensures
        !taken,
{
    lemma_parts(slot, version, key);
}

/// Where the slot is not in use, its versions of the first half are taken.
pub proof fn law_unused_slot_is_taken(
    keys: &Vec<u64>,
    key: u64,
    taken: bool,
    slot: u64,
    version: u64,
)
    requires
        call_ensures(takes, (keys, key), taken),
        slot < 0xffff_ffff,
        version < 0x1_0000_0000,
        key == slot + version * 0x1_0000_0000,
        version % 2 == 1,
        forall|i: int|
            0 <= i < keys@.len() ==> #[trigger] keys@[i] as int % 0x1_0000_0000 != slot,
    ensures
        taken <==> version < 0x8000_0000,
{
    lemma_parts(slot, version, key);
    vstd::arithmetic::div_mod::lemma_small_mod(version as nat, 0x1_0000_0000);
    let set = keys@.to_set();
    assert forall|other: u64| #[trigger] set.contains(other) implies slot_of(other) != slot by {
        let k = keys@.index_of(other);
        assert(keys@[k] as int % 0x1_0000_0000 != slot);
    }
}

/// Where another version of the slot is in use, a key is taken exactly where it
/// is newer: less than half of all versions ahead, counted round their end.
pub proof fn law_newer_version_is_taken(
    keys: &Vec<u64>,
    key: u64,
    taken: bool,
    slot: u64,
    version: u64,
    k: int,
    other: u64,
    ahead: int,
)
    requires
        call_ensures(takes, (keys, key), taken),
        slot < 0xffff_ffff,
        version < 0x1_0000_0000,
        key == slot + version * 0x1_0000_0000,
        version % 2 == 1,
        0 <= k < keys@.len(),
        keys@[k] == slot + other * 0x1_0000_0000,
        other < 0x1_0000_0000,
        forall|i: int|
            0 <= i < keys@.len() && i != k ==> #[trigger] keys@[i] as int % 0x1_0000_0000 != slot,
        0 <= ahead < 0x1_0000_0000,
        version == other + ahead || version + 0x1_0000_0000 == other + ahead,
    ensures
        taken <==> ahead < 0x8000_0000,
{
    lemma_parts(slot, version, key);
    lemma_parts(slot, other, keys@[k]);
    let m: int = 0x1_0000_0000;
    if version == other + ahead {
        vstd::arithmetic::div_mod::lemma_small_mod(ahead as nat, m as nat);
    } else {
        vstd::arithmetic::div_mod::lemma_fundamental_div_mod_converse(
            version - other,
            m,
            -1,
            ahead,
        );
    }
    let set = keys@.to_set();
    assert(set.contains(keys@[k]));
    assert forall|o: u64| #[trigger] set.contains(o) && rivals(key, o) implies o == keys@[k] by {
        let i = keys@.index_of(o);
        if i != k {
            assert(keys@[i] as int % 0x1_0000_0000 != slot);
        }
    }
    if version != other {
        assert(rivals(key, keys@[k]));
    }
}

} // verus!
