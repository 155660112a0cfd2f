use polars_engine::nested::{
    BinaryChunked, BinaryViewArray, ChunkedArray, CollectNested, FromNestedIterator, NoNull,
    Utf8Chunked, Utf8ViewArray,
};
use polars_engine::node_table::NodeTable;
use polars_engine::numbered::Numbered;
use slotmap::{DefaultKey, Key, SlotMap};

#[test]
fn nested_items_come_one_after_the_other() {
    let nested = vec![vec![1, 2], vec![], vec![3]];
    let flat: Vec<i32> = nested.clone().collect_nested(3);
    assert_eq!(flat, [1, 2, 3]);
    // The capacity is only a hint.
    assert_eq!(Vec::from_iter_nested(nested, 0), [1, 2, 3]);
    let none: Vec<i32> = Vec::<Vec<i32>>::new().collect_nested(5);
    assert!(none.is_empty());
}

#[test]
fn nested_values_make_one_chunk() {
    let array: ChunkedArray<i64> = vec![vec![Some(1), None], vec![Some(3)]].collect_nested(3);
    assert_eq!(array.name, "");
    assert_eq!(array.chunks, [vec![Some(1), None, Some(3)]]);

    let array: NoNull<ChunkedArray<i64>> = vec![vec![1], vec![2, 3]].collect_nested(3);
    assert_eq!(array.0.name, "");
    assert_eq!(array.0.chunks, [vec![Some(1), Some(2), Some(3)]]);
}

#[test]
fn nested_strings_make_one_array() {
    let array: Utf8ViewArray = vec![vec![Some("a"), None], vec![Some("bc")]].collect_nested(3);
    assert_eq!(array.values, [Some("a".to_string()), None, Some("bc".to_string())]);

    let a: &[u8] = &[1, 2];
    let b: &[u8] = &[];
    let nested = vec![vec![Some(a)], vec![None, Some(b)]];
    let array: BinaryViewArray = nested.clone().collect_nested(3);
    assert_eq!(array.values, [Some(vec![1, 2]), None, Some(vec![])]);

    let array: BinaryChunked = nested.collect_nested(3);
    assert_eq!(array.name, "");
    assert_eq!(array.chunks, [vec![Some(vec![1, 2]), None, Some(vec![])]]);
    let array: Utf8Chunked = vec![vec![None], vec![Some("d")]].collect_nested(2);
    assert_eq!(array.chunks, [vec![None, Some("d".to_string())]]);
}

#[test]
fn a_table_is_read_by_its_keys() {
    let mut nodes: SlotMap<DefaultKey, ()> = SlotMap::new();
    let keys: Vec<u64> = (0..3).map(|_| nodes.insert(()).data().as_ffi()).collect();
    let mut table: NodeTable<&str> = NodeTable::new();
    *table.or_insert(keys[2], "two") = "zwei";
    table.or_insert(keys[0], "zero");
    // What is there stays.
    assert_eq!(*table.or_insert(keys[2], "other"), "zwei");
    assert_eq!(table.keys(), [keys[0], keys[2]]);
    assert!(table.contains(keys[0]) && !table.contains(keys[1]));
    assert_eq!(table.get(keys[1]), None);
    *table.get_mut(keys[0]) = "null";
    assert_eq!(table.get(keys[0]), Some(&"null"));
}

#[test]
fn a_newer_version_takes_the_place_of_an_older_one() {
    let mut nodes: SlotMap<DefaultKey, ()> = SlotMap::new();
    let first = nodes.insert(());
    nodes.remove(first);
    let second = nodes.insert(());
    let other = nodes.insert(());
    let [first, second, other] = [first, second, other].map(|key| key.data().as_ffi());
    assert_eq!(first as u32, second as u32);

    let mut table: NodeTable<&str> = NodeTable::new();
    table.or_insert(first, "first");
    table.or_insert(other, "other");
    assert!(table.takes(first) && table.takes(second) && table.takes(other));
    assert!(!table.takes(0) && !table.takes(u64::MAX));
    assert_eq!(*table.or_insert(second, "second"), "second");
    assert_eq!(table.get(first), None);
    assert_eq!(table.get(second), Some(&"second"));
    assert_eq!(table.get(other), Some(&"other"));
    assert_eq!(table.keys(), [second, other]);
    // The older version no longer fits.
    assert!(!table.takes(first));
    assert!(table.takes(second));
    // A version this high counts as older than none at all.
    assert!(!NodeTable::<u8>::new().takes((0x8000_0001u64 << 32) | 9));
}

#[test]
fn numbers_are_given_out_once() {
    let mut table: Numbered<&str> = Numbered::new();
    assert!(table.has_room());
    let a = table.add("a");
    let b = table.add("b");
    assert_eq!(table.get(a), Some(&"a"));
    assert_eq!(table.remove(a), Some("a"));
    assert_eq!(table.remove(a), None);
    assert!(!table.contains(a) && table.contains(b));
    assert!(table.add("c") != a);
    table.put(a, "again");
    assert_eq!(table.get(a), Some(&"again"));
}
