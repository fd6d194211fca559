use tecs::component_set::MAX_COMPONENTS;
use tecs::signature::{insert_sorted, same_ids, SignatureIndex};
use tecs::{Component, ComponentSet, Marker, TypeInfo, Value};

fn value(id: u64, size: usize) -> Value {
    Value::new(TypeInfo { id, size, align: 1 }, vec![0; size]).unwrap()
}

#[test]
fn value_needs_exactly_one_value_of_bytes() {
    let info = TypeInfo { id: 1, size: 3, align: 1 };
    assert!(Value::new(info, vec![1, 2]).is_none());
    assert!(Value::new(info, vec![1, 2, 3, 4]).is_none());
    let value = Value::new(info, vec![1, 2, 3]).unwrap();
    assert_eq!(value.info().id, 1);
    assert_eq!(value.info().size, 3);
    assert_eq!(value.bytes(), &[1, 2, 3][..]);
    let empty = Value::new(TypeInfo { id: 2, size: 0, align: 1 }, vec![]).unwrap();
    assert_eq!(empty.bytes(), &[][..]);
}

#[test]
fn marker_has_no_bytes() {
    let marker = Marker::new(9);
    assert_eq!(marker.info().id, 9);
    assert_eq!(marker.info().size, 0);
    assert_eq!(marker.info().align, 1);
    assert_eq!(marker.bytes(), &[][..]);
}

#[test]
fn component_infos_are_sorted_by_identity() {
    let set = (value(30, 1), Marker::new(10), value(20, 2), value(5, 4));
    let ids: Vec<u64> = set.component_infos().iter().map(|info| info.id).collect();
    assert_eq!(ids, [5, 10, 20, 30]);
    let sizes: Vec<usize> = set.component_infos().iter().map(|info| info.size).collect();
    assert_eq!(sizes, [4, 0, 2, 1]);
    assert_eq!(set.component_ids(), [5, 10, 20, 30]);
    assert_eq!(value(3, 1).component_ids(), [3]);
    assert_eq!((value(3, 1),).component_ids(), [3]);
}

#[test]
fn parts_keep_the_order_of_declaration() {
    let set = (value(30, 1), Marker::new(10));
    let parts = set.parts();
    assert_eq!(parts.len(), 2);
    assert_eq!(parts[0].0.id, 30);
    assert_eq!(parts[0].1, &[0][..]);
    assert_eq!(parts[1].0.id, 10);
    assert_eq!(parts[1].1, &[][..]);
}

#[test]
fn group_with_repeated_type_is_invalid() {
    assert!((value(1, 1), value(2, 1)).is_valid());
    assert!(!(value(1, 1), value(1, 1)).is_valid());
    assert!(!(value(1, 1), value(2, 1), Marker::new(1)).is_valid());
    assert!(Marker::new(1).is_valid());
}

#[test]
fn group_of_fourteen_is_valid() {
    assert_eq!(MAX_COMPONENTS, 14);
    let set = (
        Marker::new(14),
        Marker::new(13),
        Marker::new(12),
        Marker::new(11),
        Marker::new(10),
        Marker::new(9),
        Marker::new(8),
        Marker::new(7),
        Marker::new(6),
        Marker::new(5),
        Marker::new(4),
        Marker::new(3),
        Marker::new(2),
        Marker::new(1),
    );
    assert!(set.is_valid());
    assert_eq!(set.component_ids(), (1..=14).collect::<Vec<u64>>());
}

#[test]
fn make_archetype_lays_columns_out_in_signature_order() {
    let archetype = (value(9, 1), value(4, 2), Marker::new(6)).make_archetype();
    let ids: Vec<u64> = archetype.component_types().iter().map(|info| info.id).collect();
    assert_eq!(ids, [4, 6, 9]);
    assert_eq!(archetype.column(4), Some(0));
    assert_eq!(archetype.column(6), Some(1));
    assert_eq!(archetype.column(9), Some(2));
    assert_eq!(archetype.len(), 0);
    assert_eq!(archetype.capacity(), 0);
}

#[test]
fn write_archetype_reserves_one_row_and_writes_every_member() {
    let first = Value::new(TypeInfo { id: 9, size: 1, align: 1 }, vec![7]).unwrap();
    let second = Value::new(TypeInfo { id: 4, size: 2, align: 1 }, vec![1, 2]).unwrap();
    let mut archetype = (first.clone(), second.clone()).make_archetype();
    (first, second).write_archetype(&mut archetype);
    assert_eq!(archetype.capacity(), 1);
    assert_eq!(archetype.len(), 0);
    archetype.push_entity(3);
    assert_eq!(archetype.get(0, 9), Some(&[7][..]));
    assert_eq!(archetype.get(0, 4), Some(&[1, 2][..]));
    let third = Value::new(TypeInfo { id: 4, size: 2, align: 1 }, vec![5, 6]).unwrap();
    let fourth = Value::new(TypeInfo { id: 9, size: 1, align: 1 }, vec![8]).unwrap();
    (third, fourth).write_archetype(&mut archetype);
    assert_eq!(archetype.capacity(), 2);
    archetype.push_entity(4);
    assert_eq!(archetype.get(0, 9), Some(&[7][..]));
    assert_eq!(archetype.get(0, 4), Some(&[1, 2][..]));
    assert_eq!(archetype.get(1, 9), Some(&[8][..]));
    assert_eq!(archetype.get(1, 4), Some(&[5, 6][..]));
}

#[test]
fn get_index_looks_the_sorted_signature_up() {
    let mut index = SignatureIndex::new();
    let set = (value(8, 1), Marker::new(3));
    assert_eq!(set.get_index(&index), None);
    index.insert(vec![8, 3], 1);
    assert_eq!(set.get_index(&index), None);
    index.insert(vec![3], 2);
    index.insert(vec![3, 8, 9], 3);
    assert_eq!(set.get_index(&index), None);
    index.insert(vec![3, 8], 7);
    assert_eq!(set.get_index(&index), Some(7));
    assert_eq!((Marker::new(3), value(8, 1)).get_index(&index), Some(7));
    assert_eq!(Marker::new(3).get_index(&index), Some(2));
    assert_eq!(value(8, 1).get_index(&index), None);
}

#[test]
fn signature_index_replaces_what_was_listed() {
    let mut index = SignatureIndex::new();
    assert_eq!(index.get(&[]), None);
    index.insert(vec![1, 2], 0);
    index.insert(vec![], 4);
    index.insert(vec![1, 2], 5);
    assert_eq!(index.get(&[1, 2]), Some(5));
    assert_eq!(index.get(&[]), Some(4));
    assert_eq!(index.get(&[1]), None);
    assert_eq!(index.get(&[2, 1]), None);
}

#[test]
fn insert_sorted_keeps_the_signature_ascending() {
    let mut signature = Vec::new();
    for id in [5_u64, 1, 9, 3, 7] {
        insert_sorted(&mut signature, TypeInfo { id, size: id as usize, align: 1 });
    }
    let ids: Vec<u64> = signature.iter().map(|info| info.id).collect();
    assert_eq!(ids, [1, 3, 5, 7, 9]);
    let sizes: Vec<usize> = signature.iter().map(|info| info.size).collect();
    assert_eq!(sizes, [1, 3, 5, 7, 9]);
}

#[test]
fn same_ids_compares_length_and_elements() {
    assert!(same_ids(&[], &[]));
    assert!(same_ids(&[1, 2, 3], &[1, 2, 3]));
    assert!(!same_ids(&[1, 2, 3], &[1, 2]));
    assert!(!same_ids(&[1, 2, 3], &[1, 2, 4]));
    assert!(!same_ids(&[], &[0]));
}
