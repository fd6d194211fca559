use tecs::{Archetype, TypeInfo};

fn info(id: u64, size: usize) -> TypeInfo {
    TypeInfo { id, size, align: 1 }
}

#[test]
fn new_archetype_has_one_column_and_no_storage() {
    let archetype = Archetype::new(info(4, 2));
    assert_eq!(archetype.len(), 0);
    assert!(archetype.is_empty());
    assert_eq!(archetype.capacity(), 0);
    assert_eq!(archetype.component_types().len(), 1);
    assert_eq!(archetype.component_types()[0].id, 4);
    assert!(archetype.contains(4));
    assert!(!archetype.contains(5));
    assert_eq!(archetype.column(4), Some(0));
    assert_eq!(archetype.column(3), None);
}

#[test]
fn contains_finds_every_column_by_binary_search() {
    let ids = [2_u64, 3, 5, 8, 13, 21, 34];
    let archetype = Archetype::with_types(ids.iter().map(|id| info(*id, 1)).collect());
    for id in 0..40_u64 {
        assert_eq!(archetype.contains(id), ids.contains(&id));
        assert_eq!(archetype.column(id), ids.iter().position(|other| *other == id));
    }
}

#[test]
fn allocate_sets_the_capacity() {
    let mut archetype = Archetype::with_types(vec![info(1, 4), info(2, 0)]);
    archetype.allocate(0);
    assert_eq!(archetype.capacity(), 0);
    archetype.allocate(6);
    assert_eq!(archetype.capacity(), 6);
    assert_eq!(archetype.len(), 0);
}

#[test]
fn reserve_grows_by_at_least_half() {
    let mut archetype = Archetype::new(info(1, 1));
    let mut capacities = Vec::new();
    for entity in 0..12_u32 {
        assert!(archetype.fits(1));
        archetype.reserve(1);
        capacities.push(archetype.capacity());
        archetype.write_to_end(1, &[entity as u8]);
        archetype.push_entity(entity);
    }
    assert_eq!(capacities, [1, 2, 4, 4, 7, 7, 7, 11, 11, 11, 11, 17]);
    for row in 0..12_usize {
        assert_eq!(archetype.get(row, 1), Some(&[row as u8][..]));
        assert_eq!(archetype.entity(row), row as u32);
    }
}

#[test]
fn reserve_takes_the_larger_of_request_and_half() {
    let mut archetype = Archetype::new(info(1, 2));
    archetype.reserve(4);
    assert_eq!(archetype.capacity(), 4);
    archetype.reserve(3);
    assert_eq!(archetype.capacity(), 4);
    for entity in 0..4_u32 {
        archetype.write_to_end(1, &[entity as u8, 0]);
        archetype.push_entity(entity);
    }
    archetype.reserve(0);
    assert_eq!(archetype.capacity(), 4);
    archetype.reserve(10);
    assert_eq!(archetype.capacity(), 14);
    archetype.reserve(10);
    assert_eq!(archetype.capacity(), 14);
    archetype.reserve(11);
    assert_eq!(archetype.capacity(), 25);
    for row in 0..4_usize {
        assert_eq!(archetype.get(row, 1), Some(&[row as u8, 0][..]));
    }
}

#[test]
fn fits_refuses_storage_beyond_the_limit() {
    let huge = Archetype::new(info(1, usize::MAX / 2));
    assert!(huge.fits(0));
    assert!(huge.fits(1));
    assert!(!huge.fits(2));
    let sizeless = Archetype::new(info(1, 0));
    assert!(sizeless.fits(usize::MAX));
}

#[test]
fn rows_of_columns_without_size_take_no_storage() {
    let mut archetype = Archetype::with_types(vec![info(1, 0), info(2, 3)]);
    for entity in 0..5_u32 {
        archetype.reserve(1);
        archetype.write_to_end(2, &[entity as u8, 1, 2]);
        archetype.write_to_end(1, &[]);
        archetype.push_entity(entity * 10);
    }
    assert_eq!(archetype.len(), 5);
    for row in 0..5_usize {
        assert_eq!(archetype.get(row, 1), Some(&[][..]));
        assert_eq!(archetype.get(row, 2), Some(&[row as u8, 1, 2][..]));
        assert_eq!(archetype.get(row, 3), None);
        assert_eq!(archetype.entity(row), row as u32 * 10);
    }
}

#[test]
fn get_mut_changes_one_cell_only() {
    let mut archetype = Archetype::with_types(vec![info(1, 2), info(2, 2)]);
    for entity in 0..3_u32 {
        archetype.reserve(1);
        archetype.write_to_end(1, &[entity as u8, 1]);
        archetype.write_to_end(2, &[entity as u8, 2]);
        archetype.push_entity(entity);
    }
    archetype.get_mut(1, 2).unwrap().copy_from_slice(&[9, 9]);
    assert!(archetype.get_mut(1, 3).is_none());
    assert_eq!(archetype.get(0, 1), Some(&[0, 1][..]));
    assert_eq!(archetype.get(0, 2), Some(&[0, 2][..]));
    assert_eq!(archetype.get(1, 1), Some(&[1, 1][..]));
    assert_eq!(archetype.get(1, 2), Some(&[9, 9][..]));
    assert_eq!(archetype.get(2, 1), Some(&[2, 1][..]));
    assert_eq!(archetype.get(2, 2), Some(&[2, 2][..]));
}

#[test]
fn teardown_gives_up_column_by_column_and_empties_the_archetype() {
    let mut archetype = Archetype::with_types(vec![info(1, 1), info(2, 0), info(3, 2)]);
    for entity in 0..2_u32 {
        archetype.reserve(1);
        archetype.write_to_end(1, &[entity as u8]);
        archetype.write_to_end(3, &[entity as u8, 7]);
        archetype.push_entity(entity + 5);
    }
    let dropped = archetype.teardown();
    let seen: Vec<(u32, u64, Vec<u8>)> =
        dropped.iter().map(|gone| (gone.entity, gone.info.id, gone.bytes.clone())).collect();
    assert_eq!(
        seen,
        [(5, 1, vec![0]), (6, 1, vec![1]), (5, 3, vec![0, 7]), (6, 3, vec![1, 7])],
    );
    assert_eq!(archetype.len(), 0);
    assert_eq!(archetype.capacity(), 0);
    assert!(archetype.contains(2));
    assert!(archetype.teardown().is_empty());
}

#[test]
fn type_info_describes_a_rust_type() {
    let info = TypeInfo::of::<u32>(7);
    assert_eq!(info.id, 7);
    assert_eq!(info.size, 4);
    assert_eq!(info.align, 4);
    let unit = TypeInfo::of::<()>(8);
    assert_eq!(unit.size, 0);
    assert_eq!(unit.align, 1);
}

#[test]
fn type_infos_compare_by_identity() {
    let small = TypeInfo { id: 1, size: 4, align: 4 };
    let same = TypeInfo { id: 1, size: 8, align: 8 };
    let large = TypeInfo { id: 2, size: 4, align: 4 };
    assert!(small == same);
    assert!(small != large);
    assert!(small < large);
    assert!(large > same);
    assert_eq!(small.partial_cmp(&same), Some(std::cmp::Ordering::Equal));
    assert_eq!(small.partial_cmp(&large), Some(std::cmp::Ordering::Less));
    assert_eq!(large.partial_cmp(&small), Some(std::cmp::Ordering::Greater));
}
