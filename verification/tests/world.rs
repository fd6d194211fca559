use tecs::{
    ComponentSet, Entity, EntityId, Marker, Mut, Ref, RowsMut, TypeInfo, Value, World,
};

const NAME: u64 = 1;
const SPEED: u64 = 2;
const TAG: u64 = 3;
const AGE: u64 = 4;
const COLOR: u64 = 5;
const CAN_FLY: u64 = 6;
const POSITION: u64 = 7;
const VELOCITY: u64 = 8;
const ROTATION: u64 = 9;

fn text(id: u64, value: &str) -> Value {
    let mut bytes = value.as_bytes().to_vec();
    bytes.resize(16, 0);
    Value::new(TypeInfo { id, size: 16, align: 1 }, bytes).unwrap()
}

fn padded(value: &str) -> Vec<u8> {
    let mut bytes = value.as_bytes().to_vec();
    bytes.resize(16, 0);
    bytes
}

fn name(value: &str) -> Value {
    text(NAME, value)
}

fn float(id: u64, value: f32) -> Value {
    Value::new(TypeInfo { id, size: 4, align: 4 }, value.to_le_bytes().to_vec()).unwrap()
}

fn speed(value: f32) -> Value {
    float(SPEED, value)
}

fn age(value: u32) -> Value {
    Value::new(TypeInfo { id: AGE, size: 4, align: 4 }, value.to_le_bytes().to_vec()).unwrap()
}

fn color(value: u8) -> Value {
    Value::new(TypeInfo { id: COLOR, size: 1, align: 1 }, vec![value]).unwrap()
}

fn collect(rows: &RowsMut<'_>) -> Vec<(EntityId, Vec<u8>)> {
    let mut found = Vec::new();
    for i in 0..rows.len() {
        found.push((rows.entity(i).unwrap(), rows.get(i, 0).to_vec()));
    }
    found
}

#[test]
fn single_component_archetype() {
    let mut world = World::default();

    let entities = [
        world.spawn(name("First")),
        world.spawn(name("Second")),
        world.spawn(speed(42.0)),
        world.spawn(name("Third")),
        world.spawn(speed(69.0)),
        world.spawn(Marker::new(TAG)),
    ];

    assert_eq!(
        collect(&world.query_mut(&(Entity, Mut(NAME)))),
        [
            (entities[0], padded("First")),
            (entities[1], padded("Second")),
            (entities[3], padded("Third")),
        ],
    );

    assert_eq!(
        collect(&world.query_mut(&(Entity, Mut(SPEED)))),
        [
            (entities[2], 42.0_f32.to_le_bytes().to_vec()),
            (entities[4], 69.0_f32.to_le_bytes().to_vec()),
        ],
    );

    assert_eq!(collect(&world.query_mut(&(Entity, Mut(TAG)))), [(entities[5], vec![])]);
}

#[test]
fn two_components() {
    let mut world = World::default();

    let entities = [
        world.spawn((name("John"), age(18))),
        world.spawn((name("Hannah"), age(24))),
        world.spawn(name("Bob")),
    ];

    assert_eq!(
        collect(&world.query_mut(&(Entity, Mut(NAME)))),
        [
            (entities[0], padded("John")),
            (entities[1], padded("Hannah")),
            (entities[2], padded("Bob")),
        ],
    );

    assert_eq!(
        collect(&world.query_mut(&(Entity, Mut(AGE)))),
        [
            (entities[0], 18_u32.to_le_bytes().to_vec()),
            (entities[1], 24_u32.to_le_bytes().to_vec()),
        ],
    );
}

#[test]
fn handles_count_up_from_zero() {
    let mut world = World::new();
    assert_eq!(world.count(), 0);
    assert_eq!(world.spawn(name("a")), 0);
    assert_eq!(world.spawn(speed(1.0)), 1);
    assert_eq!(world.spawn((name("b"), speed(2.0))), 2);
    assert_eq!(world.count(), 3);
}

#[test]
fn spawn_then_get_returns_what_was_written() {
    let mut world = World::new();
    let first = world.spawn((name("Marcus"), age(21)));
    let second = world.spawn((age(30), name("Anna")));
    let third = world.spawn(name("Solo"));
    assert_eq!(world.get(first, NAME), Some(&padded("Marcus")[..]));
    assert_eq!(world.get(first, AGE), Some(&21_u32.to_le_bytes()[..]));
    assert_eq!(world.get(second, NAME), Some(&padded("Anna")[..]));
    assert_eq!(world.get(second, AGE), Some(&30_u32.to_le_bytes()[..]));
    assert_eq!(world.get(third, NAME), Some(&padded("Solo")[..]));
    assert_eq!(world.get(third, AGE), None);
    assert_eq!(world.get(first, SPEED), None);
}

#[test]
fn reversed_group_shares_the_archetype() {
    let mut world = World::new();
    let first = world.spawn((name("a"), age(1)));
    let second = world.spawn((age(2), name("b")));
    let hits = world.select(&[NAME, AGE]);
    assert_eq!(hits.len(), 2);
    assert_eq!(hits[0].archetype_index, hits[1].archetype_index);
    assert_eq!(hits[0].entity_index, 0);
    assert_eq!(hits[1].entity_index, 1);
    assert_eq!(world.entity_at(hits[0]), first);
    assert_eq!(world.entity_at(hits[1]), second);
    assert_eq!((name("a"), age(1)).component_ids(), (age(2), name("b")).component_ids());
}

#[test]
fn single_value_and_one_element_group_share_the_archetype() {
    let mut world = World::new();
    world.spawn(name("bare"));
    world.spawn((name("tuple"),));
    let hits = world.select(&[NAME]);
    assert_eq!(hits.len(), 2);
    assert_eq!(hits[0].archetype_index, 0);
    assert_eq!(hits[1].archetype_index, 0);
}

#[test]
fn marker_beside_data_keeps_the_data() {
    let mut world = World::new();
    let tagged = world.spawn((name("tagged"), Marker::new(TAG), age(7)));
    let plain = world.spawn((name("plain"), age(8)));
    let marked = world.spawn(Marker::new(TAG));
    assert_eq!(world.get(tagged, NAME), Some(&padded("tagged")[..]));
    assert_eq!(world.get(tagged, AGE), Some(&7_u32.to_le_bytes()[..]));
    assert_eq!(world.get(tagged, TAG), Some(&[][..]));
    assert_eq!(world.get(plain, TAG), None);
    assert_eq!(world.get(plain, AGE), Some(&8_u32.to_le_bytes()[..]));
    let rows = world.query(&(Entity, Ref(TAG)));
    let mut with_tag = Vec::new();
    for i in 0..rows.len() {
        with_tag.push(rows.entity(i).unwrap());
        assert_eq!(rows.get(i, 0), &[][..]);
    }
    assert_eq!(with_tag, [tagged, marked]);
}

#[test]
fn query_yields_each_holder_once_in_archetype_then_row_order() {
    let mut world = World::new();
    let a = world.spawn((name("a"), age(1)));
    let b = world.spawn(name("b"));
    let c = world.spawn(age(3));
    let d = world.spawn((age(4), name("d")));
    let e = world.spawn(name("e"));
    let f = world.spawn((name("f"), speed(1.5)));
    let rows = world.query(&(Entity, Ref(NAME)));
    let mut found = Vec::new();
    for i in 0..rows.len() {
        found.push((rows.entity(i).unwrap(), rows.get(i, 0).to_vec()));
    }
    assert_eq!(
        found,
        [
            (a, padded("a")),
            (d, padded("d")),
            (b, padded("b")),
            (e, padded("e")),
            (f, padded("f")),
        ],
    );
    let ages = world.query(&(Entity, Ref(AGE)));
    let mut holders = Vec::new();
    for i in 0..ages.len() {
        holders.push(ages.entity(i).unwrap());
    }
    assert_eq!(holders, [a, d, c]);
}

#[test]
fn concrete_scenario_of_six_spawns() {
    let mut world = World::new();
    let first = world.spawn((name("First"),));
    let second = world.spawn((name("Second"),));
    world.spawn((speed(42.0),));
    let fourth = world.spawn((name("Third"),));
    world.spawn((speed(69.0),));
    world.spawn((Marker::new(TAG),));
    assert_eq!(world.count(), 6);
    let rows = world.query(&(Entity, Ref(NAME)));
    assert_eq!(rows.len(), 3);
    assert_eq!(rows.entity(0), Some(first));
    assert_eq!(rows.entity(1), Some(second));
    assert_eq!(rows.entity(2), Some(fourth));
    assert_eq!(rows.get(0, 0), &padded("First")[..]);
    assert_eq!(rows.get(1, 0), &padded("Second")[..]);
    assert_eq!(rows.get(2, 0), &padded("Third")[..]);
    let archetypes: Vec<u32> =
        world.select(&[]).iter().map(|hit| hit.archetype_index).collect();
    assert_eq!(archetypes, [0, 0, 0, 1, 1, 2]);
}

#[test]
fn query_for_several_types_needs_all_of_them() {
    let mut world = World::new();
    world.spawn((name("Sky"), color(3)));
    let bird = world.spawn((name("Red Bird"), color(1), Marker::new(CAN_FLY)));
    let plane = world.spawn((name("Airplane"), Marker::new(CAN_FLY)));
    let rows = world.query(&(Entity, Ref(NAME), Ref(CAN_FLY)));
    assert_eq!(rows.len(), 2);
    assert_eq!(rows.entity(0), Some(bird));
    assert_eq!(rows.get(0, 0), &padded("Red Bird")[..]);
    assert_eq!(rows.get(0, 1), &[][..]);
    assert_eq!(rows.entity(1), Some(plane));
    assert_eq!(rows.get(1, 0), &padded("Airplane")[..]);
}

#[test]
fn query_without_entity_selector_hides_the_handle() {
    let mut world = World::new();
    world.spawn(name("only"));
    let rows = world.query(&(Ref(NAME),));
    assert_eq!(rows.len(), 1);
    assert_eq!(rows.entity(0), None);
    assert_eq!(rows.get(0, 0), &padded("only")[..]);
    let bare = world.query(&Ref(NAME));
    assert_eq!(bare.len(), 1);
    assert_eq!(bare.entity(0), None);
}

#[test]
fn query_of_unknown_type_is_empty() {
    let mut world = World::new();
    world.spawn(name("x"));
    assert_eq!(world.query(&(Entity, Ref(ROTATION))).len(), 0);
    assert_eq!(World::new().query(&(Entity, Ref(NAME))).len(), 0);
}

#[test]
fn query_mut_writes_are_seen_by_later_reads() {
    let mut world = World::new();
    world.spawn((name("Sky"), color(3)));
    let bird = world.spawn((name("Red Bird"), color(1), Marker::new(CAN_FLY)));
    world.spawn((name("Airplane"), Marker::new(CAN_FLY)));
    {
        let mut rows = world.query_mut(&(Ref(NAME), Ref(CAN_FLY), Mut(COLOR)));
        assert_eq!(rows.len(), 1);
        assert_eq!(rows.entity(0), None);
        assert_eq!(rows.get(0, 0), &padded("Red Bird")[..]);
        assert!(rows.get_mut(0, 0).is_none());
        assert!(rows.get_mut(0, 1).is_none());
        let paint = rows.get_mut(0, 2).unwrap();
        assert_eq!(paint, &[1][..]);
        paint[0] = 2;
        assert_eq!(rows.get(0, 2), &[2][..]);
    }
    assert_eq!(world.get(bird, COLOR), Some(&[2][..]));
    assert_eq!(world.get(0, COLOR), Some(&[3][..]));
    let rows = world.query(&(Entity, Ref(COLOR)));
    assert_eq!(rows.get(0, 0), &[3][..]);
    assert_eq!(rows.get(1, 0), &[2][..]);
}

#[test]
fn get_mut_writes_are_seen_by_later_reads() {
    let mut world = World::new();
    let first = world.spawn((age(1), name("first")));
    let second = world.spawn((age(2), name("second")));
    world.get_mut(first, AGE).unwrap().copy_from_slice(&40_u32.to_le_bytes());
    assert!(world.get_mut(first, SPEED).is_none());
    assert_eq!(world.get(first, AGE), Some(&40_u32.to_le_bytes()[..]));
    assert_eq!(world.get(first, NAME), Some(&padded("first")[..]));
    assert_eq!(world.get(second, AGE), Some(&2_u32.to_le_bytes()[..]));
    assert_eq!(world.get(second, NAME), Some(&padded("second")[..]));
}

#[test]
fn entity_handle_reads_components() {
    let mut world = World::new();
    let id = world.spawn((float(POSITION, -0.5), float(VELOCITY, 42.0)));
    let entity = world.entity(id);
    assert_eq!(entity.id(), id);
    assert_eq!(entity.get(POSITION), Some(&(-0.5_f32).to_le_bytes()[..]));
    assert_eq!(entity.get(VELOCITY), Some(&42.0_f32.to_le_bytes()[..]));
    assert_eq!(entity.get(ROTATION), None);
}

#[test]
fn entity_handle_mut_writes_components() {
    let mut world = World::new();
    let other = world.spawn((float(POSITION, 9.0), float(VELOCITY, 8.0)));
    let id = world.spawn((float(POSITION, -0.5), float(VELOCITY, 42.0)));
    {
        let mut entity = world.entity_mut(id);
        assert_eq!(entity.id(), id);
        entity.get(POSITION).unwrap().copy_from_slice(&0.0_f32.to_le_bytes());
        assert_eq!(entity.get(POSITION).unwrap(), &0.0_f32.to_le_bytes()[..]);
        assert_eq!(entity.get(VELOCITY).unwrap(), &42.0_f32.to_le_bytes()[..]);
        assert!(entity.get(ROTATION).is_none());
    }
    assert_eq!(world.get(id, POSITION), Some(&0.0_f32.to_le_bytes()[..]));
    assert_eq!(world.get(id, VELOCITY), Some(&42.0_f32.to_le_bytes()[..]));
    assert_eq!(world.get(other, POSITION), Some(&9.0_f32.to_le_bytes()[..]));
    assert_eq!(world.get(other, VELOCITY), Some(&8.0_f32.to_le_bytes()[..]));
}

#[test]
fn many_spawns_grow_the_storage_and_keep_every_row() {
    let mut world = World::new();
    for i in 0..200_u32 {
        let id = world.spawn((age(i), name(&format!("n{i}"))));
        assert_eq!(id, i);
    }
    for i in 0..200_u32 {
        assert_eq!(world.get(i, AGE), Some(&i.to_le_bytes()[..]));
        assert_eq!(world.get(i, NAME), Some(&padded(&format!("n{i}"))[..]));
    }
    assert_eq!(world.query(&(Entity, Ref(AGE))).len(), 200);
}

#[test]
fn try_spawn_refuses_what_spawn_may_not_take() {
    let mut world = World::new();
    assert_eq!(world.try_spawn((name("a"), name("b"))), None);
    assert_eq!(world.count(), 0);
    assert_eq!(world.try_spawn((name("a"), age(1))), Some(0));
    let wide = Value::new(TypeInfo { id: AGE, size: 8, align: 8 }, vec![0; 8]).unwrap();
    assert!(!world.admits(&(name("c"), wide.clone())));
    assert_eq!(world.try_spawn((name("c"), wide)), None);
    assert!(world.admits(&(age(2), name("c"))));
    assert_eq!(world.try_spawn((age(2), name("c"))), Some(1));
    assert_eq!(world.count(), 2);
    assert_eq!(world.get(1, AGE), Some(&2_u32.to_le_bytes()[..]));
}

#[test]
fn teardown_gives_up_every_component_with_data_once() {
    let mut world = World::new();
    let a = world.spawn((name("a"), age(1), Marker::new(TAG)));
    let b = world.spawn((age(2), name("b"), Marker::new(TAG)));
    let c = world.spawn(speed(3.0));
    let d = world.spawn(Marker::new(TAG));
    let _ = d;
    let dropped = world.teardown();
    let seen: Vec<(EntityId, u64, Vec<u8>)> =
        dropped.iter().map(|gone| (gone.entity, gone.info.id, gone.bytes.clone())).collect();
    assert_eq!(
        seen,
        [
            (a, NAME, padded("a")),
            (b, NAME, padded("b")),
            (a, AGE, 1_u32.to_le_bytes().to_vec()),
            (b, AGE, 2_u32.to_le_bytes().to_vec()),
            (c, SPEED, 3.0_f32.to_le_bytes().to_vec()),
        ],
    );
}

#[test]
fn teardown_of_an_empty_world_gives_up_nothing() {
    assert!(World::new().teardown().is_empty());
}

#[test]
fn set_replaces_one_component_of_one_entity() {
    let mut world = World::new();
    let first = world.spawn((age(1), name("first")));
    let second = world.spawn((age(2), name("second")));
    assert!(world.set(second, AGE, &9_u32.to_le_bytes()));
    assert!(!world.set(second, AGE, &[1, 2, 3]));
    assert!(!world.set(second, SPEED, &1.0_f32.to_le_bytes()));
    assert_eq!(world.get(first, AGE), Some(&1_u32.to_le_bytes()[..]));
    assert_eq!(world.get(second, AGE), Some(&9_u32.to_le_bytes()[..]));
    assert_eq!(world.get(second, NAME), Some(&padded("second")[..]));
}

#[test]
fn widest_shapes_and_groups_work() {
    let mut world = World::new();
    let wide = world.spawn((
        Marker::new(114),
        color(9),
        Marker::new(113),
        Marker::new(112),
        Marker::new(111),
        Marker::new(110),
        Marker::new(109),
        Marker::new(108),
        Marker::new(107),
        Marker::new(106),
        Marker::new(105),
        Marker::new(104),
        name("wide"),
        age(77),
    ));
    let narrow = world.spawn((name("narrow"), age(5)));
    assert_eq!(world.get(wide, AGE), Some(&77_u32.to_le_bytes()[..]));
    assert_eq!(world.get(wide, 110), Some(&[][..]));
    assert_eq!(world.get(narrow, 110), None);
    let rows = world.query(&(
        Entity,
        Ref(AGE),
        Ref(114),
        Ref(NAME),
        Ref(104),
        Ref(COLOR),
        Ref(109),
        Ref(111),
    ));
    assert_eq!(rows.len(), 1);
    assert_eq!(rows.entity(0), Some(wide));
    assert_eq!(rows.get(0, 0), &77_u32.to_le_bytes()[..]);
    assert_eq!(rows.get(0, 2), &padded("wide")[..]);
    assert_eq!(rows.get(0, 4), &[9][..]);
    assert_eq!(rows.get(0, 6), &[][..]);
    let mut rows = world.query_mut(&(
        Mut(AGE),
        Ref(NAME),
        Mut(COLOR),
        Ref(104),
        Ref(105),
        Ref(106),
        Ref(107),
    ));
    assert_eq!(rows.len(), 1);
    rows.get_mut(0, 2).unwrap()[0] = 4;
    assert!(rows.get_mut(0, 6).is_none());
    assert_eq!(world.get(wide, COLOR), Some(&[4][..]));
}

#[test]
fn default_world_is_empty() {
    let world = World::default();
    assert_eq!(world.count(), 0);
    assert!(world.select(&[]).is_empty());
}

#[test]
fn each_spawn_reserves_one_row_in_its_archetype_only() {
    let mut world = World::new();
    let mut capacities = Vec::new();
    for i in 0..5_u32 {
        world.spawn(age(i));
        capacities.push(world.archetype(0).capacity());
    }
    assert_eq!(capacities, [1, 2, 4, 4, 7]);
    assert_eq!(world.archetype_count(), 1);
    assert_eq!(world.archetype(0).len(), 5);
    world.spawn(name("other"));
    assert_eq!(world.archetype_count(), 2);
    assert_eq!(world.archetype(0).capacity(), 7);
    assert_eq!(world.archetype(1).capacity(), 1);
    world.spawn(name("again"));
    world.get_mut(0, AGE).unwrap()[0] = 9;
    assert_eq!(world.archetype(0).capacity(), 7);
    assert_eq!(world.archetype(1).capacity(), 2);
    assert_eq!(world.teardown().len(), 7);
}

#[test]
fn spawned_archetype_carries_the_descriptors_of_the_group() {
    let mut world = World::new();
    world.spawn((age(1), name("a")));
    world.spawn((name("b"), age(2)));
    assert_eq!(world.archetype_count(), 1);
    let types = world.archetype(0).component_types();
    assert_eq!(types.len(), 2);
    assert_eq!((types[0].id, types[0].size, types[0].align), (NAME, 16, 1));
    assert_eq!((types[1].id, types[1].size, types[1].align), (AGE, 4, 4));
    assert_eq!(world.archetype(0).capacity(), 2);
}
