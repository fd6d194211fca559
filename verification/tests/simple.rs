use tecs::simple::{EntityArchetype, Location, Position, Velocity, World};

#[test]
fn simple_world_starts_empty() {
    let mut world = World::default();
    assert!(world.locations.is_empty());
    assert!(world.velocity_archetype.components.is_empty());
    assert!(world.velocity_archetype.entities.is_empty());
    assert!(world.position_archetype.components.is_empty());
    assert!(world.position_archetype.entities.is_empty());
    assert!(world.position_velocity_archetype.positions.is_empty());
    assert!(world.position_velocity_archetype.velocities.is_empty());
    assert!(world.position_velocity_archetype.entities.is_empty());
    assert!(world.velocities().get(0).is_none());
    assert!(world.positions().get(0).is_none());
    assert!(world.positions_and_velocities().get(0).is_none());
}

#[test]
fn simple_spawns_record_locations() {
    let mut world = World::default();
    assert_eq!(world.spawn_with_position(Position), 0);
    assert_eq!(world.spawn_with_velocity(Velocity), 1);
    assert_eq!(world.spawn_with_position_and_velocity(Position, Velocity), 2);
    assert_eq!(world.spawn_with_position(Position), 3);
    assert_eq!(
        world.locations,
        [
            Location { archetype: EntityArchetype::Position, index: 0 },
            Location { archetype: EntityArchetype::Velocity, index: 0 },
            Location { archetype: EntityArchetype::PositionVelocity, index: 0 },
            Location { archetype: EntityArchetype::Position, index: 1 },
        ],
    );
    assert_eq!(world.position_archetype.entities, [0, 3]);
    assert_eq!(world.position_archetype.components.len(), 2);
    assert_eq!(world.velocity_archetype.entities, [1]);
    assert_eq!(world.velocity_archetype.components.len(), 1);
    assert_eq!(world.position_velocity_archetype.entities, [2]);
    assert_eq!(world.position_velocity_archetype.positions.len(), 1);
    assert_eq!(world.position_velocity_archetype.velocities.len(), 1);
}

#[test]
fn simple_velocities_chain_both_archetypes() {
    let mut world = World::default();
    let both = world.spawn_with_position_and_velocity(Position, Velocity);
    let alone = world.spawn_with_velocity(Velocity);
    let later = world.spawn_with_velocity(Velocity);
    world.spawn_with_position(Position);
    let mut rows = world.velocities();
    let mut found = Vec::new();
    let mut i = 0;
    while let Some((entity, velocity)) = rows.get(i) {
        *velocity = Velocity;
        found.push(entity);
        i += 1;
    }
    assert_eq!(found, [alone, later, both]);
}

#[test]
fn simple_positions_chain_both_archetypes() {
    let mut world = World::default();
    let both = world.spawn_with_position_and_velocity(Position, Velocity);
    world.spawn_with_velocity(Velocity);
    let alone = world.spawn_with_position(Position);
    let mut rows = world.positions();
    let mut found = Vec::new();
    let mut i = 0;
    while let Some((entity, position)) = rows.get(i) {
        assert_eq!(*position, Position);
        found.push(entity);
        i += 1;
    }
    assert_eq!(found, [alone, both]);
}

#[test]
fn simple_positions_and_velocities_hold_only_entities_with_both() {
    let mut world = World::default();
    world.spawn_with_position(Position);
    let first = world.spawn_with_position_and_velocity(Position, Velocity);
    world.spawn_with_velocity(Velocity);
    let second = world.spawn_with_position_and_velocity(Position, Velocity);
    let mut rows = world.positions_and_velocities();
    let mut found = Vec::new();
    let mut i = 0;
    while let Some((entity, position, velocity)) = rows.get(i) {
        assert_eq!((*position, *velocity), (Position, Velocity));
        found.push(entity);
        i += 1;
    }
    assert_eq!(found, [first, second]);
}

#[test]
fn simple_rows_stop_at_the_shorter_column() {
    let mut world = World::default();
    world.spawn_with_velocity(Velocity);
    world.velocity_archetype.entities.push(77);
    world.position_velocity_archetype.velocities.push(Velocity);
    let mut rows = world.velocities();
    assert_eq!(rows.get(0).map(|row| row.0), Some(0));
    assert!(rows.get(1).is_none());
}

#[test]
fn simple_handle_orders_after_four_spawns() {
    let mut world = World::default();
    world.spawn_with_velocity(Velocity);
    world.spawn_with_position(Position);
    world.spawn_with_position_and_velocity(Position, Velocity);
    world.spawn_with_position_and_velocity(Position, Velocity);
    world.spawn_with_velocity(Velocity);
    let mut found = Vec::new();
    let mut rows = world.velocities();
    let mut i = 0;
    while let Some((entity, _)) = rows.get(i) {
        found.push(entity);
        i += 1;
    }
    assert_eq!(found, [0, 4, 2, 3]);
    let mut found = Vec::new();
    let mut rows = world.positions();
    let mut i = 0;
    while let Some((entity, _)) = rows.get(i) {
        found.push(entity);
        i += 1;
    }
    assert_eq!(found, [1, 2, 3]);
    assert_eq!(world.locations.len(), 5);
}
