//! A world with a closed set of component types: positions, velocities,
//! and entities that hold one of them or both.

use crate::EntityId;
use vstd::prelude::*;

verus! {

/// The velocity of an entity.
#[derive(Clone, Debug, PartialEq, Default, Copy, Eq, PartialOrd, Ord, Hash)]
pub struct Velocity;

/// The position of an entity.
#[derive(Clone, Debug, PartialEq, Default, Copy, Eq, PartialOrd, Ord, Hash)]
pub struct Position;

/// The entities that hold a velocity and nothing else.
#[derive(Clone, Debug, PartialEq)]
pub struct VelocityArchetype {
    /// The velocities, row by row.
    pub components: Vec<Velocity>,
    /// The handles that own the rows.
    pub entities: Vec<EntityId>,
}

/// The entities that hold a position and nothing else.
#[derive(Clone, Debug, PartialEq)]
pub struct PositionArchetype {
    /// The positions, row by row.
    pub components: Vec<Position>,
    /// The handles that own the rows.
    pub entities: Vec<EntityId>,
}

/// The entities that hold a position and a velocity.
#[derive(Clone, Debug, PartialEq)]
pub struct PositionVelocityArchetype {
    /// The positions, row by row.
    pub positions: Vec<Position>,
    /// The velocities, row by row.
    pub velocities: Vec<Velocity>,
    /// The handles that own the rows.
    pub entities: Vec<EntityId>,
}

/// The archetype that an entity is stored in.
#[derive(Clone, Debug, PartialEq, Copy, Eq, PartialOrd, Ord, Hash)]
pub enum EntityArchetype {
    /// The entity holds a velocity.
    Velocity,
    /// The entity holds a position.
    Position,
    /// The entity holds a position and a velocity.
    PositionVelocity,
}

/// Where the components of one entity are stored.
#[derive(Clone, Debug, PartialEq, Copy, Eq, PartialOrd, Ord, Hash)]
pub struct Location {
    /// The archetype of the entity.
    pub archetype: EntityArchetype,
    /// The row inside the archetype.
    pub index: usize,
}

/// A world of positions and velocities.
#[derive(Clone, Debug, PartialEq)]
pub struct World {
    /// The entities that hold only a velocity.
    pub velocity_archetype: VelocityArchetype,
    /// The entities that hold only a position.
    pub position_archetype: PositionArchetype,
    /// The entities that hold both.
    pub position_velocity_archetype: PositionVelocityArchetype,
    /// The location of every entity, by handle.
    pub locations: Vec<Location>,
}

impl Default for VelocityArchetype {
    fn default() -> (archetype: Self)
        ensures
            archetype.components@.len() == 0,
            archetype.entities@.len() == 0,
    {
        VelocityArchetype { components: Vec::new(), entities: Vec::new() }
    }
}

impl Default for PositionArchetype {
    fn default() -> (archetype: Self)
        ensures
            archetype.components@.len() == 0,
            archetype.entities@.len() == 0,
    {
        PositionArchetype { components: Vec::new(), entities: Vec::new() }
    }
}

impl Default for PositionVelocityArchetype {
    fn default() -> (archetype: Self)
        ensures
            archetype.positions@.len() == 0,
            archetype.velocities@.len() == 0,
            archetype.entities@.len() == 0,
    {
        PositionVelocityArchetype {
            positions: Vec::new(),
            velocities: Vec::new(),
            entities: Vec::new(),
        }
    }
}

impl Default for World {
    fn default() -> (world: Self)
        ensures
            world.locations@.len() == 0,
            world.velocity_archetype.components@.len() == 0,
            world.velocity_archetype.entities@.len() == 0,
            world.position_archetype.components@.len() == 0,
            world.position_archetype.entities@.len() == 0,
            world.position_velocity_archetype.positions@.len() == 0,
            world.position_velocity_archetype.velocities@.len() == 0,
            world.position_velocity_archetype.entities@.len() == 0,
    {
        World {
            velocity_archetype: VelocityArchetype::default(),
            position_archetype: PositionArchetype::default(),
            position_velocity_archetype: PositionVelocityArchetype::default(),
            locations: Vec::new(),
        }
    }
}

/// The pairs of a handle and its component, as far as both columns reach.
pub open spec fn zipped<C>(entities: Seq<EntityId>, components: Seq<C>) -> Seq<(EntityId, C)> {
    Seq::new(
        if entities.len() <= components.len() {
            entities.len()
        } else {
            components.len()
        },
        |i: int| (entities[i], components[i]),
    )
}

/// Whether `after` is `before` with another element at the position `at`.
spec fn replaced<C>(after: Seq<C>, before: Seq<C>, at: int) -> bool {
    &&& after.len() == before.len()
    &&& forall|k: int| 0 <= k < before.len() && k != at ==> #[trigger] after[k] == before[k]
}

impl World {
    /// Every velocity with the handle of its entity: those of the entities
    /// with only a velocity first, then those of the entities with both.
    pub open spec fn velocity_rows(&self) -> Seq<(EntityId, Velocity)> {
        zipped(self.velocity_archetype.entities@, self.velocity_archetype.components@) + zipped(
            self.position_velocity_archetype.entities@,
            self.position_velocity_archetype.velocities@,
        )
    }

    /// Every position with the handle of its entity: those of the entities
    /// with only a position first, then those of the entities with both.
    pub open spec fn position_rows(&self) -> Seq<(EntityId, Position)> {
        zipped(self.position_archetype.entities@, self.position_archetype.components@) + zipped(
            self.position_velocity_archetype.entities@,
            self.position_velocity_archetype.positions@,
        )
    }

    /// The position and the velocity of every entity that holds both, with
    /// its handle.
    pub open spec fn paired_rows(&self) -> Seq<(EntityId, Position, Velocity)> {
        let both = self.position_velocity_archetype;
        let paired = zipped(both.entities@, both.positions@);
        Seq::new(
            if paired.len() <= both.velocities@.len() {
                paired.len()
            } else {
                both.velocities@.len()
            },
            |i: int| (both.entities@[i], both.positions@[i], both.velocities@[i]),
        )
    }

    /// Whether this world is `before` but for the values of its velocities.
    pub open spec fn keeps_but_velocities(&self, before: &World) -> bool {
        &&& self.locations == before.locations
        &&& self.position_archetype == before.position_archetype
        &&& self.velocity_archetype.entities == before.velocity_archetype.entities
        &&& self.velocity_archetype.components@.len()
            == before.velocity_archetype.components@.len()
        &&& self.position_velocity_archetype.entities
            == before.position_velocity_archetype.entities
        &&& self.position_velocity_archetype.positions
            == before.position_velocity_archetype.positions
        &&& self.position_velocity_archetype.velocities@.len()
            == before.position_velocity_archetype.velocities@.len()
    }

    /// Whether this world is `before` but for the values of its positions.
    pub open spec fn keeps_but_positions(&self, before: &World) -> bool {
        &&& self.locations == before.locations
        &&& self.velocity_archetype == before.velocity_archetype
        &&& self.position_archetype.entities == before.position_archetype.entities
        &&& self.position_archetype.components@.len()
            == before.position_archetype.components@.len()
        &&& self.position_velocity_archetype.entities
            == before.position_velocity_archetype.entities
        &&& self.position_velocity_archetype.velocities
            == before.position_velocity_archetype.velocities
        &&& self.position_velocity_archetype.positions@.len()
            == before.position_velocity_archetype.positions@.len()
    }

    /// Whether this world is `before` but for the values of the positions
    /// and velocities of the entities that hold both.
    pub open spec fn keeps_but_pairs(&self, before: &World) -> bool {
        &&& self.locations == before.locations
        &&& self.velocity_archetype == before.velocity_archetype
        &&& self.position_archetype == before.position_archetype
        &&& self.position_velocity_archetype.entities
            == before.position_velocity_archetype.entities
        &&& self.position_velocity_archetype.positions@.len()
            == before.position_velocity_archetype.positions@.len()
        &&& self.position_velocity_archetype.velocities@.len()
            == before.position_velocity_archetype.velocities@.len()
    }

    /// Spawns an entity that holds the position `value`.
    pub fn spawn_with_position(&mut self, value: Position) -> (entity: EntityId)
        requires
            old(self).locations@.len() <= u32::MAX,
        ensures
            entity == old(self).locations@.len(),
            final(self).locations@ == old(self).locations@.push(
                (Location {
                    archetype: EntityArchetype::Position,
                    index: old(self).position_archetype.components@.len() as usize,
                }),
            ),
            final(self).position_archetype.entities@ == old(self).position_archetype.entities@.push(
                entity,
            ),
            final(self).position_archetype.components@
                == old(self).position_archetype.components@.push(value),
            final(self).velocity_archetype == old(self).velocity_archetype,
            final(self).position_velocity_archetype == old(self).position_velocity_archetype,
    {
        let entity: EntityId = self.locations.len() as EntityId;
        let location = Location {
            archetype: EntityArchetype::Position,
            index: self.position_archetype.components.len(),
        };
        self.locations.push(location);
        self.position_archetype.entities.push(entity);
        self.position_archetype.components.push(value);
        entity
    }

    /// Spawns an entity that holds the velocity `value`.
    pub fn spawn_with_velocity(&mut self, value: Velocity) -> (entity: EntityId)
        requires
            old(self).locations@.len() <= u32::MAX,
        ensures
            entity == old(self).locations@.len(),
            final(self).locations@ == old(self).locations@.push(
                (Location {
                    archetype: EntityArchetype::Velocity,
                    index: old(self).velocity_archetype.components@.len() as usize,
                }),
            ),
            final(self).velocity_archetype.entities@ == old(self).velocity_archetype.entities@.push(
                entity,
            ),
            final(self).velocity_archetype.components@
                == old(self).velocity_archetype.components@.push(value),
            final(self).position_archetype == old(self).position_archetype,
            final(self).position_velocity_archetype == old(self).position_velocity_archetype,
    {
        let entity: EntityId = self.locations.len() as EntityId;
        let location = Location {
            archetype: EntityArchetype::Velocity,
            index: self.velocity_archetype.components.len(),
        };
        self.locations.push(location);
        self.velocity_archetype.entities.push(entity);
        self.velocity_archetype.components.push(value);
        entity
    }

    /// Spawns an entity that holds the given position and velocity.
    pub fn spawn_with_position_and_velocity(
        &mut self,
        position: Position,
        velocity: Velocity,
    ) -> (entity: EntityId)
        requires
            old(self).locations@.len() <= u32::MAX,
        ensures
            entity == old(self).locations@.len(),
            final(self).locations@ == old(self).locations@.push(
                (Location {
                    archetype: EntityArchetype::PositionVelocity,
                    index: old(self).position_velocity_archetype.positions@.len() as usize,
                }),
            ),
            final(self).position_velocity_archetype.entities@
                == old(self).position_velocity_archetype.entities@.push(entity),
            final(self).position_velocity_archetype.positions@
                == old(self).position_velocity_archetype.positions@.push(position),
            final(self).position_velocity_archetype.velocities@
                == old(self).position_velocity_archetype.velocities@.push(velocity),
            final(self).position_archetype == old(self).position_archetype,
            final(self).velocity_archetype == old(self).velocity_archetype,
    {
        let entity: EntityId = self.locations.len() as EntityId;
        let location = Location {
            archetype: EntityArchetype::PositionVelocity,
            index: self.position_velocity_archetype.positions.len(),
        };
        self.locations.push(location);
        self.position_velocity_archetype.entities.push(entity);
        self.position_velocity_archetype.positions.push(position);
        self.position_velocity_archetype.velocities.push(velocity);
        entity
    }

    /// Every velocity with the handle of its entity, for reading and
    /// writing: those of the entities with only a velocity first, then
    /// those of the entities with both.
    pub fn velocities(&mut self) -> (rows: Velocities<'_>)
        ensures
            rows@ == old(self).velocity_rows(),
            *rows.world == *old(self),
            *final(self) == *final(rows.world),
    {
        Velocities { world: self }
    }

    /// Every position with the handle of its entity, for reading and
    /// writing: those of the entities with only a position first, then
    /// those of the entities with both.
    pub fn positions(&mut self) -> (rows: Positions<'_>)
        ensures
            rows@ == old(self).position_rows(),
            *rows.world == *old(self),
            *final(self) == *final(rows.world),
    {
        Positions { world: self }
    }

    /// The position and the velocity of every entity that holds both, with
    /// its handle, for reading and writing.
    pub fn positions_and_velocities(&mut self) -> (rows: PositionsAndVelocities<'_>)
        ensures
            rows@ == old(self).paired_rows(),
            *rows.world == *old(self),
            *final(self) == *final(rows.world),
    {
        PositionsAndVelocities { world: self }
    }
}

/// The smaller of two lengths.
fn shorter(first: usize, second: usize) -> (length: usize)
    ensures
        length == (if first <= second {
            first
        } else {
            second
        }),
{
    if first <= second {
        first
    } else {
        second
    }
}

/// The velocities of a world, row by row.
pub struct Velocities<'w> {
    /// The world whose velocities these are.
    pub world: &'w mut World,
}

impl<'w> View for Velocities<'w> {
    type V = Seq<(EntityId, Velocity)>;

    open spec fn view(&self) -> Seq<(EntityId, Velocity)> {
        self.world.velocity_rows()
    }
}

impl<'w> Velocities<'w> {
    /// The handle and the velocity of the row `i`, or `None` behind the
    /// last row. What is written becomes the velocity of that row.
    pub fn get(&mut self, i: usize) -> (row: Option<(EntityId, &mut Velocity)>)
        ensures
            row is Some <==> i < old(self)@.len(),
            *final(final(self).world) == *final(old(self).world),
            row is None ==> *final(self).world == *old(self).world,
            row is Some ==> final(self).world.keeps_but_velocities(old(self).world),
            row matches Some(pair) ==> pair.0 == old(self)@[i as int].0 && *pair.1
                == old(self)@[i as int].1,
            row matches Some(pair) ==> final(self)@ == old(self)@.update(
                i as int,
                (pair.0, *final(pair.1)),
            ),
    {
        let alone: usize = shorter(
            self.world.velocity_archetype.entities.len(),
            self.world.velocity_archetype.components.len(),
        );
        if i < alone {
            let entity = self.world.velocity_archetype.entities[i];
            proof {
                let before = *self.world;
                assert forall|next: World|
                    next.velocity_archetype.entities == before.velocity_archetype.entities
                        && next.position_velocity_archetype == before.position_velocity_archetype
                        && replaced(
                        next.velocity_archetype.components@,
                        before.velocity_archetype.components@,
                        i as int,
                    ) implies #[trigger] next.velocity_rows()
                    == before.velocity_rows().update(i as int, (
                        entity, next.velocity_archetype.components@[i as int],
                    )) by {
                    assert(next.velocity_rows() =~= before.velocity_rows().update(
                        i as int,
                        (entity, next.velocity_archetype.components@[i as int]),
                    ));
                }
            }
            return Some((entity, &mut self.world.velocity_archetype.components[i]));
        }
        let both: usize = shorter(
            self.world.position_velocity_archetype.entities.len(),
            self.world.position_velocity_archetype.velocities.len(),
        );
        let at: usize = i - alone;
        if at < both {
            let entity = self.world.position_velocity_archetype.entities[at];
            proof {
                let before = *self.world;
                assert forall|next: World|
                    next.velocity_archetype == before.velocity_archetype
                        && next.position_velocity_archetype.entities
                        == before.position_velocity_archetype.entities
                        && replaced(
                        next.position_velocity_archetype.velocities@,
                        before.position_velocity_archetype.velocities@,
                        at as int,
                    ) implies #[trigger] next.velocity_rows()
                    == before.velocity_rows().update(i as int, (
                        entity, next.position_velocity_archetype.velocities@[at as int],
                    )) by {
                    assert(next.velocity_rows() =~= before.velocity_rows().update(
                        i as int,
                        (entity, next.position_velocity_archetype.velocities@[at as int]),
                    ));
                }
            }
            return Some((entity, &mut self.world.position_velocity_archetype.velocities[at]));
        }
        None
    }
}

/// The positions of a world, row by row.
pub struct Positions<'w> {
    /// The world whose positions these are.
    pub world: &'w mut World,
}

impl<'w> View for Positions<'w> {
    type V = Seq<(EntityId, Position)>;

    open spec fn view(&self) -> Seq<(EntityId, Position)> {
        self.world.position_rows()
    }
}

impl<'w> Positions<'w> {
    /// The handle and the position of the row `i`, or `None` behind the
    /// last row. What is written becomes the position of that row.
    pub fn get(&mut self, i: usize) -> (row: Option<(EntityId, &mut Position)>)
        ensures
            row is Some <==> i < old(self)@.len(),
            *final(final(self).world) == *final(old(self).world),
            row is None ==> *final(self).world == *old(self).world,
            row is Some ==> final(self).world.keeps_but_positions(old(self).world),
            row matches Some(pair) ==> pair.0 == old(self)@[i as int].0 && *pair.1
                == old(self)@[i as int].1,
            row matches Some(pair) ==> final(self)@ == old(self)@.update(
                i as int,
                (pair.0, *final(pair.1)),
            ),
    {
        let alone: usize = shorter(
            self.world.position_archetype.entities.len(),
            self.world.position_archetype.components.len(),
        );
        if i < alone {
            let entity = self.world.position_archetype.entities[i];
            proof {
                let before = *self.world;
                assert forall|next: World|
                    next.position_archetype.entities == before.position_archetype.entities
                        && next.position_velocity_archetype == before.position_velocity_archetype
                        && replaced(
                        next.position_archetype.components@,
                        before.position_archetype.components@,
                        i as int,
                    ) implies #[trigger] next.position_rows()
                    == before.position_rows().update(i as int, (
                        entity, next.position_archetype.components@[i as int],
                    )) by {
                    assert(next.position_rows() =~= before.position_rows().update(
                        i as int,
                        (entity, next.position_archetype.components@[i as int]),
                    ));
                }
            }
            return Some((entity, &mut self.world.position_archetype.components[i]));
        }
        let both: usize = shorter(
            self.world.position_velocity_archetype.entities.len(),
            self.world.position_velocity_archetype.positions.len(),
        );
        let at: usize = i - alone;
        if at < both {
            let entity = self.world.position_velocity_archetype.entities[at];
            proof {
                let before = *self.world;
                assert forall|next: World|
                    next.position_archetype == before.position_archetype
                        && next.position_velocity_archetype.entities
                        == before.position_velocity_archetype.entities
                        && replaced(
                        next.position_velocity_archetype.positions@,
                        before.position_velocity_archetype.positions@,
                        at as int,
                    ) implies #[trigger] next.position_rows()
                    == before.position_rows().update(i as int, (
                        entity, next.position_velocity_archetype.positions@[at as int],
                    )) by {
                    assert(next.position_rows() =~= before.position_rows().update(
                        i as int,
                        (entity, next.position_velocity_archetype.positions@[at as int]),
                    ));
                }
            }
            return Some((entity, &mut self.world.position_velocity_archetype.positions[at]));
        }
        None
    }
}

/// The positions and velocities of the entities of a world that hold both,
/// row by row.
pub struct PositionsAndVelocities<'w> {
    /// The world whose components these are.
    pub world: &'w mut World,
}

impl<'w> View for PositionsAndVelocities<'w> {
    type V = Seq<(EntityId, Position, Velocity)>;

    open spec fn view(&self) -> Seq<(EntityId, Position, Velocity)> {
        self.world.paired_rows()
    }
}

impl<'w> PositionsAndVelocities<'w> {
    /// The handle, the position and the velocity of the row `i`, or `None`
    /// behind the last row. What is written becomes the position and the
    /// velocity of that row.
    pub fn get(&mut self, i: usize) -> (row: Option<(EntityId, &mut Position, &mut Velocity)>)
        ensures
            row is Some <==> i < old(self)@.len(),
            *final(final(self).world) == *final(old(self).world),
            row is None ==> *final(self).world == *old(self).world,
            row is Some ==> final(self).world.keeps_but_pairs(old(self).world),
            row matches Some(triple) ==> triple.0 == old(self)@[i as int].0 && *triple.1
                == old(self)@[i as int].1 && *triple.2 == old(self)@[i as int].2,
            row matches Some(triple) ==> final(self)@ == old(self)@.update(
                i as int,
                (triple.0, *final(triple.1), *final(triple.2)),
            ),
    {
        let paired: usize = shorter(
            self.world.position_velocity_archetype.entities.len(),
            self.world.position_velocity_archetype.positions.len(),
        );
        let rows: usize = shorter(paired, self.world.position_velocity_archetype.velocities.len());
        if i < rows {
            let entity = self.world.position_velocity_archetype.entities[i];
            proof {
                let before = *self.world;
                assert forall|next: World|
                    next.position_velocity_archetype.entities
                        == before.position_velocity_archetype.entities
                        && replaced(
                        next.position_velocity_archetype.positions@,
                        before.position_velocity_archetype.positions@,
                        i as int,
                    )
                        && replaced(
                        next.position_velocity_archetype.velocities@,
                        before.position_velocity_archetype.velocities@,
                        i as int,
                    ) implies #[trigger] next.paired_rows()
                    == before.paired_rows().update(i as int, (
                        entity,
                        next.position_velocity_archetype.positions@[i as int],
                        next.position_velocity_archetype.velocities@[i as int],
                    )) by {
                    assert(next.paired_rows() =~= before.paired_rows().update(
                        i as int,
                        (
                        entity,
                        next.position_velocity_archetype.positions@[i as int],
                        next.position_velocity_archetype.velocities@[i as int],
                    ),
                    ));
                }
            }
            let both = &mut self.world.position_velocity_archetype;
            return Some((entity, &mut both.positions[i], &mut both.velocities[i]));
        }
        None
    }
}

} // verus!
