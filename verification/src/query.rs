//! Queries: shapes that name the components to fetch, and the rows that
//! a world yields for them.

use crate::world::{Location, World};
use crate::EntityId;
use vstd::prelude::*;

verus! {

/// A selector of one component type inside the shape of a query, by shared
/// or by exclusive reference.
pub trait ComponentRef: Sized {
    /// The component type that is selected.
    spec fn value(&self) -> u64;

    /// Whether the component is selected for writing.
    spec fn exclusive(&self) -> bool;

    /// The component type that is selected.
    fn component(&self) -> (ty: u64)
        ensures
            ty == self.value(),
    ;

    /// Whether the component is selected for writing.
    fn is_mut(&self) -> (exclusive: bool)
        ensures
            exclusive == self.exclusive(),
    ;
}

/// Selects the component of the given type by shared reference.
#[derive(Clone, Copy, Debug)]
pub struct Ref(pub u64);

/// Selects the component of the given type by exclusive reference.
#[derive(Clone, Copy, Debug)]
pub struct Mut(pub u64);

/// Selects the handle of the entity that owns the row.
#[derive(Clone, Copy, Debug)]
pub struct Entity;

impl ComponentRef for Ref {
    open spec fn value(&self) -> u64 {
        self.0
    }

    open spec fn exclusive(&self) -> bool {
        false
    }

    fn component(&self) -> (ty: u64) {
        self.0
    }

    fn is_mut(&self) -> (exclusive: bool) {
        false
    }
}

impl ComponentRef for Mut {
    open spec fn value(&self) -> u64 {
        self.0
    }

    open spec fn exclusive(&self) -> bool {
        true
    }

    fn component(&self) -> (ty: u64) {
        self.0
    }

    fn is_mut(&self) -> (exclusive: bool) {
        true
    }
}

/// The rows of a shared query: one per entity that holds every component
/// type of the shape, read in place.
pub struct Rows<'w> {
    world: &'w World,
    types: Vec<u64>,
    with_entity: bool,
    hits: Vec<Location>,
}

impl<'w> View for Rows<'w> {
    type V = Seq<(Option<EntityId>, Seq<Seq<u8>>)>;

    /// What the query yields, row by row.
    closed spec fn view(&self) -> Seq<(Option<EntityId>, Seq<Seq<u8>>)> {
        self.world.answer(self.types@, self.with_entity)
    }
}

impl<'w> Rows<'w> {
    /// The world that is queried.
    pub closed spec fn world(&self) -> &'w World {
        self.world
    }

    /// The component types of the shape, in its order.
    pub closed spec fn types(&self) -> Seq<u64> {
        self.types@
    }

    /// Whether the rows hold exactly what the world yields for the shape.
    pub closed spec fn wf(&self) -> bool {
        &&& self.world.wf()
        &&& self.hits@ == self.world.hits(self.types@)
    }

    /// Evaluates a query for `types` on `world`.
    pub fn new(world: &'w World, types: Vec<u64>, with_entity: bool) -> (rows: Self)
        requires
            world.wf(),
        ensures
            rows.wf(),
            rows.world() == world,
            rows.types() == types@,
            rows@ == world.answer(types@, with_entity),
    {
        let hits = world.select(types.as_slice());
        Rows { world, types, with_entity, hits }
    }

    /// The number of rows.
    pub fn len(&self) -> (len: usize)
        requires
            self.wf(),
        ensures
            len == self@.len(),
    {
        self.hits.len()
    }

    /// The handle of the entity of the row `i`, where the shape asks for it.
    pub fn entity(&self, i: usize) -> (entity: Option<EntityId>)
        requires
            self.wf(),
            i < self@.len(),
        ensures
            entity == self@[i as int].0,
    {
        if self.with_entity {
            proof {
                self.world.lemma_hit(self.types@, i as int);
            }
            Some(self.world.entity_at(self.hits[i]))
        } else {
            None
        }
    }

    /// The component that the selector `k` of the shape names, in the row
    /// `i`.
    pub fn get(&self, i: usize, k: usize) -> (value: &'w [u8])
        requires
            self.wf(),
            i < self@.len(),
            k < self.types().len(),
        ensures
            value@ == self@[i as int].1[k as int],
    {
        proof {
            self.world.lemma_hit(self.types@, i as int);
        }
        let entity = self.world.entity_at(self.hits[i]);
        let found = self.world.get(entity, self.types[k]);
        found.unwrap()
    }
}

/// The rows of an exclusive query: one per entity that holds every
/// component type of the shape, read and written in place.
pub struct RowsMut<'w> {
    /// The world that is queried.
    pub world: &'w mut World,
    /// The component types of the shape, in its order.
    pub types: Vec<u64>,
    /// Per selector of the shape whether it selects for writing.
    pub exclusive: Vec<bool>,
    /// Whether the shape asks for the handle.
    pub with_entity: bool,
    /// The rows that the query yields.
    pub hits: Vec<Location>,
}

impl<'w> View for RowsMut<'w> {
    type V = Seq<(Option<EntityId>, Seq<Seq<u8>>)>;

    /// What the query yields, row by row.
    open spec fn view(&self) -> Seq<(Option<EntityId>, Seq<Seq<u8>>)> {
        self.world.answer(self.types@, self.with_entity)
    }
}

impl<'w> RowsMut<'w> {
    /// The component types of the shape, in its order.
    pub open spec fn types(&self) -> Seq<u64> {
        self.types@
    }

    /// Per selector of the shape whether it selects for writing.
    pub open spec fn exclusive(&self) -> Seq<bool> {
        self.exclusive@
    }

    /// Whether the shape asks for the handle.
    pub open spec fn with_entity(&self) -> bool {
        self.with_entity
    }

    /// The handles of the entities that the rows belong to, row by row.
    pub open spec fn entities(&self) -> Seq<EntityId> {
        Seq::new(self.hits@.len(), |i: int| self.world.tenant(self.hits@[i]))
    }

    /// Whether the rows hold exactly what the world yields for the shape.
    pub open spec fn wf(&self) -> bool {
        &&& self.world.wf()
        &&& self.types@.len() == self.exclusive@.len()
        &&& self.hits@ == self.world.hits(self.types@)
    }

    /// Whether these rows are `before` after the bytes `written` became the
    /// component of the selector `k` in the row `i`: the same rows of the
    /// same shape, over a world in which nothing else changed.
    pub open spec fn rewrites(&self, before: &Self, i: int, k: int, written: Seq<u8>) -> bool {
        &&& self.wf()
        &&& self.types == before.types
        &&& self.exclusive == before.exclusive
        &&& self.with_entity == before.with_entity
        &&& self.hits == before.hits
        &&& self.world.rewrites(
            before.world,
            before.world.tenant(before.hits@[i]) as int,
            before.types@[k],
            written,
        )
    }

    /// Evaluates a query for `types` on `world`.
    pub fn new(
        world: &'w mut World,
        types: Vec<u64>,
        exclusive: Vec<bool>,
        with_entity: bool,
    ) -> (rows: Self)
        requires
            old(world).wf(),
            types@.len() == exclusive@.len(),
        ensures
            rows.wf(),
            *rows.world == *old(world),
            *final(world) == *final(rows.world),
            rows.types() == types@,
            rows.exclusive() == exclusive@,
            rows.with_entity() == with_entity,
            rows@ == old(world).answer(types@, with_entity),
    {
        let hits = world.select(types.as_slice());
        RowsMut { world, types, exclusive, with_entity, hits }
    }

    /// The number of rows.
    pub fn len(&self) -> (len: usize)
        requires
            self.wf(),
        ensures
            len == self@.len(),
            len == self.entities().len(),
    {
        self.hits.len()
    }

    /// The handle of the entity of the row `i`, where the shape asks for it.
    pub fn entity(&self, i: usize) -> (entity: Option<EntityId>)
        requires
            self.wf(),
            i < self@.len(),
        ensures
            entity == self@[i as int].0,
            self.with_entity() ==> entity == Some(self.entities()[i as int]),
    {
        if self.with_entity {
            proof {
                self.world.lemma_hit(self.types@, i as int);
            }
            Some(self.world.entity_at(self.hits[i]))
        } else {
            None
        }
    }

    /// The component that the selector `k` of the shape names, in the row
    /// `i`.
    pub fn get(&self, i: usize, k: usize) -> (value: &[u8])
        requires
            self.wf(),
            i < self@.len(),
            k < self.types().len(),
        ensures
            value@ == self@[i as int].1[k as int],
    {
        proof {
            self.world.lemma_hit(self.types@, i as int);
        }
        let entity = self.world.entity_at(self.hits[i]);
        let found = self.world.get(entity, self.types[k]);
        found.unwrap()
    }

    /// The component that the selector `k` of the shape names, in the row
    /// `i`, for writing; `None` where the selector is a shared one. What is
    /// written becomes the component of that entity; nothing else changes.
    pub fn get_mut(&mut self, i: usize, k: usize) -> (value: Option<&mut [u8]>)
        requires
            old(self).wf(),
            i < old(self)@.len(),
            k < old(self).types().len(),
        ensures
            value is Some <==> old(self).exclusive()[k as int],
            *final(final(self).world) == *final(old(self).world),
            value is None ==> *final(self) == *old(self),
            value matches Some(bytes) ==> bytes@ == old(self)@[i as int].1[k as int],
            value matches Some(bytes) ==> (final(bytes)@.len() == bytes@.len()
                ==> final(self).rewrites(old(self), i as int, k as int, final(bytes)@)),
    {
        if !self.exclusive[k] {
            return None;
        }
        proof {
            self.world.lemma_hit(self.types@, i as int);
        }
        let entity = self.world.entity_at(self.hits[i]);
        proof {
            let before = *self;
            let ty = self.types@[k as int];
            assert forall|next: RowsMut<'w>, written: Seq<u8>|
                next.types == before.types && next.exclusive == before.exclusive
                    && next.with_entity == before.with_entity && next.hits == before.hits
                    && next.world.rewrites(
                    before.world,
                    entity as int,
                    ty,
                    written,
                ) implies #[trigger] next.rewrites(&before, i as int, k as int, written) by {
                before.world.lemma_hits_groups(
                    next.world,
                    before.types@,
                    before.world.archetypes().len() as int,
                );
                assert(next.world.archetypes().len() == next.world.groups().len());
                assert(before.world.archetypes().len() == before.world.groups().len());
            }
        }
        self.world.get_mut(entity, self.types[k])
    }
}

/// The shape of a shared query: which component types to fetch, and whether
/// to fetch the handle with them.
pub trait Query: Sized {
    /// The component types that are asked for, in the order of the shape.
    spec fn types(&self) -> Seq<u64>;

    /// Whether the shape asks for the handle.
    spec fn with_entity(&self) -> bool;

    /// Evaluates the query on `world`.
    fn query<'w>(&self, world: &'w World) -> (rows: Rows<'w>)
        requires
            world.wf(),
        ensures
            rows.wf(),
            rows.world() == world,
            rows.types() == self.types(),
            rows@ == world.answer(self.types(), self.with_entity()),
    ;
}

/// The shape of an exclusive query: which component types to fetch, each by
/// shared or by exclusive reference, and whether to fetch the handle with
/// them.
pub trait QueryMut: Sized {
    /// The component types that are asked for, in the order of the shape.
    spec fn targets(&self) -> Seq<u64>;

    /// Per selector whether it selects for writing.
    spec fn writable(&self) -> Seq<bool>;

    /// Whether the shape asks for the handle.
    spec fn wants_entity(&self) -> bool;

    /// Evaluates the query on `world`.
    fn query_mut<'w>(&self, world: &'w mut World) -> (rows: RowsMut<'w>)
        requires
            old(world).wf(),
        ensures
            rows.wf(),
            *rows.world == *old(world),
            *final(world) == *final(rows.world),
            rows.types() == self.targets(),
            rows.exclusive() == self.writable(),
            rows.with_entity() == self.wants_entity(),
            rows@ == old(world).answer(self.targets(), self.wants_entity()),
    ;
}

impl Query for Ref {
    open spec fn types(&self) -> Seq<u64> {
        seq![self.0]
    }

    open spec fn with_entity(&self) -> bool {
        false
    }

    fn query<'w>(&self, world: &'w World) -> (rows: Rows<'w>) {
        let mut types: Vec<u64> = Vec::new();
        types.push(self.0);
        assert(types@ =~= self.types());
        Rows::new(world, types, false)
    }
}

impl Query for (Entity, Ref) {
    open spec fn types(&self) -> Seq<u64> {
        seq![self.1.0]
    }

    open spec fn with_entity(&self) -> bool {
        true
    }

    fn query<'w>(&self, world: &'w World) -> (rows: Rows<'w>) {
        let mut types: Vec<u64> = Vec::new();
        types.push(self.1.0);
        assert(types@ =~= self.types());
        Rows::new(world, types, true)
    }
}

impl Query for (Ref,) {
    open spec fn types(&self) -> Seq<u64> {
        seq![self.0.0]
    }

    open spec fn with_entity(&self) -> bool {
        false
    }

    fn query<'w>(&self, world: &'w World) -> (rows: Rows<'w>) {
        let mut types: Vec<u64> = Vec::new();
        types.push(self.0.0);
        assert(types@ =~= self.types());
        Rows::new(world, types, false)
    }
}

impl Query for (Entity, Ref, Ref) {
    open spec fn types(&self) -> Seq<u64> {
        seq![self.1.0, self.2.0]
    }

    open spec fn with_entity(&self) -> bool {
        true
    }

    fn query<'w>(&self, world: &'w World) -> (rows: Rows<'w>) {
        let mut types: Vec<u64> = Vec::new();
        types.push(self.1.0);
        types.push(self.2.0);
        assert(types@ =~= self.types());
        Rows::new(world, types, true)
    }
}

impl Query for (Ref, Ref) {
    open spec fn types(&self) -> Seq<u64> {
        seq![self.0.0, self.1.0]
    }

    open spec fn with_entity(&self) -> bool {
        false
    }

    fn query<'w>(&self, world: &'w World) -> (rows: Rows<'w>) {
        let mut types: Vec<u64> = Vec::new();
        types.push(self.0.0);
        types.push(self.1.0);
        assert(types@ =~= self.types());
        Rows::new(world, types, false)
    }
}

impl Query for (Entity, Ref, Ref, Ref) {
    open spec fn types(&self) -> Seq<u64> {
        seq![self.1.0, self.2.0, self.3.0]
    }

    open spec fn with_entity(&self) -> bool {
        true
    }

    fn query<'w>(&self, world: &'w World) -> (rows: Rows<'w>) {
        let mut types: Vec<u64> = Vec::new();
        types.push(self.1.0);
        types.push(self.2.0);
        types.push(self.3.0);
        assert(types@ =~= self.types());
        Rows::new(world, types, true)
    }
}

impl Query for (Ref, Ref, Ref) {
    open spec fn types(&self) -> Seq<u64> {
        seq![self.0.0, self.1.0, self.2.0]
    }

    open spec fn with_entity(&self) -> bool {
        false
    }

    fn query<'w>(&self, world: &'w World) -> (rows: Rows<'w>) {
        let mut types: Vec<u64> = Vec::new();
        types.push(self.0.0);
        types.push(self.1.0);
        types.push(self.2.0);
        assert(types@ =~= self.types());
        Rows::new(world, types, false)
    }
}

impl Query for (Entity, Ref, Ref, Ref, Ref) {
    open spec fn types(&self) -> Seq<u64> {
        seq![self.1.0, self.2.0, self.3.0, self.4.0]
    }

    open spec fn with_entity(&self) -> bool {
        true
    }

    fn query<'w>(&self, world: &'w World) -> (rows: Rows<'w>) {
        let mut types: Vec<u64> = Vec::new();
        types.push(self.1.0);
        types.push(self.2.0);
        types.push(self.3.0);
        types.push(self.4.0);
        assert(types@ =~= self.types());
        Rows::new(world, types, true)
    }
}

impl Query for (Ref, Ref, Ref, Ref) {
    open spec fn types(&self) -> Seq<u64> {
        seq![self.0.0, self.1.0, self.2.0, self.3.0]
    }

    open spec fn with_entity(&self) -> bool {
        false
    }

    fn query<'w>(&self, world: &'w World) -> (rows: Rows<'w>) {
        let mut types: Vec<u64> = Vec::new();
        types.push(self.0.0);
        types.push(self.1.0);
        types.push(self.2.0);
        types.push(self.3.0);
        assert(types@ =~= self.types());
        Rows::new(world, types, false)
    }
}

impl Query for (Entity, Ref, Ref, Ref, Ref, Ref) {
    open spec fn types(&self) -> Seq<u64> {
        seq![self.1.0, self.2.0, self.3.0, self.4.0, self.5.0]
    }

    open spec fn with_entity(&self) -> bool {
        true
    }

    fn query<'w>(&self, world: &'w World) -> (rows: Rows<'w>) {
        let mut types: Vec<u64> = Vec::new();
        types.push(self.1.0);
        types.push(self.2.0);
        types.push(self.3.0);
        types.push(self.4.0);
        types.push(self.5.0);
        assert(types@ =~= self.types());
        Rows::new(world, types, true)
    }
}

impl Query for (Ref, Ref, Ref, Ref, Ref) {
    open spec fn types(&self) -> Seq<u64> {
        seq![self.0.0, self.1.0, self.2.0, self.3.0, self.4.0]
    }

    open spec fn with_entity(&self) -> bool {
        false
    }

    fn query<'w>(&self, world: &'w World) -> (rows: Rows<'w>) {
        let mut types: Vec<u64> = Vec::new();
        types.push(self.0.0);
        types.push(self.1.0);
        types.push(self.2.0);
        types.push(self.3.0);
        types.push(self.4.0);
        assert(types@ =~= self.types());
        Rows::new(world, types, false)
    }
}

impl Query for (Entity, Ref, Ref, Ref, Ref, Ref, Ref) {
    open spec fn types(&self) -> Seq<u64> {
        seq![self.1.0, self.2.0, self.3.0, self.4.0, self.5.0, self.6.0]
    }

    open spec fn with_entity(&self) -> bool {
        true
    }

    fn query<'w>(&self, world: &'w World) -> (rows: Rows<'w>) {
        let mut types: Vec<u64> = Vec::new();
        types.push(self.1.0);
        types.push(self.2.0);
        types.push(self.3.0);
        types.push(self.4.0);
        types.push(self.5.0);
        types.push(self.6.0);
        assert(types@ =~= self.types());
        Rows::new(world, types, true)
    }
}

impl Query for (Ref, Ref, Ref, Ref, Ref, Ref) {
    open spec fn types(&self) -> Seq<u64> {
        seq![self.0.0, self.1.0, self.2.0, self.3.0, self.4.0, self.5.0]
    }

    open spec fn with_entity(&self) -> bool {
        false
    }

    fn query<'w>(&self, world: &'w World) -> (rows: Rows<'w>) {
        let mut types: Vec<u64> = Vec::new();
        types.push(self.0.0);
        types.push(self.1.0);
        types.push(self.2.0);
        types.push(self.3.0);
        types.push(self.4.0);
        types.push(self.5.0);
        assert(types@ =~= self.types());
        Rows::new(world, types, false)
    }
}

impl Query for (Entity, Ref, Ref, Ref, Ref, Ref, Ref, Ref) {
    open spec fn types(&self) -> Seq<u64> {
        seq![self.1.0, self.2.0, self.3.0, self.4.0, self.5.0, self.6.0, self.7.0]
    }

    open spec fn with_entity(&self) -> bool {
        true
    }

    fn query<'w>(&self, world: &'w World) -> (rows: Rows<'w>) {
        let mut types: Vec<u64> = Vec::new();
        types.push(self.1.0);
        types.push(self.2.0);
        types.push(self.3.0);
        types.push(self.4.0);
        types.push(self.5.0);
        types.push(self.6.0);
        types.push(self.7.0);
        assert(types@ =~= self.types());
        Rows::new(world, types, true)
    }
}

impl Query for (Ref, Ref, Ref, Ref, Ref, Ref, Ref) {
    open spec fn types(&self) -> Seq<u64> {
        seq![self.0.0, self.1.0, self.2.0, self.3.0, self.4.0, self.5.0, self.6.0]
    }

    open spec fn with_entity(&self) -> bool {
        false
    }

    fn query<'w>(&self, world: &'w World) -> (rows: Rows<'w>) {
        let mut types: Vec<u64> = Vec::new();
        types.push(self.0.0);
        types.push(self.1.0);
        types.push(self.2.0);
        types.push(self.3.0);
        types.push(self.4.0);
        types.push(self.5.0);
        types.push(self.6.0);
        assert(types@ =~= self.types());
        Rows::new(world, types, false)
    }
}

impl<A: ComponentRef> QueryMut for (Entity, A) {
    open spec fn targets(&self) -> Seq<u64> {
        seq![self.1.value()]
    }

    open spec fn writable(&self) -> Seq<bool> {
        seq![self.1.exclusive()]
    }

    open spec fn wants_entity(&self) -> bool {
        true
    }

    fn query_mut<'w>(&self, world: &'w mut World) -> (rows: RowsMut<'w>) {
        let mut types: Vec<u64> = Vec::new();
        let mut exclusive: Vec<bool> = Vec::new();
        types.push(self.1.component());
        exclusive.push(self.1.is_mut());
        assert(types@ =~= self.targets());
        assert(exclusive@ =~= self.writable());
        RowsMut::new(world, types, exclusive, true)
    }
}

impl<A: ComponentRef> QueryMut for (A,) {
    open spec fn targets(&self) -> Seq<u64> {
        seq![self.0.value()]
    }

    open spec fn writable(&self) -> Seq<bool> {
        seq![self.0.exclusive()]
    }

    open spec fn wants_entity(&self) -> bool {
        false
    }

    fn query_mut<'w>(&self, world: &'w mut World) -> (rows: RowsMut<'w>) {
        let mut types: Vec<u64> = Vec::new();
        let mut exclusive: Vec<bool> = Vec::new();
        types.push(self.0.component());
        exclusive.push(self.0.is_mut());
        assert(types@ =~= self.targets());
        assert(exclusive@ =~= self.writable());
        RowsMut::new(world, types, exclusive, false)
    }
}

impl<A: ComponentRef, B: ComponentRef> QueryMut for (Entity, A, B) {
    open spec fn targets(&self) -> Seq<u64> {
        seq![self.1.value(), self.2.value()]
    }

    open spec fn writable(&self) -> Seq<bool> {
        seq![self.1.exclusive(), self.2.exclusive()]
    }

    open spec fn wants_entity(&self) -> bool {
        true
    }

    fn query_mut<'w>(&self, world: &'w mut World) -> (rows: RowsMut<'w>) {
        let mut types: Vec<u64> = Vec::new();
        let mut exclusive: Vec<bool> = Vec::new();
        types.push(self.1.component());
        exclusive.push(self.1.is_mut());
        types.push(self.2.component());
        exclusive.push(self.2.is_mut());
        assert(types@ =~= self.targets());
        assert(exclusive@ =~= self.writable());
        RowsMut::new(world, types, exclusive, true)
    }
}

impl<A: ComponentRef, B: ComponentRef> QueryMut for (A, B) {
    open spec fn targets(&self) -> Seq<u64> {
        seq![self.0.value(), self.1.value()]
    }

    open spec fn writable(&self) -> Seq<bool> {
        seq![self.0.exclusive(), self.1.exclusive()]
    }

    open spec fn wants_entity(&self) -> bool {
        false
    }

    fn query_mut<'w>(&self, world: &'w mut World) -> (rows: RowsMut<'w>) {
        let mut types: Vec<u64> = Vec::new();
        let mut exclusive: Vec<bool> = Vec::new();
        types.push(self.0.component());
        exclusive.push(self.0.is_mut());
        types.push(self.1.component());
        exclusive.push(self.1.is_mut());
        assert(types@ =~= self.targets());
        assert(exclusive@ =~= self.writable());
        RowsMut::new(world, types, exclusive, false)
    }
}

impl<A: ComponentRef, B: ComponentRef, C: ComponentRef> QueryMut for (Entity, A, B, C) {
    open spec fn targets(&self) -> Seq<u64> {
        seq![self.1.value(), self.2.value(), self.3.value()]
    }

    open spec fn writable(&self) -> Seq<bool> {
        seq![self.1.exclusive(), self.2.exclusive(), self.3.exclusive()]
    }

    open spec fn wants_entity(&self) -> bool {
        true
    }

    fn query_mut<'w>(&self, world: &'w mut World) -> (rows: RowsMut<'w>) {
        let mut types: Vec<u64> = Vec::new();
        let mut exclusive: Vec<bool> = Vec::new();
        types.push(self.1.component());
        exclusive.push(self.1.is_mut());
        types.push(self.2.component());
        exclusive.push(self.2.is_mut());
        types.push(self.3.component());
        exclusive.push(self.3.is_mut());
        assert(types@ =~= self.targets());
        assert(exclusive@ =~= self.writable());
        RowsMut::new(world, types, exclusive, true)
    }
}

impl<A: ComponentRef, B: ComponentRef, C: ComponentRef> QueryMut for (A, B, C) {
    open spec fn targets(&self) -> Seq<u64> {
        seq![self.0.value(), self.1.value(), self.2.value()]
    }

    open spec fn writable(&self) -> Seq<bool> {
        seq![self.0.exclusive(), self.1.exclusive(), self.2.exclusive()]
    }

    open spec fn wants_entity(&self) -> bool {
        false
    }

    fn query_mut<'w>(&self, world: &'w mut World) -> (rows: RowsMut<'w>) {
        let mut types: Vec<u64> = Vec::new();
        let mut exclusive: Vec<bool> = Vec::new();
        types.push(self.0.component());
        exclusive.push(self.0.is_mut());
        types.push(self.1.component());
        exclusive.push(self.1.is_mut());
        types.push(self.2.component());
        exclusive.push(self.2.is_mut());
        assert(types@ =~= self.targets());
        assert(exclusive@ =~= self.writable());
        RowsMut::new(world, types, exclusive, false)
    }
}

impl<
    A: ComponentRef,
    B: ComponentRef,
    C: ComponentRef,
    D: ComponentRef,
> QueryMut for (Entity, A, B, C, D) {
    open spec fn targets(&self) -> Seq<u64> {
        seq![self.1.value(), self.2.value(), self.3.value(), self.4.value()]
    }

    open spec fn writable(&self) -> Seq<bool> {
        seq![self.1.exclusive(), self.2.exclusive(), self.3.exclusive(), self.4.exclusive()]
    }

    open spec fn wants_entity(&self) -> bool {
        true
    }

    fn query_mut<'w>(&self, world: &'w mut World) -> (rows: RowsMut<'w>) {
        let mut types: Vec<u64> = Vec::new();
        let mut exclusive: Vec<bool> = Vec::new();
        types.push(self.1.component());
        exclusive.push(self.1.is_mut());
        types.push(self.2.component());
        exclusive.push(self.2.is_mut());
        types.push(self.3.component());
        exclusive.push(self.3.is_mut());
        types.push(self.4.component());
        exclusive.push(self.4.is_mut());
        assert(types@ =~= self.targets());
        assert(exclusive@ =~= self.writable());
        RowsMut::new(world, types, exclusive, true)
    }
}

impl<A: ComponentRef, B: ComponentRef, C: ComponentRef, D: ComponentRef> QueryMut for (A, B, C, D) {
    open spec fn targets(&self) -> Seq<u64> {
        seq![self.0.value(), self.1.value(), self.2.value(), self.3.value()]
    }

    open spec fn writable(&self) -> Seq<bool> {
        seq![self.0.exclusive(), self.1.exclusive(), self.2.exclusive(), self.3.exclusive()]
    }

    open spec fn wants_entity(&self) -> bool {
        false
    }

    fn query_mut<'w>(&self, world: &'w mut World) -> (rows: RowsMut<'w>) {
        let mut types: Vec<u64> = Vec::new();
        let mut exclusive: Vec<bool> = Vec::new();
        types.push(self.0.component());
        exclusive.push(self.0.is_mut());
        types.push(self.1.component());
        exclusive.push(self.1.is_mut());
        types.push(self.2.component());
        exclusive.push(self.2.is_mut());
        types.push(self.3.component());
        exclusive.push(self.3.is_mut());
        assert(types@ =~= self.targets());
        assert(exclusive@ =~= self.writable());
        RowsMut::new(world, types, exclusive, false)
    }
}

impl<
    A: ComponentRef,
    B: ComponentRef,
    C: ComponentRef,
    D: ComponentRef,
    E: ComponentRef,
> QueryMut for (Entity, A, B, C, D, E) {
    open spec fn targets(&self) -> Seq<u64> {
        seq![self.1.value(), self.2.value(), self.3.value(), self.4.value(), self.5.value()]
    }

    open spec fn writable(&self) -> Seq<bool> {
        seq![
            self.1.exclusive(),
            self.2.exclusive(),
            self.3.exclusive(),
            self.4.exclusive(),
            self.5.exclusive(),
        ]
    }

    open spec fn wants_entity(&self) -> bool {
        true
    }

    fn query_mut<'w>(&self, world: &'w mut World) -> (rows: RowsMut<'w>) {
        let mut types: Vec<u64> = Vec::new();
        let mut exclusive: Vec<bool> = Vec::new();
        types.push(self.1.component());
        exclusive.push(self.1.is_mut());
        types.push(self.2.component());
        exclusive.push(self.2.is_mut());
        types.push(self.3.component());
        exclusive.push(self.3.is_mut());
        types.push(self.4.component());
        exclusive.push(self.4.is_mut());
        types.push(self.5.component());
        exclusive.push(self.5.is_mut());
        assert(types@ =~= self.targets());
        assert(exclusive@ =~= self.writable());
        RowsMut::new(world, types, exclusive, true)
    }
}

impl<
    A: ComponentRef,
    B: ComponentRef,
    C: ComponentRef,
    D: ComponentRef,
    E: ComponentRef,
> QueryMut for (A, B, C, D, E) {
    open spec fn targets(&self) -> Seq<u64> {
        seq![self.0.value(), self.1.value(), self.2.value(), self.3.value(), self.4.value()]
    }

    open spec fn writable(&self) -> Seq<bool> {
        seq![
            self.0.exclusive(),
            self.1.exclusive(),
            self.2.exclusive(),
            self.3.exclusive(),
            self.4.exclusive(),
        ]
    }

    open spec fn wants_entity(&self) -> bool {
        false
    }

    fn query_mut<'w>(&self, world: &'w mut World) -> (rows: RowsMut<'w>) {
        let mut types: Vec<u64> = Vec::new();
        let mut exclusive: Vec<bool> = Vec::new();
        types.push(self.0.component());
        exclusive.push(self.0.is_mut());
        types.push(self.1.component());
        exclusive.push(self.1.is_mut());
        types.push(self.2.component());
        exclusive.push(self.2.is_mut());
        types.push(self.3.component());
        exclusive.push(self.3.is_mut());
        types.push(self.4.component());
        exclusive.push(self.4.is_mut());
        assert(types@ =~= self.targets());
        assert(exclusive@ =~= self.writable());
        RowsMut::new(world, types, exclusive, false)
    }
}

impl<
    A: ComponentRef,
    B: ComponentRef,
    C: ComponentRef,
    D: ComponentRef,
    E: ComponentRef,
    F: ComponentRef,
> QueryMut for (Entity, A, B, C, D, E, F) {
    open spec fn targets(&self) -> Seq<u64> {
        seq![
            self.1.value(),
            self.2.value(),
            self.3.value(),
            self.4.value(),
            self.5.value(),
            self.6.value(),
        ]
    }

    open spec fn writable(&self) -> Seq<bool> {
        seq![
            self.1.exclusive(),
            self.2.exclusive(),
            self.3.exclusive(),
            self.4.exclusive(),
            self.5.exclusive(),
            self.6.exclusive(),
        ]
    }

    open spec fn wants_entity(&self) -> bool {
        true
    }

    fn query_mut<'w>(&self, world: &'w mut World) -> (rows: RowsMut<'w>) {
        let mut types: Vec<u64> = Vec::new();
        let mut exclusive: Vec<bool> = Vec::new();
        types.push(self.1.component());
        exclusive.push(self.1.is_mut());
        types.push(self.2.component());
        exclusive.push(self.2.is_mut());
        types.push(self.3.component());
        exclusive.push(self.3.is_mut());
        types.push(self.4.component());
        exclusive.push(self.4.is_mut());
        types.push(self.5.component());
        exclusive.push(self.5.is_mut());
        types.push(self.6.component());
        exclusive.push(self.6.is_mut());
        assert(types@ =~= self.targets());
        assert(exclusive@ =~= self.writable());
        RowsMut::new(world, types, exclusive, true)
    }
}

impl<
    A: ComponentRef,
    B: ComponentRef,
    C: ComponentRef,
    D: ComponentRef,
    E: ComponentRef,
    F: ComponentRef,
> QueryMut for (A, B, C, D, E, F) {
    open spec fn targets(&self) -> Seq<u64> {
        seq![
            self.0.value(),
            self.1.value(),
            self.2.value(),
            self.3.value(),
            self.4.value(),
            self.5.value(),
        ]
    }

    open spec fn writable(&self) -> Seq<bool> {
        seq![
            self.0.exclusive(),
            self.1.exclusive(),
            self.2.exclusive(),
            self.3.exclusive(),
            self.4.exclusive(),
            self.5.exclusive(),
        ]
    }

    open spec fn wants_entity(&self) -> bool {
        false
    }

    fn query_mut<'w>(&self, world: &'w mut World) -> (rows: RowsMut<'w>) {
        let mut types: Vec<u64> = Vec::new();
        let mut exclusive: Vec<bool> = Vec::new();
        types.push(self.0.component());
        exclusive.push(self.0.is_mut());
        types.push(self.1.component());
        exclusive.push(self.1.is_mut());
        types.push(self.2.component());
        exclusive.push(self.2.is_mut());
        types.push(self.3.component());
        exclusive.push(self.3.is_mut());
        types.push(self.4.component());
        exclusive.push(self.4.is_mut());
        types.push(self.5.component());
        exclusive.push(self.5.is_mut());
        assert(types@ =~= self.targets());
        assert(exclusive@ =~= self.writable());
        RowsMut::new(world, types, exclusive, false)
    }
}

impl<
    A: ComponentRef,
    B: ComponentRef,
    C: ComponentRef,
    D: ComponentRef,
    E: ComponentRef,
    F: ComponentRef,
    G: ComponentRef,
> QueryMut for (Entity, A, B, C, D, E, F, G) {
    open spec fn targets(&self) -> Seq<u64> {
        seq![
            self.1.value(),
            self.2.value(),
            self.3.value(),
            self.4.value(),
            self.5.value(),
            self.6.value(),
            self.7.value(),
        ]
    }

    open spec fn writable(&self) -> Seq<bool> {
        seq![
            self.1.exclusive(),
            self.2.exclusive(),
            self.3.exclusive(),
            self.4.exclusive(),
            self.5.exclusive(),
            self.6.exclusive(),
            self.7.exclusive(),
        ]
    }

    open spec fn wants_entity(&self) -> bool {
        true
    }

    fn query_mut<'w>(&self, world: &'w mut World) -> (rows: RowsMut<'w>) {
        let mut types: Vec<u64> = Vec::new();
        let mut exclusive: Vec<bool> = Vec::new();
        types.push(self.1.component());
        exclusive.push(self.1.is_mut());
        types.push(self.2.component());
        exclusive.push(self.2.is_mut());
        types.push(self.3.component());
        exclusive.push(self.3.is_mut());
        types.push(self.4.component());
        exclusive.push(self.4.is_mut());
        types.push(self.5.component());
        exclusive.push(self.5.is_mut());
        types.push(self.6.component());
        exclusive.push(self.6.is_mut());
        types.push(self.7.component());
        exclusive.push(self.7.is_mut());
        assert(types@ =~= self.targets());
        assert(exclusive@ =~= self.writable());
        RowsMut::new(world, types, exclusive, true)
    }
}

impl<
    A: ComponentRef,
    B: ComponentRef,
    C: ComponentRef,
    D: ComponentRef,
    E: ComponentRef,
    F: ComponentRef,
    G: ComponentRef,
> QueryMut for (A, B, C, D, E, F, G) {
    open spec fn targets(&self) -> Seq<u64> {
        seq![
            self.0.value(),
            self.1.value(),
            self.2.value(),
            self.3.value(),
            self.4.value(),
            self.5.value(),
            self.6.value(),
        ]
    }

    open spec fn writable(&self) -> Seq<bool> {
        seq![
            self.0.exclusive(),
            self.1.exclusive(),
            self.2.exclusive(),
            self.3.exclusive(),
            self.4.exclusive(),
            self.5.exclusive(),
            self.6.exclusive(),
        ]
    }

    open spec fn wants_entity(&self) -> bool {
        false
    }

    fn query_mut<'w>(&self, world: &'w mut World) -> (rows: RowsMut<'w>) {
        let mut types: Vec<u64> = Vec::new();
        let mut exclusive: Vec<bool> = Vec::new();
        types.push(self.0.component());
        exclusive.push(self.0.is_mut());
        types.push(self.1.component());
        exclusive.push(self.1.is_mut());
        types.push(self.2.component());
        exclusive.push(self.2.is_mut());
        types.push(self.3.component());
        exclusive.push(self.3.is_mut());
        types.push(self.4.component());
        exclusive.push(self.4.is_mut());
        types.push(self.5.component());
        exclusive.push(self.5.is_mut());
        types.push(self.6.component());
        exclusive.push(self.6.is_mut());
        assert(types@ =~= self.targets());
        assert(exclusive@ =~= self.writable());
        RowsMut::new(world, types, exclusive, false)
    }
}

} // verus!
