//! The world: the place where every entity and component is stored.

use crate::archetype::{grown, max_bytes, Archetype, Dropped};
use crate::component_set::{
    group_has, group_ids, group_record, group_valid, lemma_group_ids_canonical,
    lemma_group_record, lemma_record_written, member_types, ComponentSet,
};
use crate::query::{Query, QueryMut, Rows, RowsMut};
use crate::signature::{lemma_signature_of, signature_of, SignatureIndex};
use crate::type_info::TypeInfo;
use crate::EntityId;
use vstd::prelude::*;

verus! {

/// Where the components of one entity are stored.
#[derive(Clone, Copy, Debug, PartialEq, Eq)]
pub struct Location {
    /// The row inside the archetype.
    pub entity_index: u32,
    /// The position of the archetype in the world.
    pub archetype_index: u32,
}

/// Whether an archetype answers a query for `types`: it holds at least one
/// row, and a column for every type that is asked for.
pub open spec fn answers(archetype: &Archetype, types: Seq<u64>) -> bool {
    &&& archetype.rows().len() > 0
    &&& forall|i: int| 0 <= i < types.len() ==> archetype.ids().contains(#[trigger] types[i])
}

/// Whether `first` comes before `second` in the order of a query: by
/// archetype, then by row.
pub open spec fn precedes(first: Location, second: Location) -> bool {
    first.archetype_index < second.archetype_index || (first.archetype_index
        == second.archetype_index && first.entity_index < second.entity_index)
}

/// Whether two lists hold the same descriptors in the same order.
fn same_types(first: &[TypeInfo], second: &[TypeInfo]) -> (same: bool)
    ensures
        same == (first@ == second@),
{
    if first.len() != second.len() {
        return false;
    }
    let mut k: usize = 0;
    while k < first.len()
        invariant
            k <= first@.len(),
            first@.len() == second@.len(),
            forall|x: int| 0 <= x < k ==> first@[x] == second@[x],
        decreases first@.len() - k,
    {
        if first[k].id != second[k].id || first[k].size != second[k].size || first[k].align
            != second[k].align {
            return false;
        }
        k += 1;
    }
    assert(first@ =~= second@);
    true
}

/// An ECS world: a growable list of archetypes, the location of every
/// entity, and the registry that finds the archetype of a signature.
pub struct World {
    archetypes: Vec<Archetype>,
    locations: Vec<Location>,
    index: SignatureIndex,
}

impl View for World {
    type V = Seq<Map<u64, Seq<u8>>>;

    /// The components of every entity, by handle and by type.
    open spec fn view(&self) -> Seq<Map<u64, Seq<u8>>> {
        Seq::new(self.len(), |id: int| self.record(id))
    }
}

impl Default for World {
    /// An empty world.
    fn default() -> (world: Self)
        ensures
            world.wf(),
            world.len() == 0,
            world.archetypes().len() == 0,
    {
        World::new()
    }
}

impl World {
    /// The archetypes in the order of their creation.
    pub closed spec fn archetypes(&self) -> Seq<Archetype> {
        self.archetypes@
    }

    /// The location of every entity, by handle.
    pub closed spec fn locations(&self) -> Seq<Location> {
        self.locations@
    }

    /// The number of entities, which is also the next handle.
    pub open spec fn len(&self) -> nat {
        self.locations().len()
    }

    /// The components of the entity `id`, by type.
    pub open spec fn record(&self, id: int) -> Map<u64, Seq<u8>> {
        let at = self.locations()[id];
        self.archetypes()[at.archetype_index as int].record(at.entity_index as int)
    }

    /// The archetype that stores the entity `id`.
    pub open spec fn archetype_of(&self, id: int) -> Archetype {
        self.archetypes()[self.locations()[id].archetype_index as int]
    }

    /// Per archetype its signature and the handles of its rows.
    pub open spec fn groups(&self) -> Seq<(Seq<u64>, Seq<EntityId>)> {
        Seq::new(
            self.archetypes().len(),
            |k: int| (self.archetypes()[k].ids(), self.archetypes()[k].rows()),
        )
    }

    /// Per archetype the descriptors of its columns and the number of rows
    /// that it has storage for.
    pub open spec fn frames(&self) -> Seq<(Seq<TypeInfo>, nat)> {
        Seq::new(
            self.archetypes().len(),
            |k: int| (self.archetypes()[k].types(), self.archetypes()[k].cap()),
        )
    }

    /// Whether the archetype `k` stores the signature `key`.
    pub open spec fn stores(&self, key: Seq<u64>, k: int) -> bool {
        0 <= k < self.archetypes().len() && self.archetypes()[k].ids() == key
    }

    /// The archetype that stores the signature `key`, if one does.
    pub open spec fn home(&self, key: Seq<u64>) -> Option<int> {
        if exists|k: int| self.stores(key, k) {
            Some(choose|k: int| self.stores(key, k))
        } else {
            None
        }
    }

    /// Whether one more entity with the given components can be stored:
    /// a handle is left for it, its archetype describes the types as the
    /// group does, and the archetype can grow by a row.
    pub open spec fn can_spawn(&self, members: Seq<(TypeInfo, Seq<u8>)>) -> bool {
        &&& self.len() <= u32::MAX
        &&& match self.home(group_ids(members)) {
            Some(k) => {
                &&& self.archetypes()[k].types() == signature_of(member_types(members))
                &&& self.archetypes()[k].can_reserve(1)
            },
            None => forall|i: int|
                0 <= i < members.len() ==> (#[trigger] members[i]).0.size <= max_bytes(),
        }
    }

    /// Whether the location of the entity `id` names the row that is its own.
    spec fn placed(&self, id: int) -> bool {
        let at = self.locations@[id];
        &&& at.archetype_index < self.archetypes@.len()
        &&& at.entity_index < self.archetypes@[at.archetype_index as int].rows().len()
        &&& self.archetypes@[at.archetype_index as int].rows()[at.entity_index as int] == id
    }

    /// Whether the handle at `row` of the archetype `k` is located there.
    spec fn owned(&self, k: int, row: int) -> bool {
        let id = self.archetypes@[k].rows()[row];
        &&& id < self.locations@.len()
        &&& self.locations@[id as int].archetype_index == k
        &&& self.locations@[id as int].entity_index == row
    }

    /// The invariant of the world: every archetype is well formed and
    /// registered under its own signature, and handles and rows name each
    /// other.
    pub closed spec fn wf(&self) -> bool {
        &&& self.index.wf()
        &&& self.archetypes@.len() <= self.locations@.len() <= 0x1_0000_0000
        &&& forall|k: int| 0 <= k < self.archetypes@.len() ==> (#[trigger] self.archetypes@[k]).wf()
        &&& forall|k: int|
            0 <= k < self.archetypes@.len() ==> (#[trigger] self.archetypes@[k]).rows().len()
                <= self.locations@.len()
        &&& forall|k: int|
            0 <= k < self.archetypes@.len() ==> {
                &&& self.index@.contains_key((#[trigger] self.archetypes@[k]).ids())
                &&& self.index@[self.archetypes@[k].ids()] == k
            }
        &&& forall|key: Seq<u64>| #[trigger]
            self.index@.contains_key(key) ==> self.stores(key, self.index@[key] as int)
        &&& forall|id: int| 0 <= id < self.locations@.len() ==> #[trigger] self.placed(id)
        &&& forall|k: int, row: int|
            0 <= k < self.archetypes@.len() && 0 <= row < self.archetypes@[k].rows().len()
                ==> #[trigger] self.owned(k, row)
    }

    /// What a well-formed world guarantees to its users: every archetype is
    /// well formed, no two store the same signature, every entity lives in
    /// exactly the row that its location names.
    pub proof fn lemma_wf(&self)
        requires
            self.wf(),
        ensures
            self.len() <= 0x1_0000_0000,
            forall|k: int| 0 <= k < self.archetypes().len()
                ==> (#[trigger] self.archetypes()[k]).wf(),
            forall|a: int, b: int|
                0 <= a < self.archetypes().len() && 0 <= b < self.archetypes().len() && (
                #[trigger] self.archetypes()[a]).ids() == (#[trigger] self.archetypes()[b]).ids()
                    ==> a == b,
            forall|id: int|
                0 <= id < self.len() ==> {
                    let at = #[trigger] self.locations()[id];
                    &&& at.archetype_index < self.archetypes().len()
                    &&& at.entity_index < self.archetypes()[at.archetype_index as int].rows().len()
                    &&& self.archetypes()[at.archetype_index as int].rows()[at.entity_index as int]
                        == id
                },
            forall|k: int, row: int|
                0 <= k < self.archetypes().len() && 0 <= row < self.archetypes()[k].rows().len()
                    ==> {
                    let id = #[trigger] self.archetypes()[k].rows()[row];
                    &&& id < self.len()
                    &&& self.locations()[id as int].archetype_index == k
                    &&& self.locations()[id as int].entity_index == row
                },
    {
        assert forall|id: int| 0 <= id < self.len() implies {
            let at = #[trigger] self.locations()[id];
            &&& at.archetype_index < self.archetypes().len()
            &&& at.entity_index < self.archetypes()[at.archetype_index as int].rows().len()
            &&& self.archetypes()[at.archetype_index as int].rows()[at.entity_index as int] == id
        } by {
            assert(self.placed(id));
        }
        assert forall|k: int, row: int|
            0 <= k < self.archetypes().len() && 0
                <= row < self.archetypes()[k].rows().len() implies {
            let id = #[trigger] self.archetypes()[k].rows()[row];
            &&& id < self.len()
            &&& self.locations()[id as int].archetype_index == k
            &&& self.locations()[id as int].entity_index == row
        } by {
            assert(self.owned(k, row));
        }
    }

    /// A signature has its home in the one archetype that stores it, and
    /// none where no archetype does.
    pub proof fn lemma_home_unique(&self, key: Seq<u64>)
        requires
            self.wf(),
        ensures
            forall|k: int|
                0 <= k < self.groups().len() && (#[trigger] self.groups()[k]).0 == key
                    ==> self.home(key) == Some(k),
            self.home(key) is None ==> forall|k: int|
                0 <= k < self.groups().len() ==> (#[trigger] self.groups()[k]).0 != key,
    {
        self.lemma_wf();
        assert forall|k: int|
            0 <= k < self.groups().len() && (#[trigger] self.groups()[k]).0 == key implies
            self.home(key) == Some(k) by {
            assert(self.stores(key, k));
            let chosen = choose|c: int| self.stores(key, c);
            assert(self.archetypes()[chosen].ids() == self.archetypes()[k].ids());
        }
        if self.home(key) is None {
            assert forall|k: int| 0 <= k < self.groups().len() implies (
            #[trigger] self.groups()[k]).0 != key by {
                if self.groups()[k].0 == key {
                    assert(self.stores(key, k));
                }
            }
        }
    }

    /// The registry and the list of archetypes agree on where a signature
    /// is stored.
    proof fn lemma_home(&self, key: Seq<u64>)
        requires
            self.wf(),
        ensures
            self.index@.contains_key(key) <==> self.home(key) is Some,
            self.home(key) matches Some(k) ==> self.stores(key, k) && self.index@[key] == k,
    {
        if self.index@.contains_key(key) {
            assert(self.stores(key, self.index@[key] as int));
        }
        if exists|k: int| self.stores(key, k) {
            let k = choose|k: int| self.stores(key, k);
            assert(self.index@.contains_key(self.archetypes@[k].ids()));
        }
    }

    /// Whether this world is `before` with the bytes `written` for the
    /// component `ty` of the entity `id`, and nothing else changed.
    pub open spec fn rewrites(&self, before: &World, id: int, ty: u64, written: Seq<u8>) -> bool {
        &&& self.wf()
        &&& self.len() == before.len()
        &&& self@ == before@.update(id, before@[id].insert(ty, written))
        &&& self.groups() == before.groups()
        &&& self.frames() == before.frames()
    }

    /// Whether this world holds what `before` holds, in the same places.
    pub open spec fn unchanged(&self, before: &World) -> bool {
        &&& self.wf()
        &&& self.len() == before.len()
        &&& self@ == before@
        &&& self.groups() == before.groups()
        &&& self.frames() == before.frames()
    }

    /// Whether this world is `before` with other components for the entity
    /// `id`, and nothing else changed.
    pub open spec fn revises(&self, before: &World, id: int) -> bool {
        &&& self.wf()
        &&& self.len() == before.len()
        &&& forall|other: int| 0 <= other < before.len() && other != id
            ==> self@[other] == before@[other]
        &&& self.groups() == before.groups()
        &&& self.frames() == before.frames()
    }

    /// Whether `next` is this world with an edited row in the archetype `k`.
    spec fn patched(&self, next: World, k: int, row: int) -> bool {
        &&& next.locations == self.locations
        &&& next.index == self.index
        &&& next.archetypes@.len() == self.archetypes@.len()
        &&& forall|j: int|
            0 <= j < self.archetypes@.len() && j != k ==> #[trigger] next.archetypes@[j]
                == self.archetypes@[j]
        &&& next.archetypes@[k].edited(&self.archetypes@[k], row)
    }

    /// An edited row leaves the world well formed and every other entity
    /// as it was.
    proof fn lemma_patched(&self, next: World, id: int)
        requires
            self.wf(),
            0 <= id < self.len(),
            self.patched(
                next,
                self.locations@[id].archetype_index as int,
                self.locations@[id].entity_index as int,
            ),
        ensures
            next.revises(self, id),
            next.record(id) == next.archetypes@[self.locations@[id].archetype_index as int].record(
                self.locations@[id].entity_index as int,
            ),
    {
        let k = self.locations@[id].archetype_index as int;
        let row = self.locations@[id].entity_index as int;
        assert(self.placed(id));
        assert forall|j: int| 0 <= j < next.archetypes@.len() implies {
            &&& (#[trigger] next.archetypes@[j]).wf()
            &&& next.archetypes@[j].ids() == self.archetypes@[j].ids()
            &&& next.archetypes@[j].rows() == self.archetypes@[j].rows()
        } by {
            if j != k {
                assert(next.archetypes@[j] == self.archetypes@[j]);
            }
        }
        assert forall|j: int| 0 <= j < next.archetypes@.len() implies {
            &&& next.index@.contains_key((#[trigger] next.archetypes@[j]).ids())
            &&& next.index@[next.archetypes@[j].ids()] == j
        } by {
            assert(self.index@.contains_key(self.archetypes@[j].ids()));
        }
        assert forall|key: Seq<u64>| #[trigger] next.index@.contains_key(key) implies next.stores(
            key,
            next.index@[key] as int,
        ) by {
            assert(self.stores(key, self.index@[key] as int));
        }
        assert forall|other: int| 0 <= other < next.locations@.len() implies #[trigger] next.placed(
            other,
        ) by {
            assert(self.placed(other));
        }
        assert forall|j: int, r: int|
            0 <= j < next.archetypes@.len() && 0 <= r < next.archetypes@[j].rows().len()
                implies #[trigger] next.owned(
            j,
            r,
        ) by {
            assert(self.owned(j, r));
        }
        assert(next.wf());
        assert forall|other: int| 0 <= other < self.len() && other != id implies next@[other]
            == self@[other] by {
            assert(self.placed(other));
            let at = self.locations@[other];
            let a = at.archetype_index as int;
            let r = at.entity_index as int;
            if a != k {
                assert(next.archetypes@[a] == self.archetypes@[a]);
            } else {
                if r == row {
                    assert(self.owned(k, row));
                }
                self.archetypes@[k].lemma_wf();
                assert(next.archetypes@[k].record(r) =~= self.archetypes@[k].record(r));
            }
        }
        assert(next.groups() =~= self.groups());
        assert(next.frames() =~= self.frames());
    }

    /// Whether `next` is this world with the bytes `written` in one cell of
    /// the archetype `k`.
    spec fn patched_cell(&self, next: World, k: int, row: int, ty: u64, written: Seq<u8>) -> bool {
        let before = self.archetypes@[k];
        let after = next.archetypes@[k];
        &&& self.patched(next, k, row)
        &&& after.cell(before.slot(ty), row) == written
        &&& forall|c: int|
            0 <= c < before.types().len() && c != before.slot(ty) ==> #[trigger] after.cell(c, row)
                == before.cell(c, row)
    }

    /// Other bytes in one cell change one component of one entity.
    proof fn lemma_patched_cell(&self, next: World, id: int, ty: u64, written: Seq<u8>)
        requires
            self.wf(),
            0 <= id < self.len(),
            self@[id].contains_key(ty),
            self.patched_cell(
                next,
                self.locations@[id].archetype_index as int,
                self.locations@[id].entity_index as int,
                ty,
                written,
            ),
        ensures
            next.rewrites(self, id, ty, written),
    {
        let k = self.locations@[id].archetype_index as int;
        let row = self.locations@[id].entity_index as int;
        let before = self.archetypes@[k];
        let after = next.archetypes@[k];
        self.lemma_patched(next, id);
        assert(self.placed(id));
        before.lemma_wf();
        assert(after.record(row) =~= before.record(row).insert(ty, written)) by {
            assert forall|other: u64| before.ids().contains(other) && other != ty
                implies after.cell(
                after.slot(other),
                row,
            ) == before.cell(before.slot(other), row) by {
                let c = choose|c: int| 0 <= c < before.ids().len() && before.ids()[c] == other;
                let d = choose|d: int| 0 <= d < before.ids().len() && before.ids()[d] == ty;
                assert(before.slot(before.ids()[c]) == c);
                assert(before.slot(before.ids()[d]) == d);
            }
        }
        assert(next@ =~= self@.update(id, self@[id].insert(ty, written)));
    }

    /// The locations of all rows of the archetype `k`, in row order.
    pub open spec fn rows_of(&self, k: int) -> Seq<Location> {
        Seq::new(
            self.archetypes()[k].rows().len(),
            |row: int| Location { entity_index: row as u32, archetype_index: k as u32 },
        )
    }

    /// What a query for `types` yields from the first `k` archetypes.
    pub open spec fn hits_before(&self, types: Seq<u64>, k: int) -> Seq<Location>
        decreases k,
    {
        if k <= 0 {
            Seq::empty()
        } else if answers(&self.archetypes()[k - 1], types) {
            self.hits_before(types, k - 1) + self.rows_of(k - 1)
        } else {
            self.hits_before(types, k - 1)
        }
    }

    /// What a query for `types` yields: every row of every archetype that
    /// answers it, archetype by archetype in the order of their creation,
    /// and row by row inside each.
    pub open spec fn hits(&self, types: Seq<u64>) -> Seq<Location> {
        self.hits_before(types, self.archetypes().len() as int)
    }

    /// The rows that a query for `types` yields: per row the handle, where
    /// the shape asks for it, and the value of every type asked for, in the
    /// order of the shape.
    pub open spec fn answer(&self, types: Seq<u64>, with_entity: bool) -> Seq<
        (Option<EntityId>, Seq<Seq<u8>>),
    > {
        Seq::new(
            self.hits(types).len(),
            |i: int|
                (
                    if with_entity {
                        Some(self.tenant(self.hits(types)[i]))
                    } else {
                        None
                    },
                    Seq::new(
                        types.len(),
                        |k: int| self@[self.tenant(self.hits(types)[i]) as int][types[k]],
                    ),
                ),
        )
    }

    /// Every row that a query yields is occupied, belongs to an entity of
    /// the world, and holds all the types asked for.
    pub proof fn lemma_hit(&self, types: Seq<u64>, i: int)
        requires
            self.wf(),
            0 <= i < self.hits(types).len(),
        ensures
            self.occupied(self.hits(types)[i]),
            self.tenant(self.hits(types)[i]) < self.len(),
            self.locations()[self.tenant(self.hits(types)[i]) as int] == self.hits(types)[i],
            forall|k: int|
                0 <= k < types.len() ==> self@[self.tenant(
                    self.hits(types)[i],
                ) as int].contains_key(#[trigger] types[k]),
    {
        self.lemma_hits_before(types, self.archetypes().len() as int);
        let at = self.hits(types)[i];
        assert(self.owned(at.archetype_index as int, at.entity_index as int));
    }

    /// Whether `at` names a row that is occupied.
    pub open spec fn occupied(&self, at: Location) -> bool {
        &&& at.archetype_index < self.archetypes().len()
        &&& at.entity_index < self.archetypes()[at.archetype_index as int].rows().len()
    }

    /// The handle of the entity that lives at `at`.
    pub open spec fn tenant(&self, at: Location) -> EntityId {
        self.archetypes()[at.archetype_index as int].rows()[at.entity_index as int]
    }

    /// What the first `k` archetypes yield: only occupied rows of archetypes
    /// that answer the query, all of them, in the order of the query.
    pub proof fn lemma_hits_before(&self, types: Seq<u64>, k: int)
        requires
            self.wf(),
            0 <= k <= self.archetypes().len(),
        ensures
            forall|i: int|
                0 <= i < self.hits_before(types, k).len() ==> {
                    let at = #[trigger] self.hits_before(types, k)[i];
                    &&& at.archetype_index < k
                    &&& self.occupied(at)
                    &&& answers(&self.archetypes()[at.archetype_index as int], types)
                },
            forall|i: int, j: int|
                0 <= i < j < self.hits_before(types, k).len() ==> precedes(
                    #[trigger] self.hits_before(types, k)[i],
                    #[trigger] self.hits_before(types, k)[j],
                ),
            forall|at: Location|
                at.archetype_index < k && self.occupied(at) && answers(
                    &self.archetypes()[at.archetype_index as int],
                    types,
                ) ==> #[trigger] self.hits_before(types, k).contains(at),
        decreases k,
    {
        if k > 0 {
            self.lemma_hits_before(types, k - 1);
            let earlier = self.hits_before(types, k - 1);
            let rows = self.rows_of(k - 1);
            let all = self.hits_before(types, k);
            let count = self.archetypes@[k - 1].rows().len();
            assert(count <= 0x1_0000_0000);
            if answers(&self.archetypes()[k - 1], types) {
                assert(all == earlier + rows);
                assert forall|i: int| 0 <= i < all.len() implies {
                    let at = #[trigger] all[i];
                    &&& at.archetype_index < k
                    &&& self.occupied(at)
                    &&& answers(&self.archetypes()[at.archetype_index as int], types)
                } by {
                    if i >= earlier.len() {
                        assert(all[i] == rows[i - earlier.len()]);
                    } else {
                        assert(all[i] == earlier[i]);
                    }
                }
                assert forall|i: int, j: int| 0 <= i < j < all.len() implies precedes(
                    #[trigger] all[i],
                    #[trigger] all[j],
                ) by {
                    if j < earlier.len() {
                        assert(all[i] == earlier[i] && all[j] == earlier[j]);
                    } else if i < earlier.len() {
                        assert(all[i] == earlier[i]);
                        assert(all[j] == rows[j - earlier.len()]);
                    } else {
                        assert(all[i] == rows[i - earlier.len()]);
                        assert(all[j] == rows[j - earlier.len()]);
                    }
                }
                assert forall|at: Location|
                    at.archetype_index < k && self.occupied(at) && answers(
                        &self.archetypes()[at.archetype_index as int],
                        types,
                    ) implies #[trigger] all.contains(at) by {
                    if at.archetype_index < k - 1 {
                        assert(earlier.contains(at));
                        let i = choose|i: int| 0 <= i < earlier.len() && earlier[i] == at;
                        assert(all[i] == at);
                    } else {
                        assert(rows[at.entity_index as int] == at);
                        assert(all[earlier.len() + at.entity_index] == at);
                    }
                }
            } else {
                assert(all == earlier);
            }
        }
    }

    /// What a query yields depends only on the signatures of the archetypes
    /// and on the number of their rows.
    pub proof fn lemma_hits_groups(&self, other: &World, types: Seq<u64>, k: int)
        requires
            self.groups() == other.groups(),
            0 <= k <= self.archetypes().len(),
        ensures
            self.hits_before(types, k) == other.hits_before(types, k),
        decreases k,
    {
        assert(self.archetypes().len() == self.groups().len());
        assert(other.archetypes().len() == other.groups().len());
        if k > 0 {
            self.lemma_hits_groups(other, types, k - 1);
            assert(self.groups()[k - 1] == other.groups()[k - 1]);
            assert(self.rows_of(k - 1) =~= other.rows_of(k - 1));
        }
    }

    /// The cells that the archetype `k` gives up at teardown, each with the
    /// position of the archetype.
    pub open spec fn archetype_drops(&self, k: int) -> Seq<(int, int, int)> {
        Seq::new(
            self.archetypes()[k].drops().len(),
            |i: int| (k, self.archetypes()[k].drops()[i].0, self.archetypes()[k].drops()[i].1),
        )
    }

    /// The cells that the first `k` archetypes give up at teardown.
    pub open spec fn drops_before(&self, k: int) -> Seq<(int, int, int)>
        decreases k,
    {
        if k <= 0 {
            Seq::empty()
        } else {
            self.drops_before(k - 1) + self.archetype_drops(k - 1)
        }
    }

    /// The cells that are given up at teardown, as archetype, column and
    /// row, in the order in which they are given up.
    pub open spec fn drops(&self) -> Seq<(int, int, int)> {
        self.drops_before(self.archetypes().len() as int)
    }

    /// The component that is given up for the cell `cell`: the handle of its
    /// entity, its descriptor and its bytes.
    pub open spec fn given_up(&self, cell: (int, int, int)) -> (EntityId, TypeInfo, Seq<u8>) {
        self.archetypes()[cell.0].given_up(cell.1, cell.2)
    }

    /// Whether `cell` names an occupied cell of a column whose values have
    /// a size.
    pub open spec fn live(&self, cell: (int, int, int)) -> bool {
        &&& 0 <= cell.0 < self.archetypes().len()
        &&& 0 <= cell.1 < self.archetypes()[cell.0].types().len()
        &&& 0 <= cell.2 < self.archetypes()[cell.0].rows().len()
        &&& self.archetypes()[cell.0].types()[cell.1].size != 0
    }

    /// What the first `k` archetypes give up: only live cells, each of
    /// them, and none twice.
    pub proof fn lemma_drops_before(&self, k: int)
        requires
            0 <= k <= self.archetypes().len(),
        ensures
            forall|i: int|
                0 <= i < self.drops_before(k).len()
                    ==> self.live(#[trigger] self.drops_before(k)[i])
                    && self.drops_before(k)[i].0 < k,
            forall|i: int, j: int|
                0 <= i < j < self.drops_before(k).len() ==> (#[trigger] self.drops_before(k)[i])
                    != (#[trigger] self.drops_before(k)[j]),
            forall|cell: (int, int, int)|
                self.live(cell) && cell.0 < k ==> #[trigger] self.drops_before(k).contains(cell),
        decreases k,
    {
        if k > 0 {
            self.lemma_drops_before(k - 1);
            let archetype = self.archetypes()[k - 1];
            archetype.lemma_drops_before(archetype.types().len() as int);
            let earlier = self.drops_before(k - 1);
            let last = self.archetype_drops(k - 1);
            let all = self.drops_before(k);
            assert(all == earlier + last);
            assert forall|i: int| 0 <= i < all.len() implies self.live(#[trigger] all[i])
                && all[i].0 < k by {
                if i < earlier.len() {
                    assert(all[i] == earlier[i]);
                } else {
                    assert(all[i] == last[i - earlier.len()]);
                    let inner = archetype.drops()[i - earlier.len()];
                    assert(0 <= inner.0 < archetype.types().len());
                }
            }
            assert forall|i: int, j: int| 0 <= i < j < all.len() implies (#[trigger] all[i]) != (
            #[trigger] all[j]) by {
                if j < earlier.len() {
                    assert(all[i] == earlier[i] && all[j] == earlier[j]);
                } else if i < earlier.len() {
                    assert(all[i] == earlier[i]);
                    assert(all[j] == last[j - earlier.len()]);
                } else {
                    assert(all[i] == last[i - earlier.len()]);
                    assert(all[j] == last[j - earlier.len()]);
                    let first = archetype.drops()[i - earlier.len()];
                    let second = archetype.drops()[j - earlier.len()];
                    assert(first.0 < second.0 || (first.0 == second.0 && first.1 < second.1));
                }
            }
            assert forall|cell: (int, int, int)| self.live(cell) && cell.0 < k
                implies #[trigger] all.contains(
                cell,
            ) by {
                if cell.0 < k - 1 {
                    assert(earlier.contains(cell));
                    let i = choose|i: int| 0 <= i < earlier.len() && earlier[i] == cell;
                    assert(all[i] == cell);
                } else {
                    assert(archetype.drops().contains((cell.1, cell.2)));
                    let i = choose|i: int|
                        0 <= i < archetype.drops().len() && archetype.drops()[i] == (
                            cell.1,
                            cell.2,
                        );
                    assert(last[i] == cell);
                    assert(all[earlier.len() + i] == cell);
                }
            }
        }
    }

    /// Teardown destroys every component exactly once: each component with
    /// data of each entity is given up, with the bytes that the world holds
    /// for it; nothing else is given up; and no component is given up twice.
    pub proof fn lemma_teardown_once(&self)
        requires
            self.wf(),
        ensures
            forall|id: int, ty: u64|
                0 <= id < self.len() && self@[id].contains_key(ty) && self@[id][ty].len() > 0
                    ==> exists|i: int|
                    0 <= i < self.drops().len() && (#[trigger] self.given_up(self.drops()[i])).0
                        == id && self.given_up(self.drops()[i]).1.id == ty,
            forall|i: int|
                0 <= i < self.drops().len() ==> {
                    let gone = #[trigger] self.given_up(self.drops()[i]);
                    &&& gone.0 < self.len()
                    &&& self@[gone.0 as int].contains_key(gone.1.id)
                    &&& self@[gone.0 as int][gone.1.id] == gone.2
                    &&& gone.2.len() > 0
                },
            forall|i: int, j: int|
                0 <= i < j < self.drops().len() ==> {
                    let first = #[trigger] self.given_up(self.drops()[i]);
                    let second = #[trigger] self.given_up(self.drops()[j]);
                    first.0 != second.0 || first.1.id != second.1.id
                },
    {
        let all = self.drops();
        self.lemma_drops_before(self.archetypes().len() as int);
        assert forall|id: int, ty: u64|
            0 <= id < self.len() && self@[id].contains_key(ty) && self@[id][ty].len()
                > 0 implies exists|i: int|
            0 <= i < all.len() && (#[trigger] self.given_up(all[i])).0 == id && self.given_up(
                all[i],
            ).1.id == ty by {
            assert(self.placed(id));
            let at = self.locations@[id];
            let k = at.archetype_index as int;
            let row = at.entity_index as int;
            let archetype = self.archetypes@[k];
            archetype.lemma_wf();
            let c = choose|c: int| 0 <= c < archetype.ids().len() && archetype.ids()[c] == ty;
            assert(archetype.slot(archetype.ids()[c]) == c);
            archetype.lemma_cell_len(c, row);
            let cell = (k, c, row);
            assert(self.live(cell));
            assert(all.contains(cell));
            let i = choose|i: int| 0 <= i < all.len() && all[i] == cell;
            assert(self.given_up(all[i]).0 == id);
        }
        assert forall|i: int| 0 <= i < all.len() implies {
            let gone = #[trigger] self.given_up(all[i]);
            &&& gone.0 < self.len()
            &&& self@[gone.0 as int].contains_key(gone.1.id)
            &&& self@[gone.0 as int][gone.1.id] == gone.2
            &&& gone.2.len() > 0
        } by {
            let cell = all[i];
            assert(self.live(cell));
            let archetype = self.archetypes@[cell.0];
            assert(self.owned(cell.0, cell.2));
            archetype.lemma_wf();
            assert(archetype.ids()[cell.1] == archetype.types()[cell.1].id);
            assert(archetype.slot(archetype.ids()[cell.1]) == cell.1);
            archetype.lemma_cell_len(cell.1, cell.2);
        }
        assert forall|i: int, j: int| 0 <= i < j < all.len() implies {
            let first = #[trigger] self.given_up(all[i]);
            let second = #[trigger] self.given_up(all[j]);
            first.0 != second.0 || first.1.id != second.1.id
        } by {
            let a = all[i];
            let b = all[j];
            assert(self.live(a) && self.live(b));
            assert(a != b);
            assert(self.owned(a.0, a.2));
            assert(self.owned(b.0, b.2));
            if self.given_up(a).0 == self.given_up(b).0 {
                assert(a.0 == b.0 && a.2 == b.2);
                let archetype = self.archetypes@[a.0];
                archetype.lemma_wf();
                assert(a.1 != b.1);
                assert(archetype.ids()[a.1] == archetype.types()[a.1].id);
                assert(archetype.ids()[b.1] == archetype.types()[b.1].id);
                if a.1 < b.1 {
                    assert(archetype.ids()[a.1] < archetype.ids()[b.1]);
                } else {
                    assert(archetype.ids()[b.1] < archetype.ids()[a.1]);
                }
            }
        }
    }

    /// Two packs that hold the same component types, in whatever order,
    /// are stored in the same archetype.
    pub proof fn lemma_same_home(
        &self,
        first: Seq<(TypeInfo, Seq<u8>)>,
        second: Seq<(TypeInfo, Seq<u8>)>,
    )
        requires
            group_valid(first),
            group_valid(second),
            forall|info: TypeInfo|
                member_types(first).contains(info) <==> member_types(second).contains(info),
        ensures
            group_ids(first) == group_ids(second),
            self.home(group_ids(first)) == self.home(group_ids(second)),
    {
        lemma_group_ids_canonical(first, second);
    }

    /// An entity holds exactly the components that it was spawned with,
    /// each with the bytes that were written for it, and spawning does not
    /// touch the entities that were there before.
    pub proof fn lemma_spawned(&self, before: &World, members: Seq<(TypeInfo, Seq<u8>)>)
        requires
            group_valid(members),
            self@ == before@.push(group_record(members)),
        ensures
            forall|id: int| 0 <= id < before@.len() ==> self@[id] == before@[id],
            forall|i: int|
                0 <= i < members.len() ==> self@[before@.len() as int].contains_key(
                    (#[trigger] members[i]).0.id,
                ) && self@[before@.len() as int][members[i].0.id] == members[i].1,
            forall|ty: u64|
                !group_has(members, ty) ==> !(#[trigger] self@[before@.len() as int].contains_key(
                    ty,
                )),
    {
        assert forall|i: int| 0 <= i < members.len()
            implies self@[before@.len() as int].contains_key(
            (#[trigger] members[i]).0.id,
        ) && self@[before@.len() as int][members[i].0.id] == members[i].1 by {
            lemma_group_record(members, i);
        }
    }

    /// Whether the entity `id` holds a component of every type in `types`.
    pub open spec fn holds_all(&self, id: int, types: Seq<u64>) -> bool {
        forall|k: int| 0 <= k < types.len() ==> self@[id].contains_key(#[trigger] types[k])
    }

    /// The handle of the entity that the row `i` of a query for `types`
    /// belongs to.
    pub open spec fn found(&self, types: Seq<u64>, i: int) -> EntityId {
        self.tenant(self.hits(types)[i])
    }

    /// A query yields exactly the entities that hold a component of every
    /// type asked for, each of them once, archetype by archetype and row by
    /// row.
    pub proof fn lemma_query_complete(&self, types: Seq<u64>)
        requires
            self.wf(),
        ensures
            forall|i: int|
                0 <= i < self.hits(types).len() ==> (#[trigger] self.found(types, i)) < self.len()
                    && self.holds_all(self.found(types, i) as int, types),
            forall|id: int|
                0 <= id < self.len() && #[trigger] self.holds_all(id, types) ==> exists|i: int|
                    0 <= i < self.hits(types).len() && #[trigger] self.found(types, i) == id,
            forall|i: int, j: int|
                0 <= i < j < self.hits(types).len() ==> precedes(
                    self.hits(types)[i],
                    self.hits(types)[j],
                ) && #[trigger] self.found(types, i) != #[trigger] self.found(types, j),
    {
        let hits = self.hits(types);
        self.lemma_hits_before(types, self.archetypes().len() as int);
        assert forall|i: int| 0 <= i < hits.len() implies (#[trigger] self.found(types, i))
            < self.len() && self.holds_all(self.found(types, i) as int, types) by {
            self.lemma_hit(types, i);
        }
        assert forall|id: int|
            0 <= id < self.len() && #[trigger] self.holds_all(id, types) implies exists|i: int|
            0 <= i < hits.len() && #[trigger] self.found(types, i) == id by {
            assert(self.placed(id));
            let at = self.locations@[id];
            assert forall|k: int| 0 <= k < types.len()
                implies self.archetypes()[at.archetype_index as int].ids().contains(
                #[trigger] types[k],
            ) by {
                assert(self@[id].contains_key(types[k]));
            }
            assert(answers(&self.archetypes()[at.archetype_index as int], types));
            assert(self.occupied(at));
            assert(hits.contains(at));
            let i = choose|i: int| 0 <= i < hits.len() && hits[i] == at;
            assert(self.found(types, i) == id);
        }
        assert forall|i: int, j: int| 0 <= i < j < hits.len() implies precedes(hits[i], hits[j])
            && #[trigger] self.found(types, i) != #[trigger] self.found(types, j) by {
            self.lemma_hit(types, i);
            self.lemma_hit(types, j);
        }
    }

    /// What is written through a mutable access is what the entity holds
    /// afterwards, and no other component in the world has changed.
    pub proof fn lemma_written_seen(&self, before: &World, id: int, ty: u64, written: Seq<u8>)
        requires
            0 <= id < before.len(),
            self.rewrites(before, id, ty, written),
        ensures
            self@[id].contains_key(ty),
            self@[id][ty] == written,
            forall|other: u64|
                other != ty ==> self@[id].contains_key(other) == before@[id].contains_key(other)
                    && self@[id][other] == before@[id][other],
            forall|other: int| 0 <= other < before.len() && other != id
                ==> self@[other] == before@[other],
            forall|types: Seq<u64>| #[trigger] self.hits(types) == before.hits(types),
    {
        assert forall|types: Seq<u64>| #[trigger] self.hits(types) == before.hits(types) by {
            assert(self.archetypes().len() == self.groups().len());
            assert(before.archetypes().len() == before.groups().len());
            self.lemma_hits_groups(before, types, self.archetypes().len() as int);
        }
    }

    /// Constructs a new empty world.
    pub fn new() -> (world: Self)
        ensures
            world.wf(),
            world.len() == 0,
            world.archetypes().len() == 0,
    {
        World { archetypes: Vec::new(), locations: Vec::new(), index: SignatureIndex::new() }
    }

    /// The number of entities spawned so far.
    pub fn count(&self) -> (count: usize)
        ensures
            count == self.len(),
    {
        self.locations.len()
    }

    /// The number of archetypes.
    pub fn archetype_count(&self) -> (count: usize)
        ensures
            count == self.archetypes().len(),
    {
        self.archetypes.len()
    }

    /// The archetype at the position `k`.
    pub fn archetype(&self, k: usize) -> (archetype: &Archetype)
        requires
            k < self.archetypes().len(),
        ensures
            *archetype == self.archetypes()[k as int],
    {
        &self.archetypes[k]
    }

    /// The handle of the entity that lives at the occupied row `at`.
    pub fn entity_at(&self, at: Location) -> (entity: EntityId)
        requires
            self.wf(),
            self.occupied(at),
        ensures
            entity == self.tenant(at),
            entity < self.len(),
            self.locations()[entity as int] == at,
    {
        proof {
            assert(self.owned(at.archetype_index as int, at.entity_index as int));
        }
        self.archetypes[at.archetype_index as usize].entity(at.entity_index as usize)
    }

    /// The rows that a query for `types` yields: every row of every
    /// archetype that holds all the types, archetype by archetype, row by
    /// row.
    pub fn select(&self, types: &[u64]) -> (hits: Vec<Location>)
        requires
            self.wf(),
        ensures
            hits@ == self.hits(types@),
    {
        let mut hits: Vec<Location> = Vec::new();
        let mut k: usize = 0;
        while k < self.archetypes.len()
            invariant
                self.wf(),
                k <= self.archetypes@.len(),
                hits@ == self.hits_before(types@, k as int),
            decreases self.archetypes@.len() - k,
        {
            let archetype = &self.archetypes[k];
            let mut wanted: bool = !archetype.is_empty();
            let mut t: usize = 0;
            while wanted && t < types.len()
                invariant
                    archetype.wf(),
                    t <= types@.len(),
                    archetype.rows().len() > 0 || !wanted,
                    wanted ==> forall|i: int|
                        0 <= i < t ==> archetype.ids().contains(#[trigger] types@[i]),
                    !wanted ==> !answers(archetype, types@),
                decreases types@.len() - t + (if wanted {
                    1int
                } else {
                    0int
                }),
            {
                if !archetype.contains(types[t]) {
                    wanted = false;
                } else {
                    t += 1;
                }
            }
            if wanted {
                let rows: usize = archetype.len();
                let ghost earlier = hits@;
                let mut row: usize = 0;
                while row < rows
                    invariant
                        row <= rows,
                        rows == archetype.rows().len(),
                        rows <= 0x1_0000_0000,
                        k < self.archetypes@.len() <= 0x1_0000_0000,
                        archetype == self.archetypes@[k as int],
                        hits@ == earlier + self.rows_of(k as int).take(row as int),
                    decreases rows - row,
                {
                    hits.push(Location { entity_index: row as u32, archetype_index: k as u32 });
                    assert(hits@ =~= earlier + self.rows_of(k as int).take(row + 1));
                    row += 1;
                }
                assert(self.rows_of(k as int).take(row as int) =~= self.rows_of(k as int));
            }
            k += 1;
        }
        hits
    }

    /// Whether the pack can be spawned into this world: it is a valid pack,
    /// a handle is left for its entity, and its archetype can take it.
    pub fn admits<S: ComponentSet>(&self, set: &S) -> (admitted: bool)
        requires
            self.wf(),
        ensures
            admitted == (group_valid(set.members()) && self.can_spawn(set.members())),
    {
        if !set.is_valid() {
            return false;
        }
        if self.locations.len() > u32::MAX as usize {
            return false;
        }
        proof {
            self.lemma_home(group_ids(set.members()));
        }
        match set.get_index(&self.index) {
            Some(k) => {
                let infos = set.component_infos();
                same_types(self.archetypes[k].component_types(), infos.as_slice())
                    && self.archetypes[k].fits(1)
            },
            None => {
                let parts = set.parts();
                let limit: usize = isize::MAX as usize;
                let mut i: usize = 0;
                while i < parts.len()
                    invariant
                        i <= parts@.len(),
                        limit == max_bytes(),
                        group_valid(set.members()),
                        self.len() <= u32::MAX,
                        self.home(group_ids(set.members())) is None,
                        parts@.len() == set.members().len(),
                        forall|k: int|
                            0 <= k < parts@.len() ==> (#[trigger] parts@[k]).0
                                == set.members()[k].0,
                        forall|k: int|
                            0 <= k < i ==> (#[trigger] set.members()[k]).0.size <= max_bytes(),
                    decreases parts@.len() - i,
                {
                    if parts[i].0.size > limit {
                        assert(set.members()[i as int].0.size > max_bytes());
                        return false;
                    }
                    i += 1;
                }
                true
            },
        }
    }

    /// Spawns an entity with the given components where the world admits
    /// the pack, and returns its handle; else returns `None` and leaves the
    /// world as it is.
    pub fn try_spawn<S: ComponentSet>(&mut self, set: S) -> (entity: Option<EntityId>)
        requires
            old(self).wf(),
        ensures
            entity is Some <==> group_valid(set.members()) && old(self).can_spawn(set.members()),
            entity is None ==> *final(self) == *old(self),
            entity matches Some(id) ==> {
                &&& final(self).wf()
                &&& id == old(self).len()
                &&& final(self).len() == old(self).len() + 1
                &&& final(self)@ == old(self)@.push(group_record(set.members()))
                &&& final(self).locations() == old(self).locations().push(
                    match old(self).home(group_ids(set.members())) {
                        Some(k) => (Location {
                            entity_index: old(self).archetypes()[k].rows().len() as u32,
                            archetype_index: k as u32,
                        }),
                        None => (Location {
                            entity_index: 0,
                            archetype_index: old(self).archetypes().len() as u32,
                        }),
                    },
                )
                &&& final(self).groups() == (match old(self).home(group_ids(set.members())) {
                    Some(k) => old(self).groups().update(
                        k,
                        (group_ids(set.members()), old(self).groups()[k].1.push(id)),
                    ),
                    None => old(self).groups().push((group_ids(set.members()), seq![id])),
                })
                &&& final(self).archetype_of(id as int).types() == signature_of(
                    member_types(set.members()),
                )
                &&& final(self).archetype_of(id as int).cap() == (match old(self).home(
                    group_ids(set.members()),
                ) {
                    Some(k) => grown(
                        old(self).archetypes()[k].cap(),
                        old(self).archetypes()[k].rows().len(),
                        1,
                    ),
                    None => grown(0, 0, 1),
                })
                &&& forall|j: int|
                    0 <= j < old(self).archetypes().len() && j
                        != final(self).locations()[id as int].archetype_index
                        ==> #[trigger] final(self).archetypes()[j] == old(self).archetypes()[j]
            },
    {
        if self.admits(&set) {
            Some(self.spawn(set))
        } else {
            None
        }
    }

    /// Spawns an entity with the given components and returns its handle:
    /// the number of entities spawned before. The components are stored in
    /// the archetype of the group's signature, which is created at the first
    /// spawn of that signature. That archetype makes room for the one new
    /// row and no more; every other archetype stays as it is.
    pub fn spawn<S: ComponentSet>(&mut self, set: S) -> (entity: EntityId)
        requires
            old(self).wf(),
            group_valid(set.members()),
            old(self).can_spawn(set.members()),
        ensures
            final(self).wf(),
            entity == old(self).len(),
            final(self).len() == old(self).len() + 1,
            final(self)@ == old(self)@.push(group_record(set.members())),
            final(self).locations() == old(self).locations().push(
                match old(self).home(group_ids(set.members())) {
                    Some(k) => (Location {
                        entity_index: old(self).archetypes()[k].rows().len() as u32,
                        archetype_index: k as u32,
                    }),
                    None => (Location {
                        entity_index: 0,
                        archetype_index: old(self).archetypes().len() as u32,
                    }),
                },
            ),
            final(self).groups() == (match old(self).home(group_ids(set.members())) {
                Some(k) => old(self).groups().update(
                    k,
                    (group_ids(set.members()), old(self).groups()[k].1.push(entity)),
                ),
                None => old(self).groups().push((group_ids(set.members()), seq![entity])),
            }),
            final(self).archetype_of(entity as int).types() == signature_of(
                member_types(set.members()),
            ),
            final(self).archetype_of(entity as int).cap() == (match old(self).home(
                group_ids(set.members()),
            ) {
                Some(k) => grown(
                    old(self).archetypes()[k].cap(),
                    old(self).archetypes()[k].rows().len(),
                    1,
                ),
                None => grown(0, 0, 1),
            }),
            forall|j: int|
                0 <= j < old(self).archetypes().len() && j
                    != final(self).locations()[entity as int].archetype_index
                    ==> #[trigger] final(self).archetypes()[j] == old(self).archetypes()[j],
    {
        let ghost members = set.members();
        let ghost key = group_ids(members);
        proof {
            lemma_signature_of(member_types(members));
            self.lemma_home(key);
        }
        let entity: EntityId = self.locations.len() as EntityId;
        let found = set.get_index(&self.index);
        let archetype_index: usize = match found {
            Some(index) => index,
            None => {
                let archetype = set.make_archetype();
                let index: usize = self.archetypes.len();
                let ids = set.component_ids();
                self.index.insert(ids, index);
                self.archetypes.push(archetype);
                index
            },
        };
        let ghost staged = *self;
        proof {
            let target = self.archetypes@[archetype_index as int];
            assert(target.wf());
            assert(target.types() == signature_of(member_types(members)));
            assert(target.can_reserve(1)) by {
                if found is None {
                    assert forall|c: int| 0 <= c < target.types().len() implies 1 * (
                    #[trigger] target.types()[c]).size <= max_bytes() by {
                        let types = member_types(members);
                        assert(types.contains(target.types()[c]));
                        let i = choose|i: int| 0 <= i < types.len() && types[i]
                            == target.types()[c];
                        assert(members[i].0.size <= max_bytes());
                    }
                }
            }
        }
        let entity_index: usize = self.archetypes[archetype_index].len();
        let location = Location {
            entity_index: entity_index as u32,
            archetype_index: archetype_index as u32,
        };
        self.locations.push(location);
        set.write_archetype(&mut self.archetypes[archetype_index]);
        self.archetypes[archetype_index].push_entity(entity);
        proof {
            let target = self.archetypes@[archetype_index as int];
            assert forall|k: int| 0 <= k < self.archetypes@.len() implies {
                &&& self.index@.contains_key((#[trigger] self.archetypes@[k]).ids())
                &&& self.index@[self.archetypes@[k].ids()] == k
            } by {
                if k != archetype_index {
                    assert(self.archetypes@[k] == staged.archetypes@[k]);
                    if found is None {
                        assert(staged.archetypes@[k] == old(self).archetypes@[k]);
                        if old(self).archetypes@[k].ids() == key {
                            assert(old(self).stores(key, k));
                        }
                    }
                }
            }
            assert forall|other: Seq<u64>| #[trigger] self.index@.contains_key(other) implies
                self.stores(other, self.index@[other] as int) by {
                if !(found is None && other == key) {
                    assert(old(self).index@.contains_key(other));
                    assert(old(self).stores(other, old(self).index@[other] as int));
                    let k = old(self).index@[other] as int;
                    if k != archetype_index {
                        assert(self.archetypes@[k] == old(self).archetypes@[k]);
                    }
                }
            }
            assert forall|id: int| 0 <= id < self.locations@.len() implies
                #[trigger] self.placed(id) by {
                if id < old(self).locations@.len() {
                    assert(old(self).placed(id));
                    let at = old(self).locations@[id];
                    if at.archetype_index != archetype_index {
                        assert(self.archetypes@[at.archetype_index as int]
                            == old(self).archetypes@[at.archetype_index as int]);
                    }
                }
            }
            assert forall|k: int, row: int|
                0 <= k < self.archetypes@.len() && 0 <= row < self.archetypes@[k].rows().len()
                implies #[trigger] self.owned(k, row) by {
                if k != archetype_index {
                    assert(self.archetypes@[k] == old(self).archetypes@[k]);
                    assert(old(self).owned(k, row));
                } else if row < entity_index {
                    assert(old(self).owned(k, row));
                }
            }
            assert(self.wf());
            assert forall|id: int| 0 <= id < old(self).len()
                implies self.record(id) == old(self).record(id) by {
                assert(old(self).placed(id));
                let at = old(self).locations@[id];
                let a = at.archetype_index as int;
                if a != archetype_index {
                    assert(self.archetypes@[a] == old(self).archetypes@[a]);
                } else {
                    assert(self.archetypes@[a].record(at.entity_index as int)
                        =~= old(self).archetypes@[a].record(at.entity_index as int));
                }
            }
            assert(self.record(entity as int) == group_record(members)) by {
                lemma_record_written(&target, members, entity_index as int);
            }
            assert(self@ =~= old(self)@.push(group_record(members)));
            match old(self).home(key) {
                Some(k) => {
                    assert(self.groups() =~= old(self).groups().update(
                        k,
                        (key, old(self).groups()[k].1.push(entity)),
                    ));
                },
                None => {
                    assert(target.rows() =~= seq![entity]);
                    assert(self.groups() =~= old(self).groups().push((key, seq![entity])));
                },
            }
        }
        entity
    }

    /// Destroys the world: releases the storage of every archetype and
    /// hands every component with data to the caller, exactly once,
    /// archetype by archetype in the order of their creation.
    pub fn teardown(self) -> (dropped: Vec<Dropped>)
        requires
            self.wf(),
        ensures
            dropped@.len() == self.drops().len(),
            forall|i: int|
                0 <= i < dropped@.len() ==> (#[trigger] dropped@[i])@ == self.given_up(
                    self.drops()[i],
                ),
    {
        let mut archetypes = self.archetypes;
        let mut dropped: Vec<Dropped> = Vec::new();
        let mut k: usize = 0;
        while k < archetypes.len()
            invariant
                self.wf(),
                k <= archetypes@.len(),
                archetypes@.len() == self.archetypes@.len(),
                forall|j: int|
                    k <= j < archetypes@.len() ==> #[trigger] archetypes@[j] == self.archetypes@[j],
                dropped@.len() == self.drops_before(k as int).len(),
                forall|i: int|
                    0 <= i < dropped@.len() ==> (#[trigger] dropped@[i])@ == self.given_up(
                        self.drops_before(k as int)[i],
                    ),
            decreases archetypes@.len() - k,
        {
            let ghost earlier = self.drops_before(k as int);
            let ghost before = dropped@;
            assert(archetypes@[k as int] == self.archetypes@[k as int]);
            let mut part = archetypes[k].teardown();
            let ghost given = part@;
            dropped.append(&mut part);
            proof {
                let last = self.archetype_drops(k as int);
                let all = self.drops_before(k + 1);
                assert(all == earlier + last);
                assert forall|i: int| 0 <= i < dropped@.len() implies (#[trigger] dropped@[i])@
                    == self.given_up(all[i]) by {
                    if i < earlier.len() {
                        assert(dropped@[i] == before[i]);
                        assert(all[i] == earlier[i]);
                    } else {
                        assert(dropped@[i] == given[i - earlier.len()]);
                        assert(all[i] == last[i - earlier.len()]);
                    }
                }
            }
            k += 1;
        }
        dropped
    }

    /// Creates an immutable query into the world: the rows of all entities
    /// that hold every component type of the shape, archetype by archetype
    /// and row by row.
    pub fn query<'w, Q: Query>(&'w self, shape: &Q) -> (rows: Rows<'w>)
        requires
            self.wf(),
        ensures
            rows.wf(),
            rows.world() == self,
            rows.types() == shape.types(),
            rows@ == self.answer(shape.types(), shape.with_entity()),
    {
        shape.query(self)
    }

    /// Creates a mutable query into the world: the rows of all entities that
    /// hold every component type of the shape, for reading and, where the
    /// shape says so, for writing. The world holds afterwards what the rows
    /// held last.
    pub fn query_mut<'w, Q: QueryMut>(&'w mut self, shape: &Q) -> (rows: RowsMut<'w>)
        requires
            old(self).wf(),
        ensures
            rows.wf(),
            *rows.world == *old(self),
            *final(self) == *final(rows.world),
            rows.types() == shape.targets(),
            rows.exclusive() == shape.writable(),
            rows.with_entity() == shape.wants_entity(),
            rows@ == old(self).answer(shape.targets(), shape.wants_entity()),
    {
        shape.query_mut(self)
    }

    /// Converts a handle into a cursor on the entity's row, from which
    /// components are read without looking the location up again.
    pub fn entity(&self, id: EntityId) -> (handle: EntityHandle<'_>)
        requires
            self.wf(),
            id < self.len(),
        ensures
            handle.wf(),
            handle.entity() == id,
            handle@ == self@[id as int],
    {
        proof {
            assert(self.placed(id as int));
        }
        let location = self.locations[id as usize];
        EntityHandle {
            id,
            entity_index: location.entity_index,
            archetype: &self.archetypes[location.archetype_index as usize],
        }
    }

    /// The component of type `ty` of the entity `id`, or `None` where the
    /// entity has no such component.
    pub fn get(&self, id: EntityId, ty: u64) -> (value: Option<&[u8]>)
        requires
            self.wf(),
            id < self.len(),
        ensures
            value is Some <==> self@[id as int].contains_key(ty),
            value matches Some(bytes) ==> bytes@ == self@[id as int][ty],
    {
        self.entity(id).get(ty)
    }

    /// The component of type `ty` of the entity `id` for writing, or `None`
    /// where the entity has no such component. What is written becomes the
    /// component; every other component in the world stays as it is.
    pub fn get_mut(&mut self, id: EntityId, ty: u64) -> (value: Option<&mut [u8]>)
        requires
            old(self).wf(),
            id < old(self).len(),
        ensures
            value is Some <==> old(self)@[id as int].contains_key(ty),
            value is None ==> final(self).unchanged(old(self)),
            value matches Some(bytes) ==> bytes@ == old(self)@[id as int][ty],
            value matches Some(bytes) ==> (final(bytes)@.len() == bytes@.len()
                ==> final(self).rewrites(old(self), id as int, ty, final(bytes)@)),
    {
        proof {
            assert(self.placed(id as int));
        }
        let location = self.locations[id as usize];
        proof {
            let k = location.archetype_index as int;
            let row = location.entity_index as int;
            self.archetypes@[k].lemma_wf();
            assert forall|next: World, written: Seq<u8>|
                self@[id as int].contains_key(ty) && self.patched_cell(
                    next,
                    k,
                    row,
                    ty,
                    written,
                ) implies #[trigger] next.rewrites(self, id as int, ty, written) by {
                self.lemma_patched_cell(next, id as int, ty, written);
            }
            assert forall|next: World|
                self.patched(next, k, row) && next.archetypes@[k]
                    == self.archetypes@[k] implies #[trigger] next.unchanged(self) by {
                self.lemma_patched(next, id as int);
                assert(next@ =~= self@);
            }
        }
        self.archetypes[location.archetype_index as usize].get_mut(
            location.entity_index as usize,
            ty,
        )
    }

    /// Replaces the component of type `ty` of the entity `id` by `bytes`.
    /// Returns whether it did: the entity has such a component, and `bytes`
    /// is exactly one value of it. Else the world stays as it is.
    pub fn set(&mut self, id: EntityId, ty: u64, bytes: &[u8]) -> (done: bool)
        requires
            old(self).wf(),
            id < old(self).len(),
        ensures
            done <==> old(self)@[id as int].contains_key(ty) && old(self)@[id as int][ty].len()
                == bytes@.len(),
            done ==> final(self).rewrites(old(self), id as int, ty, bytes@),
            !done ==> final(self).unchanged(old(self)),
    {
        proof {
            let kept = self@[id as int][ty];
            assert forall|next: World|
                self@[id as int].contains_key(ty) && next.rewrites(self, id as int, ty, kept)
                implies #[trigger] next.unchanged(self) by {
                assert(self@[id as int].insert(ty, kept) =~= self@[id as int]);
                assert(next@ =~= self@);
            }
        }
        match self.get_mut(id, ty) {
            None => false,
            Some(place) => {
                if place.len() != bytes.len() {
                    return false;
                }
                let mut k: usize = 0;
                while k < bytes.len()
                    invariant
                        k <= bytes@.len(),
                        place@.len() == bytes@.len(),
                        forall|x: int| 0 <= x < k ==> place@[x] == bytes@[x],
                    decreases bytes@.len() - k,
                {
                    place[k] = bytes[k];
                    k += 1;
                }
                assert(place@ =~= bytes@);
                true
            },
        }
    }

    /// Converts a handle into a cursor on the entity's row, through which
    /// components are read and written without looking the location up
    /// again. When the cursor is given up, the world holds what the cursor
    /// held last.
    pub fn entity_mut(&mut self, id: EntityId) -> (handle: EntityHandleMut<'_>)
        requires
            old(self).wf(),
            id < old(self).len(),
        ensures
            handle.wf(),
            handle.entity() == id,
            handle@ == old(self)@[id as int],
            final(handle.archetype).edited(handle.archetype, handle.entity_index as int) ==> {
                &&& final(self).revises(old(self), id as int)
                &&& final(self)@[id as int] == final(handle.archetype).record(
                    handle.entity_index as int,
                )
            },
    {
        proof {
            assert(self.placed(id as int));
        }
        let location = self.locations[id as usize];
        proof {
            let k = location.archetype_index as int;
            let row = location.entity_index as int;
            assert forall|next: World| self.patched(next, k, row) implies #[trigger] next.revises(
                self,
                id as int,
            ) && next.record(id as int) == next.archetypes@[k].record(row) by {
                self.lemma_patched(next, id as int);
            }
        }
        EntityHandleMut {
            id,
            entity_index: location.entity_index,
            archetype: &mut self.archetypes[location.archetype_index as usize],
        }
    }
}

/// A shared cursor on the row of one entity.
#[derive(Clone, Copy)]
pub struct EntityHandle<'w> {
    id: EntityId,
    entity_index: u32,
    archetype: &'w Archetype,
}

impl<'w> View for EntityHandle<'w> {
    type V = Map<u64, Seq<u8>>;

    /// The components of the entity, by type.
    closed spec fn view(&self) -> Map<u64, Seq<u8>> {
        self.archetype.record(self.entity_index as int)
    }
}

impl<'w> EntityHandle<'w> {
    /// The handle of the entity.
    pub closed spec fn entity(&self) -> EntityId {
        self.id
    }

    /// Whether the cursor stands on the row of its entity.
    pub closed spec fn wf(&self) -> bool {
        &&& self.archetype.wf()
        &&& self.entity_index < self.archetype.rows().len()
        &&& self.archetype.rows()[self.entity_index as int] == self.id
    }

    /// The component of type `ty`, or `None` where the entity has no such
    /// component.
    pub fn get(&self, ty: u64) -> (value: Option<&'w [u8]>)
        requires
            self.wf(),
        ensures
            value is Some <==> self@.contains_key(ty),
            value matches Some(bytes) ==> bytes@ == self@[ty],
    {
        self.archetype.get(self.entity_index as usize, ty)
    }

    /// Get the entity id.
    pub fn id(&self) -> (id: EntityId)
        ensures
            id == self.entity(),
    {
        self.id
    }
}

/// An exclusive cursor on the row of one entity.
pub struct EntityHandleMut<'w> {
    /// The handle of the entity.
    pub id: EntityId,
    /// The row of the entity inside its archetype.
    pub entity_index: u32,
    /// The archetype that stores the entity.
    pub archetype: &'w mut Archetype,
}

impl<'w> View for EntityHandleMut<'w> {
    type V = Map<u64, Seq<u8>>;

    /// The components of the entity, by type.
    open spec fn view(&self) -> Map<u64, Seq<u8>> {
        self.archetype.record(self.entity_index as int)
    }
}

impl<'w> EntityHandleMut<'w> {
    /// The handle of the entity.
    pub open spec fn entity(&self) -> EntityId {
        self.id
    }

    /// Whether the cursor stands on the row of its entity.
    pub open spec fn wf(&self) -> bool {
        &&& self.archetype.wf()
        &&& self.entity_index < self.archetype.rows().len()
        &&& self.archetype.rows()[self.entity_index as int] == self.id
    }

    /// Whether this cursor is `before` after the bytes `written` became the
    /// component `ty`: it stands on the same row, and no other component in
    /// the archetype changed.
    pub open spec fn rewrites(&self, before: &Self, ty: u64, written: Seq<u8>) -> bool {
        &&& self.wf()
        &&& self.id == before.id
        &&& self.entity_index == before.entity_index
        &&& self@ == before@.insert(ty, written)
        &&& self.archetype.edited(before.archetype, before.entity_index as int)
    }

    /// The component of type `ty` for writing, or `None` where the entity
    /// has no such component. What is written becomes the component.
    pub fn get(&mut self, ty: u64) -> (value: Option<&mut [u8]>)
        requires
            old(self).wf(),
        ensures
            value is Some <==> old(self)@.contains_key(ty),
            *final(final(self).archetype) == *final(old(self).archetype),
            final(self).id == old(self).id,
            final(self).entity_index == old(self).entity_index,
            value is None ==> *final(self).archetype == *old(self).archetype,
            value matches Some(bytes) ==> bytes@ == old(self)@[ty],
            value matches Some(bytes) ==> (final(bytes)@.len() == bytes@.len()
                ==> final(self).rewrites(old(self), ty, final(bytes)@)),
    {
        proof {
            self.archetype.lemma_wf();
            let row = self.entity_index as int;
            let before = *self.archetype;
            assert forall|next: EntityHandleMut<'w>, written: Seq<u8>|
                before.ids().contains(ty) && next.id == self.id && next.entity_index
                    == self.entity_index && next.archetype.edited(&before, row)
                    && next.archetype.cell(before.slot(ty), row) == written && (forall|c: int|
                    0 <= c < before.types().len() && c != before.slot(ty)
                        ==> #[trigger] next.archetype.cell(c, row) == before.cell(
                        c,
                        row,
                    )) implies #[trigger] next.rewrites(self, ty, written) by {
                assert(next@ =~= self@.insert(ty, written)) by {
                    assert forall|other: u64|
                        before.ids().contains(other) && other != ty implies next.archetype.cell(
                        next.archetype.slot(other),
                        row,
                    ) == before.cell(before.slot(other), row) by {
                        let c = choose|c: int|
                            0 <= c < before.ids().len() && before.ids()[c] == other;
                        let d = choose|d: int| 0 <= d < before.ids().len() && before.ids()[d] == ty;
                        assert(before.slot(before.ids()[c]) == c);
                        assert(before.slot(before.ids()[d]) == d);
                    }
                }
            }
        }
        self.archetype.get_mut(self.entity_index as usize, ty)
    }

    /// Get the entity id.
    pub fn id(&self) -> (id: EntityId)
        ensures
            id == self.entity(),
    {
        self.id
    }
}

} // verus!
