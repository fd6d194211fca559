//! Columnar storage for all entities that share one signature.

use crate::signature::{ascending, ids_of, lemma_ascending_index_of};
use crate::type_info::TypeInfo;
use crate::EntityId;
use std::collections::HashMap;
use vstd::prelude::*;

verus! {

/// The largest number of bytes that one column buffer may hold.
pub open spec fn max_bytes() -> int {
    isize::MAX as int
}

/// The capacity that a reservation of `additional` rows leaves behind: the
/// old one where its slack suffices, else one grown by at least half.
pub open spec fn grown(capacity: nat, rows: nat, additional: nat) -> nat {
    if capacity - rows >= additional {
        capacity
    } else if additional >= capacity / 2 + 1 {
        capacity + additional
    } else {
        capacity + capacity / 2 + 1
    }
}

/// The bytes of one row lie inside the storage of its column.
proof fn lemma_row_bounds(row: int, capacity: int, size: int)
    by (nonlinear_arith)
    requires
        0 <= row < capacity,
        0 <= size,
    ensures
        0 <= row * size,
        row * size + size <= capacity * size,
{
}

/// A range inside a kept prefix reads the same before and after.
proof fn lemma_prefix_subrange(after: Seq<u8>, before: Seq<u8>, from: int, to: int)
    requires
        before.len() <= after.len(),
        after.subrange(0, before.len() as int) == before,
        0 <= from <= to <= before.len(),
    ensures
        after.subrange(from, to) == before.subrange(from, to),
{
    assert(after.subrange(from, to) =~= after.subrange(0, before.len() as int).subrange(from, to));
}

/// The bytes of two different rows of one column do not overlap.
proof fn lemma_rows_disjoint(first: int, second: int, size: int)
    by (nonlinear_arith)
    requires
        0 <= first < second,
        0 <= size,
    ensures
        first * size + size <= second * size,
{
}

/// Overwrites the bytes of `buffer` from `at` on with `bytes`.
fn copy_into(buffer: &mut Vec<u8>, at: usize, bytes: &[u8])
    requires
        at + bytes@.len() <= old(buffer)@.len(),
    ensures
        final(buffer)@ == old(buffer)@.subrange(0, at as int) + bytes@ + old(buffer)@.subrange(
            at + bytes@.len(),
            old(buffer)@.len() as int,
        ),
{
    let length: usize = buffer.len();
    let mut k: usize = 0;
    while k < bytes.len()
        invariant
            k <= bytes@.len(),
            at + bytes@.len() <= buffer@.len(),
            buffer@.len() == length,
            buffer@.len() == old(buffer)@.len(),
            forall|x: int| 0 <= x < at ==> buffer@[x] == old(buffer)@[x],
            forall|x: int| at <= x < at + k ==> buffer@[x] == bytes@[x - at],
            forall|x: int| at + k <= x < buffer@.len() ==> buffer@[x] == old(buffer)@[x],
        decreases bytes@.len() - k,
    {
        buffer[at + k] = bytes[k];
        k += 1;
    }
    assert(buffer@ =~= old(buffer)@.subrange(0, at as int) + bytes@ + old(buffer)@.subrange(
        at + bytes@.len(),
        old(buffer)@.len() as int,
    ));
}

/// The bytes of `buffer` from `from` up to `to`, for writing.
fn slice_mut(buffer: &mut Vec<u8>, from: usize, to: usize) -> (bytes: &mut [u8])
    requires
        from <= to <= old(buffer)@.len(),
    ensures
        bytes@ == old(buffer)@.subrange(from as int, to as int),
        final(buffer)@ == old(buffer)@.subrange(0, from as int) + final(bytes)@
            + old(buffer)@.subrange(to as int, old(buffer)@.len() as int),
{
    let whole = buffer.as_mut_slice();
    let (_head, rest) = whole.split_at_mut(from);
    let (bytes, _tail) = rest.split_at_mut(to - from);
    bytes
}

/// A component that its storage has given up, for the caller to destroy.
#[derive(Debug)]
pub struct Dropped {
    /// The handle of the entity that held the component.
    pub entity: EntityId,
    /// The descriptor of the component's type.
    pub info: TypeInfo,
    /// The bytes of the component.
    pub bytes: Vec<u8>,
}

impl View for Dropped {
    type V = (EntityId, TypeInfo, Seq<u8>);

    open spec fn view(&self) -> (EntityId, TypeInfo, Seq<u8>) {
        (self.entity, self.info, self.bytes@)
    }
}

/// A group of components that are used together in entities: one column of
/// raw bytes per component type, and the handle that owns each row.
#[derive(Debug)]
pub struct Archetype {
    index: HashMap<u64, usize>,
    component_types: Vec<TypeInfo>,
    components: Vec<Vec<u8>>,
    capacity: usize,
    entities: Vec<EntityId>,
}

impl Archetype {
    /// The descriptors of the columns, in column order.
    pub closed spec fn types(&self) -> Seq<TypeInfo> {
        self.component_types@
    }

    /// The signature: the identities of the columns, in column order.
    pub open spec fn ids(&self) -> Seq<u64> {
        ids_of(self.types())
    }

    /// The handles that own the occupied rows, in row order.
    pub closed spec fn rows(&self) -> Seq<EntityId> {
        self.entities@
    }

    /// The number of rows for which storage is allocated.
    pub closed spec fn cap(&self) -> nat {
        self.capacity as nat
    }

    /// The bytes of the value at `row` of `column`.
    pub closed spec fn cell(&self, column: int, row: int) -> Seq<u8> {
        let size = self.component_types@[column].size as int;
        self.components@[column]@.subrange(row * size, row * size + size)
    }

    /// The column that holds the components of type `ty`.
    pub open spec fn slot(&self, ty: u64) -> int {
        self.ids().index_of(ty)
    }

    /// The components of the entity at `row`, by type.
    pub open spec fn record(&self, row: int) -> Map<u64, Seq<u8>> {
        Map::new(|ty: u64| self.ids().contains(ty), |ty: u64| self.cell(self.slot(ty), row))
    }

    /// Whether this storage is `before` with other bytes in the row `row`
    /// and nothing else changed.
    pub open spec fn edited(&self, before: &Archetype, row: int) -> bool {
        &&& self.wf()
        &&& self.types() == before.types()
        &&& self.rows() == before.rows()
        &&& self.cap() == before.cap()
        &&& forall|c: int, r: int|
            0 <= c < before.types().len() && 0 <= r < before.cap() && r != row
                ==> #[trigger] self.cell(c, r) == before.cell(c, r)
    }

    /// The component at `row` of `column` as it is given up at teardown.
    pub open spec fn given_up(&self, column: int, row: int) -> (EntityId, TypeInfo, Seq<u8>) {
        (self.rows()[row], self.types()[column], self.cell(column, row))
    }

    /// The cells that one column gives up at teardown: every occupied row
    /// in row order, or nothing where the values have no size and the
    /// column no storage.
    pub open spec fn column_drops(&self, column: int) -> Seq<(int, int)> {
        if self.types()[column].size == 0 {
            Seq::empty()
        } else {
            Seq::new(self.rows().len(), |row: int| (column, row))
        }
    }

    /// The cells that the first `columns` columns give up at teardown.
    pub open spec fn drops_before(&self, columns: int) -> Seq<(int, int)>
        decreases columns,
    {
        if columns <= 0 {
            Seq::empty()
        } else {
            self.drops_before(columns - 1) + self.column_drops(columns - 1)
        }
    }

    /// The cells that are given up at teardown, in the order in which they
    /// are: column by column, row by row.
    pub open spec fn drops(&self) -> Seq<(int, int)> {
        self.drops_before(self.types().len() as int)
    }

    /// The invariant of the storage: columns follow the strictly ascending
    /// signature, share one capacity, and hold no more rows than that.
    pub closed spec fn wf(&self) -> bool {
        &&& ascending(ids_of(self.component_types@))
        &&& self.components@.len() == self.component_types@.len()
        &&& forall|c: int|
            0 <= c < self.component_types@.len() ==> {
                &&& self.index@.contains_key(#[trigger] self.component_types@[c].id)
                &&& self.index@[self.component_types@[c].id] == c
            }
        &&& forall|ty: u64| #[trigger]
            self.index@.contains_key(ty) ==> {
                &&& self.index@[ty] < self.component_types@.len()
                &&& self.component_types@[self.index@[ty] as int].id == ty
            }
        &&& self.entities@.len() <= self.capacity
        &&& forall|c: int|
            0 <= c < self.component_types@.len() ==> (#[trigger] self.components@[c])@.len()
                == self.capacity * self.component_types@[c].size && self.components@[c]@.len()
                <= max_bytes()
    }

    /// The number of bytes that the column `column` has storage for.
    pub closed spec fn storage(&self, column: int) -> nat {
        self.components@[column]@.len()
    }

    /// Whether `additional` more rows can be reserved: the capacity that
    /// this takes is a number of rows, and no column outgrows what one
    /// buffer may hold.
    pub open spec fn can_reserve(&self, additional: nat) -> bool {
        let next = grown(self.cap(), self.rows().len(), additional);
        &&& next <= usize::MAX
        &&& forall|c: int|
            0 <= c < self.types().len() ==> next * (#[trigger] self.types()[c]).size <= max_bytes()
    }

    /// Whether `next` is this storage with other bytes in one cell.
    spec fn patched(&self, next: Archetype, column: int, row: int) -> bool {
        let size = self.component_types@[column].size as int;
        let before = self.components@[column]@;
        let after = next.components@[column]@;
        &&& next.index == self.index
        &&& next.component_types == self.component_types
        &&& next.capacity == self.capacity
        &&& next.entities == self.entities
        &&& next.components@.len() == self.components@.len()
        &&& forall|c: int|
            0 <= c < self.components@.len() && c != column ==> #[trigger] next.components@[c]
                == self.components@[c]
        &&& after.len() == before.len()
        &&& forall|x: int|
            0 <= x < before.len() && !(row * size <= x < row * size + size) ==> #[trigger] after[x]
                == before[x]
    }

    /// Other bytes in one cell leave the storage well formed and every
    /// other cell as it was.
    proof fn lemma_patched(&self, next: Archetype, column: int, row: int)
        requires
            self.wf(),
            0 <= column < self.types().len(),
            0 <= row < self.cap(),
            self.patched(next, column, row),
        ensures
            next.wf(),
            next.types() == self.types(),
            next.rows() == self.rows(),
            next.cap() == self.cap(),
            forall|c: int, r: int|
                0 <= c < self.types().len() && 0 <= r < self.cap() && !(c == column && r == row)
                    ==> #[trigger] next.cell(c, r) == self.cell(c, r),
    {
        let size = self.component_types@[column].size as int;
        let before = self.components@[column]@;
        let after = next.components@[column]@;
        assert forall|c: int|
            0 <= c < next.component_types@.len() implies (#[trigger] next.components@[c])@.len()
            == next.capacity * next.component_types@[c].size by {
            if c != column {
                assert(next.components@[c] == self.components@[c]);
            }
        }
        assert forall|c: int, r: int|
            0 <= c < self.types().len() && 0 <= r < self.cap() && !(c == column && r
                == row) implies #[trigger] next.cell(c, r) == self.cell(c, r) by {
            if c == column {
                lemma_row_bounds(r, self.capacity as int, size);
                if r < row {
                    lemma_rows_disjoint(r, row, size);
                } else {
                    lemma_rows_disjoint(row, r, size);
                }
                assert(after.subrange(r * size, r * size + size) =~= before.subrange(
                    r * size,
                    r * size + size,
                ));
            } else {
                assert(next.components@[c] == self.components@[c]);
            }
        }
    }

    /// What well-formed storage guarantees to its users.
    pub proof fn lemma_wf(&self)
        requires
            self.wf(),
        ensures
            ascending(self.ids()),
            self.rows().len() <= self.cap(),
            forall|c: int| 0 <= c < self.types().len() ==> self.slot(#[trigger] self.ids()[c]) == c,
            self.cap() <= usize::MAX,
            forall|c: int|
                #![trigger self.storage(c)]
                #![trigger self.types()[c]]
                0 <= c < self.types().len() ==> self.storage(c) == self.cap()
                    * self.types()[c].size && self.storage(c) <= max_bytes(),
    {
        assert forall|c: int| 0 <= c < self.types().len() implies self.slot(
            #[trigger] self.ids()[c],
        ) == c by {
            lemma_ascending_index_of(self.ids(), c);
        }
    }

    /// An empty archetype with the single column `info`.
    pub fn new(info: TypeInfo) -> (archetype: Self)
        ensures
            archetype.wf(),
            archetype.types() == seq![info],
            archetype.rows().len() == 0,
            archetype.cap() == 0,
    {
        let mut index: HashMap<u64, usize> = HashMap::new();
        index.insert(info.id, 0);
        let mut component_types: Vec<TypeInfo> = Vec::new();
        component_types.push(info);
        let mut components: Vec<Vec<u8>> = Vec::new();
        components.push(Vec::new());
        let archetype = Archetype {
            index,
            component_types,
            components,
            capacity: 0,
            entities: Vec::new(),
        };
        assert(archetype.types() =~= seq![info]);
        archetype
    }

    /// An empty archetype whose columns are laid out as `types` gives them.
    pub fn with_types(types: Vec<TypeInfo>) -> (archetype: Self)
        requires
            ascending(ids_of(types@)),
        ensures
            archetype.wf(),
            archetype.types() == types@,
            archetype.rows().len() == 0,
            archetype.cap() == 0,
    {
        let mut index: HashMap<u64, usize> = HashMap::new();
        let mut components: Vec<Vec<u8>> = Vec::new();
        let mut i: usize = 0;
        while i < types.len()
            invariant
                i <= types@.len(),
                ascending(ids_of(types@)),
                components@.len() == i,
                forall|c: int| 0 <= c < i ==> (#[trigger] components@[c])@.len() == 0,
                forall|c: int|
                    0 <= c < i ==> {
                        &&& index@.contains_key(#[trigger] types@[c].id)
                        &&& index@[types@[c].id] == c
                    },
                forall|ty: u64| #[trigger]
                    index@.contains_key(ty) ==> {
                        &&& index@[ty] < i
                        &&& types@[index@[ty] as int].id == ty
                    },
            decreases types@.len() - i,
        {
            proof {
                assert forall|c: int| 0 <= c < i implies types@[c].id != types@[i as int].id by {
                    assert(ids_of(types@)[c] < ids_of(types@)[i as int]);
                }
            }
            index.insert(types[i].id, i);
            components.push(Vec::new());
            i += 1;
        }
        Archetype { index, component_types: types, components, capacity: 0, entities: Vec::new() }
    }

    /// The column that holds the components of type `ty`, if there is one.
    pub fn column(&self, ty: u64) -> (column: Option<usize>)
        requires
            self.wf(),
        ensures
            match column {
                Some(c) => self.ids().contains(ty) && c == self.slot(ty) && c < self.types().len(),
                None => !self.ids().contains(ty),
            },
    {
        match self.index.get(&ty) {
            Some(c) => {
                proof {
                    assert(self.ids()[*c as int] == ty);
                    lemma_ascending_index_of(self.ids(), *c as int);
                }
                Some(*c)
            },
            None => {
                proof {
                    if self.ids().contains(ty) {
                        let c = choose|c: int| 0 <= c < self.ids().len() && self.ids()[c] == ty;
                        assert(self.index@.contains_key(self.component_types@[c].id));
                    }
                }
                None
            },
        }
    }

    /// Checks whether this archetype has a column for the type `ty`, by
    /// binary search over the ascending signature.
    pub fn contains(&self, ty: u64) -> (found: bool)
        requires
            self.wf(),
        ensures
            found == self.ids().contains(ty),
    {
        let mut low: usize = 0;
        let mut high: usize = self.component_types.len();
        while low < high
            invariant
                self.wf(),
                low <= high <= self.component_types@.len(),
                forall|c: int| 0 <= c < low ==> (#[trigger] self.ids()[c]) < ty,
                forall|c: int| high <= c < self.ids().len() ==> (#[trigger] self.ids()[c]) > ty,
            decreases high - low,
        {
            let mid: usize = low + (high - low) / 2;
            let id: u64 = self.component_types[mid].id;
            assert(id == self.ids()[mid as int]);
            if id == ty {
                return true;
            } else if id < ty {
                assert forall|c: int| 0 <= c < mid + 1 implies (#[trigger] self.ids()[c]) < ty by {
                    if c < mid {
                        assert(self.ids()[c] < self.ids()[mid as int]);
                    }
                }
                low = mid + 1;
            } else {
                assert forall|c: int| mid <= c < self.ids().len() implies (#[trigger] self.ids()[c])
                    > ty by {
                    if mid < c {
                        assert(self.ids()[mid as int] < self.ids()[c]);
                    }
                }
                high = mid;
            }
        }
        false
    }

    /// Allocates storage for `capacity` rows in every column whose values
    /// have a size. The archetype must not hold storage yet.
    pub fn allocate(&mut self, capacity: usize)
        requires
            old(self).wf(),
            old(self).cap() == 0,
            forall|c: int|
                0 <= c < old(self).types().len() ==> capacity * (
                #[trigger] old(self).types()[c]).size <= max_bytes(),
        ensures
            final(self).wf(),
            final(self).types() == old(self).types(),
            final(self).rows() == old(self).rows(),
            final(self).cap() == capacity,
    {
        if capacity == 0 {
            return ;
        }
        let columns: usize = self.component_types.len();
        let mut c: usize = 0;
        assert forall|k: int| 0 <= k < columns implies capacity * (
        #[trigger] self.component_types@[k]).size <= max_bytes() by {
            assert(capacity * old(self).types()[k].size <= max_bytes());
        }
        while c < columns
            invariant
                c <= columns,
                columns == self.component_types@.len(),
                self.components@.len() == columns,
                self.component_types == old(self).component_types,
                self.index == old(self).index,
                self.entities == old(self).entities,
                self.capacity == 0,
                forall|k: int|
                    0 <= k < columns ==> capacity * (#[trigger] self.component_types@[k]).size
                        <= max_bytes(),
                forall|k: int|
                    0 <= k < c ==> (#[trigger] self.components@[k])@.len() == capacity
                        * self.component_types@[k].size,
                forall|k: int| c <= k < columns ==> (#[trigger] self.components@[k])@.len() == 0,
            decreases columns - c,
        {
            let size: usize = self.component_types[c].size;
            if size != 0 {
                assert(capacity * self.component_types@[c as int].size <= max_bytes());
                self.components[c] = vec![0u8; capacity * size];
            } else {
                assert(capacity * size == 0) by (nonlinear_arith)
                    requires
                        size == 0,
                ;
            }
            c += 1;
        }
        self.capacity = capacity;
    }

    /// Makes room for `additional` more rows. Does nothing where the free
    /// rows already suffice; else grows every column that has storage by at
    /// least half of the capacity, keeping the bytes it holds.
    pub fn reserve(&mut self, additional: usize)
        requires
            old(self).wf(),
            old(self).can_reserve(additional as nat),
        ensures
            final(self).wf(),
            final(self).types() == old(self).types(),
            final(self).rows() == old(self).rows(),
            final(self).cap() == grown(old(self).cap(), old(self).rows().len(), additional as nat),
            forall|c: int, r: int|
                0 <= c < old(self).types().len() && 0 <= r < old(self).cap()
                    ==> #[trigger] final(self).cell(c, r) == old(self).cell(c, r),
    {
        if self.capacity - self.entities.len() >= additional {
            return ;
        }
        if self.capacity == 0 {
            self.allocate(additional);
            return ;
        }
        let half: usize = self.capacity / 2 + 1;
        let extra: usize = if additional >= half {
            additional
        } else {
            half
        };
        let next: usize = self.capacity + extra;
        let columns: usize = self.component_types.len();
        let mut c: usize = 0;
        assert forall|k: int| 0 <= k < columns implies next * (
        #[trigger] self.component_types@[k]).size <= max_bytes() by {
            assert(next * old(self).types()[k].size <= max_bytes());
        }
        while c < columns
            invariant
                c <= columns,
                columns == self.component_types@.len(),
                self.components@.len() == columns,
                self.component_types == old(self).component_types,
                self.index == old(self).index,
                self.entities == old(self).entities,
                self.capacity == old(self).capacity,
                self.capacity < next,
                forall|k: int|
                    0 <= k < columns ==> next * (#[trigger] self.component_types@[k]).size
                        <= max_bytes(),
                forall|k: int|
                    0 <= k < columns ==> (#[trigger] old(self).components@[k])@.len()
                        == self.capacity * self.component_types@[k].size,
                forall|k: int|
                    0 <= k < c ==> {
                        &&& (#[trigger] self.components@[k])@.len() == next
                            * self.component_types@[k].size
                        &&& old(self).components@[k]@.len() <= self.components@[k]@.len()
                        &&& self.components@[k]@.subrange(
                            0,
                            old(self).components@[k]@.len() as int,
                        ) == old(self).components@[k]@
                    },
                forall|k: int|
                    c <= k < columns ==> #[trigger] self.components@[k] == old(self).components@[k],
            decreases columns - c,
        {
            let size: usize = self.component_types[c].size;
            if size != 0 {
                assert(next * self.component_types@[c as int].size <= max_bytes());
                assert(self.capacity * size < next * size) by (nonlinear_arith)
                    requires
                        self.capacity < next,
                        size > 0,
                ;
                self.components[c].resize(next * size, 0u8);
            } else {
                assert(next * size == 0 && self.capacity * size == 0) by (nonlinear_arith)
                    requires
                        size == 0,
                ;
                assert(self.components@[c as int]@.subrange(
                    0,
                    old(self).components@[c as int]@.len() as int,
                ) =~= old(self).components@[c as int]@);
            }
            c += 1;
        }
        self.capacity = next;
        proof {
            assert forall|k: int, r: int|
                0 <= k < old(self).types().len() && 0 <= r < old(self).cap() implies
                #[trigger] self.cell(k, r) == old(self).cell(k, r) by {
                let size = self.component_types@[k].size as int;
                lemma_row_bounds(r, old(self).capacity as int, size);
                let before = old(self).components@[k]@;
                let after = self.components@[k]@;
                assert(after.subrange(0, before.len() as int) == before);
                lemma_prefix_subrange(after, before, r * size, r * size + size);
            }
        }
    }

    /// Writes one value of type `ty` into the first free row. The handle
    /// that owns the row has to be appended right afterwards.
    pub fn write_to_end(&mut self, ty: u64, bytes: &[u8])
        requires
            old(self).wf(),
            old(self).rows().len() < old(self).cap(),
            old(self).ids().contains(ty),
            bytes@.len() == old(self).types()[old(self).slot(ty)].size,
        ensures
            final(self).wf(),
            final(self).types() == old(self).types(),
            final(self).rows() == old(self).rows(),
            final(self).cap() == old(self).cap(),
            final(self).cell(old(self).slot(ty), old(self).rows().len() as int) == bytes@,
            forall|c: int, r: int|
                0 <= c < old(self).types().len() && 0 <= r < old(self).cap() && !(c
                    == old(self).slot(ty) && r == old(self).rows().len())
                    ==> #[trigger] final(self).cell(c, r) == old(self).cell(c, r),
    {
        let found = self.column(ty);
        let column: usize = found.unwrap();
        let size: usize = self.component_types[column].size;
        let row: usize = self.entities.len();
        let length: usize = self.components[column].len();
        proof {
            lemma_row_bounds(row as int, self.capacity as int, size as int);
            assert(length == self.capacity * size);
        }
        let start: usize = row * size;
        copy_into(&mut self.components[column], start, bytes);
        proof {
            let before = old(self).components@[column as int]@;
            let after = self.components@[column as int]@;
            assert(self.cell(column as int, row as int) =~= bytes@);
            assert forall|c: int, r: int|
                0 <= c < old(self).types().len() && 0 <= r < old(self).cap() && !(c == column && r
                    == row) implies #[trigger] self.cell(c, r) == old(self).cell(c, r) by {
                if c == column {
                    lemma_row_bounds(r, self.capacity as int, size as int);
                    if r < row {
                        lemma_rows_disjoint(r, row as int, size as int);
                    } else {
                        lemma_rows_disjoint(row as int, r, size as int);
                    }
                    assert(after.subrange(r * size, r * size + size) =~= before.subrange(
                        r * size,
                        r * size + size,
                    ));
                }
            }
        }
    }

    /// Appends the handle that owns the row written last.
    pub fn push_entity(&mut self, entity: EntityId)
        requires
            old(self).wf(),
            old(self).rows().len() < old(self).cap(),
        ensures
            final(self).wf(),
            final(self).types() == old(self).types(),
            final(self).rows() == old(self).rows().push(entity),
            final(self).cap() == old(self).cap(),
            forall|c: int, r: int| #[trigger] final(self).cell(c, r) == old(self).cell(c, r),
    {
        self.entities.push(entity);
    }

    /// The value of type `ty` at `row`, or `None` where the signature does
    /// not hold `ty`. A value without size is the empty slice.
    pub fn get(&self, row: usize, ty: u64) -> (value: Option<&[u8]>)
        requires
            self.wf(),
            row < self.rows().len(),
        ensures
            match value {
                Some(bytes) => self.ids().contains(ty) && bytes@ == self.cell(
                    self.slot(ty),
                    row as int,
                ),
                None => !self.ids().contains(ty),
            },
    {
        match self.column(ty) {
            None => None,
            Some(column) => {
                let size: usize = self.component_types[column].size;
                let length: usize = self.components[column].len();
                proof {
                    lemma_row_bounds(row as int, self.capacity as int, size as int);
                    assert(length == self.capacity * size);
                }
                let start: usize = row * size;
                let buffer = self.components[column].as_slice();
                Some(vstd::slice::slice_subrange(buffer, start, start + size))
            },
        }
    }

    /// The value of type `ty` at `row` for writing, or `None` where the
    /// signature does not hold `ty`. What is written becomes the value; all
    /// other values stay as they are.
    pub fn get_mut(&mut self, row: usize, ty: u64) -> (value: Option<&mut [u8]>)
        requires
            old(self).wf(),
            row < old(self).rows().len(),
        ensures
            value is Some <==> old(self).ids().contains(ty),
            value is None ==> *final(self) == *old(self),
            value matches Some(bytes) ==> bytes@ == old(self).cell(old(self).slot(ty), row as int),
            value matches Some(bytes) && final(bytes)@.len() == bytes@.len() ==> {
                &&& final(self).wf()
                &&& final(self).types() == old(self).types()
                &&& final(self).rows() == old(self).rows()
                &&& final(self).cap() == old(self).cap()
            },
            value matches Some(bytes) ==> (final(bytes)@.len() == bytes@.len()
                ==> final(self).cell(old(self).slot(ty), row as int) =~= final(bytes)@),
            value matches Some(bytes) && final(bytes)@.len() == bytes@.len()
                ==> forall|c: int, r: int|
                0 <= c < old(self).types().len() && 0 <= r < old(self).cap() && !(c
                    == old(self).slot(ty) && r == row) ==> #[trigger] final(self).cell(c, r)
                    == old(self).cell(c, r),
    {
        match self.column(ty) {
            None => None,
            Some(column) => {
                let size: usize = self.component_types[column].size;
                let length: usize = self.components[column].len();
                proof {
                    lemma_row_bounds(row as int, self.capacity as int, size as int);
                    assert(length == self.capacity * size);
                }
                let start: usize = row * size;
                proof {
                    assert forall|next: Archetype|
                        self.patched(next, column as int, row as int) implies {
                        &&& #[trigger] next.wf()
                        &&& next.types() == self.types()
                        &&& next.rows() == self.rows()
                        &&& next.cap() == self.cap()
                    } by {
                        self.lemma_patched(next, column as int, row as int);
                    }
                    assert forall|next: Archetype, c: int, r: int|
                        self.patched(next, column as int, row as int) && 0 <= c
                            < self.types().len() && 0 <= r < self.cap() && !(c == column && r
                            == row) implies #[trigger] next.cell(c, r) == self.cell(c, r) by {
                        self.lemma_patched(next, column as int, row as int);
                    }
                }
                let bytes = slice_mut(&mut self.components[column], start, start + size);
                Some(bytes)
            },
        }
    }

    /// The bytes of one value of a column with storage are as many as its
    /// type says.
    pub proof fn lemma_cell_len(&self, column: int, row: int)
        requires
            self.wf(),
            0 <= column < self.types().len(),
            0 <= row < self.cap(),
        ensures
            self.cell(column, row).len() == self.types()[column].size,
    {
        lemma_row_bounds(row, self.capacity as int, self.component_types@[column].size as int);
        assert(self.components@[column]@.len() == self.capacity
            * self.component_types@[column].size);
    }

    /// What the first `columns` columns give up: only occupied cells of
    /// columns whose values have a size, each of them, and none twice.
    pub proof fn lemma_drops_before(&self, columns: int)
        requires
            0 <= columns <= self.types().len(),
        ensures
            forall|i: int|
                0 <= i < self.drops_before(columns).len() ==> {
                    let cell = #[trigger] self.drops_before(columns)[i];
                    &&& 0 <= cell.0 < columns
                    &&& 0 <= cell.1 < self.rows().len()
                    &&& self.types()[cell.0].size != 0
                },
            forall|i: int, j: int|
                0 <= i < j < self.drops_before(columns).len() ==> {
                    let first = #[trigger] self.drops_before(columns)[i];
                    let second = #[trigger] self.drops_before(columns)[j];
                    first.0 < second.0 || (first.0 == second.0 && first.1 < second.1)
                },
            forall|column: int, row: int|
                0 <= column < columns && 0 <= row < self.rows().len() && self.types()[column].size
                    != 0 ==> self.drops_before(columns).contains((column, row)),
        decreases columns,
    {
        if columns > 0 {
            self.lemma_drops_before(columns - 1);
            let earlier = self.drops_before(columns - 1);
            let last = self.column_drops(columns - 1);
            let all = self.drops_before(columns);
            assert(all == earlier + last);
            assert forall|i: int| 0 <= i < all.len() implies {
                let cell = #[trigger] all[i];
                &&& 0 <= cell.0 < columns
                &&& 0 <= cell.1 < self.rows().len()
                &&& self.types()[cell.0].size != 0
            } by {
                if i < earlier.len() {
                    assert(all[i] == earlier[i]);
                } else {
                    assert(all[i] == last[i - earlier.len()]);
                }
            }
            assert forall|i: int, j: int| 0 <= i < j < all.len() implies {
                let first = #[trigger] all[i];
                let second = #[trigger] all[j];
                first.0 < second.0 || (first.0 == second.0 && first.1 < second.1)
            } by {
                if j < earlier.len() {
                    assert(all[i] == earlier[i] && all[j] == earlier[j]);
                } else if i < earlier.len() {
                    assert(all[i] == earlier[i]);
                    assert(all[j] == last[j - earlier.len()]);
                } else {
                    assert(all[i] == last[i - earlier.len()]);
                    assert(all[j] == last[j - earlier.len()]);
                }
            }
            assert forall|column: int, row: int|
                0 <= column < columns && 0 <= row < self.rows().len() && self.types()[column].size
                    != 0 implies all.contains((column, row)) by {
                if column < columns - 1 {
                    assert(earlier.contains((column, row)));
                    let i = choose|i: int| 0 <= i < earlier.len() && earlier[i] == (column, row);
                    assert(all[i] == (column, row));
                } else {
                    assert(last[row] == (column, row));
                    assert(all[earlier.len() + row] == (column, row));
                }
            }
        }
    }

    /// Gives up every component: releases the storage of every column and
    /// hands each value of each occupied row to the caller, exactly once,
    /// column by column and row by row. A column whose values have no size
    /// has no storage and gives up nothing. The archetype is empty
    /// afterwards.
    pub fn teardown(&mut self) -> (dropped: Vec<Dropped>)
        requires
            old(self).wf(),
        ensures
            final(self).wf(),
            final(self).types() == old(self).types(),
            final(self).rows().len() == 0,
            final(self).cap() == 0,
            dropped@.len() == old(self).drops().len(),
            forall|i: int|
                0 <= i < dropped@.len() ==> (#[trigger] dropped@[i])@ == old(self).given_up(
                    old(self).drops()[i].0,
                    old(self).drops()[i].1,
                ),
    {
        let mut dropped: Vec<Dropped> = Vec::new();
        let columns: usize = self.component_types.len();
        let rows: usize = self.entities.len();
        let mut c: usize = 0;
        while c < columns
            invariant
                c <= columns,
                old(self).wf(),
                columns == self.component_types@.len(),
                rows == self.entities@.len(),
                self.components@.len() == columns,
                self.component_types == old(self).component_types,
                self.index == old(self).index,
                self.entities == old(self).entities,
                self.capacity == old(self).capacity,
                forall|k: int| 0 <= k < c ==> (#[trigger] self.components@[k])@.len() == 0,
                forall|k: int|
                    c <= k < columns ==> #[trigger] self.components@[k] == old(self).components@[k],
                dropped@.len() == old(self).drops_before(c as int).len(),
                forall|i: int|
                    0 <= i < dropped@.len() ==> (#[trigger] dropped@[i])@ == old(self).given_up(
                        old(self).drops_before(c as int)[i].0,
                        old(self).drops_before(c as int)[i].1,
                    ),
            decreases columns - c,
        {
            let info = self.component_types[c];
            let size: usize = info.size;
            let ghost earlier = old(self).drops_before(c as int);
            if size != 0 {
                let mut row: usize = 0;
                while row < rows
                    invariant
                        row <= rows,
                        c < columns,
                        size != 0,
                        old(self).wf(),
                        columns == self.component_types@.len(),
                        rows == self.entities@.len(),
                        self.components@.len() == columns,
                        self.component_types == old(self).component_types,
                        self.entities == old(self).entities,
                        self.capacity == old(self).capacity,
                        self.components@[c as int] == old(self).components@[c as int],
                        info == self.component_types@[c as int],
                        size == info.size,
                        earlier == old(self).drops_before(c as int),
                        dropped@.len() == earlier.len() + row,
                        forall|i: int|
                            0 <= i < earlier.len() ==> (#[trigger] dropped@[i])@
                                == old(self).given_up(earlier[i].0, earlier[i].1),
                        forall|r: int|
                            0 <= r < row ==> (#[trigger] dropped@[earlier.len() + r])@
                                == old(self).given_up(c as int, r),
                    decreases rows - row,
                {
                    let length: usize = self.components[c].len();
                    proof {
                        lemma_row_bounds(row as int, self.capacity as int, size as int);
                        assert(length == self.capacity * size);
                    }
                    let start: usize = row * size;
                    let cell = vstd::slice::slice_subrange(
                        self.components[c].as_slice(),
                        start,
                        start + size,
                    );
                    let bytes = vstd::slice::slice_to_vec(cell);
                    dropped.push(Dropped { entity: self.entities[row], info, bytes });
                    row += 1;
                }
                self.components[c] = Vec::new();
            } else {
                assert(self.components@[c as int]@.len() == self.capacity * size);
                assert(self.capacity * size == 0) by (nonlinear_arith)
                    requires
                        size == 0,
                ;
            }
            proof {
                let last = old(self).column_drops(c as int);
                let all = old(self).drops_before(c + 1);
                assert(all == earlier + last);
                assert forall|i: int| 0 <= i < dropped@.len() implies (#[trigger] dropped@[i])@
                    == old(self).given_up(all[i].0, all[i].1) by {
                    if i < earlier.len() {
                        assert(all[i] == earlier[i]);
                    } else {
                        assert(all[i] == last[i - earlier.len()]);
                        let r = i - earlier.len();
                        assert(dropped@[earlier.len() + r]@ == old(self).given_up(c as int, r));
                    }
                }
            }
            c += 1;
        }
        self.entities.clear();
        self.capacity = 0;
        proof {
            assert forall|k: int| 0 <= k < self.component_types@.len() implies (
            #[trigger] self.components@[k])@.len() == self.capacity
                * self.component_types@[k].size by {
                assert(0 * self.component_types@[k].size == 0) by (nonlinear_arith);
            }
        }
        dropped
    }

    /// Whether `additional` more rows can be reserved.
    pub fn fits(&self, additional: usize) -> (fits: bool)
        requires
            self.wf(),
        ensures
            fits == self.can_reserve(additional as nat),
    {
        if self.capacity - self.entities.len() >= additional {
            proof {
                assert forall|c: int| 0 <= c < self.types().len() implies self.cap() * (
                #[trigger] self.types()[c]).size <= max_bytes() by {
                    assert(self.components@[c]@.len() == self.capacity
                        * self.component_types@[c].size);
                    assert(self.capacity * self.component_types@[c].size <= max_bytes());
                }
            }
            return true;
        }
        let half: usize = self.capacity / 2 + 1;
        let extra: usize = if additional >= half {
            additional
        } else {
            half
        };
        let next: usize = match self.capacity.checked_add(extra) {
            Some(next) => next,
            None => {
                return false;
            },
        };
        let limit: usize = isize::MAX as usize;
        let mut c: usize = 0;
        while c < self.component_types.len()
            invariant
                c <= self.component_types@.len(),
                limit == max_bytes(),
                next == grown(self.cap(), self.rows().len(), additional as nat),
                forall|k: int|
                    0 <= k < c ==> next * (#[trigger] self.component_types@[k]).size <= max_bytes(),
            decreases self.component_types@.len() - c,
        {
            let size: usize = self.component_types[c].size;
            match next.checked_mul(size) {
                Some(bytes) => {
                    if bytes > limit {
                        assert(next * self.types()[c as int].size > max_bytes());
                        return false;
                    }
                },
                None => {
                    assert(next * self.types()[c as int].size > max_bytes());
                    return false;
                },
            }
            c += 1;
        }
        true
    }

    /// The number of occupied rows.
    pub fn len(&self) -> (len: usize)
        ensures
            len == self.rows().len(),
    {
        self.entities.len()
    }

    /// Whether no row is occupied.
    pub fn is_empty(&self) -> (empty: bool)
        ensures
            empty == (self.rows().len() == 0),
    {
        self.entities.len() == 0
    }

    /// The number of rows for which storage is allocated.
    pub fn capacity(&self) -> (capacity: usize)
        ensures
            capacity == self.cap(),
    {
        self.capacity
    }

    /// The handle that owns `row`.
    pub fn entity(&self, row: usize) -> (entity: EntityId)
        requires
            row < self.rows().len(),
        ensures
            entity == self.rows()[row as int],
    {
        self.entities[row]
    }

    /// The descriptors of the columns, in column order.
    pub fn component_types(&self) -> (types: &[TypeInfo])
        ensures
            types@ == self.types(),
    {
        self.component_types.as_slice()
    }
}

} // verus!
