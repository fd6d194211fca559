//! Groups of components that are spawned together, and the canonical
//! signature that decides where a group is stored.

use crate::archetype::{grown, Archetype};
use crate::component::Component;
use crate::signature::{
    distinct, ids_of, insert_sorted, lemma_signature_of, signature_of, signs,
    SignatureIndex, SignatureKey,
};
use crate::type_info::TypeInfo;
use vstd::prelude::*;

verus! {

/// The largest number of components that one group may hold.
pub const MAX_COMPONENTS: usize = 14;

/// The descriptors of the members of a group, in the order of declaration.
pub open spec fn member_types(members: Seq<(TypeInfo, Seq<u8>)>) -> Seq<TypeInfo> {
    Seq::new(members.len(), |i: int| members[i].0)
}

/// Whether a group can be spawned: it holds between one and
/// `MAX_COMPONENTS` members, no two of one type, and each member fills
/// exactly one value of its type.
pub open spec fn group_valid(members: Seq<(TypeInfo, Seq<u8>)>) -> bool {
    &&& 1 <= members.len() <= MAX_COMPONENTS
    &&& distinct(member_types(members))
    &&& forall|i: int|
        0 <= i < members.len() ==> (#[trigger] members[i]).1.len() == members[i].0.size
}

/// Whether a group holds a member of the type `ty`.
pub open spec fn group_has(members: Seq<(TypeInfo, Seq<u8>)>, ty: u64) -> bool {
    exists|i: int| 0 <= i < members.len() && (#[trigger] members[i]).0.id == ty
}

/// The bytes of the member of the type `ty`.
pub open spec fn group_bytes(members: Seq<(TypeInfo, Seq<u8>)>, ty: u64) -> Seq<u8> {
    members[choose|i: int| 0 <= i < members.len() && (#[trigger] members[i]).0.id == ty].1
}

/// The components that a group gives to its entity, by type.
pub open spec fn group_record(members: Seq<(TypeInfo, Seq<u8>)>) -> Map<u64, Seq<u8>> {
    Map::new(|ty: u64| group_has(members, ty), |ty: u64| group_bytes(members, ty))
}

/// The signature of a group: the identities of its members, ascending.
pub open spec fn group_ids(members: Seq<(TypeInfo, Seq<u8>)>) -> Seq<u64> {
    ids_of(signature_of(member_types(members)))
}

/// Every member of a valid group has its column in the archetype of the
/// group's signature, and the column has the member's type.
pub proof fn lemma_member_column(
    archetype: &Archetype,
    members: Seq<(TypeInfo, Seq<u8>)>,
    i: int,
)
    requires
        archetype.wf(),
        group_valid(members),
        archetype.types() == signature_of(member_types(members)),
        0 <= i < members.len(),
    ensures
        archetype.ids().contains(members[i].0.id),
        0 <= archetype.slot(members[i].0.id) < archetype.types().len(),
        archetype.types()[archetype.slot(members[i].0.id)] == members[i].0,
        forall|j: int|
            0 <= j < members.len() && j != i ==> archetype.slot(members[i].0.id) != archetype.slot(
                #[trigger] members[j].0.id,
            ),
{
    let types = member_types(members);
    lemma_signature_of(types);
    archetype.lemma_wf();
    let signature = archetype.types();
    assert forall|j: int| 0 <= j < members.len() implies {
        &&& archetype.ids().contains(#[trigger] members[j].0.id)
        &&& 0 <= archetype.slot(members[j].0.id) < signature.len()
        &&& signature[archetype.slot(members[j].0.id)] == members[j].0
    } by {
        assert(signature.contains(types[j]));
        let c = choose|c: int| 0 <= c < signature.len() && signature[c] == types[j];
        assert(archetype.ids()[c] == members[j].0.id);
        assert(archetype.slot(archetype.ids()[c]) == c);
    }
    assert forall|j: int| 0 <= j < members.len() && j != i implies archetype.slot(
        members[i].0.id,
    ) != archetype.slot(#[trigger] members[j].0.id) by {
        if i < j {
            assert(types[i].id != types[j].id);
        } else {
            assert(types[j].id != types[i].id);
        }
    }
}

/// The record of a valid group holds each member under its type.
pub proof fn lemma_group_record(members: Seq<(TypeInfo, Seq<u8>)>, i: int)
    requires
        group_valid(members),
        0 <= i < members.len(),
    ensures
        group_has(members, members[i].0.id),
        group_bytes(members, members[i].0.id) == members[i].1,
        group_record(members).contains_key(members[i].0.id),
        group_record(members)[members[i].0.id] == members[i].1,
{
    let ty = members[i].0.id;
    let types = member_types(members);
    let j = choose|j: int| 0 <= j < members.len() && (#[trigger] members[j]).0.id == ty;
    if i < j {
        assert(types[i].id != types[j].id);
    } else if j < i {
        assert(types[j].id != types[i].id);
    }
}

/// A row that holds every member of a valid group in the member's column
/// is the record of the group.
pub proof fn lemma_record_written(
    archetype: &Archetype,
    members: Seq<(TypeInfo, Seq<u8>)>,
    row: int,
)
    requires
        archetype.wf(),
        group_valid(members),
        archetype.types() == signature_of(member_types(members)),
        forall|i: int|
            0 <= i < members.len() ==> archetype.cell(
                archetype.slot((#[trigger] members[i]).0.id),
                row,
            ) == members[i].1,
    ensures
        archetype.record(row) == group_record(members),
{
    let types = member_types(members);
    lemma_signature_of(types);
    let signature = archetype.types();
    assert forall|ty: u64| archetype.ids().contains(ty) <==> group_has(members, ty) by {
        if archetype.ids().contains(ty) {
            let c = choose|c: int| 0 <= c < archetype.ids().len() && archetype.ids()[c] == ty;
            assert(types.contains(signature[c]));
            let i = choose|i: int| 0 <= i < types.len() && types[i] == signature[c];
            assert(members[i].0.id == ty);
        }
        if group_has(members, ty) {
            let i = choose|i: int| 0 <= i < members.len() && (#[trigger] members[i]).0.id == ty;
            lemma_member_column(archetype, members, i);
        }
    }
    assert forall|ty: u64| group_has(members, ty) implies archetype.cell(archetype.slot(ty), row)
        == group_bytes(members, ty) by {
        let i = choose|i: int| 0 <= i < members.len() && (#[trigger] members[i]).0.id == ty;
        lemma_group_record(members, i);
        assert(archetype.cell(archetype.slot(members[i].0.id), row) == members[i].1);
    }
    assert(archetype.record(row) =~= group_record(members));
}

/// The signature of a pack does not depend on the order of its members:
/// two valid packs of the same component types have the same signature.
pub proof fn lemma_group_ids_canonical(
    first: Seq<(TypeInfo, Seq<u8>)>,
    second: Seq<(TypeInfo, Seq<u8>)>,
)
    requires
        group_valid(first),
        group_valid(second),
        forall|info: TypeInfo|
            member_types(first).contains(info) <==> member_types(second).contains(info),
    ensures
        signature_of(member_types(first)) == signature_of(member_types(second)),
        group_ids(first) == group_ids(second),
{
    lemma_signature_of(member_types(first));
    lemma_signature_of(member_types(second));
    crate::signature::lemma_signature_canonical(
        signature_of(member_types(first)),
        signature_of(member_types(second)),
        member_types(first),
        member_types(second),
    );
}

/// A member without data is stored as no bytes at all: the record of its
/// pack holds the empty sequence for it.
pub proof fn lemma_marker_record(members: Seq<(TypeInfo, Seq<u8>)>, i: int)
    requires
        group_valid(members),
        0 <= i < members.len(),
        members[i].0.size == 0,
    ensures
        group_record(members).contains_key(members[i].0.id),
        group_record(members)[members[i].0.id] == Seq::<u8>::empty(),
{
    lemma_group_record(members, i);
    assert(members[i].1 =~= Seq::<u8>::empty());
}

/// A pack of components that are spawned as one entity. Implemented for a
/// single component and for tuples of up to fourteen components.
pub trait ComponentSet: Sized {
    /// The members of the pack in the order of declaration, each with its
    /// descriptor and its bytes.
    spec fn members(&self) -> Seq<(TypeInfo, Seq<u8>)>;

    /// The members of the pack in the order of declaration.
    fn parts(&self) -> (parts: Vec<(TypeInfo, &[u8])>)
        ensures
            parts@.len() == self.members().len(),
            forall|i: int|
                0 <= i < parts@.len() ==> (#[trigger] parts@[i]).0 == self.members()[i].0
                    && parts@[i].1@ == self.members()[i].1,
    ;

    /// Whether the pack can be spawned.
    fn is_valid(&self) -> (valid: bool)
        ensures
            valid == group_valid(self.members()),
    {
        let parts = self.parts();
        let members = Ghost(self.members());
        if parts.len() < 1 || parts.len() > MAX_COMPONENTS {
            return false;
        }
        let mut i: usize = 0;
        while i < parts.len()
            invariant
                i <= parts@.len(),
                members@ == self.members(),
                parts@.len() == members@.len(),
                1 <= members@.len() <= MAX_COMPONENTS,
                forall|k: int|
                    0 <= k < parts@.len() ==> (#[trigger] parts@[k]).0 == members@[k].0
                        && parts@[k].1@ == members@[k].1,
                forall|k: int|
                    0 <= k < i ==> (#[trigger] members@[k]).1.len() == members@[k].0.size,
                forall|a: int, b: int|
                    0 <= a < b < i ==> member_types(members@)[a].id != member_types(members@)[b].id,
            decreases parts@.len() - i,
        {
            if parts[i].1.len() != parts[i].0.size {
                assert(members@[i as int].1.len() != members@[i as int].0.size);
                return false;
            }
            let mut j: usize = 0;
            while j < i
                invariant
                    j <= i < parts@.len(),
                    members@ == self.members(),
                    parts@.len() == members@.len(),
                    forall|k: int|
                        0 <= k < parts@.len() ==> (#[trigger] parts@[k]).0 == members@[k].0
                            && parts@[k].1@ == members@[k].1,
                    forall|a: int|
                        0 <= a < j ==> member_types(members@)[a].id
                            != member_types(members@)[i as int].id,
                decreases i - j,
            {
                if parts[j].0.id == parts[i].0.id {
                    assert(member_types(members@)[j as int].id
                        == member_types(members@)[i as int].id);
                    return false;
                }
                j += 1;
            }
            i += 1;
        }
        true
    }

    /// The descriptor of each type in the pack, sorted by identity.
    fn component_infos(&self) -> (infos: Vec<TypeInfo>)
        requires
            group_valid(self.members()),
        ensures
            infos@ == signature_of(member_types(self.members())),
    {
        let parts = self.parts();
        let types = Ghost(member_types(self.members()));
        let mut infos: Vec<TypeInfo> = Vec::new();
        let mut i: usize = 0;
        while i < parts.len()
            invariant
                i <= parts@.len(),
                parts@.len() == types@.len(),
                distinct(types@),
                forall|k: int| 0 <= k < parts@.len() ==> (#[trigger] parts@[k]).0 == types@[k],
                signs(infos@, types@.take(i as int)),
            decreases parts@.len() - i,
        {
            let info = parts[i].0;
            proof {
                if ids_of(infos@).contains(info.id) {
                    let c = choose|c: int| 0 <= c < infos@.len() && ids_of(infos@)[c] == info.id;
                    assert(types@.take(i as int).contains(infos@[c]));
                    let k = choose|k: int|
                        0 <= k < types@.take(i as int).len() && types@.take(i as int)[k]
                            == infos@[c];
                    assert(types@[k].id != types@[i as int].id);
                }
            }
            let ghost before = infos@;
            insert_sorted(&mut infos, info);
            proof {
                let shorter = types@.take(i as int);
                let longer = types@.take(i + 1);
                assert forall|k: int| 0 <= k < longer.len() implies infos@.contains(
                    #[trigger] longer[k],
                ) by {
                    if k < i {
                        assert(shorter[k] == longer[k]);
                        assert(before.contains(shorter[k]));
                        let c = choose|c: int| 0 <= c < before.len() && before[c] == shorter[k];
                        assert(infos@.contains(before[c]));
                    }
                }
                assert forall|c: int| 0 <= c < infos@.len() implies longer.contains(
                    #[trigger] infos@[c],
                ) by {
                    if infos@[c] == info {
                        assert(longer[i as int] == info);
                    } else {
                        assert(before.contains(infos@[c]));
                        let b = choose|b: int| 0 <= b < before.len() && before[b] == infos@[c];
                        assert(shorter.contains(before[b]));
                        let k = choose|k: int| 0 <= k < shorter.len() && shorter[k] == before[b];
                        assert(longer[k] == infos@[c]);
                    }
                }
            }
            i += 1;
        }
        proof {
            assert(types@.take(i as int) =~= types@);
            lemma_signature_of(types@);
        }
        infos
    }

    /// The identities of the types in the pack, sorted: the signature.
    fn component_ids(&self) -> (ids: Vec<u64>)
        requires
            group_valid(self.members()),
        ensures
            ids@ == group_ids(self.members()),
    {
        let infos = self.component_infos();
        let mut ids: Vec<u64> = Vec::new();
        let mut i: usize = 0;
        while i < infos.len()
            invariant
                i <= infos@.len(),
                ids@ == ids_of(infos@).take(i as int),
            decreases infos@.len() - i,
        {
            ids.push(infos[i].id);
            assert(ids@ =~= ids_of(infos@).take(i + 1));
            i += 1;
        }
        assert(ids_of(infos@).take(i as int) =~= ids_of(infos@));
        ids
    }

    /// The archetype at which the registry lists the pack's signature.
    fn get_index(&self, index: &SignatureIndex) -> (slot: Option<usize>)
        requires
            group_valid(self.members()),
            index.wf(),
        ensures
            slot == (if index@.contains_key(group_ids(self.members())) {
                Some(index@[group_ids(self.members())])
            } else {
                None
            }),
    {
        let infos = self.component_infos();
        proof {
            lemma_signature_of(member_types(self.members()));
            lemma_signature_length(member_types(self.members()));
        }
        let mut key = SignatureKey::new();
        let mut i: usize = 0;
        while i < infos.len()
            invariant
                i <= infos@.len() <= MAX_COMPONENTS,
                crate::signature::key_ids(key) == ids_of(infos@).take(i as int),
            decreases infos@.len() - i,
        {
            key.push(infos[i].id);
            assert(crate::signature::key_ids(key) =~= ids_of(infos@).take(i + 1));
            i += 1;
        }
        assert(ids_of(infos@).take(i as int) =~= ids_of(infos@));
        index.get(key.as_slice())
    }

    /// An empty archetype for the pack's signature.
    fn make_archetype(&self) -> (archetype: Archetype)
        requires
            group_valid(self.members()),
        ensures
            archetype.wf(),
            archetype.types() == signature_of(member_types(self.members())),
            archetype.rows().len() == 0,
            archetype.cap() == 0,
    {
        let types = self.component_infos();
        proof {
            lemma_signature_of(member_types(self.members()));
        }
        Archetype::with_types(types)
    }

    /// Writes the pack into the first free row of the archetype of its
    /// signature, after making room for that one row. The handle that owns
    /// the row has to be appended right afterwards.
    fn write_archetype(self, archetype: &mut Archetype)
        requires
            group_valid(self.members()),
            old(archetype).wf(),
            old(archetype).types() == signature_of(member_types(self.members())),
            old(archetype).can_reserve(1),
        ensures
            final(archetype).wf(),
            final(archetype).types() == old(archetype).types(),
            final(archetype).rows() == old(archetype).rows(),
            final(archetype).cap() == grown(old(archetype).cap(), old(archetype).rows().len(), 1),
            final(archetype).rows().len() < final(archetype).cap(),
            forall|c: int, r: int|
                0 <= c < old(archetype).types().len() && 0 <= r < old(archetype).rows().len()
                    ==> #[trigger] final(archetype).cell(c, r) == old(archetype).cell(c, r),
            forall|i: int|
                0 <= i < self.members().len() ==> final(archetype).cell(
                    old(archetype).slot((#[trigger] self.members()[i]).0.id),
                    old(archetype).rows().len() as int,
                ) == self.members()[i].1,
    {
        archetype.reserve(1);
        let parts = self.parts();
        let members = Ghost(self.members());
        let ghost reserved = *archetype;
        let ghost row = archetype.rows().len() as int;
        proof {
            old(archetype).lemma_wf();
        }
        let mut i: usize = 0;
        while i < parts.len()
            invariant
                i <= parts@.len(),
                parts@.len() == members@.len(),
                group_valid(members@),
                forall|k: int|
                    0 <= k < parts@.len() ==> (#[trigger] parts@[k]).0 == members@[k].0
                        && parts@[k].1@ == members@[k].1,
                archetype.wf(),
                archetype.types() == signature_of(member_types(members@)),
                archetype.types() == reserved.types(),
                archetype.rows() == reserved.rows(),
                archetype.cap() == reserved.cap(),
                row == archetype.rows().len(),
                row < archetype.cap(),
                forall|c: int, r: int|
                    0 <= c < archetype.types().len() && 0 <= r < row ==> #[trigger] archetype.cell(
                        c,
                        r,
                    ) == reserved.cell(c, r),
                forall|k: int|
                    0 <= k < i ==> archetype.cell(
                        archetype.slot((#[trigger] members@[k]).0.id),
                        row,
                    ) == members@[k].1,
            decreases parts@.len() - i,
        {
            let ghost before = *archetype;
            proof {
                lemma_member_column(archetype, members@, i as int);
            }
            archetype.write_to_end(parts[i].0.id, parts[i].1);
            proof {
                assert forall|k: int| 0 <= k < i + 1 implies archetype.cell(
                    archetype.slot((#[trigger] members@[k]).0.id),
                    row,
                ) == members@[k].1 by {
                    if k < i {
                        lemma_member_column(&before, members@, k);
                        assert(before.slot(members@[k].0.id) != before.slot(
                            members@[i as int].0.id,
                        ));
                        assert(archetype.cell(before.slot(members@[k].0.id), row) == before.cell(
                            before.slot(members@[k].0.id),
                            row,
                        ));
                    }
                }
            }
            i += 1;
        }
    }
}

/// A signature holds as many descriptors as its group has members.
pub proof fn lemma_signature_length(members: Seq<TypeInfo>)
    requires
        distinct(members),
    ensures
        signature_of(members).len() == members.len(),
    decreases members.len(),
{
    lemma_signature_of(members);
    let signature = signature_of(members);
    if members.len() == 0 {
        if signature.len() > 0 {
            assert(members.contains(signature[0]));
        }
    } else {
        let last = members.last();
        let rest = members.drop_last();
        assert(members[members.len() - 1] == last);
        assert(signature.contains(last));
        let at = choose|at: int| 0 <= at < signature.len() && signature[at] == last;
        let shorter = signature.remove(at);
        assert forall|i: int, j: int| 0 <= i < j < shorter.len() implies ids_of(shorter)[i]
            < ids_of(shorter)[j] by {
            let a = if i < at {
                i
            } else {
                i + 1
            };
            let b = if j < at {
                j
            } else {
                j + 1
            };
            assert(ids_of(signature)[a] < ids_of(signature)[b]);
        }
        assert forall|i: int| 0 <= i < rest.len() implies shorter.contains(#[trigger] rest[i]) by {
            assert(members[i] == rest[i]);
            assert(signature.contains(members[i]));
            let c = choose|c: int| 0 <= c < signature.len() && signature[c] == members[i];
            assert(members[i].id != members[members.len() - 1].id);
            if c < at {
                assert(shorter[c] == rest[i]);
            } else {
                assert(shorter[c - 1] == rest[i]);
            }
        }
        assert forall|j: int| 0 <= j < shorter.len() implies rest.contains(
            #[trigger] shorter[j],
        ) by {
            let b = if j < at {
                j
            } else {
                j + 1
            };
            assert(shorter[j] == signature[b]);
            assert(members.contains(signature[b]));
            let i = choose|i: int| 0 <= i < members.len() && members[i] == signature[b];
            if i == members.len() - 1 {
                if b < at {
                    assert(ids_of(signature)[b] < ids_of(signature)[at]);
                } else {
                    assert(ids_of(signature)[at] < ids_of(signature)[b]);
                }
            }
            assert(rest[i] == shorter[j]);
        }
        assert forall|i: int, j: int| 0 <= i < j < rest.len() implies rest[i].id
            != rest[j].id by {
            assert(members[i].id != members[j].id);
        }
        lemma_signature_of(rest);
        assert(signs(shorter, rest));
        lemma_signature_length(rest);
    }
}

impl<T: Component> ComponentSet for T {
    open spec fn members(&self) -> Seq<(TypeInfo, Seq<u8>)> {
        seq![(self.type_info(), self.stored())]
    }

    fn parts(&self) -> (parts: Vec<(TypeInfo, &[u8])>) {
        let mut parts: Vec<(TypeInfo, &[u8])> = Vec::new();
        parts.push((self.info(), self.bytes()));
        parts
    }
}

impl<A: Component> ComponentSet for (A,) {
    open spec fn members(&self) -> Seq<(TypeInfo, Seq<u8>)> {
        seq![
            (self.0.type_info(), self.0.stored()),
        ]
    }

    fn parts(&self) -> (parts: Vec<(TypeInfo, &[u8])>) {
        let mut parts: Vec<(TypeInfo, &[u8])> = Vec::new();
        parts.push((self.0.info(), self.0.bytes()));
        parts
    }
}

impl<A: Component, B: Component> ComponentSet for (A, B) {
    open spec fn members(&self) -> Seq<(TypeInfo, Seq<u8>)> {
        seq![
            (self.0.type_info(), self.0.stored()),
            (self.1.type_info(), self.1.stored()),
        ]
    }

    fn parts(&self) -> (parts: Vec<(TypeInfo, &[u8])>) {
        let mut parts: Vec<(TypeInfo, &[u8])> = Vec::new();
        parts.push((self.0.info(), self.0.bytes()));
        parts.push((self.1.info(), self.1.bytes()));
        parts
    }
}

impl<A: Component, B: Component, C: Component> ComponentSet for (A, B, C) {
    open spec fn members(&self) -> Seq<(TypeInfo, Seq<u8>)> {
        seq![
            (self.0.type_info(), self.0.stored()),
            (self.1.type_info(), self.1.stored()),
            (self.2.type_info(), self.2.stored()),
        ]
    }

    fn parts(&self) -> (parts: Vec<(TypeInfo, &[u8])>) {
        let mut parts: Vec<(TypeInfo, &[u8])> = Vec::new();
        parts.push((self.0.info(), self.0.bytes()));
        parts.push((self.1.info(), self.1.bytes()));
        parts.push((self.2.info(), self.2.bytes()));
        parts
    }
}

impl<A: Component, B: Component, C: Component, D: Component> ComponentSet for (A, B, C, D) {
    open spec fn members(&self) -> Seq<(TypeInfo, Seq<u8>)> {
        seq![
            (self.0.type_info(), self.0.stored()),
            (self.1.type_info(), self.1.stored()),
            (self.2.type_info(), self.2.stored()),
            (self.3.type_info(), self.3.stored()),
        ]
    }

    fn parts(&self) -> (parts: Vec<(TypeInfo, &[u8])>) {
        let mut parts: Vec<(TypeInfo, &[u8])> = Vec::new();
        parts.push((self.0.info(), self.0.bytes()));
        parts.push((self.1.info(), self.1.bytes()));
        parts.push((self.2.info(), self.2.bytes()));
        parts.push((self.3.info(), self.3.bytes()));
        parts
    }
}

impl<
    A: Component,
    B: Component,
    C: Component,
    D: Component,
    E: Component,
> ComponentSet for (A, B, C, D, E) {
    open spec fn members(&self) -> Seq<(TypeInfo, Seq<u8>)> {
        seq![
            (self.0.type_info(), self.0.stored()),
            (self.1.type_info(), self.1.stored()),
            (self.2.type_info(), self.2.stored()),
            (self.3.type_info(), self.3.stored()),
            (self.4.type_info(), self.4.stored()),
        ]
    }

    fn parts(&self) -> (parts: Vec<(TypeInfo, &[u8])>) {
        let mut parts: Vec<(TypeInfo, &[u8])> = Vec::new();
        parts.push((self.0.info(), self.0.bytes()));
        parts.push((self.1.info(), self.1.bytes()));
        parts.push((self.2.info(), self.2.bytes()));
        parts.push((self.3.info(), self.3.bytes()));
        parts.push((self.4.info(), self.4.bytes()));
        parts
    }
}

impl<
    A: Component,
    B: Component,
    C: Component,
    D: Component,
    E: Component,
    F: Component,
> ComponentSet for (A, B, C, D, E, F) {
    open spec fn members(&self) -> Seq<(TypeInfo, Seq<u8>)> {
        seq![
            (self.0.type_info(), self.0.stored()),
            (self.1.type_info(), self.1.stored()),
            (self.2.type_info(), self.2.stored()),
            (self.3.type_info(), self.3.stored()),
            (self.4.type_info(), self.4.stored()),
            (self.5.type_info(), self.5.stored()),
        ]
    }

    fn parts(&self) -> (parts: Vec<(TypeInfo, &[u8])>) {
        let mut parts: Vec<(TypeInfo, &[u8])> = Vec::new();
        parts.push((self.0.info(), self.0.bytes()));
        parts.push((self.1.info(), self.1.bytes()));
        parts.push((self.2.info(), self.2.bytes()));
        parts.push((self.3.info(), self.3.bytes()));
        parts.push((self.4.info(), self.4.bytes()));
        parts.push((self.5.info(), self.5.bytes()));
        parts
    }
}

impl<
    A: Component,
    B: Component,
    C: Component,
    D: Component,
    E: Component,
    F: Component,
    G: Component,
> ComponentSet for (A, B, C, D, E, F, G) {
    open spec fn members(&self) -> Seq<(TypeInfo, Seq<u8>)> {
        seq![
            (self.0.type_info(), self.0.stored()),
            (self.1.type_info(), self.1.stored()),
            (self.2.type_info(), self.2.stored()),
            (self.3.type_info(), self.3.stored()),
            (self.4.type_info(), self.4.stored()),
            (self.5.type_info(), self.5.stored()),
            (self.6.type_info(), self.6.stored()),
        ]
    }

    fn parts(&self) -> (parts: Vec<(TypeInfo, &[u8])>) {
        let mut parts: Vec<(TypeInfo, &[u8])> = Vec::new();
        parts.push((self.0.info(), self.0.bytes()));
        parts.push((self.1.info(), self.1.bytes()));
        parts.push((self.2.info(), self.2.bytes()));
        parts.push((self.3.info(), self.3.bytes()));
        parts.push((self.4.info(), self.4.bytes()));
        parts.push((self.5.info(), self.5.bytes()));
        parts.push((self.6.info(), self.6.bytes()));
        parts
    }
}

impl<
    A: Component,
    B: Component,
    C: Component,
    D: Component,
    E: Component,
    F: Component,
    G: Component,
    H: Component,
> ComponentSet for (A, B, C, D, E, F, G, H) {
    open spec fn members(&self) -> Seq<(TypeInfo, Seq<u8>)> {
        seq![
            (self.0.type_info(), self.0.stored()),
            (self.1.type_info(), self.1.stored()),
            (self.2.type_info(), self.2.stored()),
            (self.3.type_info(), self.3.stored()),
            (self.4.type_info(), self.4.stored()),
            (self.5.type_info(), self.5.stored()),
            (self.6.type_info(), self.6.stored()),
            (self.7.type_info(), self.7.stored()),
        ]
    }

    fn parts(&self) -> (parts: Vec<(TypeInfo, &[u8])>) {
        let mut parts: Vec<(TypeInfo, &[u8])> = Vec::new();
        parts.push((self.0.info(), self.0.bytes()));
        parts.push((self.1.info(), self.1.bytes()));
        parts.push((self.2.info(), self.2.bytes()));
        parts.push((self.3.info(), self.3.bytes()));
        parts.push((self.4.info(), self.4.bytes()));
        parts.push((self.5.info(), self.5.bytes()));
        parts.push((self.6.info(), self.6.bytes()));
        parts.push((self.7.info(), self.7.bytes()));
        parts
    }
}

impl<
    A: Component,
    B: Component,
    C: Component,
    D: Component,
    E: Component,
    F: Component,
    G: Component,
    H: Component,
    I: Component,
> ComponentSet for (A, B, C, D, E, F, G, H, I) {
    open spec fn members(&self) -> Seq<(TypeInfo, Seq<u8>)> {
        seq![
            (self.0.type_info(), self.0.stored()),
            (self.1.type_info(), self.1.stored()),
            (self.2.type_info(), self.2.stored()),
            (self.3.type_info(), self.3.stored()),
            (self.4.type_info(), self.4.stored()),
            (self.5.type_info(), self.5.stored()),
            (self.6.type_info(), self.6.stored()),
            (self.7.type_info(), self.7.stored()),
            (self.8.type_info(), self.8.stored()),
        ]
    }

    fn parts(&self) -> (parts: Vec<(TypeInfo, &[u8])>) {
        let mut parts: Vec<(TypeInfo, &[u8])> = Vec::new();
        parts.push((self.0.info(), self.0.bytes()));
        parts.push((self.1.info(), self.1.bytes()));
        parts.push((self.2.info(), self.2.bytes()));
        parts.push((self.3.info(), self.3.bytes()));
        parts.push((self.4.info(), self.4.bytes()));
        parts.push((self.5.info(), self.5.bytes()));
        parts.push((self.6.info(), self.6.bytes()));
        parts.push((self.7.info(), self.7.bytes()));
        parts.push((self.8.info(), self.8.bytes()));
        parts
    }
}

impl<
    A: Component,
    B: Component,
    C: Component,
    D: Component,
    E: Component,
    F: Component,
    G: Component,
    H: Component,
    I: Component,
    J: Component,
> ComponentSet for (A, B, C, D, E, F, G, H, I, J) {
    open spec fn members(&self) -> Seq<(TypeInfo, Seq<u8>)> {
        seq![
            (self.0.type_info(), self.0.stored()),
            (self.1.type_info(), self.1.stored()),
            (self.2.type_info(), self.2.stored()),
            (self.3.type_info(), self.3.stored()),
            (self.4.type_info(), self.4.stored()),
            (self.5.type_info(), self.5.stored()),
            (self.6.type_info(), self.6.stored()),
            (self.7.type_info(), self.7.stored()),
            (self.8.type_info(), self.8.stored()),
            (self.9.type_info(), self.9.stored()),
        ]
    }

    fn parts(&self) -> (parts: Vec<(TypeInfo, &[u8])>) {
        let mut parts: Vec<(TypeInfo, &[u8])> = Vec::new();
        parts.push((self.0.info(), self.0.bytes()));
        parts.push((self.1.info(), self.1.bytes()));
        parts.push((self.2.info(), self.2.bytes()));
        parts.push((self.3.info(), self.3.bytes()));
        parts.push((self.4.info(), self.4.bytes()));
        parts.push((self.5.info(), self.5.bytes()));
        parts.push((self.6.info(), self.6.bytes()));
        parts.push((self.7.info(), self.7.bytes()));
        parts.push((self.8.info(), self.8.bytes()));
        parts.push((self.9.info(), self.9.bytes()));
        parts
    }
}

impl<
    A: Component,
    B: Component,
    C: Component,
    D: Component,
    E: Component,
    F: Component,
    G: Component,
    H: Component,
    I: Component,
    J: Component,
    K: Component,
> ComponentSet for (A, B, C, D, E, F, G, H, I, J, K) {
    open spec fn members(&self) -> Seq<(TypeInfo, Seq<u8>)> {
        seq![
            (self.0.type_info(), self.0.stored()),
            (self.1.type_info(), self.1.stored()),
            (self.2.type_info(), self.2.stored()),
            (self.3.type_info(), self.3.stored()),
            (self.4.type_info(), self.4.stored()),
            (self.5.type_info(), self.5.stored()),
            (self.6.type_info(), self.6.stored()),
            (self.7.type_info(), self.7.stored()),
            (self.8.type_info(), self.8.stored()),
            (self.9.type_info(), self.9.stored()),
            (self.10.type_info(), self.10.stored()),
        ]
    }

    fn parts(&self) -> (parts: Vec<(TypeInfo, &[u8])>) {
        let mut parts: Vec<(TypeInfo, &[u8])> = Vec::new();
        parts.push((self.0.info(), self.0.bytes()));
        parts.push((self.1.info(), self.1.bytes()));
        parts.push((self.2.info(), self.2.bytes()));
        parts.push((self.3.info(), self.3.bytes()));
        parts.push((self.4.info(), self.4.bytes()));
        parts.push((self.5.info(), self.5.bytes()));
        parts.push((self.6.info(), self.6.bytes()));
        parts.push((self.7.info(), self.7.bytes()));
        parts.push((self.8.info(), self.8.bytes()));
        parts.push((self.9.info(), self.9.bytes()));
        parts.push((self.10.info(), self.10.bytes()));
        parts
    }
}

impl<
    A: Component,
    B: Component,
    C: Component,
    D: Component,
    E: Component,
    F: Component,
    G: Component,
    H: Component,
    I: Component,
    J: Component,
    K: Component,
    L: Component,
> ComponentSet for (A, B, C, D, E, F, G, H, I, J, K, L) {
    open spec fn members(&self) -> Seq<(TypeInfo, Seq<u8>)> {
        seq![
            (self.0.type_info(), self.0.stored()),
            (self.1.type_info(), self.1.stored()),
            (self.2.type_info(), self.2.stored()),
            (self.3.type_info(), self.3.stored()),
            (self.4.type_info(), self.4.stored()),
            (self.5.type_info(), self.5.stored()),
            (self.6.type_info(), self.6.stored()),
            (self.7.type_info(), self.7.stored()),
            (self.8.type_info(), self.8.stored()),
            (self.9.type_info(), self.9.stored()),
            (self.10.type_info(), self.10.stored()),
            (self.11.type_info(), self.11.stored()),
        ]
    }

    fn parts(&self) -> (parts: Vec<(TypeInfo, &[u8])>) {
        let mut parts: Vec<(TypeInfo, &[u8])> = Vec::new();
        parts.push((self.0.info(), self.0.bytes()));
        parts.push((self.1.info(), self.1.bytes()));
        parts.push((self.2.info(), self.2.bytes()));
        parts.push((self.3.info(), self.3.bytes()));
        parts.push((self.4.info(), self.4.bytes()));
        parts.push((self.5.info(), self.5.bytes()));
        parts.push((self.6.info(), self.6.bytes()));
        parts.push((self.7.info(), self.7.bytes()));
        parts.push((self.8.info(), self.8.bytes()));
        parts.push((self.9.info(), self.9.bytes()));
        parts.push((self.10.info(), self.10.bytes()));
        parts.push((self.11.info(), self.11.bytes()));
        parts
    }
}

impl<
    A: Component,
    B: Component,
    C: Component,
    D: Component,
    E: Component,
    F: Component,
    G: Component,
    H: Component,
    I: Component,
    J: Component,
    K: Component,
    L: Component,
    M: Component,
> ComponentSet for (A, B, C, D, E, F, G, H, I, J, K, L, M) {
    open spec fn members(&self) -> Seq<(TypeInfo, Seq<u8>)> {
        seq![
            (self.0.type_info(), self.0.stored()),
            (self.1.type_info(), self.1.stored()),
            (self.2.type_info(), self.2.stored()),
            (self.3.type_info(), self.3.stored()),
            (self.4.type_info(), self.4.stored()),
            (self.5.type_info(), self.5.stored()),
            (self.6.type_info(), self.6.stored()),
            (self.7.type_info(), self.7.stored()),
            (self.8.type_info(), self.8.stored()),
            (self.9.type_info(), self.9.stored()),
            (self.10.type_info(), self.10.stored()),
            (self.11.type_info(), self.11.stored()),
            (self.12.type_info(), self.12.stored()),
        ]
    }

    fn parts(&self) -> (parts: Vec<(TypeInfo, &[u8])>) {
        let mut parts: Vec<(TypeInfo, &[u8])> = Vec::new();
        parts.push((self.0.info(), self.0.bytes()));
        parts.push((self.1.info(), self.1.bytes()));
        parts.push((self.2.info(), self.2.bytes()));
        parts.push((self.3.info(), self.3.bytes()));
        parts.push((self.4.info(), self.4.bytes()));
        parts.push((self.5.info(), self.5.bytes()));
        parts.push((self.6.info(), self.6.bytes()));
        parts.push((self.7.info(), self.7.bytes()));
        parts.push((self.8.info(), self.8.bytes()));
        parts.push((self.9.info(), self.9.bytes()));
        parts.push((self.10.info(), self.10.bytes()));
        parts.push((self.11.info(), self.11.bytes()));
        parts.push((self.12.info(), self.12.bytes()));
        parts
    }
}

impl<
    A: Component,
    B: Component,
    C: Component,
    D: Component,
    E: Component,
    F: Component,
    G: Component,
    H: Component,
    I: Component,
    J: Component,
    K: Component,
    L: Component,
    M: Component,
    N: Component,
> ComponentSet for (A, B, C, D, E, F, G, H, I, J, K, L, M, N) {
    open spec fn members(&self) -> Seq<(TypeInfo, Seq<u8>)> {
        seq![
            (self.0.type_info(), self.0.stored()),
            (self.1.type_info(), self.1.stored()),
            (self.2.type_info(), self.2.stored()),
            (self.3.type_info(), self.3.stored()),
            (self.4.type_info(), self.4.stored()),
            (self.5.type_info(), self.5.stored()),
            (self.6.type_info(), self.6.stored()),
            (self.7.type_info(), self.7.stored()),
            (self.8.type_info(), self.8.stored()),
            (self.9.type_info(), self.9.stored()),
            (self.10.type_info(), self.10.stored()),
            (self.11.type_info(), self.11.stored()),
            (self.12.type_info(), self.12.stored()),
            (self.13.type_info(), self.13.stored()),
        ]
    }

    fn parts(&self) -> (parts: Vec<(TypeInfo, &[u8])>) {
        let mut parts: Vec<(TypeInfo, &[u8])> = Vec::new();
        parts.push((self.0.info(), self.0.bytes()));
        parts.push((self.1.info(), self.1.bytes()));
        parts.push((self.2.info(), self.2.bytes()));
        parts.push((self.3.info(), self.3.bytes()));
        parts.push((self.4.info(), self.4.bytes()));
        parts.push((self.5.info(), self.5.bytes()));
        parts.push((self.6.info(), self.6.bytes()));
        parts.push((self.7.info(), self.7.bytes()));
        parts.push((self.8.info(), self.8.bytes()));
        parts.push((self.9.info(), self.9.bytes()));
        parts.push((self.10.info(), self.10.bytes()));
        parts.push((self.11.info(), self.11.bytes()));
        parts.push((self.12.info(), self.12.bytes()));
        parts.push((self.13.info(), self.13.bytes()));
        parts
    }
}

} // verus!
