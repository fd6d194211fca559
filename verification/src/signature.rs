//! Canonical signatures: the identities of a component group in ascending
//! order.

use crate::type_info::TypeInfo;
use smallvec::SmallVec;
use vstd::prelude::*;

verus! {

/// The identities of a sequence of descriptors, in the same order.
pub open spec fn ids_of(types: Seq<TypeInfo>) -> Seq<u64> {
    Seq::new(types.len(), |i: int| types[i].id)
}

/// Whether the identities are strictly ascending, and hence distinct.
pub open spec fn ascending(ids: Seq<u64>) -> bool {
    forall|i: int, j: int| 0 <= i < j < ids.len() ==> ids[i] < ids[j]
}

/// In a strictly ascending sequence every identity is found at its own
/// position and nowhere else.
pub proof fn lemma_ascending_index_of(ids: Seq<u64>, i: int)
    requires
        ascending(ids),
        0 <= i < ids.len(),
    ensures
        ids.contains(ids[i]),
        ids.index_of(ids[i]) == i,
{
    let j = ids.index_of(ids[i]);
    assert(0 <= j < ids.len() && ids[j] == ids[i]);
    if j < i {
        assert(ids[j] < ids[i]);
    } else if i < j {
        assert(ids[i] < ids[j]);
    }
}

/// A strictly ascending sequence is determined by the set of its elements:
/// two of them that hold the same identities are equal.
pub proof fn lemma_ascending_unique(a: Seq<u64>, b: Seq<u64>)
    requires
        ascending(a),
        ascending(b),
        forall|x: u64| a.contains(x) <==> b.contains(x),
    ensures
        a == b,
    decreases a.len(),
{
    if a.len() == 0 {
        if b.len() > 0 {
            assert(b.contains(b[0]));
            assert(a.contains(b[0]));
        }
        assert(a =~= b);
    } else if b.len() == 0 {
        assert(a.contains(a[0]));
        assert(b.contains(a[0]));
    } else {
        let x = a.last();
        let y = b.last();
        assert(a.contains(x));
        assert(b.contains(y));
        assert(b.contains(x));
        assert(a.contains(y));
        let ix = choose|k: int| 0 <= k < b.len() && b[k] == x;
        let iy = choose|k: int| 0 <= k < a.len() && a[k] == y;
        assert(x <= y) by {
            if ix < b.len() - 1 {
                assert(b[ix] < b[b.len() - 1]);
            }
        }
        assert(y <= x) by {
            if iy < a.len() - 1 {
                assert(a[iy] < a[a.len() - 1]);
            }
        }
        let a0 = a.drop_last();
        let b0 = b.drop_last();
        assert forall|z: u64| a0.contains(z) <==> b0.contains(z) by {
            if a0.contains(z) {
                let k = choose|k: int| 0 <= k < a0.len() && a0[k] == z;
                assert(a[k] == z);
                assert(a[k] < a[a.len() - 1]);
                assert(a.contains(z));
                let m = choose|m: int| 0 <= m < b.len() && b[m] == z;
                assert(m < b.len() - 1);
                assert(b0[m] == z);
            }
            if b0.contains(z) {
                let k = choose|k: int| 0 <= k < b0.len() && b0[k] == z;
                assert(b[k] == z);
                assert(b[k] < b[b.len() - 1]);
                assert(b.contains(z));
                let m = choose|m: int| 0 <= m < a.len() && a[m] == z;
                assert(m < a.len() - 1);
                assert(a0[m] == z);
            }
        }
        lemma_ascending_unique(a0, b0);
        assert(a =~= a0.push(x));
        assert(b =~= b0.push(y));
    }
}

/// Whether no two of the descriptors share an identity.
pub open spec fn distinct(members: Seq<TypeInfo>) -> bool {
    forall|i: int, j: int| 0 <= i < j < members.len() ==> members[i].id != members[j].id
}

/// Whether `signature` is the canonical arrangement of `members`: the same
/// descriptors, in strictly ascending order of identity.
pub open spec fn signs(signature: Seq<TypeInfo>, members: Seq<TypeInfo>) -> bool {
    &&& ascending(ids_of(signature))
    &&& forall|i: int| 0 <= i < members.len() ==> signature.contains(#[trigger] members[i])
    &&& forall|j: int| 0 <= j < signature.len() ==> members.contains(#[trigger] signature[j])
}

/// The order in which the members of a group are declared does not matter:
/// two groups that hold the same descriptors have the same signature.
pub proof fn lemma_signature_canonical(
    first: Seq<TypeInfo>,
    second: Seq<TypeInfo>,
    members: Seq<TypeInfo>,
    reordered: Seq<TypeInfo>,
)
    requires
        distinct(members),
        forall|x: TypeInfo| members.contains(x) <==> reordered.contains(x),
        signs(first, members),
        signs(second, reordered),
    ensures
        first == second,
{
    let a = ids_of(first);
    let b = ids_of(second);
    assert forall|x: u64| a.contains(x) <==> b.contains(x) by {
        if a.contains(x) {
            let k = choose|k: int| 0 <= k < a.len() && a[k] == x;
            assert(members.contains(first[k]));
            assert(reordered.contains(first[k]));
            let i = choose|i: int| 0 <= i < reordered.len() && reordered[i] == first[k];
            assert(second.contains(reordered[i]));
            let m = choose|m: int| 0 <= m < second.len() && second[m] == first[k];
            assert(b[m] == x);
        }
        if b.contains(x) {
            let k = choose|k: int| 0 <= k < b.len() && b[k] == x;
            assert(reordered.contains(second[k]));
            assert(members.contains(second[k]));
            let i = choose|i: int| 0 <= i < members.len() && members[i] == second[k];
            assert(first.contains(members[i]));
            let m = choose|m: int| 0 <= m < first.len() && first[m] == second[k];
            assert(a[m] == x);
        }
    }
    lemma_ascending_unique(a, b);
    assert(first.len() == a.len() && second.len() == b.len());
    assert forall|k: int| 0 <= k < first.len() implies first[k] == second[k] by {
        assert(a[k] == b[k]);
        assert(members.contains(first[k]));
        assert(reordered.contains(second[k]));
        assert(members.contains(second[k]));
        let i = choose|i: int| 0 <= i < members.len() && members[i] == first[k];
        let j = choose|j: int| 0 <= j < members.len() && members[j] == second[k];
        if i < j {
            assert(members[i].id != members[j].id);
        } else if j < i {
            assert(members[j].id != members[i].id);
        }
    }
    assert(first =~= second);
}

/// The signature of a group: its descriptors in strictly ascending order of
/// identity.
pub open spec fn signature_of(members: Seq<TypeInfo>) -> Seq<TypeInfo> {
    choose|signature: Seq<TypeInfo>| signs(signature, members)
}

/// An ascending signature with one more descriptor at its place.
proof fn lemma_insert(signature: Seq<TypeInfo>, info: TypeInfo) -> (longer: Seq<TypeInfo>)
    requires
        ascending(ids_of(signature)),
        !ids_of(signature).contains(info.id),
    ensures
        ascending(ids_of(longer)),
        longer.contains(info),
        forall|i: int| 0 <= i < signature.len() ==> longer.contains(#[trigger] signature[i]),
        forall|j: int|
            0 <= j < longer.len() ==> (#[trigger] longer[j]) == info || signature.contains(
                longer[j],
            ),
    decreases signature.len(),
{
    if signature.len() == 0 || signature.last().id < info.id {
        let longer = signature.push(info);
        assert(longer[signature.len() as int] == info);
        assert forall|i: int, j: int| 0 <= i < j < longer.len() implies ids_of(longer)[i]
            < ids_of(longer)[j] by {
            if j < signature.len() {
                assert(ids_of(signature)[i] < ids_of(signature)[j]);
            } else if i < signature.len() - 1 {
                assert(ids_of(signature)[i] < ids_of(signature)[signature.len() - 1]);
            }
        }
        assert forall|i: int| 0 <= i < signature.len() implies longer.contains(
            #[trigger] signature[i],
        ) by {
            assert(longer[i] == signature[i]);
        }
        assert forall|j: int| 0 <= j < longer.len() implies (#[trigger] longer[j]) == info
            || signature.contains(longer[j]) by {
            if j < signature.len() {
                assert(signature[j] == longer[j]);
            }
        }
        longer
    } else {
        let last = signature.last();
        let shorter = signature.drop_last();
        assert(ids_of(signature)[signature.len() - 1] == last.id);
        assert(last.id != info.id);
        assert forall|i: int, j: int| 0 <= i < j < shorter.len() implies ids_of(shorter)[i]
            < ids_of(shorter)[j] by {
            assert(ids_of(signature)[i] < ids_of(signature)[j]);
        }
        if ids_of(shorter).contains(info.id) {
            let k = choose|k: int| 0 <= k < shorter.len() && ids_of(shorter)[k] == info.id;
            assert(ids_of(signature)[k] == info.id);
        }
        let middle = lemma_insert(shorter, info);
        let longer = middle.push(last);
        assert forall|i: int, j: int| 0 <= i < j < longer.len() implies ids_of(longer)[i]
            < ids_of(longer)[j] by {
            if j < middle.len() {
                assert(ids_of(middle)[i] < ids_of(middle)[j]);
            } else {
                if middle[i] != info {
                    assert(shorter.contains(middle[i]));
                    let k = choose|k: int| 0 <= k < shorter.len() && shorter[k] == middle[i];
                    assert(ids_of(signature)[k] < ids_of(signature)[signature.len() - 1]);
                }
            }
        }
        assert(middle.contains(info));
        let at = choose|k: int| 0 <= k < middle.len() && middle[k] == info;
        assert(longer[at] == info);
        assert forall|i: int| 0 <= i < signature.len() implies longer.contains(
            #[trigger] signature[i],
        ) by {
            if i < shorter.len() {
                assert(shorter[i] == signature[i]);
                assert(middle.contains(shorter[i]));
                let k = choose|k: int| 0 <= k < middle.len() && middle[k] == shorter[i];
                assert(longer[k] == signature[i]);
            } else {
                assert(longer[middle.len() as int] == signature[i]);
            }
        }
        assert forall|j: int| 0 <= j < longer.len() implies (#[trigger] longer[j]) == info
            || signature.contains(longer[j]) by {
            if j < middle.len() {
                assert(longer[j] == middle[j]);
                if middle[j] != info {
                    assert(shorter.contains(middle[j]));
                    let k = choose|k: int| 0 <= k < shorter.len() && shorter[k] == middle[j];
                    assert(signature[k] == middle[j]);
                }
            } else {
                assert(signature[signature.len() - 1] == longer[j]);
            }
        }
        longer
    }
}

/// A signature of a group without repeated identities.
proof fn lemma_build(members: Seq<TypeInfo>) -> (signature: Seq<TypeInfo>)
    requires
        distinct(members),
    ensures
        signs(signature, members),
    decreases members.len(),
{
    if members.len() == 0 {
        Seq::empty()
    } else {
        let info = members.last();
        let rest = members.drop_last();
        let shorter = lemma_build(rest);
        if ids_of(shorter).contains(info.id) {
            let k = choose|k: int| 0 <= k < shorter.len() && ids_of(shorter)[k] == info.id;
            assert(rest.contains(shorter[k]));
            let i = choose|i: int| 0 <= i < rest.len() && rest[i] == shorter[k];
            assert(members[i].id != members[members.len() - 1].id);
        }
        let signature = lemma_insert(shorter, info);
        assert forall|i: int| 0 <= i < members.len() implies signature.contains(
            #[trigger] members[i],
        ) by {
            if i < rest.len() {
                assert(rest[i] == members[i]);
                assert(shorter.contains(rest[i]));
                let k = choose|k: int| 0 <= k < shorter.len() && shorter[k] == rest[i];
                assert(signature.contains(shorter[k]));
            }
        }
        assert forall|j: int| 0 <= j < signature.len() implies members.contains(
            #[trigger] signature[j],
        ) by {
            if signature[j] == info {
                assert(members[members.len() - 1] == info);
            } else {
                assert(shorter.contains(signature[j]));
                let k = choose|k: int| 0 <= k < shorter.len() && shorter[k] == signature[j];
                assert(rest.contains(shorter[k]));
                let i = choose|i: int| 0 <= i < rest.len() && rest[i] == shorter[k];
                assert(members[i] == signature[j]);
            }
        }
        signature
    }
}

/// Every group without repeated identities has exactly one signature.
pub proof fn lemma_signature_of(members: Seq<TypeInfo>)
    requires
        distinct(members),
    ensures
        signs(signature_of(members), members),
        forall|signature: Seq<TypeInfo>| #[trigger]
            signs(signature, members) ==> signature == signature_of(members),
{
    let built = lemma_build(members);
    assert(signs(signature_of(members), members));
    assert forall|signature: Seq<TypeInfo>| #[trigger] signs(signature, members) implies signature
        == signature_of(members) by {
        lemma_signature_canonical(signature, signature_of(members), members, members);
    }
}

/// Puts `info` at its place in an ascending signature that lacks it.
pub fn insert_sorted(signature: &mut Vec<TypeInfo>, info: TypeInfo)
    requires
        ascending(ids_of(old(signature)@)),
        !ids_of(old(signature)@).contains(info.id),
    ensures
        ascending(ids_of(final(signature)@)),
        final(signature)@.len() == old(signature)@.len() + 1,
        final(signature)@.contains(info),
        forall|i: int|
            0 <= i < old(signature)@.len() ==> final(signature)@.contains(
                #[trigger] old(signature)@[i],
            ),
        forall|j: int|
            0 <= j < final(signature)@.len() ==> (#[trigger] final(signature)@[j]) == info
                || old(signature)@.contains(final(signature)@[j]),
{
    let mut at: usize = 0;
    while at < signature.len() && signature[at].id < info.id
        invariant
            at <= signature@.len(),
            signature@ == old(signature)@,
            forall|k: int| 0 <= k < at ==> (#[trigger] signature@[k]).id < info.id,
        decreases signature@.len() - at,
    {
        at += 1;
    }
    signature.insert(at, info);
    proof {
        let before = old(signature)@;
        let after = signature@;
        assert forall|k: int| at <= k < before.len() implies (#[trigger] before[k]).id
            > info.id by {
            assert(ids_of(before)[k] == before[k].id);
            if before[k].id == info.id {
                assert(ids_of(before).contains(info.id));
            }
            if k > at {
                assert(ids_of(before)[at as int] < ids_of(before)[k]);
            }
        }
        assert forall|i: int, j: int| 0 <= i < j < after.len() implies ids_of(after)[i]
            < ids_of(after)[j] by {
            if j < at {
                assert(ids_of(before)[i] < ids_of(before)[j]);
            } else if j == at {
            } else if i < at {
                assert(ids_of(before)[i] < ids_of(before)[j - 1]);
            } else if i == at {
            } else {
                assert(ids_of(before)[i - 1] < ids_of(before)[j - 1]);
            }
        }
        assert(after[at as int] == info);
        assert forall|i: int| 0 <= i < before.len() implies after.contains(
            #[trigger] before[i],
        ) by {
            if i < at {
                assert(after[i] == before[i]);
            } else {
                assert(after[i + 1] == before[i]);
            }
        }
        assert forall|j: int| 0 <= j < after.len() implies (#[trigger] after[j]) == info
            || before.contains(after[j]) by {
            if j < at {
                assert(before[j] == after[j]);
            } else if j > at {
                assert(before[j - 1] == after[j]);
            }
        }
    }
}

/// How many identities a lookup key holds without leaving the stack.
pub const N_STACK_TYPE_IDS: usize = 32;

/// A signature that is built on the stack to look an archetype up.
///
/// It holds a `smallvec::SmallVec`, into which Verus does not look: what
/// a key holds is known only as `key_ids`, through the contracts of `new`,
/// `push` and `as_slice`, which are taken on trust from the source of
/// `smallvec`.
#[verifier::external_body]
pub struct SignatureKey {
    ids: SmallVec<[u64; N_STACK_TYPE_IDS]>,
}

/// The identities that a lookup key holds, in the order of their arrival:
/// the elements of its `SmallVec`.
pub uninterp spec fn key_ids(key: SignatureKey) -> Seq<u64>;

impl SignatureKey {
    /// An empty key. Calls `SmallVec::new`, which returns a vector without
    /// elements.
    #[verifier::external_body]
    pub(crate) fn new() -> (key: Self)
        ensures
            key_ids(key) == Seq::<u64>::empty(),
    {
        SignatureKey { ids: SmallVec::new() }
    }

    /// Appends `id`. Calls `SmallVec::push`, which writes the value behind
    /// the last element and panics only where the grown capacity would not
    /// fit the address space.
    #[verifier::external_body]
    pub(crate) fn push(&mut self, id: u64)
        requires
            key_ids(*old(self)).len() < 0x100_0000,
        ensures
            key_ids(*final(self)) == key_ids(*old(self)).push(id),
    {
        self.ids.push(id)
    }

    /// The identities as a slice. Calls `SmallVec::as_slice`, which borrows
    /// all elements in order.
    #[verifier::external_body]
    pub(crate) fn as_slice(&self) -> (ids: &[u64])
        ensures
            ids@ == key_ids(*self),
    {
        self.ids.as_slice()
    }
}

/// Whether two signatures hold the same identities in the same order.
pub fn same_ids(first: &[u64], second: &[u64]) -> (same: bool)
    ensures
        same == (first@ == second@),
{
    if first.len() != second.len() {
        return false;
    }
    let mut k: usize = 0;
    while k < first.len()
        invariant
            k <= first@.len(),
            first@.len() == second@.len(),
            forall|x: int| 0 <= x < k ==> first@[x] == second@[x],
        decreases first@.len() - k,
    {
        if first[k] != second[k] {
            return false;
        }
        k += 1;
    }
    assert(first@ =~= second@);
    true
}

/// The registry of signatures: which archetype stores the entities of each
/// signature seen so far.
///
/// It is a list that is searched from the front, not a hash map: vstd
/// models a `HashMap` only for keys that are integers, and of one keyed by
/// a sequence of identities Verus proves nothing.
pub struct SignatureIndex {
    keys: Vec<Vec<u64>>,
    slots: Vec<usize>,
}

impl SignatureIndex {
    /// The invariant of the registry: every signature is listed once.
    pub closed spec fn wf(&self) -> bool {
        &&& self.keys@.len() == self.slots@.len()
        &&& forall|i: int, j: int|
            0 <= i < j < self.keys@.len() ==> (#[trigger] self.keys@[i])@ != (
            #[trigger] self.keys@[j])@
    }

    /// Whether `key` is listed at the position `at`.
    spec fn listed(&self, key: Seq<u64>, at: int) -> bool {
        0 <= at < self.keys@.len() && self.keys@[at]@ == key
    }

    /// The registry as a map from signature to archetype.
    pub closed spec fn view(&self) -> Map<Seq<u64>, usize> {
        Map::new(
            |key: Seq<u64>| exists|at: int| self.listed(key, at),
            |key: Seq<u64>| self.slots@[choose|at: int| self.listed(key, at)],
        )
    }

    /// A registry without signatures.
    pub fn new() -> (index: Self)
        ensures
            index.wf(),
            index@ == Map::<Seq<u64>, usize>::empty(),
    {
        let index = SignatureIndex { keys: Vec::new(), slots: Vec::new() };
        assert(index@ =~= Map::<Seq<u64>, usize>::empty());
        index
    }

    /// The archetype that stores the signature `key`, if one does.
    pub fn get(&self, key: &[u64]) -> (slot: Option<usize>)
        requires
            self.wf(),
        ensures
            slot == (if self@.contains_key(key@) {
                Some(self@[key@])
            } else {
                None
            }),
    {
        let mut at: usize = 0;
        while at < self.keys.len()
            invariant
                self.wf(),
                at <= self.keys@.len(),
                forall|k: int| 0 <= k < at ==> !self.listed(key@, k),
            decreases self.keys@.len() - at,
        {
            if same_ids(self.keys[at].as_slice(), key) {
                proof {
                    assert(self.listed(key@, at as int));
                    let chosen = choose|k: int| self.listed(key@, k);
                    assert(chosen == at);
                }
                return Some(self.slots[at]);
            }
            at += 1;
        }
        None
    }

    /// Lists `key` as stored by the archetype `slot`, in place of what was
    /// listed for it before.
    pub fn insert(&mut self, key: Vec<u64>, slot: usize)
        requires
            old(self).wf(),
        ensures
            final(self).wf(),
            final(self)@ == old(self)@.insert(key@, slot),
    {
        let mut at: usize = 0;
        while at < self.keys.len()
            invariant
                self.wf(),
                *self == *old(self),
                at <= self.keys@.len(),
                forall|k: int| 0 <= k < at ==> !self.listed(key@, k),
            decreases self.keys@.len() - at,
        {
            if same_ids(self.keys[at].as_slice(), key.as_slice()) {
                self.slots[at] = slot;
                proof {
                    assert forall|other: Seq<u64>| #[trigger]
                        self@.contains_key(other) == old(self)@.insert(key@, slot).contains_key(
                            other,
                        ) by {
                        if old(self).listed(other, at as int) {
                            assert(self.listed(other, at as int));
                        }
                        if exists|k: int| self.listed(other, k) {
                            let k = choose|k: int| self.listed(other, k);
                            assert(old(self).listed(other, k));
                        }
                        if exists|k: int| old(self).listed(other, k) {
                            let k = choose|k: int| old(self).listed(other, k);
                            assert(self.listed(other, k));
                        }
                        assert(old(self).listed(key@, at as int));
                    }
                    assert forall|other: Seq<u64>| self@.contains_key(other) implies
                        #[trigger] self@[other] == old(self)@.insert(key@, slot)[other] by {
                        let k = choose|k: int| self.listed(other, k);
                        assert(old(self).listed(other, k));
                        let m = choose|m: int| old(self).listed(other, m);
                        assert(old(self).listed(other, m));
                        assert(k == m);
                        if other == key@ {
                            assert(self.listed(key@, at as int));
                            assert(k == at);
                        }
                    }
                    assert(self@ =~= old(self)@.insert(key@, slot));
                }
                return ;
            }
            at += 1;
        }
        let ghost listed_before = self.keys@.len() as int;
        self.keys.push(key);
        self.slots.push(slot);
        proof {
            assert forall|i: int, j: int| 0 <= i < j < self.keys@.len() implies (
            #[trigger] self.keys@[i])@ != (#[trigger] self.keys@[j])@ by {
                if j == listed_before {
                    assert(!old(self).listed(key@, i));
                } else {
                    assert(old(self).keys@[i]@ != old(self).keys@[j]@);
                }
            }
            assert(self.listed(key@, listed_before));
            assert forall|other: Seq<u64>| #[trigger]
                self@.contains_key(other) == old(self)@.insert(key@, slot).contains_key(other) by {
                if exists|k: int| self.listed(other, k) {
                    let k = choose|k: int| self.listed(other, k);
                    if k < listed_before {
                        assert(old(self).listed(other, k));
                    }
                }
                if exists|k: int| old(self).listed(other, k) {
                    let k = choose|k: int| old(self).listed(other, k);
                    assert(self.listed(other, k));
                }
            }
            assert forall|other: Seq<u64>| self@.contains_key(other) implies #[trigger] self@[other]
                == old(self)@.insert(key@, slot)[other] by {
                let k = choose|k: int| self.listed(other, k);
                if other == key@ {
                    assert(self.listed(key@, listed_before));
                    if k < listed_before {
                        assert(old(self).listed(key@, k));
                    }
                    assert(k == listed_before);
                } else {
                    assert(k < listed_before);
                    assert(old(self).listed(other, k));
                    let m = choose|m: int| old(self).listed(other, m);
                    assert(old(self).listed(other, m));
                    assert(k == m);
                }
            }
            assert(self@ =~= old(self)@.insert(key@, slot));
        }
    }
}

} // verus!
