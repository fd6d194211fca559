//! Runtime descriptors of component types.

use std::cmp::Ordering;
use vstd::layout::{align_of, layout_for_type_is_valid, size_of, valid_layout};
use vstd::prelude::*;
use vstd::std_specs::cmp::{PartialEqSpecImpl, PartialOrdSpecImpl};

verus! {

/// A type-erased description of a component type: its identity and the
/// memory layout of one value.
///
/// Two descriptors are equal when their identities match, and they are
/// ordered by identity.
#[derive(Clone, Copy, Debug)]
pub struct TypeInfo {
    /// The identity of the component type.
    pub id: u64,
    /// The size of one value in bytes.
    pub size: usize,
    /// The alignment that the type asks for, in bytes. It belongs to the
    /// description of the type; a column of raw bytes aligns nothing.
    pub align: usize,
}

impl TypeInfo {
    /// Whether size and alignment form a layout that the allocator accepts.
    pub open spec fn valid(&self) -> bool {
        valid_layout(self.size, self.align)
    }

    /// Describes the Rust type `T` under the identity `id`.
    pub fn of<T>(id: u64) -> (info: Self)
        ensures
            info.id == id,
            info.size == size_of::<T>(),
            info.align == align_of::<T>(),
            info.valid(),
    {
        layout_for_type_is_valid::<T>();
        TypeInfo { id, size: std::mem::size_of::<T>(), align: std::mem::align_of::<T>() }
    }
}

impl PartialEq for TypeInfo {
    fn eq(&self, other: &Self) -> (r: bool) {
        self.id == other.id
    }
}

impl PartialEqSpecImpl for TypeInfo {
    open spec fn obeys_eq_spec() -> bool {
        true
    }

    open spec fn eq_spec(&self, other: &Self) -> bool {
        self.id == other.id
    }
}

impl Eq for TypeInfo {

}

impl PartialOrd for TypeInfo {
    fn partial_cmp(&self, other: &Self) -> (r: Option<Ordering>) {
        if self.id < other.id {
            Some(Ordering::Less)
        } else if self.id == other.id {
            Some(Ordering::Equal)
        } else {
            Some(Ordering::Greater)
        }
    }
}

impl PartialOrdSpecImpl for TypeInfo {
    open spec fn obeys_partial_cmp_spec() -> bool {
        true
    }

    open spec fn partial_cmp_spec(&self, other: &Self) -> Option<Ordering> {
        if self.id < other.id {
            Some(Ordering::Less)
        } else if self.id == other.id {
            Some(Ordering::Equal)
        } else {
            Some(Ordering::Greater)
        }
    }
}

} // verus!
