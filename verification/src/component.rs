//! Component values: what a row holds in one column.

use crate::type_info::TypeInfo;
use vstd::prelude::*;

verus! {

/// Signifies that a value can be stored as a component: it names its type
/// and hands out the bytes that stand for it.
pub trait Component: Sized {
    /// The descriptor of the component's type.
    spec fn type_info(&self) -> TypeInfo;

    /// The bytes that are stored for the component.
    spec fn stored(&self) -> Seq<u8>;

    /// The descriptor of the component's type.
    fn info(&self) -> (info: TypeInfo)
        ensures
            info == self.type_info(),
    ;

    /// The bytes that are stored for the component.
    fn bytes(&self) -> (bytes: &[u8])
        ensures
            bytes@ == self.stored(),
    ;
}

/// A component with data: a descriptor and as many bytes as it asks for.
#[derive(Clone, Debug)]
pub struct Value {
    info: TypeInfo,
    bytes: Vec<u8>,
}

impl Value {
    /// A value of the type `info`, or `None` where `bytes` is not exactly
    /// one value long.
    pub fn new(info: TypeInfo, bytes: Vec<u8>) -> (value: Option<Self>)
        ensures
            value is Some <==> bytes@.len() == info.size,
            value matches Some(v) ==> v.type_info() == info && v.stored() == bytes@,
    {
        if bytes.len() == info.size {
            Some(Value { info, bytes })
        } else {
            None
        }
    }
}

impl Component for Value {
    closed spec fn type_info(&self) -> TypeInfo {
        self.info
    }

    closed spec fn stored(&self) -> Seq<u8> {
        self.bytes@
    }

    fn info(&self) -> (info: TypeInfo) {
        self.info
    }

    fn bytes(&self) -> (bytes: &[u8]) {
        self.bytes.as_slice()
    }
}

/// A component without data: its presence on an entity is all it says.
#[derive(Clone, Copy, Debug)]
pub struct Marker {
    /// The identity of the marker's type.
    pub id: u64,
}

impl Marker {
    /// The marker of the type `id`.
    pub fn new(id: u64) -> (marker: Self)
        ensures
            marker.id == id,
    {
        Marker { id }
    }
}

impl Component for Marker {
    open spec fn type_info(&self) -> TypeInfo {
        TypeInfo { id: self.id, size: 0, align: 1 }
    }

    open spec fn stored(&self) -> Seq<u8> {
        Seq::empty()
    }

    fn info(&self) -> (info: TypeInfo) {
        TypeInfo { id: self.id, size: 0, align: 1 }
    }

    fn bytes(&self) -> (bytes: &[u8]) {
        let empty: &[u8] = &[];
        assert(empty@.len() == 0);
        assert(empty@ =~= Seq::<u8>::empty());
        empty
    }
}

} // verus!
