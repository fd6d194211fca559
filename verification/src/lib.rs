//! A columnar store that attaches dynamically composed groups of typed values
//! to opaque entity handles and iterates them by component combination.

use vstd::prelude::*;

pub mod archetype;
pub mod component;
pub mod component_set;
pub mod query;
pub mod signature;
pub mod simple;
pub mod type_info;
pub mod world;

pub use archetype::{Archetype, Dropped};
pub use component::{Component, Marker, Value};
pub use component_set::ComponentSet;
pub use query::{ComponentRef, Entity, Mut, Query, QueryMut, Ref, Rows, RowsMut};
pub use type_info::TypeInfo;
pub use world::{Location, World};

verus! {

/// An opaque, densely assigned handle of one entity.
pub type EntityId = u32;

} // verus!
