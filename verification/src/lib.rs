//! A store for records with mandatory properties and optional typed
//! attachments.
//!
//! A collection keeps its records in a generational arena, which hands out
//! handles that stay valid until the record is removed and are never valid
//! again afterwards. The payloads of the attachments stand in one pool per
//! attachment type; a record in the collection holds a pool handle for each
//! attachment that it carries. For each attachment type a bit set marks the
//! slots whose record carries it, so that the records that carry given
//! attachment types are found without a walk over all of them.

pub mod bitset;
pub mod genarena;
pub mod pool;
pub mod presence;

mod component_storage;
mod entity;
mod entity_list;
mod iter;
mod laws;
mod pooled;

pub use component_storage::ComponentsStorage;
pub use entity::{ChangeComponent, Component, EntityBase, EntityOwnedBase, EntityRefBase, RefComponent};
pub use entity_list::{
    held, in_schema, pooled_payload, same_arena, schema_of, EntityId, EntityList, DEFAULT_BITSET_CAPACITY,
};
pub use pooled::{Pooled, PooledMut};
pub use iter::{MultiComponent, MultiComponentIter, MultiComponentIterMut, SingleComponentIter};
