//! An entity-component store with a spatial hash, and the compiler of the
//! schema that describes such a store.
//!
//! Entities are bare identities to which components are attached. Each kind
//! of component lives in a container of its own, chosen among four that
//! differ in cost and iteration order and in nothing that a caller can
//! observe otherwise. A grid of cells summarises, for every coordinate, the
//! entities positioned there; every mutation brings the summaries up to date.

pub mod aggregate;
pub mod aggregate_type;
pub mod bits;
pub mod code_gen;
pub mod component;
pub mod component_type_set;
pub mod coord;
pub mod direction;
pub mod entity_change;
pub mod entity_component_table;
pub mod entity_store;
pub mod entity_store_raw;
pub mod flat_collections;
pub mod grid;
pub mod id;
pub mod id_allocator;
pub mod input;
pub mod keyed;
pub mod laws;
pub mod neighbours;
pub mod ordered;
pub mod output;
pub mod result;
pub mod schema;
pub mod spatial_hash;
pub mod storage;
pub mod storage_type;
pub mod strings;
pub mod vec_collections;

pub use aggregate_type::AggregateType;
pub use component::{ComponentRef, ComponentType, ComponentValue};
pub use component_type_set::{ComponentTypeSet, ComponentTypeSetIter};
pub use coord::{Coord, Size};
pub use direction::Direction;
pub use entity_change::EntityChange;
pub use entity_component_table::EntityComponentTable;
pub use entity_store::EntityStore;
pub use entity_store_raw::{EntityStoreRaw, StorageConfig};
pub use id::{EntityId, EntityIdRaw, EntityIdRuntimeChecked, EntityIdToFree, EntityIdToStore, EntityWit};
pub use result::{GenError, GenResult};
pub use spatial_hash::{SpatialHashCell, SpatialHashTable};
pub use storage::{ComponentMap, ComponentSet};
pub use storage_type::StorageType;
