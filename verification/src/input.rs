use vstd::prelude::*;
use crate::keyed::KeyedMap;

verus! {

/// The width of the entity ids where the schema names none.
pub const DEFAULT_ID_WIDTH: usize = 64;

/// A schema as it is written down: every name is still a string.
pub struct Spec {
    /// The components, by their keys.
    pub components: KeyedMap<Component>,
    /// The fields of the cells of the spatial hash, by their keys.
    pub spatial_hash: KeyedMap<SpatialHashField>,
    /// The key of the component that holds the position of an entity.
    pub spatial_hash_key: Option<String>,
    /// The width of the entity ids in bits.
    pub id_width: usize,
}

/// A component as it is written down.
pub struct Component {
    /// The type of the value, where the component has one.
    pub typ: Option<String>,
    /// The name of the component in code, where it is not to be made from the key.
    pub name_override: Option<String>,
    /// The name of the container that holds the component.
    pub storage: Option<String>,
}

/// A field of the cells of the spatial hash as it is written down.
pub struct SpatialHashField {
    /// The key of the component that the field summarises.
    pub component: String,
    /// The name of the aggregate.
    pub aggregate: Option<String>,
    /// The type of the field, where it is not to follow from the aggregate.
    pub typ: Option<String>,
}

impl Spec {
    /// A schema that declares nothing.
    pub fn new() -> (s: Self)
        ensures
            s.components.wf(),
            s.spatial_hash.wf(),
            s.components.keys().len() == 0,
            s.spatial_hash.keys().len() == 0,
            s.spatial_hash_key is None,
            s.id_width == DEFAULT_ID_WIDTH,
    {
        Spec {
            components: KeyedMap::new(),
            spatial_hash: KeyedMap::new(),
            spatial_hash_key: None,
            id_width: DEFAULT_ID_WIDTH,
        }
    }
}

} // verus!
