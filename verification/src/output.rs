use vstd::prelude::*;
use crate::keyed::KeyedMap;

verus! {

/// The names under which generated code finds the container of a component.
pub struct StorageInfo {
    pub typ: String,
    pub rust_type: String,
    pub map_iter_wrapper: String,
    pub set_iter_wrapper: String,
    pub set_iter: String,
    pub map_iter: String,
    pub map_keys: String,
}

/// A component as generated code sees it.
pub struct Component {
    pub typ: Option<String>,
    pub name: String,
    pub storage: Option<StorageInfo>,
    pub index: usize,
    pub key: String,
    pub contains: String,
    pub tracked_by_spatial_hash: bool,
}

/// The aggregate of a field of the spatial hash as generated code sees it.
pub struct AggregateInfo {
    pub typ: String,
    pub rust_type: String,
}

/// The fields of the spatial hash that summarise one component, with the
/// one lookup that serves them all.
pub struct ByComponentInfo {
    pub has_fields: bool,
    pub fields: KeyedMap<SpatialHashField>,
    pub lookup: Option<String>,
    pub component: Component,
}

/// A field of the spatial hash as generated code sees it.
pub struct SpatialHashField {
    pub key: String,
    pub aggregate: AggregateInfo,
    pub component: Component,
}

/// The spatial hash as generated code sees it.
pub struct SpatialHash {
    pub fields: KeyedMap<SpatialHashField>,
    pub by_component: KeyedMap<ByComponentInfo>,
    pub position_component: Component,
    pub has_neighbours: bool,
}

/// A schema as generated code sees it.
pub struct Spec {
    pub components: KeyedMap<Component>,
    pub spatial_hash: Option<SpatialHash>,
    pub id_type: String,
    pub num_component_types: usize,
}

/// A copy of an optional string.
pub fn copy_text(text: &Option<String>) -> (r: Option<String>)
    ensures
        r == *text,
{
    match text {
        Some(t) => Some(t.clone()),
        None => None,
    }
}

impl StorageInfo {
    /// A copy of the value.
    pub fn copy(&self) -> (r: Self)
        ensures
            r == *self,
    {
        StorageInfo {
            typ: self.typ.clone(),
            rust_type: self.rust_type.clone(),
            map_iter_wrapper: self.map_iter_wrapper.clone(),
            set_iter_wrapper: self.set_iter_wrapper.clone(),
            set_iter: self.set_iter.clone(),
            map_iter: self.map_iter.clone(),
            map_keys: self.map_keys.clone(),
        }
    }
}

impl Component {
    /// A copy of the value.
    pub fn copy(&self) -> (r: Self)
        ensures
            r == *self,
    {
        Component {
            typ: copy_text(&self.typ),
            name: self.name.clone(),
            storage: match &self.storage {
                Some(s) => Some(s.copy()),
                None => None,
            },
            index: self.index,
            key: self.key.clone(),
            contains: self.contains.clone(),
            tracked_by_spatial_hash: self.tracked_by_spatial_hash,
        }
    }
}

impl AggregateInfo {
    /// A copy of the value.
    pub fn copy(&self) -> (r: Self)
        ensures
            r == *self,
    {
        AggregateInfo { typ: self.typ.clone(), rust_type: self.rust_type.clone() }
    }
}

impl SpatialHashField {
    /// A copy of the value.
    pub fn copy(&self) -> (r: Self)
        ensures
            r == *self,
    {
        SpatialHashField {
            key: self.key.clone(),
            aggregate: self.aggregate.copy(),
            component: self.component.copy(),
        }
    }
}

} // verus!
