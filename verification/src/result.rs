use vstd::prelude::*;

verus! {

/// What can be wrong with a schema.
#[derive(Debug)]
pub enum GenError {
    /// A component names a container that does not exist. The names that
    /// exist are listed.
    InvalidStorageType(Vec<String>),
    /// A field of the spatial hash names an aggregate that does not exist.
    /// The names that exist are listed.
    InvalidAggregateType(Vec<String>),
    /// A field of the spatial hash, or the key of the spatial hash, names a
    /// component that the schema does not declare.
    NoSuchComponent(String),
    /// The schema declares fields for the spatial hash, but no component
    /// that holds the position.
    MissingSpatialHashKey,
    /// The width of the entity ids is not one of the widths listed.
    InvalidIdWidth(Vec<usize>),
    /// A field of the spatial hash needs to read what is stored of a
    /// component for which the schema names no container.
    MissingStorageType(String),
    /// The schema declares no component.
    NoComponents,
}

pub type GenResult<T> = Result<T, GenError>;

} // verus!
