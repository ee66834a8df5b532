use vstd::prelude::*;
use crate::coord::Coord;

verus! {

/// Number of component kinds.
pub const NUM_COMPONENT_TYPES: usize = 4;

/// The kinds of component an entity can hold.
#[derive(Debug, Clone, Copy, PartialEq, Eq, Hash, Structural)]
pub enum ComponentType {
    Coord,
    Opacity,
    Player,
    Solid,
}

impl ComponentType {
    /// The small integer that stands for this kind.
    pub open spec fn spec_index(self) -> nat {
        match self {
            ComponentType::Coord => 0,
            ComponentType::Opacity => 1,
            ComponentType::Player => 2,
            ComponentType::Solid => 3,
        }
    }

    pub fn index(self) -> (i: usize)
        ensures
            i == self.spec_index(),
            i < NUM_COMPONENT_TYPES,
    {
        match self {
            ComponentType::Coord => 0,
            ComponentType::Opacity => 1,
            ComponentType::Player => 2,
            ComponentType::Solid => 3,
        }
    }

    /// The kind that `n` stands for, if any.
    pub fn from_u32(n: u32) -> (r: Option<ComponentType>)
        ensures
            match r {
                Some(t) => t.spec_index() == n,
                None => n >= NUM_COMPONENT_TYPES,
            },
    {
        match n {
            0 => Some(ComponentType::Coord),
            1 => Some(ComponentType::Opacity),
            2 => Some(ComponentType::Player),
            3 => Some(ComponentType::Solid),
            _ => None,
        }
    }
}

/// A component together with its value, where its kind has one.
#[derive(Debug, Clone, Copy, PartialEq, Eq, Structural)]
pub enum ComponentValue {
    Coord(Coord),
    Opacity(u8),
    Player,
    Solid,
}

impl ComponentValue {
    pub open spec fn spec_typ(&self) -> ComponentType {
        match self {
            ComponentValue::Coord(_) => ComponentType::Coord,
            ComponentValue::Opacity(_) => ComponentType::Opacity,
            ComponentValue::Player => ComponentType::Player,
            ComponentValue::Solid => ComponentType::Solid,
        }
    }

    /// The kind of this component.
    #[verifier::when_used_as_spec(spec_typ)]
    pub fn typ(&self) -> (t: ComponentType)
        ensures
            t == self.spec_typ(),
    {
        match self {
            ComponentValue::Coord(_) => ComponentType::Coord,
            ComponentValue::Opacity(_) => ComponentType::Opacity,
            ComponentValue::Player => ComponentType::Player,
            ComponentValue::Solid => ComponentType::Solid,
        }
    }
}

/// A component together with a borrow of its value, where its kind has one.
pub enum ComponentRef<'a> {
    Coord(&'a Coord),
    Opacity(&'a u8),
    Player,
    Solid,
}

impl<'a> ComponentRef<'a> {
    pub open spec fn spec_typ(&self) -> ComponentType {
        match self {
            ComponentRef::Coord(_) => ComponentType::Coord,
            ComponentRef::Opacity(_) => ComponentType::Opacity,
            ComponentRef::Player => ComponentType::Player,
            ComponentRef::Solid => ComponentType::Solid,
        }
    }

    /// The kind of this component.
    #[verifier::when_used_as_spec(spec_typ)]
    pub fn typ(&self) -> (t: ComponentType)
        ensures
            t == self.spec_typ(),
    {
        match self {
            ComponentRef::Coord(_) => ComponentType::Coord,
            ComponentRef::Opacity(_) => ComponentType::Opacity,
            ComponentRef::Player => ComponentType::Player,
            ComponentRef::Solid => ComponentType::Solid,
        }
    }
}

} // verus!
