use vstd::prelude::*;
use crate::strings::str_eq;

verus! {

/// How a field of a spatial hash cell summarises the entities at the cell.
#[derive(Clone, Copy, Debug, PartialEq, Eq, Structural)]
pub enum AggregateType {
    /// The sum of the values of a component.
    Total,
    /// The number of entities that hold a component.
    Count,
    /// The set of entities that hold a component.
    IdSet,
    /// For each direction, the number of entities in the neighbouring cell
    /// that hold a component.
    NeighbourCount,
}

/// What kind of lookup finds the contribution of one entity to a field.
#[derive(Clone, Copy, Debug, PartialEq, Eq, Structural)]
pub enum Lookup {
    /// The value of the component has to be read.
    Get,
    /// It is enough to know whether the entity holds the component.
    Contains,
}

impl Lookup {
    pub open spec fn spec_to_str(self) -> Seq<char> {
        match self {
            Lookup::Get => "get"@,
            Lookup::Contains => "contains"@,
        }
    }

    pub fn to_str(self) -> (s: &'static str)
        ensures
            s@ == self.spec_to_str(),
    {
        match self {
            Lookup::Get => "get",
            Lookup::Contains => "contains",
        }
    }
}

impl AggregateType {
    /// The name of the aggregate in a schema.
    pub open spec fn spec_to_str(self) -> Seq<char> {
        match self {
            AggregateType::Total => "total"@,
            AggregateType::Count => "count"@,
            AggregateType::IdSet => "set"@,
            AggregateType::NeighbourCount => "neighbour_count"@,
        }
    }

    /// No two aggregates have the same name.
    pub proof fn lemma_names_distinct(a: AggregateType, b: AggregateType)
        requires
            a.spec_to_str() == b.spec_to_str(),
        ensures
            a == b,
    {
        reveal_strlit("total");
        reveal_strlit("count");
        reveal_strlit("set");
        reveal_strlit("neighbour_count");
        assert("total"@.len() == 5 && "total"@[0] == 't');
        assert("count"@.len() == 5 && "count"@[0] == 'c');
        assert("set"@.len() == 3);
        assert("neighbour_count"@.len() == 15);
    }

    /// The aggregate that `s` names, if it names one.
    pub fn from_str(s: &str) -> (r: Option<Self>)
        ensures
            match r {
                Some(a) => a.spec_to_str() == s@,
                None => forall|a: AggregateType| a.spec_to_str() != s@,
            },
    {
        if str_eq(s, "total") {
            Some(AggregateType::Total)
        } else if str_eq(s, "count") {
            Some(AggregateType::Count)
        } else if str_eq(s, "set") {
            Some(AggregateType::IdSet)
        } else if str_eq(s, "neighbour_count") {
            Some(AggregateType::NeighbourCount)
        } else {
            None
        }
    }

    pub fn to_str(self) -> (s: &'static str)
        ensures
            s@ == self.spec_to_str(),
    {
        match self {
            AggregateType::Total => "total",
            AggregateType::Count => "count",
            AggregateType::IdSet => "set",
            AggregateType::NeighbourCount => "neighbour_count",
        }
    }

    pub open spec fn spec_requires_storage(self) -> bool {
        self == AggregateType::Total || self == AggregateType::NeighbourCount
    }

    /// Whether maintaining the aggregate reads what is stored of the component.
    #[verifier::when_used_as_spec(spec_requires_storage)]
    pub fn requires_storage(self) -> (b: bool)
        ensures
            b == self.spec_requires_storage(),
    {
        match self {
            AggregateType::Total => true,
            AggregateType::NeighbourCount => true,
            _ => false,
        }
    }

    /// The type of the field of the cell, given the type of the component
    /// and the type that the schema asks for.
    pub open spec fn spec_to_type(
        self,
        component_type: Option<Seq<char>>,
        field_type: Option<Seq<char>>,
    ) -> Seq<char> {
        match self {
            AggregateType::Total => component_type.unwrap(),
            AggregateType::Count => match field_type {
                Some(t) => t,
                None => "usize"@,
            },
            AggregateType::IdSet => match field_type {
                Some(t) => t,
                None => "SpatialHashCellEntityIdSet"@,
            },
            AggregateType::NeighbourCount => "::entity_store_helpers::NeighbourCount"@,
        }
    }

    /// The type of the field of the cell. A total has the type of the
    /// component, which therefore must have one.
    pub fn to_type(self, component_type: Option<&String>, field_type: Option<&String>) -> (r:
        String)
        requires
            self == AggregateType::Total ==> component_type is Some,
        ensures
            r@ == self.spec_to_type(
                match component_type {
                    Some(t) => Some(t@),
                    None => None,
                },
                match field_type {
                    Some(t) => Some(t@),
                    None => None,
                },
            ),
    {
        match self {
            AggregateType::Total => component_type.unwrap().clone(),
            AggregateType::Count => match field_type {
                Some(t) => t.clone(),
                None => "usize".to_owned(),
            },
            AggregateType::IdSet => match field_type {
                Some(t) => t.clone(),
                None => "SpatialHashCellEntityIdSet".to_owned(),
            },
            AggregateType::NeighbourCount => "::entity_store_helpers::NeighbourCount".to_owned(),
        }
    }

    pub open spec fn spec_to_lookup(self) -> Option<Lookup> {
        match self {
            AggregateType::Total => Some(Lookup::Get),
            AggregateType::Count => Some(Lookup::Contains),
            AggregateType::IdSet => Some(Lookup::Contains),
            AggregateType::NeighbourCount => None,
        }
    }

    /// The name of the lookup that finds the contribution of one entity to
    /// the aggregate; `None` where the aggregate is not kept in the cell of
    /// the entity itself.
    pub fn to_lookup(self) -> (r: Option<&'static str>)
        ensures
            match r {
                Some(name) => self.spec_to_lookup() is Some && name@
                    == self.spec_to_lookup().unwrap().spec_to_str(),
                None => self.spec_to_lookup() is None,
            },
    {
        match self {
            AggregateType::Total => Some("get"),
            AggregateType::Count => Some("contains"),
            AggregateType::IdSet => Some("contains"),
            AggregateType::NeighbourCount => None,
        }
    }

    /// All aggregates, in the order in which a schema error lists them.
    pub fn all() -> (r: Vec<AggregateType>)
        ensures
            r@ == seq![
                AggregateType::Total,
                AggregateType::Count,
                AggregateType::IdSet,
                AggregateType::NeighbourCount,
            ],
    {
        let mut r: Vec<AggregateType> = Vec::new();
        r.push(AggregateType::Total);
        r.push(AggregateType::Count);
        r.push(AggregateType::IdSet);
        r.push(AggregateType::NeighbourCount);
        assert(r@ =~= seq![
            AggregateType::Total,
            AggregateType::Count,
            AggregateType::IdSet,
            AggregateType::NeighbourCount,
        ]);
        r
    }
}

} // verus!
