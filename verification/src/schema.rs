use vstd::prelude::*;
use crate::aggregate_type::{AggregateType, Lookup};
use crate::input;
use crate::keyed::KeyedMap;
use crate::output;
use crate::output::copy_text;
use crate::result::GenError;
use crate::storage_type::StorageType;
use crate::strings::{
    capitalised_all, is_split_of, joined, name_from_field_name, str_eq, text_before,
};

verus! {

/// A component of a resolved schema.
pub struct Component {
    /// The type of the value, where the component has one.
    pub typ: Option<String>,
    /// The name of the component in code.
    pub name: String,
    /// The key of the component in the schema.
    pub key: String,
    /// The container that holds the component.
    pub storage_type: Option<StorageType>,
}

/// The components of a resolved schema.
pub struct ComponentSpec {
    pub id_width: usize,
    pub components: KeyedMap<Component>,
}

/// A field of the spatial hash of a resolved schema.
pub struct SpatialHashField {
    /// The type of the field, where it does not follow from the aggregate.
    pub typ: Option<String>,
    pub aggregate_type: Option<AggregateType>,
    /// The component that the field summarises.
    pub component: Component,
}

/// The spatial hash of a resolved schema.
pub struct SpatialHashSpec {
    /// The key of the component that holds the position of an entity.
    pub position_component: String,
    pub fields: KeyedMap<SpatialHashField>,
    /// The keys of the components that some field summarises.
    pub tracked_components: KeyedMap<()>,
}

/// A schema that was resolved and found valid.
pub struct Spec {
    pub components: ComponentSpec,
    pub spatial_hash: Option<SpatialHashSpec>,
}

/// What is wrong with a schema, as a mathematical value.
pub enum SchemaFault {
    InvalidStorageType,
    InvalidAggregateType,
    NoSuchComponent(Seq<char>),
    MissingSpatialHashKey,
    InvalidIdWidth,
    MissingStorageType(Seq<char>),
    NoComponents,
}

/// The names of all containers, in the order in which an error lists them.
pub open spec fn storage_type_names() -> Seq<Seq<char>> {
    seq![
        StorageType::Vector.spec_to_str(),
        StorageType::Flat.spec_to_str(),
        StorageType::Hash.spec_to_str(),
        StorageType::BTree.spec_to_str(),
    ]
}

/// The names of all aggregates, in the order in which an error lists them.
pub open spec fn aggregate_type_names() -> Seq<Seq<char>> {
    seq![
        AggregateType::Total.spec_to_str(),
        AggregateType::Count.spec_to_str(),
        AggregateType::IdSet.spec_to_str(),
        AggregateType::NeighbourCount.spec_to_str(),
    ]
}

/// The widths that entity ids can have, in the order in which an error lists them.
pub open spec fn id_widths() -> Seq<usize> {
    seq![8, 16, 32, 64]
}

/// The fault that an error reports, provided that the lists it carries are
/// what they should be.
pub open spec fn fault_of(e: GenError) -> Option<SchemaFault> {
    match e {
        GenError::InvalidStorageType(names) => if crate::strings::texts(names@)
            == storage_type_names() {
            Some(SchemaFault::InvalidStorageType)
        } else {
            None
        },
        GenError::InvalidAggregateType(names) => if crate::strings::texts(names@)
            == aggregate_type_names() {
            Some(SchemaFault::InvalidAggregateType)
        } else {
            None
        },
        GenError::NoSuchComponent(key) => Some(SchemaFault::NoSuchComponent(key@)),
        GenError::MissingSpatialHashKey => Some(SchemaFault::MissingSpatialHashKey),
        GenError::InvalidIdWidth(widths) => if widths@ == id_widths() {
            Some(SchemaFault::InvalidIdWidth)
        } else {
            None
        },
        GenError::MissingStorageType(key) => Some(SchemaFault::MissingStorageType(key@)),
        GenError::NoComponents => Some(SchemaFault::NoComponents),
    }
}

/// Whether `name` names a container.
pub open spec fn names_storage_type(name: Seq<char>) -> bool {
    exists|t: StorageType| t.spec_to_str() == name
}

/// Whether `name` names an aggregate.
pub open spec fn names_aggregate_type(name: Seq<char>) -> bool {
    exists|a: AggregateType| a.spec_to_str() == name
}

fn valid_storage_type_strings() -> (r: Vec<String>)
    ensures
        crate::strings::texts(r@) == storage_type_names(),
{
    let all = StorageType::all();
    let mut r: Vec<String> = Vec::new();
    let mut i: usize = 0;
    while i < all.len()
        invariant
            i <= all@.len(),
            r@.len() == i,
            forall|j: int| 0 <= j < i ==> (#[trigger] r@[j])@ == all@[j].spec_to_str(),
        decreases all@.len() - i,
    {
        r.push(all[i].to_str().to_owned());
        i += 1;
    }
    assert(crate::strings::texts(r@) =~= storage_type_names());
    r
}

fn valid_aggregate_type_strings() -> (r: Vec<String>)
    ensures
        crate::strings::texts(r@) == aggregate_type_names(),
{
    let all = AggregateType::all();
    let mut r: Vec<String> = Vec::new();
    let mut i: usize = 0;
    while i < all.len()
        invariant
            i <= all@.len(),
            r@.len() == i,
            forall|j: int| 0 <= j < i ==> (#[trigger] r@[j])@ == all@[j].spec_to_str(),
        decreases all@.len() - i,
    {
        r.push(all[i].to_str().to_owned());
        i += 1;
    }
    assert(crate::strings::texts(r@) =~= aggregate_type_names());
    r
}

impl Component {
    /// The component is what the written component `c` under the key
    /// `field_name` resolves to.
    pub open spec fn resolves(self, field_name: Seq<char>, c: input::Component) -> bool {
        &&& self.typ == c.typ
        &&& self.key@ == field_name
        &&& match c.storage {
            Some(name) => self.storage_type is Some && self.storage_type.unwrap().spec_to_str()
                == name@,
            None => self.storage_type is None,
        }
        &&& match c.name_override {
            Some(name) => self.name == name,
            None => exists|parts: Seq<Seq<char>>|
                is_split_of(parts, field_name, '_') && self.name@ == joined(
                    capitalised_all(parts),
                    Seq::empty(),
                ),
        }
    }

    /// A copy of the value.
    pub fn copy(&self) -> (r: Self)
        ensures
            r == *self,
    {
        Component {
            typ: copy_text(&self.typ),
            name: self.name.clone(),
            key: self.key.clone(),
            storage_type: self.storage_type,
        }
    }

    /// Resolves a written component. It is refused where it names a
    /// container that does not exist, and then only.
    pub fn from_input(field_name: &str, c: &input::Component) -> (r: Result<Self, GenError>)
        ensures
            match r {
                Ok(component) => component.resolves(field_name@, *c),
                Err(e) => {
                    &&& c.storage is Some
                    &&& !names_storage_type(c.storage.unwrap()@)
                    &&& fault_of(e) == Some(SchemaFault::InvalidStorageType)
                },
            },
    {
        let storage_type = match &c.storage {
            Some(s) => match StorageType::from_str(s.as_str()) {
                Some(t) => Some(t),
                None => {
                    return Err(GenError::InvalidStorageType(valid_storage_type_strings()));
                },
            },
            None => None,
        };
        let name = match &c.name_override {
            Some(name) => name.clone(),
            None => name_from_field_name(field_name),
        };
        Ok(Component { storage_type, name, key: field_name.to_owned(), typ: copy_text(&c.typ) })
    }
}

/// What is wrong with the written field `f`, given the written components.
pub open spec fn field_fault(
    f: input::SpatialHashField,
    components: KeyedMap<input::Component>,
) -> Option<SchemaFault> {
    if f.aggregate is Some && !names_aggregate_type(f.aggregate.unwrap()@) {
        Some(SchemaFault::InvalidAggregateType)
    } else if !components.contains(f.component@) {
        Some(SchemaFault::NoSuchComponent(f.component@))
    } else if f.aggregate is Some && needs_storage(f.aggregate.unwrap()@) && components.value_of(
        f.component@,
    ).storage is None {
        Some(SchemaFault::MissingStorageType(f.component@))
    } else {
        None
    }
}

/// Whether the aggregate that `name` names reads what is stored of the component.
pub open spec fn needs_storage(name: Seq<char>) -> bool {
    exists|a: AggregateType| a.spec_to_str() == name && a.spec_requires_storage()
}

/// The resolved components are those that the written ones resolve to, key by key.
pub open spec fn components_resolve(
    resolved: KeyedMap<Component>,
    written: KeyedMap<input::Component>,
) -> bool {
    &&& resolved.wf()
    &&& resolved.keys() == written.keys()
    &&& forall|i: int|
        0 <= i < written.keys().len() ==> (#[trigger] resolved.values()[i]).resolves(
            written.keys()[i],
            written.values()[i],
        )
}

impl SpatialHashField {
    /// The field is what the written field `f` resolves to, given the
    /// resolved components.
    pub open spec fn resolves(
        self,
        f: input::SpatialHashField,
        components: KeyedMap<Component>,
    ) -> bool {
        &&& self.typ == f.typ
        &&& components.contains(f.component@)
        &&& self.component == components.value_of(f.component@)
        &&& match f.aggregate {
            Some(name) => self.aggregate_type is Some
                && self.aggregate_type.unwrap().spec_to_str() == name@,
            None => self.aggregate_type is None,
        }
    }

    /// Resolves a written field against the resolved components. It is
    /// refused where it names an aggregate that does not exist, or a
    /// component that does not exist, or where the aggregate reads what is
    /// stored of a component that has no container: the first of these that applies.
    pub fn from_input(f: &input::SpatialHashField, components: &KeyedMap<Component>) -> (r: Result<
        Self,
        GenError,
    >)
        requires
            components.wf(),
        ensures
            match r {
                Ok(field) => {
                    &&& field.resolves(*f, *components)
                    &&& field.aggregate_type is Some
                        && field.aggregate_type.unwrap().spec_requires_storage()
                        ==> field.component.storage_type is Some
                },
                Err(e) => {
                    if f.aggregate is Some && !names_aggregate_type(f.aggregate.unwrap()@) {
                        fault_of(e) == Some(SchemaFault::InvalidAggregateType)
                    } else if !components.contains(f.component@) {
                        fault_of(e) == Some(SchemaFault::NoSuchComponent(f.component@))
                    } else {
                        &&& f.aggregate is Some
                        &&& needs_storage(f.aggregate.unwrap()@)
                        &&& components.value_of(f.component@).storage_type is None
                        &&& fault_of(e) == Some(SchemaFault::MissingStorageType(f.component@))
                    }
                },
            },
    {
        let aggregate_type = match &f.aggregate {
            Some(a) => match AggregateType::from_str(a.as_str()) {
                Some(a) => Some(a),
                None => {
                    return Err(GenError::InvalidAggregateType(valid_aggregate_type_strings()));
                },
            },
            None => None,
        };
        let component = match components.get(f.component.as_str()) {
            Some(c) => c.copy(),
            None => {
                return Err(GenError::NoSuchComponent(f.component.clone()));
            },
        };
        if let Some(a) = aggregate_type {
            proof {
                assert forall|b: AggregateType| b.spec_to_str() == f.aggregate.unwrap()@ implies b
                    == a by {
                    AggregateType::lemma_names_distinct(a, b);
                }
            }
            if a.requires_storage() && component.storage_type.is_none() {
                return Err(GenError::MissingStorageType(f.component.clone()));
            }
        }
        Ok(SpatialHashField { aggregate_type, component, typ: copy_text(&f.typ) })
    }
}

/// What is wrong with the first of the written fields from position `from`
/// on with which something is wrong.
pub open spec fn first_field_fault(
    fields: Seq<input::SpatialHashField>,
    components: KeyedMap<input::Component>,
    from: int,
) -> Option<SchemaFault>
    decreases fields.len() - from,
{
    if from < 0 || from >= fields.len() {
        None
    } else {
        match field_fault(fields[from], components) {
            Some(fault) => Some(fault),
            None => first_field_fault(fields, components, from + 1),
        }
    }
}

/// What is wrong with a written schema; `None` where it is valid. The
/// checks come in this order: the containers that the components name, that
/// there is a component at all, the fields of the spatial hash from the
/// smallest key up, the key of the spatial hash, the width of the ids.
pub open spec fn schema_fault(s: input::Spec) -> Option<SchemaFault> {
    if exists|i: int|
        0 <= i < s.components.values().len() && (#[trigger] s.components.values()[i]).storage
            is Some && !names_storage_type(s.components.values()[i].storage.unwrap()@) {
        Some(SchemaFault::InvalidStorageType)
    } else if s.components.keys().len() == 0 {
        Some(SchemaFault::NoComponents)
    } else if first_field_fault(s.spatial_hash.values(), s.components, 0) is Some {
        first_field_fault(s.spatial_hash.values(), s.components, 0)
    } else if s.spatial_hash_key is Some && !s.components.contains(s.spatial_hash_key.unwrap()@) {
        Some(SchemaFault::NoSuchComponent(s.spatial_hash_key.unwrap()@))
    } else if s.spatial_hash_key is None && s.spatial_hash.keys().len() > 0 {
        Some(SchemaFault::MissingSpatialHashKey)
    } else if !id_widths().contains(s.id_width) {
        Some(SchemaFault::InvalidIdWidth)
    } else {
        None
    }
}

/// The resolved fields are those that the written ones resolve to, key by key.
pub open spec fn fields_resolve(
    resolved: KeyedMap<SpatialHashField>,
    written: KeyedMap<input::SpatialHashField>,
    components: KeyedMap<Component>,
) -> bool {
    &&& resolved.wf()
    &&& resolved.keys() == written.keys()
    &&& forall|i: int|
        0 <= i < written.keys().len() ==> (#[trigger] resolved.values()[i]).resolves(
            written.values()[i],
            components,
        )
}

impl SpatialHashSpec {
    /// Whether some field summarises the component with the key `key`.
    pub open spec fn tracks(self, key: Seq<char>) -> bool {
        exists|i: int|
            0 <= i < self.fields.values().len() && (#[trigger] self.fields.values()[i]).component.key@
                == key
    }

    /// The invariant that every operation keeps.
    pub open spec fn wf(self, components: KeyedMap<Component>) -> bool {
        &&& self.fields.wf()
        &&& self.tracked_components.wf()
        &&& components.contains(self.position_component@)
        &&& forall|key: Seq<char>| self.tracked_components.contains(key) == self.tracks(key)
        &&& forall|i: int|
            0 <= i < self.fields.values().len() ==> {
                let field = #[trigger] self.fields.values()[i];
                &&& components.contains(field.component.key@)
                &&& field.component == components.value_of(field.component.key@)
                &&& field.aggregate_type is Some
                    && field.aggregate_type.unwrap().spec_requires_storage()
                    ==> field.component.storage_type is Some
            }
    }
}

impl Spec {
    /// What every resolved schema satisfies: it has a component, every
    /// component knows its key, the width of the ids is one of those that
    /// exist, and the spatial hash refers to components of the schema only.
    pub open spec fn wf(self) -> bool {
        &&& self.components.components.wf()
        &&& self.components.components.keys().len() > 0
        &&& id_widths().contains(self.components.id_width)
        &&& forall|i: int|
            0 <= i < self.components.components.keys().len() ==> (
            #[trigger] self.components.components.values()[i]).key@
                == self.components.components.keys()[i]
        &&& match self.spatial_hash {
            Some(spatial_hash) => spatial_hash.wf(self.components.components),
            None => true,
        }
    }

    /// The schema is what the written schema `s` resolves to.
    pub open spec fn resolves(self, s: input::Spec) -> bool {
        &&& components_resolve(self.components.components, s.components)
        &&& self.components.id_width == s.id_width
        &&& match s.spatial_hash_key {
            Some(key) => {
                &&& self.spatial_hash is Some
                &&& self.spatial_hash.unwrap().position_component == key
                &&& fields_resolve(
                    self.spatial_hash.unwrap().fields,
                    s.spatial_hash,
                    self.components.components,
                )
            },
            None => self.spatial_hash is None,
        }
    }

    /// Resolves and validates a written schema.
    ///
    /// A valid schema resolves: every name is replaced by what it names.
    /// An invalid one is refused with the first fault that the checks find.
    pub fn from_str(spec_in: &input::Spec) -> (r: Result<Self, GenError>)
        requires
            spec_in.components.wf(),
            spec_in.spatial_hash.wf(),
        ensures
            match r {
                Ok(spec) => schema_fault(*spec_in) is None && spec.resolves(*spec_in) && spec.wf(),
                Err(e) => schema_fault(*spec_in) is Some && fault_of(e) == schema_fault(*spec_in),
            },
    {
        let mut components: KeyedMap<Component> = KeyedMap::new();
        let mut i: usize = 0;
        proof {
            spec_in.components.lemma_len();
            spec_in.spatial_hash.lemma_len();
        }
        while i < spec_in.components.len()
            invariant
                spec_in.components.wf(),
                i <= spec_in.components.keys().len(),
                spec_in.components.values().len() == spec_in.components.keys().len(),
                components.wf(),
                components.keys() == spec_in.components.keys().take(i as int),
                components.values().len() == i,
                forall|j: int|
                    0 <= j < i ==> (#[trigger] components.values()[j]).resolves(
                        spec_in.components.keys()[j],
                        spec_in.components.values()[j],
                    ),
                forall|j: int|
                    0 <= j < i ==> !((#[trigger] spec_in.components.values()[j]).storage is Some
                        && !names_storage_type(spec_in.components.values()[j].storage.unwrap()@)),
            decreases spec_in.components.keys().len() - i,
        {
            let key = spec_in.components.key(i);
            let component = match Component::from_input(key.as_str(), spec_in.components.value(i)) {
                Ok(component) => component,
                Err(e) => {
                    return Err(e);
                },
            };
            proof {
                assert forall|j: int| 0 <= j < components.keys().len() implies crate::strings::text_before(
                    components.keys()[j],
                    key@,
                ) by {
                    assert(components.keys()[j] == spec_in.components.keys()[j]);
                    spec_in.components.lemma_ascending();
                }
            }
            components.push(key.clone(), component);
            proof {
                assert(components.keys() =~= spec_in.components.keys().take(i + 1));
            }
            i += 1;
        }
        proof {
            assert(components.keys() =~= spec_in.components.keys());
            components.lemma_len();
        }
        if components.is_empty() {
            return Err(GenError::NoComponents);
        }
        let mut fields: KeyedMap<SpatialHashField> = KeyedMap::new();
        let mut tracked_keys: KeyedMap<()> = KeyedMap::new();
        let mut i: usize = 0;
        while i < spec_in.spatial_hash.len()
            invariant
                spec_in.spatial_hash.wf(),
                spec_in.components.wf(),
                components_resolve(components, spec_in.components),
                spec_in.components.values().len() == spec_in.components.keys().len(),
                components.values().len() == components.keys().len(),
                spec_in.components.keys().len() > 0,
                forall|j: int|
                    0 <= j < spec_in.components.values().len() ==> !((
                    #[trigger] spec_in.components.values()[j]).storage is Some
                        && !names_storage_type(spec_in.components.values()[j].storage.unwrap()@)),
                i <= spec_in.spatial_hash.keys().len(),
                spec_in.spatial_hash.values().len() == spec_in.spatial_hash.keys().len(),
                fields.wf(),
                tracked_keys.wf(),
                fields.keys() == spec_in.spatial_hash.keys().take(i as int),
                fields.values().len() == i,
                forall|j: int|
                    0 <= j < i ==> {
                        let field = #[trigger] fields.values()[j];
                        &&& field.resolves(spec_in.spatial_hash.values()[j], components)
                        &&& field.component.key@ == spec_in.spatial_hash.values()[j].component@
                        &&& field.aggregate_type is Some
                            && field.aggregate_type.unwrap().spec_requires_storage()
                            ==> field.component.storage_type is Some
                    },
                forall|key: Seq<char>|
                    tracked_keys.contains(key) == (exists|j: int|
                        0 <= j < i && (#[trigger] fields.values()[j]).component.key@ == key),
                first_field_fault(spec_in.spatial_hash.values(), spec_in.components, 0)
                    == first_field_fault(
                    spec_in.spatial_hash.values(),
                    spec_in.components,
                    i as int,
                ),
            decreases spec_in.spatial_hash.keys().len() - i,
        {
            let key = spec_in.spatial_hash.key(i);
            let written = spec_in.spatial_hash.value(i);
            proof {
                lemma_field_fault(*written, spec_in.components, components);
            }
            let field = match SpatialHashField::from_input(written, &components) {
                Ok(field) => field,
                Err(e) => {
                    proof {
                        assert(spec_in.spatial_hash.values()[i as int] == *written);
                        assert(field_fault(*written, spec_in.components) == fault_of(e));
                        assert(first_field_fault(
                            spec_in.spatial_hash.values(),
                            spec_in.components,
                            i as int,
                        ) == fault_of(e));
                    }
                    return Err(e);
                },
            };
            proof {
                assert(spec_in.spatial_hash.values()[i as int] == *written);
                assert(field_fault(*written, spec_in.components) is None);
                assert(first_field_fault(
                    spec_in.spatial_hash.values(),
                    spec_in.components,
                    i as int,
                ) == first_field_fault(
                    spec_in.spatial_hash.values(),
                    spec_in.components,
                    i + 1,
                ));
            }
            proof {
                assert forall|j: int| 0 <= j < fields.keys().len() implies crate::strings::text_before(
                    fields.keys()[j],
                    key@,
                ) by {
                    assert(fields.keys()[j] == spec_in.spatial_hash.keys()[j]);
                    spec_in.spatial_hash.lemma_ascending();
                }
                let at = components.index_of(written.component@);
                components.lemma_index(at);
                assert(field.component.key@ == written.component@);
            }
            let ghost before = fields;
            let ghost tracked_keys_before = tracked_keys;
            tracked_keys.insert(field.component.key.clone(), ());
            fields.push(key.clone(), field);
            proof {
                assert(fields.keys() =~= spec_in.spatial_hash.keys().take(i + 1));
                assert forall|j: int| 0 <= j < i implies fields.values()[j]
                    == before.values()[j] by {}
                assert forall|k: Seq<char>|
                    tracked_keys.contains(k) == (exists|j: int|
                        0 <= j < i + 1 && (#[trigger] fields.values()[j]).component.key@
                            == k) by {
                    if tracked_keys.contains(k) {
                        if k == written.component@ {
                            assert(fields.values()[i as int].component.key@ == k);
                        } else {
                            assert(tracked_keys_before.contains(k));
                            let j = choose|j: int|
                                0 <= j < i && (#[trigger] before.values()[j]).component.key@ == k;
                            assert(fields.values()[j].component.key@ == k);
                        }
                    }
                    if exists|j: int|
                        0 <= j < i + 1 && (#[trigger] fields.values()[j]).component.key@ == k {
                        let j = choose|j: int|
                            0 <= j < i + 1 && (#[trigger] fields.values()[j]).component.key@ == k;
                        if j < i {
                            assert(before.values()[j].component.key@ == k);
                        }
                    }
                }
            }
            i += 1;
        }
        proof {
            assert(fields.keys() =~= spec_in.spatial_hash.keys());
            fields.lemma_len();
        }
        let spatial_hash = match &spec_in.spatial_hash_key {
            Some(key) => {
                if !components.contains_key(key.as_str()) {
                    return Err(GenError::NoSuchComponent(key.clone()));
                }
                Some(
                    SpatialHashSpec {
                        position_component: key.clone(),
                        fields,
                        tracked_components: tracked_keys,
                    },
                )
            },
            None => {
                if !fields.is_empty() {
                    return Err(GenError::MissingSpatialHashKey);
                }
                None
            },
        };
        let width = spec_in.id_width;
        if !(width == 8 || width == 16 || width == 32 || width == 64) {
            let mut widths: Vec<usize> = Vec::new();
            widths.push(8);
            widths.push(16);
            widths.push(32);
            widths.push(64);
            assert(widths@ =~= id_widths());
            assert(!id_widths().contains(width));
            return Err(GenError::InvalidIdWidth(widths));
        }
        proof {
            assert(id_widths()[0] == 8 && id_widths()[1] == 16 && id_widths()[2] == 32
                && id_widths()[3] == 64);
            assert(id_widths().contains(width));
        }
        Ok(Spec { components: ComponentSpec { components, id_width: width }, spatial_hash })
    }
}

/// What is wrong with a written field is the same whether read off the
/// written components or off the resolved ones.
proof fn lemma_field_fault(
    f: input::SpatialHashField,
    written: KeyedMap<input::Component>,
    resolved: KeyedMap<Component>,
)
    requires
        written.wf(),
        components_resolve(resolved, written),
    ensures
        resolved.contains(f.component@) == written.contains(f.component@),
        written.contains(f.component@) ==> (resolved.value_of(f.component@).storage_type is None)
            == (written.value_of(f.component@).storage is None),
        forall|a: AggregateType|
            f.aggregate is Some && a.spec_to_str() == f.aggregate.unwrap()@ ==> needs_storage(
                f.aggregate.unwrap()@,
            ) == a.spec_requires_storage() && names_aggregate_type(f.aggregate.unwrap()@),
{
    written.lemma_len();
    resolved.lemma_len();
    if written.contains(f.component@) {
        let i = written.index_of(f.component@);
        written.lemma_index(i);
        resolved.lemma_index(i);
    }
    assert forall|a: AggregateType|
        f.aggregate is Some && a.spec_to_str() == f.aggregate.unwrap()@ implies needs_storage(
        f.aggregate.unwrap()@,
    ) == a.spec_requires_storage() && names_aggregate_type(f.aggregate.unwrap()@) by {
        assert forall|b: AggregateType| b.spec_to_str() == f.aggregate.unwrap()@ implies b
            == a by {
            AggregateType::lemma_names_distinct(a, b);
        }
    }
}

/// The names under which generated code finds the container `s` of a
/// component that has a value (`typed`) or has none.
pub open spec fn storage_output(info: output::StorageInfo, s: StorageType, typed: bool) -> bool {
    &&& info.typ@ == s.spec_to_str()
    &&& info.rust_type@ == (if typed {
        s.spec_to_map_type()
    } else {
        s.spec_to_set_type()
    })
    &&& info.map_iter_wrapper@ == s.spec_to_map_iter_wrapper()
    &&& info.set_iter_wrapper@ == s.spec_to_set_iter_wrapper()
    &&& info.map_iter@ == s.spec_to_map_iter()
    &&& info.map_keys@ == s.spec_to_map_keys()
    &&& info.set_iter@ == s.spec_to_set_iter()
}

/// `out` is the component `c` as generated code sees it, where `c` has the
/// key `key` and the index `index` and `summarised` says whether the
/// spatial hash depends on it.
pub open spec fn component_output(
    out: output::Component,
    c: Component,
    key: Seq<char>,
    index: usize,
    summarised: bool,
) -> bool {
    &&& out.typ == c.typ
    &&& out.name == c.name
    &&& out.key@ == key
    &&& out.index == index
    &&& out.contains@ == (if c.typ is Some {
        "contains_key"@
    } else {
        "contains"@
    })
    &&& out.tracked_by_spatial_hash == summarised
    &&& match c.storage_type {
        Some(s) => out.storage is Some && storage_output(out.storage.unwrap(), s, c.typ is Some),
        None => out.storage is None,
    }
}

/// The view of an optional string.
pub open spec fn text_of(text: Option<String>) -> Option<Seq<char>> {
    match text {
        Some(t) => Some(t@),
        None => None,
    }
}

/// `out` is the field `f` with the key `key` as generated code sees it.
pub open spec fn field_output(
    out: output::SpatialHashField,
    f: SpatialHashField,
    key: Seq<char>,
    components: KeyedMap<output::Component>,
) -> bool {
    &&& out.key@ == key
    &&& out.component == components.value_of(f.component.key@)
    &&& match f.aggregate_type {
        Some(a) => out.aggregate.typ@ == a.spec_to_str() && out.aggregate.rust_type@
            == a.spec_to_type(text_of(f.component.typ), text_of(f.typ)),
        None => out.aggregate.typ@ == "void"@ && out.aggregate.rust_type@ == "()"@,
    }
}

/// The lookup that serves two needs: reading the value serves a field that
/// only asks for presence as well.
pub open spec fn combined(a: Option<Lookup>, b: Option<Lookup>) -> Option<Lookup> {
    match (a, b) {
        (Some(x), Some(y)) => Some(
            if x == Lookup::Get || y == Lookup::Get {
                Lookup::Get
            } else {
                Lookup::Contains
            },
        ),
        (Some(x), None) => Some(x),
        (None, y) => y,
    }
}

/// The lookup that a field needs.
pub open spec fn field_lookup(f: SpatialHashField) -> Option<Lookup> {
    match f.aggregate_type {
        Some(a) => a.spec_to_lookup(),
        None => None,
    }
}

/// The one lookup that serves all of the first `n` fields that summarise
/// the component with the key `k`.
pub open spec fn group_lookup(fields: Seq<SpatialHashField>, k: Seq<char>, n: int) -> Option<
    Lookup,
>
    decreases n,
{
    if n <= 0 {
        None
    } else if fields[n - 1].component.key@ == k {
        combined(group_lookup(fields, k, n - 1), field_lookup(fields[n - 1]))
    } else {
        group_lookup(fields, k, n - 1)
    }
}

/// Whether one of the first `n` fields that summarise the component with
/// the key `k` has an aggregate.
pub open spec fn group_has_fields(fields: Seq<SpatialHashField>, k: Seq<char>, n: int) -> bool
    decreases n,
{
    if n <= 0 {
        false
    } else {
        group_has_fields(fields, k, n - 1) || (fields[n - 1].component.key@ == k
            && fields[n - 1].aggregate_type is Some)
    }
}

/// Of the first `n` of `items`, those whose field summarises the component
/// with the key `k`, in their order.
pub open spec fn group_of<A>(items: Seq<A>, fields: Seq<SpatialHashField>, k: Seq<char>, n: int)
    -> Seq<A>
    decreases n,
{
    if n <= 0 {
        Seq::empty()
    } else if fields[n - 1].component.key@ == k {
        group_of(items, fields, k, n - 1).push(items[n - 1])
    } else {
        group_of(items, fields, k, n - 1)
    }
}

/// `g` groups those of the first `n` fields that summarise the component
/// with the key `k`.
pub open spec fn group_output(
    g: output::ByComponentInfo,
    k: Seq<char>,
    fields: KeyedMap<SpatialHashField>,
    out_fields: KeyedMap<output::SpatialHashField>,
    components: KeyedMap<output::Component>,
    n: int,
) -> bool {
    &&& g.component == components.value_of(k)
    &&& g.has_fields == group_has_fields(fields.values(), k, n)
    &&& match group_lookup(fields.values(), k, n) {
        Some(l) => g.lookup is Some && g.lookup.unwrap()@ == l.spec_to_str(),
        None => g.lookup is None,
    }
    &&& g.fields.wf()
    &&& g.fields.keys() == group_of(fields.keys(), fields.values(), k, n)
    &&& g.fields.values() == group_of(out_fields.values(), fields.values(), k, n)
}

/// `out` is the spatial hash `sh` as generated code sees it: its fields, the
/// component that holds the position, whether a field counts neighbours,
/// and the fields grouped by the component that they summarise, each group
/// with the one lookup that serves it.
pub open spec fn spatial_hash_output(
    out: output::SpatialHash,
    sh: SpatialHashSpec,
    components: KeyedMap<output::Component>,
) -> bool {
    &&& out.fields.wf()
    &&& out.fields.keys() == sh.fields.keys()
    &&& forall|i: int|
        0 <= i < sh.fields.keys().len() ==> field_output(
            #[trigger] out.fields.values()[i],
            sh.fields.values()[i],
            sh.fields.keys()[i],
            components,
        )
    &&& out.position_component == components.value_of(sh.position_component@)
    &&& out.has_neighbours == (exists|i: int|
        0 <= i < sh.fields.values().len() && (#[trigger] sh.fields.values()[i]).aggregate_type
            == Some(AggregateType::NeighbourCount))
    &&& out.by_component.wf()
    &&& forall|k: Seq<char>| out.by_component.contains(k) == sh.tracks(k)
    &&& forall|k: Seq<char>| #[trigger]
        out.by_component.contains(k) ==> group_output(
            out.by_component.value_of(k),
            k,
            sh.fields,
            out.fields,
            components,
            sh.fields.keys().len() as int,
        )
}

/// The name of the type of an entity id that is `width` bits wide.
pub open spec fn id_type_name(width: usize) -> Seq<char> {
    if width == 8 {
        "u8"@
    } else if width == 16 {
        "u16"@
    } else if width == 32 {
        "u32"@
    } else {
        "u64"@
    }
}

impl Component {
    /// The component as generated code sees it.
    pub fn to_output(&self, key: &str, index: usize, spatial_hash: Option<&SpatialHashSpec>) -> (out:
        output::Component)
        requires
            spatial_hash is Some ==> spatial_hash.unwrap().tracked_components.wf(),
        ensures
            component_output(
                out,
                *self,
                key@,
                index,
                match spatial_hash {
                    Some(sh) => sh.tracked_components.contains(key@) || sh.position_component@
                        == key@,
                    None => false,
                },
            ),
    {
        let storage = match self.storage_type {
            Some(s) => Some(
                output::StorageInfo {
                    typ: s.to_str().to_owned(),
                    rust_type: if self.typ.is_some() {
                        s.to_map_type().to_owned()
                    } else {
                        s.to_set_type().to_owned()
                    },
                    map_iter_wrapper: s.to_map_iter_wrapper().to_owned(),
                    set_iter_wrapper: s.to_set_iter_wrapper().to_owned(),
                    map_iter: s.to_map_iter().to_owned(),
                    map_keys: s.to_map_keys().to_owned(),
                    set_iter: s.to_set_iter().to_owned(),
                },
            ),
            None => None,
        };
        let tracked_by_spatial_hash = match spatial_hash {
            Some(sh) => sh.tracked_components.contains_key(key) || str_eq(
                sh.position_component.as_str(),
                key,
            ),
            None => false,
        };
        output::Component {
            typ: copy_text(&self.typ),
            name: self.name.clone(),
            storage,
            key: key.to_owned(),
            index,
            contains: if self.typ.is_some() {
                "contains_key".to_owned()
            } else {
                "contains".to_owned()
            },
            tracked_by_spatial_hash,
        }
    }
}

impl SpatialHashField {
    /// The field as generated code sees it. A total has the type of its
    /// component, which therefore must have one.
    pub fn to_output(&self, key: &str, components: &KeyedMap<output::Component>) -> (out:
        output::SpatialHashField)
        requires
            components.wf(),
            components.contains(self.component.key@),
            self.aggregate_type == Some(AggregateType::Total) ==> self.component.typ is Some,
        ensures
            field_output(out, *self, key@, *components),
    {
        let aggregate = match self.aggregate_type {
            Some(a) => output::AggregateInfo {
                typ: a.to_str().to_owned(),
                rust_type: a.to_type(self.component.typ.as_ref(), self.typ.as_ref()),
            },
            None => output::AggregateInfo { typ: "void".to_owned(), rust_type: "()".to_owned() },
        };
        let component = components.get(self.component.key.as_str()).unwrap().copy();
        output::SpatialHashField { key: key.to_owned(), aggregate, component }
    }
}

/// Every member of a group of the first `m` keys is one of those keys, and so
/// comes before the key at any position from `m` on.
proof fn lemma_group_before(
    keys: Seq<Seq<char>>,
    fields: Seq<SpatialHashField>,
    k: Seq<char>,
    m: int,
    n: int,
)
    requires
        crate::keyed::ascending(keys),
        0 <= m <= n < keys.len(),
        fields.len() == keys.len(),
    ensures
        forall|j: int|
            0 <= j < group_of(keys, fields, k, m).len() ==> text_before(
                #[trigger] group_of(keys, fields, k, m)[j],
                keys[n],
            ),
    decreases m,
{
    if m > 0 {
        lemma_group_before(keys, fields, k, m - 1, n);
        let rest = group_of(keys, fields, k, m - 1);
        let all = group_of(keys, fields, k, m);
        assert forall|j: int| 0 <= j < all.len() implies text_before(#[trigger] all[j], keys[n]) by {
            if j < rest.len() {
                assert(all[j] == rest[j]);
            } else {
                assert(all[j] == keys[m - 1]);
            }
        }
    }
}

/// A component that no field among the first `n` summarises has an empty group.
proof fn lemma_group_empty(
    keys: Seq<Seq<char>>,
    out_fields: Seq<output::SpatialHashField>,
    fields: Seq<SpatialHashField>,
    k: Seq<char>,
    n: int,
)
    requires
        0 <= n <= fields.len(),
        forall|i: int| 0 <= i < n ==> (#[trigger] fields[i]).component.key@ != k,
    ensures
        group_of(keys, fields, k, n) == Seq::<Seq<char>>::empty(),
        group_of(out_fields, fields, k, n) == Seq::<output::SpatialHashField>::empty(),
        group_lookup(fields, k, n) is None,
        !group_has_fields(fields, k, n),
    decreases n,
{
    if n > 0 {
        lemma_group_empty(keys, out_fields, fields, k, n - 1);
    }
}

impl Spec {
    /// Whether every field that is a total summarises a component that has
    /// a value: only then can the schema be turned into what generated code sees.
    pub open spec fn spec_renderable(self) -> bool {
        match self.spatial_hash {
            Some(sh) => forall|i: int|
                0 <= i < sh.fields.values().len() ==> ((#[trigger] sh.fields.values()[i]).aggregate_type
                    == Some(AggregateType::Total) ==> sh.fields.values()[i].component.typ is Some),
            None => true,
        }
    }

    /// Whether the schema can be turned into what generated code sees.
    pub fn renderable(&self) -> (b: bool)
        ensures
            b == self.spec_renderable(),
    {
        match &self.spatial_hash {
            Some(sh) => {
                let mut i: usize = 0;
                proof {
                    sh.fields.lemma_len();
                }
                while i < sh.fields.len()
                    invariant
                        self.spatial_hash == Some(*sh),
                        i <= sh.fields.values().len(),
                        sh.fields.values().len() == sh.fields.keys().len(),
                        forall|j: int|
                            0 <= j < i ==> ((#[trigger] sh.fields.values()[j]).aggregate_type
                                == Some(AggregateType::Total) ==> sh.fields.values()[j].component.typ
                                is Some),
                    decreases sh.fields.values().len() - i,
                {
                    let field = sh.fields.value(i);
                    let is_total = match field.aggregate_type {
                        Some(AggregateType::Total) => true,
                        _ => false,
                    };
                    if is_total && field.component.typ.is_none() {
                        assert(sh.fields.values()[i as int].aggregate_type == Some(
                            AggregateType::Total,
                        ) && sh.fields.values()[i as int].component.typ is None);
                        return false;
                    }
                    i += 1;
                }
                true
            },
            None => true,
        }
    }

    /// `out` is the schema `self` as generated code sees it. The index of a
    /// component is its rank among the keys.
    pub open spec fn is_output(self, out: output::Spec) -> bool {
        &&& out.num_component_types == self.components.components.keys().len()
        &&& out.id_type@ == id_type_name(self.components.id_width)
        &&& out.components.wf()
        &&& out.components.keys() == self.components.components.keys()
        &&& forall|i: int|
            0 <= i < self.components.components.keys().len() ==> component_output(
                #[trigger] out.components.values()[i],
                self.components.components.values()[i],
                self.components.components.keys()[i],
                i as usize,
                match self.spatial_hash {
                    Some(sh) => sh.tracks(self.components.components.keys()[i])
                        || sh.position_component@ == self.components.components.keys()[i],
                    None => false,
                },
            )
        &&& match self.spatial_hash {
            Some(sh) => out.spatial_hash is Some && spatial_hash_output(
                out.spatial_hash.unwrap(),
                sh,
                out.components,
            ),
            None => out.spatial_hash is None,
        }
    }

    /// The schema as generated code sees it.
    pub fn to_output(&self) -> (out: output::Spec)
        requires
            self.wf(),
            self.spec_renderable(),
        ensures
            self.is_output(out),
    {
        let mut components: KeyedMap<output::Component> = KeyedMap::new();
        let mut i: usize = 0;
        proof {
            self.components.components.lemma_len();
        }
        while i < self.components.components.len()
            invariant
                self.wf(),
                i <= self.components.components.keys().len(),
                self.components.components.values().len()
                    == self.components.components.keys().len(),
                components.wf(),
                components.keys() == self.components.components.keys().take(i as int),
                components.values().len() == i,
                forall|j: int|
                    0 <= j < i ==> component_output(
                        #[trigger] components.values()[j],
                        self.components.components.values()[j],
                        self.components.components.keys()[j],
                        j as usize,
                        match self.spatial_hash {
                            Some(sh) => sh.tracks(self.components.components.keys()[j])
                                || sh.position_component@ == self.components.components.keys()[j],
                            None => false,
                        },
                    ),
            decreases self.components.components.keys().len() - i,
        {
            let key = self.components.components.key(i);
            let component = self.components.components.value(i).to_output(
                key.as_str(),
                i,
                self.spatial_hash.as_ref(),
            );
            proof {
                self.components.components.lemma_ascending();
                assert forall|j: int| 0 <= j < components.keys().len() implies text_before(
                    components.keys()[j],
                    key@,
                ) by {
                    assert(components.keys()[j] == self.components.components.keys()[j]);
                }
            }
            let ghost before = components;
            components.push(key.clone(), component);
            proof {
                assert(components.keys() =~= self.components.components.keys().take(i + 1));
                assert forall|j: int| 0 <= j < i implies components.values()[j]
                    == before.values()[j] by {}
            }
            i += 1;
        }
        proof {
            assert(components.keys() =~= self.components.components.keys());
        }
        let spatial_hash = match &self.spatial_hash {
            Some(sh) => Some(spatial_hash_to_output(sh, &self.components.components, &components)),
            None => None,
        };
        let width = self.components.id_width;
        let id_type = if width == 8 {
            "u8".to_owned()
        } else if width == 16 {
            "u16".to_owned()
        } else if width == 32 {
            "u32".to_owned()
        } else {
            "u64".to_owned()
        };
        output::Spec {
            num_component_types: self.components.components.len(),
            components,
            id_type,
            spatial_hash,
        }
    }
}

/// The spatial hash as generated code sees it.
fn spatial_hash_to_output(
    sh: &SpatialHashSpec,
    resolved: &KeyedMap<Component>,
    components: &KeyedMap<output::Component>,
) -> (out: output::SpatialHash)
    requires
        sh.wf(*resolved),
        resolved.wf(),
        components.wf(),
        components.keys() == resolved.keys(),
        forall|i: int|
            0 <= i < sh.fields.values().len() ==> ((#[trigger] sh.fields.values()[i]).aggregate_type
                == Some(AggregateType::Total) ==> sh.fields.values()[i].component.typ is Some),
    ensures
        spatial_hash_output(out, *sh, *components),
{
    let mut fields: KeyedMap<output::SpatialHashField> = KeyedMap::new();
    let mut has_neighbours = false;
    let mut i: usize = 0;
    proof {
        sh.fields.lemma_len();
        sh.fields.lemma_ascending();
    }
    while i < sh.fields.len()
        invariant
            sh.wf(*resolved),
            components.wf(),
            components.keys() == resolved.keys(),
            forall|j: int|
                0 <= j < sh.fields.values().len() ==> ((
                #[trigger] sh.fields.values()[j]).aggregate_type == Some(AggregateType::Total)
                    ==> sh.fields.values()[j].component.typ is Some),
            crate::keyed::ascending(sh.fields.keys()),
            i <= sh.fields.keys().len(),
            sh.fields.values().len() == sh.fields.keys().len(),
            fields.wf(),
            fields.keys() == sh.fields.keys().take(i as int),
            fields.values().len() == i,
            forall|j: int|
                0 <= j < i ==> field_output(
                    #[trigger] fields.values()[j],
                    sh.fields.values()[j],
                    sh.fields.keys()[j],
                    *components,
                ),
            has_neighbours == (exists|j: int|
                0 <= j < i && (#[trigger] sh.fields.values()[j]).aggregate_type == Some(
                    AggregateType::NeighbourCount,
                )),
        decreases sh.fields.keys().len() - i,
    {
        let key = sh.fields.key(i);
        let field = sh.fields.value(i);
        proof {
            assert(resolved.contains(sh.fields.values()[i as int].component.key@));
        }
        let out_field = field.to_output(key.as_str(), components);
        if let Some(AggregateType::NeighbourCount) = field.aggregate_type {
            has_neighbours = true;
        }
        proof {
            assert forall|j: int| 0 <= j < fields.keys().len() implies text_before(
                fields.keys()[j],
                key@,
            ) by {
                assert(fields.keys()[j] == sh.fields.keys()[j]);
            }
        }
        let ghost before = fields;
        fields.push(key.clone(), out_field);
        proof {
            assert(fields.keys() =~= sh.fields.keys().take(i + 1));
            assert forall|j: int| 0 <= j < i implies fields.values()[j] == before.values()[j] by {}
        }
        i += 1;
    }
    proof {
        assert(fields.keys() =~= sh.fields.keys());
        fields.lemma_len();
    }
    let mut by_component: KeyedMap<output::ByComponentInfo> = KeyedMap::new();
    let mut n: usize = 0;
    while n < sh.fields.len()
        invariant
            sh.wf(*resolved),
            components.wf(),
            components.keys() == resolved.keys(),
            crate::keyed::ascending(sh.fields.keys()),
            n <= sh.fields.keys().len(),
            sh.fields.values().len() == sh.fields.keys().len(),
            fields.wf(),
            fields.keys() == sh.fields.keys(),
            fields.values().len() == fields.keys().len(),
            forall|j: int|
                0 <= j < sh.fields.keys().len() ==> field_output(
                    #[trigger] fields.values()[j],
                    sh.fields.values()[j],
                    sh.fields.keys()[j],
                    *components,
                ),
            by_component.wf(),
            forall|k: Seq<char>|
                by_component.contains(k) == (exists|j: int|
                    0 <= j < n && (#[trigger] sh.fields.values()[j]).component.key@ == k),
            forall|k: Seq<char>| #[trigger]
                by_component.contains(k) ==> group_output(
                    by_component.value_of(k),
                    k,
                    sh.fields,
                    fields,
                    *components,
                    n as int,
                ),
        decreases sh.fields.keys().len() - n,
    {
        let f = fields.value(n);
        let g = sh.fields.value(n);
        let ghost k = g.component.key@;
        let ghost start = by_component;
        proof {
            assert(g.component.key@ == sh.fields.values()[n as int].component.key@);
            assert(f.component == components.value_of(k));
        }
        let at = match by_component.position(g.component.key.as_str()) {
            Some(at) => at,
            None => {
                proof {
                    lemma_group_empty(
                        sh.fields.keys(),
                        fields.values(),
                        sh.fields.values(),
                        k,
                        n as int,
                    );
                }
                by_component.insert(
                    g.component.key.clone(),
                    output::ByComponentInfo {
                        has_fields: false,
                        fields: KeyedMap::new(),
                        lookup: None,
                        component: f.component.copy(),
                    },
                );
                by_component.position(g.component.key.as_str()).unwrap()
            },
        };
        let ghost mid = by_component;
        proof {
            mid.lemma_len();
            assert(mid.contains(k));
            assert(group_output(mid.value_of(k), k, sh.fields, fields, *components, n as int));
            assert forall|other: Seq<char>| other != k && #[trigger] mid.contains(
                other,
            ) implies group_output(
                mid.value_of(other),
                other,
                sh.fields,
                fields,
                *components,
                n as int,
            ) by {
                assert(start.contains(other));
            }
            lemma_group_before(sh.fields.keys(), sh.fields.values(), k, n as int, n as int);
            reveal_strlit("get");
            reveal_strlit("contains");
            assert("get"@.len() == 3);
            assert("contains"@.len() == 8);
        }
        let current = by_component.value_mut(at);
        if let Some(a) = g.aggregate_type {
            if let Some(l) = a.to_lookup() {
                let get = str_eq(l, "get") || match &current.lookup {
                    Some(c) => str_eq(c.as_str(), "get"),
                    None => false,
                };
                current.lookup = Some(
                    if get {
                        "get".to_owned()
                    } else {
                        "contains".to_owned()
                    },
                );
            }
            current.has_fields = true;
        }
        current.fields.push(f.key.clone(), f.copy());
        proof {
            let next = by_component.value_of(k);
            mid.lemma_index(at as int);
            by_component.lemma_len();
            by_component.lemma_index(at as int);
            assert(next == by_component.values()[at as int]);
            assert(group_output(next, k, sh.fields, fields, *components, n + 1));
            assert forall|other: Seq<char>|
                by_component.contains(other) == (exists|j: int|
                    0 <= j < n + 1 && (#[trigger] sh.fields.values()[j]).component.key@
                        == other) by {
                if by_component.contains(other) {
                    assert(mid.contains(other));
                    if other != k {
                        assert(start.contains(other));
                        let j = choose|j: int|
                            0 <= j < n && (#[trigger] sh.fields.values()[j]).component.key@
                                == other;
                        assert(sh.fields.values()[j].component.key@ == other);
                    } else {
                        assert(sh.fields.values()[n as int].component.key@ == other);
                    }
                }
                if exists|j: int|
                    0 <= j < n + 1 && (#[trigger] sh.fields.values()[j]).component.key@ == other {
                    let j = choose|j: int|
                        0 <= j < n + 1 && (#[trigger] sh.fields.values()[j]).component.key@
                            == other;
                    if j < n {
                        assert(start.contains(other));
                    }
                    assert(mid.contains(other));
                }
            }
            assert forall|other: Seq<char>| #[trigger] by_component.contains(
                other,
            ) implies group_output(
                by_component.value_of(other),
                other,
                sh.fields,
                fields,
                *components,
                n + 1,
            ) by {
                if other != k {
                    assert(mid.contains(other));
                    let j = mid.index_of(other);
                    mid.lemma_index(j);
                    by_component.lemma_index(j);
                    assert(by_component.value_of(other) == mid.value_of(other));
                }
            }
        }
        n += 1;
    }
    proof {
        assert forall|i: int|
            0 <= i < sh.fields.values().len() implies resolved.contains(
            (#[trigger] sh.fields.values()[i]).component.key@,
        ) by {}
    }
    let position_component = components.get(sh.position_component.as_str()).unwrap().copy();
    output::SpatialHash { fields, by_component, position_component, has_neighbours }
}

} // verus!
