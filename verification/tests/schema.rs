use entity_store::aggregate_type::AggregateType;
use entity_store::input;
use entity_store::keyed::KeyedMap;
use entity_store::result::GenError;
use entity_store::schema::Spec;
use entity_store::storage_type::StorageType;
use entity_store::strings::{capitalise_first_letter, name_from_field_name};

fn text(s: &str) -> Option<String> {
    Some(s.to_string())
}

fn component(typ: Option<&str>, storage: Option<&str>) -> input::Component {
    input::Component {
        typ: typ.map(|s| s.to_string()),
        name_override: None,
        storage: storage.map(|s| s.to_string()),
    }
}

fn field(component: &str, aggregate: Option<&str>) -> input::SpatialHashField {
    input::SpatialHashField {
        component: component.to_string(),
        aggregate: aggregate.map(|s| s.to_string()),
        typ: None,
    }
}

fn game_schema() -> input::Spec {
    let mut spec = input::Spec::new();
    spec.components.insert("solid".to_string(), component(None, Some("hash")));
    spec.components.insert("coord".to_string(), component(Some("Coord"), Some("vector")));
    spec.components.insert("player".to_string(), component(None, Some("btree")));
    spec.components.insert("opacity".to_string(), component(Some("u8"), Some("flat")));
    spec.components.insert("door_state".to_string(), component(Some("DoorState"), None));
    spec.spatial_hash.insert("solid_count".to_string(), field("solid", Some("count")));
    spec.spatial_hash.insert("opacity_total".to_string(), field("opacity", Some("total")));
    spec.spatial_hash.insert("opacity_count".to_string(), field("opacity", Some("count")));
    spec.spatial_hash.insert("player_set".to_string(), field("player", Some("set")));
    spec.spatial_hash.insert("door".to_string(), field("solid", None));
    spec.spatial_hash_key = text("coord");
    spec.id_width = 32;
    spec
}

fn keys<T>(map: &KeyedMap<T>) -> Vec<String> {
    (0..map.len()).map(|i| map.key(i).clone()).collect()
}

#[test]
fn aggregate_type_names() {
    assert_eq!(AggregateType::from_str("total"), Some(AggregateType::Total));
    assert_eq!(AggregateType::from_str("count"), Some(AggregateType::Count));
    assert_eq!(AggregateType::from_str("set"), Some(AggregateType::IdSet));
    assert_eq!(AggregateType::from_str("neighbour_count"), Some(AggregateType::NeighbourCount));
    assert_eq!(AggregateType::from_str("sum"), None);
    assert_eq!(AggregateType::from_str("Total"), None);
    for a in AggregateType::all() {
        assert_eq!(AggregateType::from_str(a.to_str()), Some(a));
    }
    assert!(AggregateType::Total.requires_storage());
    assert!(AggregateType::NeighbourCount.requires_storage());
    assert!(!AggregateType::Count.requires_storage());
    assert!(!AggregateType::IdSet.requires_storage());
    assert_eq!(AggregateType::Total.to_lookup(), Some("get"));
    assert_eq!(AggregateType::Count.to_lookup(), Some("contains"));
    assert_eq!(AggregateType::IdSet.to_lookup(), Some("contains"));
    assert_eq!(AggregateType::NeighbourCount.to_lookup(), None);
}

#[test]
fn aggregate_type_field_types() {
    let u8_type = "u8".to_string();
    let wide = "u64".to_string();
    assert_eq!(AggregateType::Total.to_type(Some(&u8_type), Some(&wide)), "u8");
    assert_eq!(AggregateType::Count.to_type(None, None), "usize");
    assert_eq!(AggregateType::Count.to_type(Some(&u8_type), Some(&wide)), "u64");
    assert_eq!(AggregateType::IdSet.to_type(None, None), "SpatialHashCellEntityIdSet");
    assert_eq!(AggregateType::IdSet.to_type(None, Some(&wide)), "u64");
    assert_eq!(
        AggregateType::NeighbourCount.to_type(None, Some(&wide)),
        "::entity_store_helpers::NeighbourCount"
    );
}

#[test]
fn storage_type_names() {
    assert_eq!(StorageType::from_str("vector"), Some(StorageType::Vector));
    assert_eq!(StorageType::from_str("flat"), Some(StorageType::Flat));
    assert_eq!(StorageType::from_str("hash"), Some(StorageType::Hash));
    assert_eq!(StorageType::from_str("btree"), Some(StorageType::BTree));
    assert_eq!(StorageType::from_str("tree"), None);
    for s in StorageType::all() {
        assert_eq!(StorageType::from_str(s.to_str()), Some(s));
    }
    assert_eq!(StorageType::Vector.to_map_type(), "EntityVecMap");
    assert_eq!(StorageType::Flat.to_set_type(), "EntityFlatSet");
    assert_eq!(StorageType::Flat.to_map_iter_wrapper(), "EntityIdAndValIterOfVal");
    assert_eq!(StorageType::Hash.to_map_iter_wrapper(), "EntityIdAndValIterOfRef");
    assert_eq!(StorageType::Flat.to_set_iter_wrapper(), "EntityIdIterOfVal");
    assert_eq!(StorageType::BTree.to_set_iter_wrapper(), "EntityIdIterOfRef");
    assert_eq!(StorageType::Hash.to_map_iter(), "EntityHashMapIter");
    assert_eq!(StorageType::BTree.to_map_keys(), "EntityBTreeMapKeys");
    assert_eq!(StorageType::Vector.to_set_iter(), "EntityVecSetIter");
}

#[test]
fn names_are_made_from_keys() {
    assert_eq!(capitalise_first_letter("foo"), "Foo");
    assert_eq!(capitalise_first_letter(""), "");
    assert_eq!(capitalise_first_letter("ßa"), "SSa");
    assert_eq!(name_from_field_name("door_state"), "DoorState");
    assert_eq!(name_from_field_name("coord"), "Coord");
    assert_eq!(name_from_field_name("a__b_"), "AB");
    assert_eq!(name_from_field_name(""), "");
}

#[test]
fn keyed_map_keeps_keys_in_order() {
    let mut m: KeyedMap<u8> = KeyedMap::new();
    assert!(m.is_empty());
    assert_eq!(m.insert("pear".to_string(), 1), None);
    assert_eq!(m.insert("apple".to_string(), 2), None);
    assert_eq!(m.insert("pea".to_string(), 3), None);
    assert_eq!(m.insert("zebra".to_string(), 4), None);
    assert_eq!(m.insert("pear".to_string(), 5), Some(1));
    assert_eq!(keys(&m), vec!["apple", "pea", "pear", "zebra"]);
    assert_eq!(m.get("pear"), Some(&5));
    assert_eq!(m.get("pe"), None);
    assert_eq!(m.position("pea"), Some(1));
    assert!(m.contains_key("zebra"));
    assert!(!m.contains_key("Zebra"));
    assert_eq!(*m.value(0), 2);
    *m.value_mut(0) = 9;
    assert_eq!(m.get("apple"), Some(&9));
    m.push("zz".to_string(), 0);
    assert_eq!(m.len(), 5);
}

#[test]
fn valid_schema_resolves() {
    let spec = Spec::from_str(&game_schema()).unwrap();
    assert_eq!(
        keys(&spec.components.components),
        vec!["coord", "door_state", "opacity", "player", "solid"]
    );
    assert_eq!(spec.components.id_width, 32);
    let door = spec.components.components.get("door_state").unwrap();
    assert_eq!(door.name, "DoorState");
    assert_eq!(door.key, "door_state");
    assert_eq!(door.typ, text("DoorState"));
    assert_eq!(door.storage_type, None);
    assert_eq!(spec.components.components.get("opacity").unwrap().storage_type, Some(StorageType::Flat));
    let sh = spec.spatial_hash.as_ref().unwrap();
    assert_eq!(sh.position_component, "coord");
    assert_eq!(
        keys(&sh.fields),
        vec!["door", "opacity_count", "opacity_total", "player_set", "solid_count"]
    );
    assert_eq!(sh.fields.get("opacity_total").unwrap().aggregate_type, Some(AggregateType::Total));
    assert_eq!(sh.fields.get("door").unwrap().aggregate_type, None);
    assert_eq!(sh.fields.get("door").unwrap().component.key, "solid");
    assert_eq!(keys(&sh.tracked_components), vec!["opacity", "player", "solid"]);
    assert!(spec.renderable());
}

#[test]
fn name_override_is_kept() {
    let mut input = game_schema();
    input.components.insert(
        "opacity".to_string(),
        input::Component { typ: text("u8"), name_override: text("Dim"), storage: text("flat") },
    );
    let spec = Spec::from_str(&input).unwrap();
    assert_eq!(spec.components.components.get("opacity").unwrap().name, "Dim");
}

#[test]
fn unknown_storage_type_is_refused() {
    let mut input = game_schema();
    input.components.insert("solid".to_string(), component(None, Some("list")));
    match Spec::from_str(&input) {
        Err(GenError::InvalidStorageType(names)) => {
            assert_eq!(names, vec!["vector", "flat", "hash", "btree"])
        }
        _ => panic!("expected InvalidStorageType"),
    }
}

#[test]
fn unknown_aggregate_type_is_refused() {
    let mut input = game_schema();
    input.spatial_hash.insert("solid_count".to_string(), field("solid", Some("mean")));
    match Spec::from_str(&input) {
        Err(GenError::InvalidAggregateType(names)) => {
            assert_eq!(names, vec!["total", "count", "set", "neighbour_count"])
        }
        _ => panic!("expected InvalidAggregateType"),
    }
}

#[test]
fn field_of_unknown_component_is_refused() {
    let mut input = game_schema();
    input.spatial_hash.insert("ghost_count".to_string(), field("ghost", Some("count")));
    match Spec::from_str(&input) {
        Err(GenError::NoSuchComponent(key)) => assert_eq!(key, "ghost"),
        _ => panic!("expected NoSuchComponent"),
    }
}

#[test]
fn unknown_position_component_is_refused() {
    let mut input = game_schema();
    input.spatial_hash_key = text("position");
    match Spec::from_str(&input) {
        Err(GenError::NoSuchComponent(key)) => assert_eq!(key, "position"),
        _ => panic!("expected NoSuchComponent"),
    }
}

#[test]
fn total_of_component_without_storage_is_refused() {
    let mut input = game_schema();
    input.spatial_hash.insert("door_total".to_string(), field("door_state", Some("total")));
    match Spec::from_str(&input) {
        Err(GenError::MissingStorageType(key)) => assert_eq!(key, "door_state"),
        _ => panic!("expected MissingStorageType"),
    }
    let mut input = game_schema();
    input.spatial_hash.insert("door_near".to_string(), field("door_state", Some("neighbour_count")));
    assert!(matches!(Spec::from_str(&input), Err(GenError::MissingStorageType(_))));
    let mut input = game_schema();
    input.spatial_hash.insert("door_count".to_string(), field("door_state", Some("count")));
    assert!(Spec::from_str(&input).is_ok());
}

#[test]
fn fields_without_position_component_are_refused() {
    let mut input = game_schema();
    input.spatial_hash_key = None;
    assert!(matches!(Spec::from_str(&input), Err(GenError::MissingSpatialHashKey)));
    let mut input = input::Spec::new();
    input.components.insert("foo".to_string(), component(Some("u32"), Some("vector")));
    let spec = Spec::from_str(&input).unwrap();
    assert!(spec.spatial_hash.is_none());
    assert_eq!(spec.components.id_width, 64);
}

#[test]
fn schema_without_components_is_refused() {
    let input = input::Spec::new();
    assert!(matches!(Spec::from_str(&input), Err(GenError::NoComponents)));
}

#[test]
fn invalid_id_width_is_refused() {
    let mut input = game_schema();
    input.id_width = 24;
    match Spec::from_str(&input) {
        Err(GenError::InvalidIdWidth(widths)) => assert_eq!(widths, vec![8, 16, 32, 64]),
        _ => panic!("expected InvalidIdWidth"),
    }
    for width in [8, 16, 32, 64] {
        let mut input = game_schema();
        input.id_width = width;
        assert!(Spec::from_str(&input).is_ok());
    }
}

#[test]
fn earlier_checks_win() {
    let mut input = game_schema();
    input.id_width = 7;
    input.spatial_hash_key = None;
    input.spatial_hash.insert("a_bad".to_string(), field("ghost", Some("mean")));
    assert!(matches!(Spec::from_str(&input), Err(GenError::InvalidAggregateType(_))));
    input.components.insert("solid".to_string(), component(None, Some("list")));
    assert!(matches!(Spec::from_str(&input), Err(GenError::InvalidStorageType(_))));
}

#[test]
fn output_components() {
    let out = Spec::from_str(&game_schema()).unwrap().to_output();
    assert_eq!(out.num_component_types, 5);
    assert_eq!(out.id_type, "u32");
    assert_eq!(keys(&out.components), vec!["coord", "door_state", "opacity", "player", "solid"]);
    let coord = out.components.get("coord").unwrap();
    assert_eq!(coord.index, 0);
    assert_eq!(coord.name, "Coord");
    assert_eq!(coord.key, "coord");
    assert_eq!(coord.contains, "contains_key");
    assert!(coord.tracked_by_spatial_hash);
    let storage = coord.storage.as_ref().unwrap();
    assert_eq!(storage.typ, "vector");
    assert_eq!(storage.rust_type, "EntityVecMap");
    assert_eq!(storage.map_iter, "EntityVecMapIter");
    let door = out.components.get("door_state").unwrap();
    assert_eq!(door.index, 1);
    assert!(door.storage.is_none());
    assert!(!door.tracked_by_spatial_hash);
    let solid = out.components.get("solid").unwrap();
    assert_eq!(solid.index, 4);
    assert_eq!(solid.contains, "contains");
    assert_eq!(solid.typ, None);
    assert_eq!(solid.storage.as_ref().unwrap().rust_type, "EntityHashSet");
    assert!(solid.tracked_by_spatial_hash);
}

#[test]
fn output_groups_fields_by_component() {
    let out = Spec::from_str(&game_schema()).unwrap().to_output();
    let sh = out.spatial_hash.as_ref().unwrap();
    assert_eq!(sh.position_component.key, "coord");
    assert!(!sh.has_neighbours);
    assert_eq!(
        keys(&sh.fields),
        vec!["door", "opacity_count", "opacity_total", "player_set", "solid_count"]
    );
    let total = sh.fields.get("opacity_total").unwrap();
    assert_eq!(total.aggregate.typ, "total");
    assert_eq!(total.aggregate.rust_type, "u8");
    assert_eq!(total.component.key, "opacity");
    let door = sh.fields.get("door").unwrap();
    assert_eq!(door.aggregate.typ, "void");
    assert_eq!(door.aggregate.rust_type, "()");
    assert_eq!(sh.fields.get("solid_count").unwrap().aggregate.rust_type, "usize");

    assert_eq!(keys(&sh.by_component), vec!["opacity", "player", "solid"]);
    let opacity = sh.by_component.get("opacity").unwrap();
    assert_eq!(keys(&opacity.fields), vec!["opacity_count", "opacity_total"]);
    assert_eq!(opacity.lookup, text("get"));
    assert!(opacity.has_fields);
    assert_eq!(opacity.component.index, 2);
    let player = sh.by_component.get("player").unwrap();
    assert_eq!(keys(&player.fields), vec!["player_set"]);
    assert_eq!(player.lookup, text("contains"));
    let solid = sh.by_component.get("solid").unwrap();
    assert_eq!(keys(&solid.fields), vec!["door", "solid_count"]);
    assert_eq!(solid.lookup, text("contains"));
    assert!(solid.has_fields);
}

#[test]
fn value_read_serves_presence_whatever_the_order() {
    let mut input = game_schema();
    input.spatial_hash.insert("a_total".to_string(), field("opacity", Some("total")));
    input.spatial_hash.insert("z_set".to_string(), field("opacity", Some("set")));
    let out = Spec::from_str(&input).unwrap().to_output();
    let sh = out.spatial_hash.as_ref().unwrap();
    assert_eq!(sh.by_component.get("opacity").unwrap().lookup, text("get"));
}

#[test]
fn group_without_aggregate_has_no_lookup() {
    let mut input = input::Spec::new();
    input.components.insert("at".to_string(), component(Some("Coord"), Some("hash")));
    input.components.insert("lit".to_string(), component(None, Some("hash")));
    input.spatial_hash.insert("lit".to_string(), field("lit", None));
    input.spatial_hash.insert("near".to_string(), field("lit", Some("neighbour_count")));
    input.spatial_hash_key = text("at");
    let out = Spec::from_str(&input).unwrap().to_output();
    assert_eq!(out.id_type, "u64");
    let sh = out.spatial_hash.as_ref().unwrap();
    assert!(sh.has_neighbours);
    let lit = sh.by_component.get("lit").unwrap();
    assert_eq!(lit.lookup, None);
    assert!(lit.has_fields);
    assert_eq!(
        sh.fields.get("near").unwrap().aggregate.rust_type,
        "::entity_store_helpers::NeighbourCount"
    );
}

#[test]
fn total_of_untyped_component_cannot_be_rendered() {
    let mut input = game_schema();
    input.spatial_hash.insert("solid_total".to_string(), field("solid", Some("total")));
    let spec = Spec::from_str(&input).unwrap();
    assert!(!spec.renderable());
}

#[test]
fn modules_are_combined() {
    let modules = vec![
        ("mod".to_string(), "pub use self::id::*;\n".to_string()),
        ("id".to_string(), "pub struct Id;\n\nimpl Id {\n    fn f() {}\n}\n".to_string()),
    ];
    assert_eq!(
        entity_store::code_gen::combine_modules(&modules),
        "pub use self::id::*;\n\n\nmod id {\n    pub struct Id;\n\n    impl Id {\n        fn f() {}\n    }\n}"
    );
    assert_eq!(entity_store::code_gen::combine_modules(&vec![]), "");
    assert_eq!(entity_store::code_gen::module_text("a", ""), "mod a {\n}");
}
