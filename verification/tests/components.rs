use entity_store::component::{ComponentRef, ComponentType, ComponentValue};
use entity_store::component_type_set::{ComponentTypeSet, ComponentTypeSetIter};
use entity_store::coord::Coord;
use entity_store::entity_change::EntityChange;
use entity_store::entity_component_table::EntityComponentTable;
use entity_store::entity_store::EntityStore;
use entity_store::coord::Size;

fn kinds(mut it: ComponentTypeSetIter) -> Vec<ComponentType> {
    let mut out = Vec::new();
    while let Some(t) = it.next() {
        out.push(t);
    }
    out
}

#[test]
fn component_type_indices() {
    assert_eq!(ComponentType::Coord.index(), 0);
    assert_eq!(ComponentType::Opacity.index(), 1);
    assert_eq!(ComponentType::Player.index(), 2);
    assert_eq!(ComponentType::Solid.index(), 3);
    assert_eq!(ComponentType::from_u32(2), Some(ComponentType::Player));
    assert_eq!(ComponentType::from_u32(4), None);
}

#[test]
fn component_value_knows_its_kind() {
    assert_eq!(ComponentValue::Coord(Coord::new(1, 2)).typ(), ComponentType::Coord);
    assert_eq!(ComponentValue::Opacity(3).typ(), ComponentType::Opacity);
    assert_eq!(ComponentValue::Player.typ(), ComponentType::Player);
    assert_eq!(ComponentValue::Solid.typ(), ComponentType::Solid);
    let c = Coord::new(0, 0);
    assert_eq!(ComponentRef::Coord(&c).typ(), ComponentType::Coord);
    assert_eq!(ComponentRef::Opacity(&3).typ(), ComponentType::Opacity);
    assert_eq!(ComponentRef::Player.typ(), ComponentType::Player);
    assert_eq!(ComponentRef::Solid.typ(), ComponentType::Solid);
}

#[test]
fn component_type_set_iterates_by_index() {
    let mut s = ComponentTypeSet::new();
    assert!(s.is_empty());
    s.insert(ComponentType::Solid);
    s.insert(ComponentType::Coord);
    s.insert(ComponentType::Player);
    s.insert(ComponentType::Player);
    assert!(s.contains(ComponentType::Solid));
    assert!(!s.contains(ComponentType::Opacity));
    assert_eq!(
        kinds(s.iter()),
        vec![ComponentType::Coord, ComponentType::Player, ComponentType::Solid]
    );
    s.remove(ComponentType::Coord);
    s.remove(ComponentType::Opacity);
    assert_eq!(kinds(s.iter()), vec![ComponentType::Player, ComponentType::Solid]);
    assert!(!s.is_empty());
    assert_eq!(kinds(ComponentTypeSetIter::empty()), vec![]);
}

#[test]
fn entity_component_table_follows_changes() {
    let (mut store, wit) = EntityStore::new(Size::new(1, 1));
    let a = store.allocate_entity_id(&wit);
    let b = store.allocate_entity_id(&wit);
    let mut table = EntityComponentTable::new();
    table.update(&EntityChange::Insert(a, ComponentValue::Opacity(1)));
    table.update(&EntityChange::Insert(a, ComponentValue::Solid));
    table.update(&EntityChange::Insert(b, ComponentValue::Player));
    table.update(&EntityChange::Remove(a, ComponentType::Opacity));
    table.insert_coord(a.raw());
    assert_eq!(kinds(table.components(a)), vec![ComponentType::Coord, ComponentType::Solid]);
    assert_eq!(kinds(table.components(b)), vec![ComponentType::Player]);

    let mut removals = Vec::new();
    let mut it = table.remove_entity(a);
    while let Some(change) = it.next() {
        removals.push(change);
    }
    assert_eq!(
        removals,
        vec![
            EntityChange::Remove(a, ComponentType::Coord),
            EntityChange::Remove(a, ComponentType::Solid)
        ]
    );
    assert_eq!(EntityChange::Remove(a, ComponentType::Coord).id(), a);
    assert_eq!(EntityChange::Insert(b, ComponentValue::Solid).id(), b);

    let taken = table.remove(a.raw()).unwrap();
    assert_eq!(kinds(taken.iter()), vec![ComponentType::Coord, ComponentType::Solid]);
    assert!(table.remove(a.raw()).is_none());
    assert_eq!(kinds(table.components(a)), vec![]);
    table.remove_player(b.raw());
    assert_eq!(kinds(table.components(b)), vec![]);
}

#[test]
fn removal_for_an_entity_without_record_makes_none() {
    let (mut store, wit) = EntityStore::new(Size::new(1, 1));
    let a = store.allocate_entity_id(&wit);
    let b = store.allocate_entity_id(&wit);
    let mut table = EntityComponentTable::new();
    table.update(&EntityChange::Remove(b, ComponentType::Solid));
    assert!(table.remove(b.raw()).is_none());
    assert_eq!(kinds(table.components(b)), vec![]);
    table.update(&EntityChange::Insert(a, ComponentValue::Solid));
    table.update(&EntityChange::Remove(a, ComponentType::Solid));
    table.update(&EntityChange::Remove(a, ComponentType::Player));
    let left = table.remove(a.raw()).unwrap();
    assert!(left.is_empty());
    assert!(table.remove(a.raw()).is_none());
}
