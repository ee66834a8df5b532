use std::collections::HashSet;

use entity_store::component::{ComponentType, ComponentValue};
use entity_store::coord::{Coord, Size};
use entity_store::direction::{step, Direction};
use entity_store::entity_store_raw::StorageConfig;
use entity_store::storage_type::StorageType;
use entity_store::entity_store::EntityStore;
use entity_store::id::EntityIdRaw;

fn set_of(ids: &[EntityIdRaw]) -> HashSet<EntityIdRaw> {
    ids.iter().cloned().collect()
}

#[test]
fn remove_entity() {
    let (mut store, mut wit) = EntityStore::new(Size::new(10, 10));

    let id_a = {
        let id_a = store.allocate_entity_id(&wit);

        store.insert_coord(id_a, Coord::new(1, 1));
        store.insert_opacity(id_a, 3);

        store.entity_id_to_free(id_a)
    };

    {
        let id_a = store.entity_id_from_stored(&wit, id_a).unwrap();
        assert_eq!(store.get_coord(id_a), Some(&Coord::new(1, 1)));
    }

    store.remove_entity(&mut wit, id_a);

    {
        assert!(store.entity_id_from_stored(&wit, id_a).is_none());
    }
}

#[test]
fn transfer_entity() {
    let (mut store_a, wit_a) = EntityStore::new(Size::new(10, 10));
    let (mut store_b, wit_b) = EntityStore::new(Size::new(10, 10));

    let id_a = store_a.allocate_entity_id(&wit_a);

    store_a.insert_coord(id_a, Coord::new(1, 1));
    store_a.insert_opacity(id_a, 3);
    store_a.insert_player(id_a);
    store_a.insert_solid(id_a);

    let id_b = store_b.allocate_entity_id(&wit_b);

    assert_eq!(store_a.get_coord(id_a), Some(&Coord::new(1, 1)));
    assert_eq!(store_a.get_opacity(id_a), Some(&3));
    assert!(store_a.contains_player(id_a));
    assert!(store_a.contains_solid(id_a));

    assert!(store_b.get_coord(id_b).is_none());
    assert!(store_b.get_opacity(id_b).is_none());
    assert!(!store_b.contains_player(id_b));
    assert!(!store_b.contains_solid(id_b));

    for value in store_a.drain_entity_components(id_a) {
        store_b.insert(id_b, value);
    }

    assert!(store_a.get_coord(id_a).is_none());
    assert!(store_a.get_opacity(id_a).is_none());
    assert!(!store_a.contains_player(id_a));
    assert!(!store_a.contains_solid(id_a));

    assert_eq!(store_b.get_coord(id_b), Some(&Coord::new(1, 1)));
    assert_eq!(store_b.get_opacity(id_b), Some(&3));
    assert!(store_b.contains_player(id_b));
    assert!(store_b.contains_solid(id_b));
}

#[test]
fn spatial_hash_maintains_aggregates() {
    let (mut store, wit) = EntityStore::new(Size::new(10, 10));

    let id_a = store.allocate_entity_id(&wit);

    store.insert_coord(id_a, Coord::new(1, 1));
    store.insert_solid(id_a);
    store.insert_opacity(id_a, 3);
    store.insert_player(id_a);

    {
        let cell = store.spatial_hash_get(Coord::new(1, 1)).unwrap();
        assert_eq!(cell.opacity_total, 3);
        assert_eq!(cell.solid_count, 1);
        assert_eq!(cell.player_set, set_of(&[id_a.raw()]));
    }

    store.insert_coord(id_a, Coord::new(2, 2));

    {
        let cell = store.spatial_hash_get(Coord::new(1, 1)).unwrap();
        assert_eq!(cell.opacity_total, 0);
        assert_eq!(cell.solid_count, 0);
        assert_eq!(cell.player_set, set_of(&[]));
    }

    {
        let cell = store.spatial_hash_get(Coord::new(2, 2)).unwrap();
        assert_eq!(cell.opacity_total, 3);
        assert_eq!(cell.solid_count, 1);
        assert_eq!(cell.player_set, set_of(&[id_a.raw()]));
    }

    let id_b = store.allocate_entity_id(&wit);

    store.insert_coord(id_b, Coord::new(2, 2));
    store.insert_solid(id_b);
    store.insert_opacity(id_b, 2);
    store.insert_player(id_b);

    {
        let cell = store.spatial_hash_get(Coord::new(2, 2)).unwrap();
        assert_eq!(cell.opacity_total, 5);
        assert_eq!(cell.solid_count, 2);
        assert_eq!(cell.player_set, set_of(&[id_a.raw(), id_b.raw()]));
    }

    store.insert_coord(id_b, Coord::new(1, 1));

    {
        let cell = store.spatial_hash_get(Coord::new(2, 2)).unwrap();
        assert_eq!(cell.opacity_total, 3);
        assert_eq!(cell.solid_count, 1);
        assert_eq!(cell.player_set, set_of(&[id_a.raw()]));
    }
    {
        let cell = store.spatial_hash_get(Coord::new(1, 1)).unwrap();
        assert_eq!(cell.opacity_total, 2);
        assert_eq!(cell.solid_count, 1);
        assert_eq!(cell.player_set, set_of(&[id_b.raw()]));
    }

    store.insert_coord(id_a, Coord::new(1, 1));

    {
        let cell = store.spatial_hash_get(Coord::new(2, 2)).unwrap();
        assert_eq!(cell.opacity_total, 0);
        assert_eq!(cell.solid_count, 0);
        assert_eq!(cell.player_set, set_of(&[]));
    }
    {
        let cell = store.spatial_hash_get(Coord::new(1, 1)).unwrap();
        assert_eq!(cell.opacity_total, 5);
        assert_eq!(cell.solid_count, 2);
        assert_eq!(cell.player_set, set_of(&[id_a.raw(), id_b.raw()]));
    }

    store.remove_solid(id_a);
    store.insert_opacity(id_a, 1);
    store.remove_opacity(id_b);
    store.remove_player(id_a);

    {
        let cell = store.spatial_hash_get(Coord::new(1, 1)).unwrap();
        assert_eq!(cell.opacity_total, 1);
        assert_eq!(cell.solid_count, 1);
        assert_eq!(cell.player_set, set_of(&[id_b.raw()]));
    }
}

#[test]
fn basic() {
    let (mut store, wit) = EntityStore::new(Size::new(0, 0));
    let id_a = store.allocate_entity_id(&wit);
    store.insert_opacity(id_a, 42);

    assert_eq!(store.get_opacity(id_a), Some(&42));
}

#[test]
fn insert_then_remove_returns_the_value() {
    let (mut store, wit) = EntityStore::new(Size::new(4, 4));
    let id = store.allocate_entity_id(&wit);
    assert_eq!(store.insert_opacity(id, 9), None);
    assert!(store.contains_opacity(id));
    assert_eq!(store.remove_opacity(id), Some(9));
    assert!(!store.contains_opacity(id));
    assert_eq!(store.insert_coord(id, Coord::new(3, 1)), None);
    assert_eq!(store.insert_coord(id, Coord::new(2, 1)), Some(Coord::new(3, 1)));
    assert_eq!(store.remove_coord(id), Some(Coord::new(2, 1)));
    assert!(!store.contains_coord(id));
    assert!(!store.insert_solid(id));
    assert!(store.insert_solid(id));
    assert!(store.remove_solid(id));
    assert!(!store.contains_solid(id));
}

#[test]
fn removing_an_absent_component_finds_nothing() {
    let (mut store, wit) = EntityStore::new(Size::new(4, 4));
    let id = store.allocate_entity_id(&wit);
    store.insert_coord(id, Coord::new(1, 1));
    store.insert_player(id);
    assert_eq!(store.spatial_hash_get(Coord::new(1, 1)).unwrap().last_updated, 2);
    assert_eq!(store.remove(id, ComponentType::Opacity), None);
    assert_eq!(store.remove_opacity(id), None);
    assert!(!store.remove_solid(id));
    assert!(!store.remove_solid(id));
    assert_eq!(store.spatial_hash_get(Coord::new(1, 1)).unwrap().last_updated, 2);
    assert_eq!(store.insert_opacity(id, 1), None);
    assert_eq!(store.spatial_hash_get(Coord::new(1, 1)).unwrap().last_updated, 3);
    assert_eq!(store.remove_opacity(id), Some(1));
    assert_eq!(store.spatial_hash_get(Coord::new(1, 1)).unwrap().last_updated, 4);
    assert_eq!(store.remove(id, ComponentType::Player), Some(ComponentValue::Player));
    assert_eq!(store.remove(id, ComponentType::Player), None);
    let cell = store.spatial_hash_get(Coord::new(1, 1)).unwrap();
    assert_eq!(cell.opacity_total, 0);
    assert_eq!(cell.solid_count, 0);
    assert!(cell.player_set.is_empty());
    assert_eq!(store.get_coord(id), Some(&Coord::new(1, 1)));
}

#[test]
fn freed_id_is_invalid_and_reused_id_does_not_revive_it() {
    let (mut store, mut wit) = EntityStore::new(Size::new(2, 2));
    let a = store.allocate_entity_id(&wit);
    let b = store.allocate_entity_id(&wit);
    assert_eq!(a.raw(), 0);
    assert_eq!(b.raw(), 1);
    let stored_a = store.entity_id_to_store(a);
    let stored_b = store.entity_id_to_store(b);
    assert_eq!(stored_a.free_count(), 0);
    store.insert_solid(a);
    store.remove_entity(&mut wit, store.entity_id_to_free(a));
    assert!(store.entity_id_from_stored(&wit, stored_a).is_none());
    assert_eq!(store.entity_id_from_stored(&wit, stored_b), Some(b));

    // freeing with the stale reference again does nothing
    store.remove_entity(&mut wit, stored_a);

    let c = store.allocate_entity_id(&wit);
    assert_eq!(c.raw(), a.raw());
    assert!(!store.contains_solid(c));
    assert!(store.entity_id_from_stored(&wit, stored_a).is_none());
    let stored_c = store.entity_id_to_store(c);
    assert_eq!(stored_c.free_count(), 1);
    assert_eq!(store.entity_id_from_stored(&wit, stored_c), Some(c));

    let d = store.allocate_entity_id(&wit);
    assert_eq!(d.raw(), 2);
}

#[test]
fn remove_entity_clears_the_cell() {
    let (mut store, mut wit) = EntityStore::new(Size::new(3, 3));
    let a = store.allocate_entity_id(&wit);
    let b = store.allocate_entity_id(&wit);
    for id in [a, b] {
        store.insert_coord(id, Coord::new(2, 0));
        store.insert_opacity(id, 10);
        store.insert_solid(id);
        store.insert_player(id);
    }
    store.remove_entity(&mut wit, store.entity_id_to_free(a));
    let cell = store.spatial_hash_get(Coord::new(2, 0)).unwrap();
    assert_eq!(cell.opacity_total, 10);
    assert_eq!(cell.solid_count, 1);
    assert_eq!(cell.player_set, set_of(&[b.raw()]));
    assert!(store.get_coord(a).is_none());
    assert_eq!(store.len_coord(), 1);
}

#[test]
fn position_outside_the_grid_is_skipped() {
    let (mut store, wit) = EntityStore::new(Size::new(2, 2));
    let a = store.allocate_entity_id(&wit);
    store.insert_solid(a);
    store.insert_opacity(a, 4);
    store.insert_coord(a, Coord::new(-1, 5));
    assert_eq!(store.get_coord(a), Some(&Coord::new(-1, 5)));
    assert!(store.spatial_hash_get(Coord::new(-1, 5)).is_none());
    assert!(store.spatial_hash_get(Coord::new(2, 0)).is_none());
    for cell in store.spatial_hash_iter() {
        assert_eq!(cell.solid_count, 0);
        assert_eq!(cell.opacity_total, 0);
    }
    store.insert_coord(a, Coord::new(1, 1));
    assert_eq!(store.spatial_hash_get(Coord::new(1, 1)).unwrap().opacity_total, 4);
    store.insert_coord(a, Coord::new(7, 7));
    assert_eq!(store.spatial_hash_get(Coord::new(1, 1)).unwrap().opacity_total, 0);
    assert_eq!(store.spatial_hash_get(Coord::new(1, 1)).unwrap().solid_count, 0);
}

#[test]
fn components_set_before_the_position_are_folded_in() {
    let (mut store, wit) = EntityStore::new(Size::new(2, 2));
    let a = store.allocate_entity_id(&wit);
    store.insert_opacity(a, 200);
    store.insert_opacity(a, 100);
    store.insert_player(a);
    let b = store.allocate_entity_id(&wit);
    store.insert_opacity(b, 250);
    store.insert_coord(b, Coord::new(0, 1));
    store.insert_coord(a, Coord::new(0, 1));
    let cell = store.spatial_hash_get(Coord::new(0, 1)).unwrap();
    assert_eq!(cell.opacity_total, 350);
    assert_eq!(cell.player_set, set_of(&[a.raw()]));
    store.insert_opacity(a, 1);
    assert_eq!(store.spatial_hash_get(Coord::new(0, 1)).unwrap().opacity_total, 251);
}

#[test]
fn cells_are_stamped_with_the_clock() {
    let (mut store, wit) = EntityStore::new(Size::new(3, 1));
    let a = store.allocate_entity_id(&wit);
    store.insert_player(a);
    store.insert_coord(a, Coord::new(1, 0));
    assert_eq!(store.spatial_hash_get(Coord::new(1, 0)).unwrap().last_updated, 2);
    assert_eq!(store.spatial_hash_get(Coord::new(0, 0)).unwrap().last_updated, 0);
    store.insert_coord(a, Coord::new(0, 0));
    assert_eq!(store.spatial_hash_get(Coord::new(1, 0)).unwrap().last_updated, 3);
    assert_eq!(store.spatial_hash_get(Coord::new(0, 0)).unwrap().last_updated, 3);
    store.insert_opacity(a, 1);
    assert_eq!(store.spatial_hash_get(Coord::new(1, 0)).unwrap().last_updated, 3);
    assert_eq!(store.spatial_hash_get(Coord::new(0, 0)).unwrap().last_updated, 4);
    store.insert_solid(a);
    assert_eq!(store.spatial_hash_get(Coord::new(0, 0)).unwrap().last_updated, 5);
    assert_eq!(store.spatial_hash_get(Coord::new(1, 0)).unwrap().last_updated, 5);
    assert_eq!(store.spatial_hash_get(Coord::new(2, 0)).unwrap().last_updated, 0);
}

#[test]
fn grid_queries() {
    let (store, _wit) = EntityStore::new(Size::new(3, 2));
    assert_eq!(store.spatial_hash_width(), 3);
    assert_eq!(store.spatial_hash_height(), 2);
    assert_eq!(store.spatial_hash_size(), Size::new(3, 2));
    assert_eq!(store.spatial_hash_iter().len(), 6);
    assert_eq!(
        store.spatial_hash_coords(),
        vec![
            Coord::new(0, 0),
            Coord::new(1, 0),
            Coord::new(2, 0),
            Coord::new(0, 1),
            Coord::new(1, 1),
            Coord::new(2, 1)
        ]
    );
    let cells = store.spatial_hash_enumerate();
    assert_eq!(cells.len(), 6);
    assert_eq!(cells[4].0, Coord::new(1, 1));
}

#[test]
fn typed_queries() {
    let (mut store, wit) = EntityStore::new(Size::new(2, 2));
    assert!(store.is_empty_coord());
    assert!(store.is_empty_solid());
    assert_eq!(store.any_coord(&wit), None);
    assert_eq!(store.any_player(&wit), None);
    let a = store.allocate_entity_id(&wit);
    let b = store.allocate_entity_id(&wit);
    store.insert_coord(a, Coord::new(0, 0));
    store.insert_coord(b, Coord::new(1, 1));
    store.insert_opacity(b, 6);
    store.insert_player(a);
    store.insert_solid(b);
    assert_eq!(store.len_coord(), 2);
    assert_eq!(store.len_opacity(), 1);
    assert_eq!(store.len_player(), 1);
    assert_eq!(store.len_solid(), 1);
    let mut coords = store.iter_coord(&wit);
    coords.sort_by_key(|entry| entry.0.raw());
    assert_eq!(coords, vec![(a, &Coord::new(0, 0)), (b, &Coord::new(1, 1))]);
    assert_eq!(store.iter_opacity(&wit), vec![(b, &6)]);
    assert_eq!(store.ids_opacity(&wit), vec![b]);
    assert_eq!(store.any_opacity(&wit), Some((b, &6)));
    assert_eq!(store.any_id_opacity(&wit), Some(b));
    assert_eq!(store.iter_player(&wit), vec![a]);
    assert_eq!(store.any_solid(&wit), Some(b));
    assert!(store.any_id_coord(&wit).is_some());
    assert!(!store.is_empty_opacity());
    assert!(!store.is_empty_player());
}

#[test]
fn stores_with_different_containers_observe_the_same() {
    let mut cells = Vec::new();
    for storage in [StorageType::Vector, StorageType::Flat, StorageType::Hash, StorageType::BTree] {
        let (mut store, mut wit) =
            EntityStore::with_storage(Size::new(3, 3), StorageConfig::uniform(storage));
        let a = store.allocate_entity_id(&wit);
        let b = store.allocate_entity_id(&wit);
        store.insert_coord(a, Coord::new(1, 1));
        store.insert_coord(b, Coord::new(1, 1));
        store.insert_opacity(a, 3);
        store.insert_opacity(b, 4);
        store.insert_solid(a);
        store.insert_player(b);
        store.insert_coord(a, Coord::new(2, 2));
        store.remove_entity(&mut wit, store.entity_id_to_free(b));
        let c = store.allocate_entity_id(&wit);
        store.insert_coord(c, Coord::new(2, 2));
        store.insert_opacity(c, 20);
        let cell = store.spatial_hash_get(Coord::new(2, 2)).unwrap();
        cells.push((cell.opacity_total, cell.solid_count, cell.player_set.len(), store.len_coord()));
        assert_eq!(store.get_opacity(c), Some(&20));
        assert!(!store.contains_player(c));
    }
    assert_eq!(cells, vec![(23, 1, 0, 2); 4]);
}

#[test]
fn drain_yields_components_in_kind_order() {
    let (mut store, wit) = EntityStore::new(Size::new(2, 2));
    let a = store.allocate_entity_id(&wit);
    store.insert_solid(a);
    store.insert_opacity(a, 5);
    store.insert_coord(a, Coord::new(1, 0));
    assert_eq!(
        store.drain_entity_components(a),
        vec![
            ComponentValue::Coord(Coord::new(1, 0)),
            ComponentValue::Opacity(5),
            ComponentValue::Solid
        ]
    );
    assert_eq!(store.drain_entity_components(a), vec![]);
    let cell = store.spatial_hash_get(Coord::new(1, 0)).unwrap();
    assert_eq!(cell.opacity_total, 0);
    assert_eq!(cell.solid_count, 0);
    assert_eq!(cell.last_updated, 4);
    assert_eq!(store.spatial_hash_get(Coord::new(0, 0)).unwrap().last_updated, 4);
    assert_eq!(store.spatial_hash_get(Coord::new(0, 0)).unwrap().solid_neighbours(Direction::East), 0);
}

#[test]
fn try_allocate_hands_out_ids() {
    let (mut store, wit) = EntityStore::new(Size::new(1, 1));
    assert!(store.has_spare_id());
    let a = store.try_allocate_entity_id(&wit).unwrap();
    assert_eq!(a.raw(), 0);
}

#[test]
fn neighbours_count_solid_entities_next_door() {
    let (mut store, wit) = EntityStore::new(Size::new(3, 3));
    let a = store.allocate_entity_id(&wit);
    let b = store.allocate_entity_id(&wit);
    store.insert_coord(a, Coord::new(1, 1));
    store.insert_solid(a);
    {
        let north_west = store.spatial_hash_get(Coord::new(0, 0)).unwrap();
        assert_eq!(north_west.solid_neighbours(Direction::SouthEast), 1);
        assert_eq!(north_west.solid_neighbours(Direction::East), 0);
        let south = store.spatial_hash_get(Coord::new(1, 2)).unwrap();
        assert_eq!(south.solid_neighbours(Direction::North), 1);
        let own = store.spatial_hash_get(Coord::new(1, 1)).unwrap();
        for i in 0..8 {
            assert_eq!(own.solid_neighbours(Direction::from_index(i)), 0);
        }
        assert_eq!(own.solid_count, 1);
    }
    store.insert_solid(b);
    store.insert_coord(b, Coord::new(1, 1));
    assert_eq!(
        store.spatial_hash_get(Coord::new(2, 1)).unwrap().solid_neighbours(Direction::West),
        2
    );
    store.insert_coord(a, Coord::new(0, 1));
    assert_eq!(
        store.spatial_hash_get(Coord::new(2, 1)).unwrap().solid_neighbours(Direction::West),
        1
    );
    assert_eq!(
        store.spatial_hash_get(Coord::new(1, 1)).unwrap().solid_neighbours(Direction::West),
        1
    );
    store.remove_solid(b);
    store.remove_coord(a);
    for cell in store.spatial_hash_iter() {
        for i in 0..8 {
            assert_eq!(cell.solid_neighbours(Direction::from_index(i)), 0);
        }
    }
}

#[test]
fn neighbours_count_entities_outside_the_grid() {
    let (mut store, wit) = EntityStore::new(Size::new(2, 2));
    let a = store.allocate_entity_id(&wit);
    store.insert_solid(a);
    store.insert_coord(a, Coord::new(-1, 0));
    let edge = store.spatial_hash_get(Coord::new(0, 0)).unwrap();
    assert_eq!(edge.solid_neighbours(Direction::West), 1);
    assert_eq!(edge.solid_count, 0);
    assert_eq!(
        store.spatial_hash_get(Coord::new(0, 1)).unwrap().solid_neighbours(Direction::NorthWest),
        1
    );
    store.insert_coord(a, Coord::new(i32::MAX, i32::MIN));
    assert_eq!(
        store.spatial_hash_get(Coord::new(0, 0)).unwrap().solid_neighbours(Direction::West),
        0
    );
}

#[test]
fn neighbour_counters_have_room_for_255() {
    let (mut store, wit) = EntityStore::new(Size::new(2, 1));
    let mut last = None;
    for _ in 0..255 {
        let id = store.allocate_entity_id(&wit);
        store.insert_coord(id, Coord::new(0, 0));
        assert!(store.has_room(id, &ComponentValue::Solid));
        store.insert_solid(id);
        last = Some(id);
    }
    assert_eq!(
        store.spatial_hash_get(Coord::new(1, 0)).unwrap().solid_neighbours(Direction::West),
        255
    );
    let extra = store.allocate_entity_id(&wit);
    store.insert_coord(extra, Coord::new(0, 0));
    assert!(!store.has_room(extra, &ComponentValue::Solid));
    assert!(store.has_room(extra, &ComponentValue::Opacity(1)));
    assert!(store.has_room(last.unwrap(), &ComponentValue::Solid));
    assert!(store.has_room(last.unwrap(), &ComponentValue::Coord(Coord::new(0, 0))));
    store.insert_coord(extra, Coord::new(5, 5));
    assert!(store.has_room(extra, &ComponentValue::Solid));
    store.insert_solid(extra);
    assert!(!store.has_room(extra, &ComponentValue::Coord(Coord::new(0, 0))));
    assert!(store.has_room(extra, &ComponentValue::Coord(Coord::new(1, 0))));
}

#[test]
fn steps_by_direction() {
    assert_eq!(step(Coord::new(3, 3), Direction::North), Some(Coord::new(3, 2)));
    assert_eq!(step(Coord::new(3, 3), Direction::SouthWest), Some(Coord::new(2, 4)));
    assert_eq!(step(Coord::new(i32::MAX, 0), Direction::East), None);
    assert_eq!(step(Coord::new(0, i32::MIN), Direction::NorthEast), None);
    for i in 0..8 {
        let d = Direction::from_index(i);
        assert_eq!(d.index(), i);
        assert_eq!(d.opposite().opposite(), d);
        assert_eq!(d.coord().x, -d.opposite().coord().x);
        assert_eq!(d.coord().y, -d.opposite().coord().y);
    }
    assert_eq!(Direction::East.coord(), Coord::new(1, 0));
    assert_eq!(Direction::North.opposite(), Direction::South);
}

#[test]
fn ordered_containers_iterate_in_ascending_order() {
    for storage in [StorageType::BTree, StorageType::Flat] {
        let (mut store, wit) =
            EntityStore::with_storage(Size::new(2, 2), StorageConfig::uniform(storage));
        let ids: Vec<_> = (0..5).map(|_| store.allocate_entity_id(&wit)).collect();
        for &i in [3usize, 0, 4, 1].iter() {
            store.insert_opacity(ids[i], i as u8);
            store.insert_player(ids[i]);
        }
        store.remove_opacity(ids[0]);
        assert_eq!(store.ids_opacity(&wit), vec![ids[1], ids[3], ids[4]]);
        assert_eq!(store.iter_opacity(&wit), vec![(ids[1], &1), (ids[3], &3), (ids[4], &4)]);
        assert_eq!(store.iter_player(&wit), vec![ids[0], ids[1], ids[3], ids[4]]);
        assert_eq!(store.any_id_opacity(&wit), Some(ids[1]));
    }
}

#[test]
fn sizes_that_fit_a_grid() {
    assert!(Size::new(10, 10).fits_grid());
    assert!(Size::new(0, 0).fits_grid());
    assert!(Size::new(5, 0).fits_grid());
    assert!(!Size::new(0, 5).fits_grid());
    assert!(Size::new(65_535, 65_537).fits_grid());
    assert!(!Size::new(65_536, 65_536).fits_grid());
    assert!(Size::new(0x7fff_ffff, 1).fits_grid());
    assert!(Size::new(1, 0x7fff_ffff).fits_grid());
    assert!(!Size::new(0x8000_0000, 1).fits_grid());
    assert!(!Size::new(1, 0x8000_0000).fits_grid());
    assert!(!Size::new(0x8000_0000, 0).fits_grid());
}

#[test]
fn try_insert_hands_the_value_back_where_there_is_no_room() {
    let (mut store, wit) = EntityStore::new(Size::new(2, 1));
    for _ in 0..255 {
        let id = store.allocate_entity_id(&wit);
        assert_eq!(store.try_insert(id, ComponentValue::Coord(Coord::new(0, 0))), Ok(None));
        assert_eq!(store.try_insert(id, ComponentValue::Solid), Ok(None));
    }
    let extra = store.allocate_entity_id(&wit);
    assert_eq!(store.try_insert(extra, ComponentValue::Coord(Coord::new(0, 0))), Ok(None));
    let clock = store.spatial_hash_get(Coord::new(0, 0)).unwrap().last_updated;
    assert_eq!(store.try_insert(extra, ComponentValue::Solid), Err(ComponentValue::Solid));
    assert!(!store.contains_solid(extra));
    let cell = store.spatial_hash_get(Coord::new(0, 0)).unwrap();
    assert_eq!(cell.solid_count, 255);
    assert_eq!(cell.last_updated, clock);
    assert_eq!(
        store.spatial_hash_get(Coord::new(1, 0)).unwrap().solid_neighbours(Direction::West),
        255
    );
    assert_eq!(store.try_insert(extra, ComponentValue::Opacity(9)), Ok(None));
    assert_eq!(
        store.try_insert(extra, ComponentValue::Opacity(4)),
        Ok(Some(ComponentValue::Opacity(9)))
    );
    assert_eq!(
        store.try_insert(extra, ComponentValue::Coord(Coord::new(1, 0))),
        Ok(Some(ComponentValue::Coord(Coord::new(0, 0))))
    );
    assert_eq!(store.try_insert(extra, ComponentValue::Solid), Ok(None));
    assert_eq!(
        store.try_insert(extra, ComponentValue::Coord(Coord::new(0, 0))),
        Err(ComponentValue::Coord(Coord::new(0, 0)))
    );
    assert_eq!(store.get_coord(extra), Some(&Coord::new(1, 0)));
}

#[test]
fn many_entities_in_a_row() {
    let (mut store, mut wit) = EntityStore::new(Size::new(1, 1));
    let ids: Vec<_> = (0..4).map(|_| store.allocate_entity_id(&wit)).collect();
    assert_eq!(ids.iter().map(|id| id.raw()).collect::<Vec<_>>(), vec![0, 1, 2, 3]);
    store.remove_entity(&mut wit, store.entity_id_to_free(ids[1]));
    store.remove_entity(&mut wit, store.entity_id_to_free(ids[2]));
    assert_eq!(store.allocate_entity_id(&wit).raw(), 2);
    assert_eq!(store.allocate_entity_id(&wit).raw(), 1);
    assert_eq!(store.allocate_entity_id(&wit).raw(), 4);
    assert!(store.has_spare_id());
}

#[test]
fn ids_and_flags_are_listed_once() {
    let (mut store, wit) = EntityStore::new(Size::new(2, 2));
    let a = store.allocate_entity_id(&wit);
    let b = store.allocate_entity_id(&wit);
    store.insert_coord(b, Coord::new(0, 0));
    store.insert_coord(a, Coord::new(1, 1));
    store.insert_coord(a, Coord::new(0, 1));
    store.insert_solid(a);
    store.insert_solid(b);
    store.insert_solid(a);
    let mut ids = store.ids_coord(&wit);
    ids.sort_by_key(|id| id.raw());
    assert_eq!(ids, vec![a, b]);
    let mut solid = store.iter_solid(&wit);
    solid.sort_by_key(|id| id.raw());
    assert_eq!(solid, vec![a, b]);
}
