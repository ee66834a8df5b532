use std::collections::HashSet;

use entity_store::coord::{Coord, Size};
use entity_store::entity_store::EntityStore;
use entity_store::id::EntityIdRaw;

fn set_of(ids: &[EntityIdRaw]) -> HashSet<EntityIdRaw> {
    ids.iter().cloned().collect()
}

#[test]
fn lib_spatial_hash_maintains_aggregates() {
    let (mut store, wit) = EntityStore::new(Size::new(10, 10));

    let id_a = store.allocate_entity_id(&wit);

    store.insert_coord(id_a, Coord::new(1, 1));
    store.insert_solid(id_a);
    store.insert_opacity(id_a, 3);
    store.insert_player(id_a);

    {
        let cell = store.spatial_hash_get(Coord::new(1, 1)).unwrap();
        assert_eq!(cell.opacity_total, 3);
        assert_eq!(cell.solid_count, 1);
        assert_eq!(cell.player_set, set_of(&[id_a.raw()]));
    }

    store.insert_coord(id_a, Coord::new(2, 2));

    {
        let cell = store.spatial_hash_get(Coord::new(1, 1)).unwrap();
        assert_eq!(cell.opacity_total, 0);
        assert_eq!(cell.solid_count, 0);
        assert_eq!(cell.player_set, set_of(&[]));
    }

    {
        let cell = store.spatial_hash_get(Coord::new(2, 2)).unwrap();
        assert_eq!(cell.opacity_total, 3);
        assert_eq!(cell.solid_count, 1);
        assert_eq!(cell.player_set, set_of(&[id_a.raw()]));
    }

    let id_b = store.allocate_entity_id(&wit);

    store.insert_coord(id_b, Coord::new(2, 2));
    store.insert_solid(id_b);
    store.insert_opacity(id_b, 2);
    store.insert_player(id_b);

    {
        let cell = store.spatial_hash_get(Coord::new(2, 2)).unwrap();
        assert_eq!(cell.opacity_total, 5);
        assert_eq!(cell.solid_count, 2);
        assert_eq!(cell.player_set, set_of(&[id_a.raw(), id_b.raw()]));
    }

    store.insert_coord(id_b, Coord::new(1, 1));

    {
        let cell = store.spatial_hash_get(Coord::new(2, 2)).unwrap();
        assert_eq!(cell.opacity_total, 3);
        assert_eq!(cell.solid_count, 1);
        assert_eq!(cell.player_set, set_of(&[id_a.raw()]));
    }
    {
        let cell = store.spatial_hash_get(Coord::new(1, 1)).unwrap();
        assert_eq!(cell.opacity_total, 2);
        assert_eq!(cell.solid_count, 1);
        assert_eq!(cell.player_set, set_of(&[id_b.raw()]));
    }

    store.insert_coord(id_a, Coord::new(1, 1));

    {
        let cell = store.spatial_hash_get(Coord::new(2, 2)).unwrap();
        assert_eq!(cell.opacity_total, 0);
        assert_eq!(cell.solid_count, 0);
        assert_eq!(cell.player_set, set_of(&[]));
    }
    {
        let cell = store.spatial_hash_get(Coord::new(1, 1)).unwrap();
        assert_eq!(cell.opacity_total, 5);
        assert_eq!(cell.solid_count, 2);
        assert_eq!(cell.player_set, set_of(&[id_a.raw(), id_b.raw()]));
    }

    store.remove_solid(id_a);
    store.insert_opacity(id_a, 1);
    store.remove_opacity(id_b);
    store.remove_player(id_a);

    {
        let cell = store.spatial_hash_get(Coord::new(1, 1)).unwrap();
        assert_eq!(cell.opacity_total, 1);
        assert_eq!(cell.solid_count, 1);
        assert_eq!(cell.player_set, set_of(&[id_b.raw()]));
    }
}
