use entity_store::flat_collections::{FlatMap, FlatMapEntry, FlatSet};
use entity_store::storage::{ComponentMap, ComponentSet};
use entity_store::storage_type::StorageType;
use entity_store::vec_collections::{VecMap, VecSet};

fn all_storage_types() -> Vec<StorageType> {
    vec![StorageType::Vector, StorageType::Flat, StorageType::Hash, StorageType::BTree]
}

#[test]
fn vec_map_insert_get_remove() {
    let mut m: VecMap<u8> = VecMap::new();
    assert!(m.is_empty());
    assert_eq!(m.insert(7, 1), None);
    assert_eq!(m.insert(3, 2), None);
    assert_eq!(m.insert(7, 5), Some(1));
    assert_eq!(m.len(), 2);
    assert_eq!(m.get(&7), Some(&5));
    assert_eq!(m.get(&3), Some(&2));
    assert_eq!(m.get(&4), None);
    assert!(m.contains_key(&3));
    assert_eq!(m.remove(&7), Some(5));
    assert_eq!(m.remove(&7), None);
    assert!(!m.contains_key(&7));
    assert_eq!(m.len(), 1);
}

#[test]
fn vec_map_remove_moves_last_entry_into_freed_slot() {
    let mut m: VecMap<u8> = VecMap::new();
    m.insert(1, 10);
    m.insert(2, 20);
    m.insert(3, 30);
    assert_eq!(m.first(), Some((&1, &10)));
    assert_eq!(m.remove(&1), Some(10));
    assert_eq!(m.first(), Some((&3, &30)));
    assert_eq!(m.first_key(), Some(&3));
    let mut keys = Vec::new();
    let mut it = m.keys();
    while let Some(k) = it.next() {
        keys.push(*k);
    }
    assert_eq!(keys, vec![3, 2]);
}

#[test]
fn vec_map_iter_yields_entries_in_storage_order() {
    let mut m: VecMap<u8> = VecMap::new();
    m.insert(5, 50);
    m.insert(4, 40);
    let mut seen = Vec::new();
    let mut it = m.iter();
    while let Some((k, v)) = it.next() {
        seen.push((*k, *v));
    }
    assert_eq!(seen, vec![(5, 50), (4, 40)]);
}

#[test]
fn vec_set_insert_reports_new_elements() {
    let mut s = VecSet::new();
    assert!(s.insert(4));
    assert!(!s.insert(4));
    assert!(s.insert(9));
    assert_eq!(s.len(), 2);
    assert!(s.contains(&9));
    assert_eq!(s.first(), Some(&4));
    assert!(s.remove(&4));
    assert!(!s.remove(&4));
    assert_eq!(s.first(), Some(&9));
    assert!(!s.is_empty());
    assert!(s.remove(&9));
    assert!(s.is_empty());
}

#[test]
fn flat_map_grows_to_largest_id() {
    let mut m: FlatMap<u8> = FlatMap::new();
    assert_eq!(m.insert(5, 1), None);
    assert_eq!(m.get(&5), Some(&1));
    assert_eq!(m.get(&4), None);
    assert_eq!(m.get(&6), None);
    assert_eq!(m.get(&1000), None);
    assert_eq!(m.insert(2, 7), None);
    assert_eq!(m.insert(5, 9), Some(1));
    assert_eq!(m.remove(&1000), None);
    assert_eq!(m.remove(&5), Some(9));
    assert_eq!(m.remove(&5), None);
    assert!(m.contains_key(&2));
    m.clear();
    assert!(!m.contains_key(&2));
}

#[test]
fn flat_map_get_mut_changes_value_in_place() {
    let mut m: FlatMap<u8> = FlatMap::new();
    m.insert(3, 1);
    assert!(m.get_mut(&4).is_none());
    *m.get_mut(&3).unwrap() = 8;
    assert_eq!(m.get(&3), Some(&8));
}

#[test]
fn flat_map_iter_ascends() {
    let mut m: FlatMap<u8> = FlatMap::new();
    m.insert(70, 7);
    m.insert(3, 1);
    m.insert(12, 2);
    let mut seen = Vec::new();
    let mut it = m.iter();
    while let Some((k, v)) = it.next() {
        seen.push((k, *v));
    }
    assert_eq!(seen, vec![(3, 1), (12, 2), (70, 7)]);
    let mut keys = Vec::new();
    let mut it = m.keys();
    while let Some(k) = it.next() {
        keys.push(k);
    }
    assert_eq!(keys, vec![3, 12, 70]);
}

#[test]
fn flat_set_insert_reports_presence() {
    let mut s = FlatSet::new();
    assert!(s.is_empty());
    assert!(!s.insert(130));
    assert!(s.insert(130));
    assert!(!s.insert(0));
    assert!(!s.insert(63));
    assert!(!s.insert(64));
    assert!(s.contains(&130));
    assert!(s.contains(&63));
    assert!(!s.contains(&65));
    assert!(!s.contains(&100_000));
    assert!(s.remove(&63));
    assert!(!s.remove(&63));
    assert!(!s.remove(&100_000));
    assert!(!s.is_empty());
    let mut seen = Vec::new();
    let mut it = s.iter();
    while let Some(k) = it.next() {
        seen.push(k);
    }
    assert_eq!(seen, vec![0, 64, 130]);
    s.clear();
    assert!(s.is_empty());
}

#[test]
fn flat_set_is_empty_after_removing_everything() {
    let mut s = FlatSet::new();
    s.insert(200);
    s.remove(&200);
    assert!(s.is_empty());
    let mut it = s.iter();
    assert_eq!(it.next(), None);
}

#[test]
fn map_backends_observe_the_same() {
    for storage in all_storage_types() {
        let mut m: ComponentMap<u8> = ComponentMap::new(storage);
        assert_eq!(m.storage_type(), storage);
        assert!(m.is_empty());
        assert_eq!(m.any(), None);
        assert_eq!(m.insert(9, 1), None);
        assert_eq!(m.insert(2, 2), None);
        assert_eq!(m.insert(40, 3), None);
        assert_eq!(m.insert(2, 4), Some(2));
        assert_eq!(m.remove(&9), Some(1));
        assert_eq!(m.remove(&9), None);
        assert_eq!(m.get(&2), Some(&4));
        assert_eq!(m.get(&9), None);
        assert!(m.contains_key(&40));
        assert!(!m.contains_key(&41));
        assert_eq!(m.len(), 2);
        assert!(!m.is_empty());
        let mut ids = m.ids();
        ids.sort();
        assert_eq!(ids, vec![2, 40]);
        let (id, value) = m.any().unwrap();
        assert_eq!(m.get(&id), Some(value));
    }
}

#[test]
fn set_backends_observe_the_same() {
    for storage in all_storage_types() {
        let mut s = ComponentSet::new(storage);
        assert_eq!(s.storage_type(), storage);
        assert!(s.is_empty());
        assert_eq!(s.any(), None);
        assert!(!s.insert(9));
        assert!(s.insert(9));
        assert!(!s.insert(2));
        assert!(!s.insert(70));
        assert!(s.remove(&9));
        assert!(!s.remove(&9));
        assert!(s.contains(&2));
        assert!(!s.contains(&9));
        assert_eq!(s.len(), 2);
        let mut ids = s.ids();
        ids.sort();
        assert_eq!(ids, vec![2, 70]);
        assert!(s.contains(&s.any().unwrap()));
    }
}

#[test]
fn ordered_tree_iterates_in_ascending_order() {
    let mut m: ComponentMap<u8> = ComponentMap::new(StorageType::BTree);
    m.insert(30, 0);
    m.insert(10, 0);
    m.insert(20, 0);
    assert_eq!(m.ids(), vec![10, 20, 30]);
    assert_eq!(m.any(), Some((10, &0)));
}

#[test]
fn dense_vector_any_is_first_slot() {
    let mut m: ComponentMap<u8> = ComponentMap::new(StorageType::Vector);
    m.insert(30, 3);
    m.insert(10, 1);
    m.insert(20, 2);
    assert_eq!(m.any(), Some((30, &3)));
    m.remove(&30);
    assert_eq!(m.any(), Some((20, &2)));
}

#[test]
fn flat_map_entry_fills_gaps_only() {
    let mut m: FlatMap<u8> = FlatMap::new();
    *m.entry(&4).or_insert(7) += 1;
    assert_eq!(m.get(&4), Some(&8));
    *m.entry(&4).or_insert(100) += 1;
    assert_eq!(m.get(&4), Some(&9));
    assert_eq!(*m.entry(&2).or_insert_with(|| 3), 3);
    assert_eq!(*m.entry(&2).or_insert_with(|| 5), 3);
    assert!(matches!(m.entry(&2), FlatMapEntry::Occupied(_)));
    assert!(matches!(m.entry(&3), FlatMapEntry::Vacant { .. }));
    assert_eq!(m.get(&3), None);
}

#[test]
fn vec_map_values_change_in_place() {
    let mut m: VecMap<u8> = VecMap::new();
    m.insert(8, 1);
    m.insert(3, 2);
    m.insert(5, 3);
    for i in 0..m.len() {
        *m.value_mut(i) += 10;
    }
    assert_eq!(m.get(&8), Some(&11));
    assert_eq!(m.get(&3), Some(&12));
    assert_eq!(m.get(&5), Some(&13));
    assert_eq!(m.first(), Some((&8, &11)));
    assert_eq!(m.len(), 3);
}
