//! Tests of the durable storage layer: the identifier cell, the record
//! maps, and durability across a simulated restart.

use hospital_registry::storage::IdCell;
use hospital_registry::storage::RecordMap;
use hospital_registry::storage::RegionAllocator;
use hospital_registry::storage::StorageBackend;

#[test]
fn cell_starts_at_default_and_returns_previous_on_set() {
    let mut alloc = RegionAllocator::init(StorageBackend::new());
    let mut cell = IdCell::init(alloc.claim_region(0), 0);
    assert_eq!(cell.get(), 0);
    let previous = cell.set(41);
    assert_eq!(previous, 0);
    assert_eq!(cell.get(), 41);
    let previous = cell.set(7);
    assert_eq!(previous, 41);
    assert_eq!(cell.get(), 7);
}

#[test]
fn cell_value_survives_simulated_restart() {
    let mut alloc = RegionAllocator::init(StorageBackend::new());
    let mut cell = IdCell::init(alloc.claim_region(0), 0);
    cell.set(42);
    // A restart re-initializes a cell over the same region: the stored
    // value wins over the default.
    let region = cell.into_region();
    let cell2 = IdCell::init(region, 0);
    assert_eq!(cell2.get(), 42);
}

#[test]
fn map_insert_has_replace_semantics() {
    let mut alloc = RegionAllocator::init(StorageBackend::new());
    let mut map = RecordMap::init(alloc.claim_region(3));
    assert!(!map.contains_key(9));
    assert_eq!(map.get(9), None);
    let first = map.insert(9, vec![1u8, 2, 3]);
    assert_eq!(first, None);
    let second = map.insert(9, vec![4u8, 5]);
    assert_eq!(second, Some(vec![1u8, 2, 3]));
    assert_eq!(map.get(9), Some(vec![4u8, 5]));
    assert!(map.contains_key(9));
    assert_eq!(map.len(), 1);
}

#[test]
fn map_contents_survive_simulated_restart() {
    let mut alloc = RegionAllocator::init(StorageBackend::new());
    let mut map = RecordMap::init(alloc.claim_region(1));
    map.insert(1, vec![10u8]);
    map.insert(2, vec![20u8]);
    let region = map.into_region();
    let map2 = RecordMap::init(region);
    assert_eq!(map2.len(), 2);
    assert_eq!(map2.get(1), Some(vec![10u8]));
    assert_eq!(map2.get(2), Some(vec![20u8]));
}

#[test]
fn map_entries_come_in_ascending_key_order() {
    let mut alloc = RegionAllocator::init(StorageBackend::new());
    let mut map = RecordMap::init(alloc.claim_region(2));
    map.insert(5, vec![50u8]);
    map.insert(1, vec![10u8]);
    map.insert(3, vec![30u8]);
    let entries = map.entries();
    assert_eq!(
        entries,
        vec![(1, vec![10u8]), (3, vec![30u8]), (5, vec![50u8])]
    );
}

#[test]
fn separate_regions_do_not_interfere() {
    let mut alloc = RegionAllocator::init(StorageBackend::new());
    let mut a = RecordMap::init(alloc.claim_region(1));
    let mut b = RecordMap::init(alloc.claim_region(2));
    a.insert(1, vec![1u8]);
    b.insert(1, vec![2u8]);
    assert_eq!(a.get(1), Some(vec![1u8]));
    assert_eq!(b.get(1), Some(vec![2u8]));
    assert_eq!(a.len(), 1);
    assert_eq!(b.len(), 1);
}
