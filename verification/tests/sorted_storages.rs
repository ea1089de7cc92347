use sorted_storages::AccountStorageEntry;
use sorted_storages::Slot;
use sorted_storages::SnapshotStorage;
use sorted_storages::SortedStorages;
use sorted_storages::SortedStoragesError;

#[test]
fn test_sorted_storages_empty() {
    let vecs: [SnapshotStorage; 1] = [Vec::new()];
    let result = SortedStorages::new(&vecs);
    assert_eq!(result.unwrap_err(), SortedStoragesError::EmptyContainer);
}

#[test]
fn test_sorted_storages_duplicate_slots() {
    let vecs: [SnapshotStorage; 2] = [Vec::new(), Vec::new()];
    let result = SortedStorages::new_with_slots(&vecs, &[0, 0]);
    assert_eq!(result.unwrap_err(), SortedStoragesError::DuplicateSlot);
}

#[test]
fn test_sorted_storages_mismatched_lengths() {
    let vecs: [SnapshotStorage; 1] = [Vec::new()];
    let result = SortedStorages::new_with_slots(&vecs, &[0, 0]);
    assert_eq!(result.unwrap_err(), SortedStoragesError::LengthMismatch);
}

#[test]
fn test_sorted_storages_none() {
    let result = SortedStorages::new_with_slots(&[], &[]).unwrap();
    assert_eq!(*result.range(), 0..0);
    assert_eq!(result.slot_count(), 0);
    assert_eq!(result.range_width(), 0);
    assert!(result.get(0).is_none());
}

#[test]
fn test_sorted_storages_1() {
    let vec: SnapshotStorage = Vec::new();
    let vec_check = vec.clone();
    let slot: Slot = 4;
    let vecs = [vec];
    let result = SortedStorages::new_with_slots(&vecs, &[slot]).unwrap();
    assert_eq!(*result.range(), slot..slot + 1);
    assert_eq!(result.slot_count(), 1);
    assert_eq!(result.range_width(), 1);
    assert_eq!(result.get(slot).unwrap().len(), vec_check.len());
}

#[test]
fn test_sorted_storages_2() {
    let vec: SnapshotStorage = Vec::new();
    let vec_check = vec.clone();
    let slots: [Slot; 2] = [4, 7];
    let vecs = [vec.clone(), vec];
    let result = SortedStorages::new_with_slots(&vecs, &slots).unwrap();
    assert_eq!(*result.range(), slots[0]..slots[1] + 1);
    assert_eq!(result.slot_count(), 2);
    assert_eq!(result.range_width() as Slot, slots[1] - slots[0] + 1);
    assert!(result.get(0).is_none());
    assert!(result.get(3).is_none());
    assert!(result.get(5).is_none());
    assert!(result.get(6).is_none());
    assert!(result.get(8).is_none());
    assert_eq!(result.get(slots[0]).unwrap().len(), vec_check.len());
    assert_eq!(result.get(slots[1]).unwrap().len(), vec_check.len());
}

#[test]
fn test_one_container_range_and_lookup() {
    let vecs: [SnapshotStorage; 1] = [Vec::new()];
    let result = SortedStorages::new_with_slots(&vecs, &[4]).unwrap();
    assert_eq!(result.range().start, 4);
    assert_eq!(result.range().end, 5);
    assert_eq!(result.range_width(), 1);
    assert_eq!(result.slot_count(), 1);
    assert!(result.get(4).is_some());
    assert!(result.get(3).is_none());
    assert!(result.get(5).is_none());
}

#[test]
fn test_range_matches_min_and_max_of_slots() {
    let vecs: [SnapshotStorage; 3] = [Vec::new(), Vec::new(), Vec::new()];
    let result = SortedStorages::new_with_slots(&vecs, &[9, 2, 5]).unwrap();
    assert_eq!(result.range().start, 2);
    assert_eq!(result.range().end, 10);
    assert_eq!(result.range_width(), result.range().end - result.range().start);
}

#[test]
fn test_count_independent_of_width() {
    let vecs: [SnapshotStorage; 2] = [Vec::new(), Vec::new()];
    let result = SortedStorages::new_with_slots(&vecs, &[0, 100]).unwrap();
    assert_eq!(result.slot_count(), 2);
    assert_eq!(result.range_width(), 101);
}

#[test]
fn test_lookup_finds_each_supplied_pair() {
    let a = vec![AccountStorageEntry::new(11)];
    let b = vec![AccountStorageEntry::new(22), AccountStorageEntry::new(23)];
    let vecs = [a.clone(), b.clone()];
    let result = SortedStorages::new_with_slots(&vecs, &[30, 40]).unwrap();
    assert_eq!(*result.get(30).unwrap(), a);
    assert_eq!(*result.get(40).unwrap(), b);
}

#[test]
fn test_holes_inside_range_are_absent() {
    let vecs: [SnapshotStorage; 2] = [Vec::new(), Vec::new()];
    let result = SortedStorages::new_with_slots(&vecs, &[10, 14]).unwrap();
    for slot in 11..14 {
        assert!(result.get(slot).is_none());
    }
    assert!(result.get(10).is_some());
    assert!(result.get(14).is_some());
}

#[test]
fn test_new_derives_slots_from_first_entries() {
    let a = vec![AccountStorageEntry::new(7), AccountStorageEntry::new(8)];
    let b = vec![AccountStorageEntry::new(3)];
    let vecs = [a.clone(), b.clone()];
    let result = SortedStorages::new(&vecs).unwrap();
    assert_eq!(result.range().start, 3);
    assert_eq!(result.range().end, 8);
    assert_eq!(result.slot_count(), 2);
    assert_eq!(*result.get(7).unwrap(), a);
    assert_eq!(*result.get(3).unwrap(), b);
    assert!(result.get(4).is_none());
}

#[test]
fn test_new_rejects_duplicate_derived_slots() {
    let a = vec![AccountStorageEntry::new(0)];
    let b = vec![AccountStorageEntry::new(0), AccountStorageEntry::new(1)];
    let vecs = [a, b];
    let result = SortedStorages::new(&vecs);
    assert_eq!(result.unwrap_err(), SortedStoragesError::DuplicateSlot);
}

#[test]
fn test_error_messages() {
    assert_eq!(
        SortedStoragesError::EmptyContainer.message(),
        "SnapshotStorage.is_empty()"
    );
    assert_eq!(
        SortedStoragesError::LengthMismatch.message(),
        "source and slots are different lengths"
    );
    assert_eq!(
        SortedStoragesError::DuplicateSlot.message(),
        "slots are not unique"
    );
}

#[test]
fn test_entry_accessors() {
    let entry = AccountStorageEntry::new(42);
    assert_eq!(entry.slot(), 42);
    assert_eq!(entry, AccountStorageEntry { slot: 42 });
}
