use xfer::store::TransferStorage;

#[test]
fn validate_identifier_shapes() {
    // Four words, none empty.
    assert!(TransferStorage::validate_identifier("a-b-c-d"));
    assert!(TransferStorage::validate_identifier("alpha-bravo-charlie-delta"));
    // Too few or too many words.
    assert!(!TransferStorage::validate_identifier("a-b-c"));
    assert!(!TransferStorage::validate_identifier("a-b-c-d-e"));
    // Empty segments.
    assert!(!TransferStorage::validate_identifier("a--c-d"));
    assert!(!TransferStorage::validate_identifier("-a-b-c"));
    assert!(!TransferStorage::validate_identifier("a-b-c-"));
    assert!(!TransferStorage::validate_identifier(""));
    assert!(!TransferStorage::validate_identifier("---"));
    // No separators at all.
    assert!(!TransferStorage::validate_identifier("alphabravocharliedelta"));
}

#[test]
fn created_transfer_is_retrievable() {
    let mut store = TransferStorage::new(60_000);
    let id = store.create_transfer(b"ciphertext bytes".to_vec(), 1_000).unwrap();
    assert!(TransferStorage::validate_identifier(&id));
    assert!(store.transfer_exists(&id));
    assert_eq!(store.get_transfer(&id).unwrap(), b"ciphertext bytes".to_vec());
    assert_eq!(store.get_transfer_size(&id).unwrap(), 16);
    assert_eq!(store.get_transfer_expiry(&id).unwrap(), 61_000);
    assert_eq!(store.transfer_count(), 1);
}

#[test]
fn absent_identifier_is_not_found() {
    let store = TransferStorage::new(60_000);
    assert!(!store.transfer_exists("a-b-c-d"));
    assert!(store.get_transfer("a-b-c-d").is_none());
    assert!(store.get_transfer_size("a-b-c-d").is_none());
    assert!(store.get_transfer_expiry("a-b-c-d").is_none());
    assert!(store.is_transfer_expired("a-b-c-d", 0).is_none());
}

#[test]
fn expiry_boundaries() {
    let mut store = TransferStorage::new(1_000);
    let id = store.create_transfer(b"x".to_vec(), 5_000).unwrap();
    // Expiry is creation + TTL.
    assert_eq!(store.get_transfer_expiry(&id).unwrap(), 6_000);
    assert_eq!(store.is_transfer_expired(&id, 5_999).unwrap(), false);
    assert_eq!(store.is_transfer_expired(&id, 6_000).unwrap(), true);
    assert_eq!(store.is_transfer_expired(&id, 6_001).unwrap(), true);
}

#[test]
fn sweep_removes_exactly_expired_entries() {
    let mut store = TransferStorage::new(1_000);
    let early = store.create_transfer(b"early".to_vec(), 0).unwrap();
    let late = store.create_transfer(b"late".to_vec(), 500).unwrap();
    // Before anything expires the sweep keeps both.
    store.remove_expired_transfers(999);
    assert!(store.transfer_exists(&early));
    assert!(store.transfer_exists(&late));
    // At the first expiry only the early entry goes.
    store.remove_expired_transfers(1_000);
    assert!(!store.transfer_exists(&early));
    assert!(store.transfer_exists(&late));
    assert_eq!(store.get_transfer(&late).unwrap(), b"late".to_vec());
    // Later the other follows.
    store.remove_expired_transfers(2_000);
    assert!(!store.transfer_exists(&late));
    assert_eq!(store.transfer_count(), 0);
}

#[test]
fn delete_removes_only_the_named_entry() {
    let mut store = TransferStorage::new(60_000);
    let first = store.create_transfer(b"one".to_vec(), 0).unwrap();
    let second = store.create_transfer(b"two".to_vec(), 0).unwrap();
    assert!(store.delete_transfer(&first));
    assert!(!store.transfer_exists(&first));
    assert!(store.transfer_exists(&second));
    // Deleting again reports absence.
    assert!(!store.delete_transfer(&first));
}

#[test]
fn many_creates_yield_distinct_identifiers() {
    let mut store = TransferStorage::new(60_000);
    let mut ids: Vec<String> = Vec::new();
    for i in 0..100u64 {
        let id = store.create_transfer(vec![i as u8], 0).unwrap();
        ids.push(id);
    }
    assert_eq!(store.transfer_count(), 100);
    for a in 0..ids.len() {
        for b in (a + 1)..ids.len() {
            assert_ne!(ids[a], ids[b]);
        }
    }
}

#[test]
fn restored_transfer_keeps_its_creation_instant() {
    let mut store = TransferStorage::new(1_000);
    // As when reloading durable storage at startup.
    assert!(store.insert_transfer("one-two-three-four".to_string(), b"data".to_vec(), 500));
    assert_eq!(store.get_transfer("one-two-three-four").unwrap(), b"data".to_vec());
    assert_eq!(store.get_transfer_expiry("one-two-three-four").unwrap(), 1_500);
}

#[test]
fn restore_refuses_duplicates_and_malformed_identifiers() {
    let mut store = TransferStorage::new(1_000);
    assert!(store.insert_transfer("one-two-three-four".to_string(), b"a".to_vec(), 0));
    // Same identifier again: refused, first entry intact.
    assert!(!store.insert_transfer("one-two-three-four".to_string(), b"b".to_vec(), 9));
    assert_eq!(store.get_transfer("one-two-three-four").unwrap(), b"a".to_vec());
    // Malformed identifier: refused.
    assert!(!store.insert_transfer("not a valid id".to_string(), b"c".to_vec(), 0));
    assert_eq!(store.transfer_count(), 1);
}

#[test]
fn saturating_expiry_near_the_end_of_time() {
    let mut store = TransferStorage::new(u64::MAX);
    let id = store.create_transfer(b"z".to_vec(), 10).unwrap();
    assert_eq!(store.get_transfer_expiry(&id).unwrap(), u64::MAX);
    assert_eq!(store.is_transfer_expired(&id, u64::MAX - 1).unwrap(), false);
}
