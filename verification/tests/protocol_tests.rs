use xfer::errors::CreateRejection;
use xfer::protocol::{
    configuration_response, handle_create_transfer, handle_download_request, DownloadDecision,
};
use xfer::store::TransferStorage;

#[test]
fn configuration_advertises_the_limits() {
    let response = configuration_response(3_600_000, 50_000_000);
    assert_eq!(response.transfer.expire_after_ms, 3_600_000);
    assert_eq!(response.transfer.max_size_bytes, 50_000_000);
}

#[test]
fn oversized_body_is_rejected_before_storage() {
    let mut store = TransferStorage::new(60_000);
    let body = vec![0xA5u8; 100];
    let result = handle_create_transfer(&mut store, body, 99, 0);
    assert_eq!(result.unwrap_err(), CreateRejection::PayloadTooLarge);
    assert_eq!(store.transfer_count(), 0);
}

#[test]
fn body_at_the_limit_is_accepted() {
    let mut store = TransferStorage::new(60_000);
    let body = vec![0xA5u8; 100];
    let id = handle_create_transfer(&mut store, body.clone(), 100, 0).unwrap();
    assert!(TransferStorage::validate_identifier(&id));
    assert_eq!(store.get_transfer(&id).unwrap(), body);
}

#[test]
fn recognizable_file_signature_is_rejected_under_the_limit() {
    let mut store = TransferStorage::new(60_000);
    // A PNG header: well under the size limit, but clearly not encrypted.
    let mut body = vec![0x89u8, 0x50, 0x4E, 0x47, 0x0D, 0x0A, 0x1A, 0x0A];
    body.extend_from_slice(&[0u8; 64]);
    let result = handle_create_transfer(&mut store, body, 1_000_000, 0);
    assert_eq!(result.unwrap_err(), CreateRejection::NotEncrypted);
    assert_eq!(store.transfer_count(), 0);
}

#[test]
fn unrecognizable_bytes_are_accepted() {
    let mut store = TransferStorage::new(60_000);
    // High-entropy-looking bytes with no known signature.
    let body: Vec<u8> = (0..256u64).map(|i| (i * 197 + 91) as u8).collect();
    assert!(handle_create_transfer(&mut store, body, 1_000_000, 0).is_ok());
    assert_eq!(store.transfer_count(), 1);
}

#[test]
fn malformed_identifier_is_bad_request_without_lookup() {
    let store = TransferStorage::new(60_000);
    assert_eq!(
        handle_download_request(&store, "not a valid id", 0),
        DownloadDecision::BadRequest
    );
    assert_eq!(handle_download_request(&store, "a--c-d", 0), DownloadDecision::BadRequest);
}

#[test]
fn wellformed_but_absent_identifier_is_not_found() {
    let store = TransferStorage::new(60_000);
    assert_eq!(
        handle_download_request(&store, "alpha-bravo-charlie-delta", 0),
        DownloadDecision::NotFound
    );
}

#[test]
fn stored_transfer_is_served_with_size_and_remaining_lifetime() {
    let mut store = TransferStorage::new(10_000);
    let id = store.create_transfer(vec![1u8; 42], 0).unwrap();
    assert_eq!(
        handle_download_request(&store, &id, 4_000),
        DownloadDecision::Serve { size_bytes: 42, max_age_secs: 6 }
    );
    assert_eq!(
        handle_download_request(&store, &id, 9_999),
        DownloadDecision::Serve { size_bytes: 42, max_age_secs: 0 }
    );
}

#[test]
fn expired_but_unswept_transfer_is_not_found() {
    let mut store = TransferStorage::new(10_000);
    let id = store.create_transfer(vec![1u8; 42], 0).unwrap();
    // The entry still sits in storage awaiting the sweep, but clients
    // must no longer see it from its expiry instant on.
    assert!(store.transfer_exists(&id));
    assert_eq!(handle_download_request(&store, &id, 10_000), DownloadDecision::NotFound);
    assert_eq!(handle_download_request(&store, &id, 20_000), DownloadDecision::NotFound);
}

#[test]
fn swept_transfer_is_not_found() {
    let mut store = TransferStorage::new(1_000);
    let id = store.create_transfer(vec![7u8; 5], 0).unwrap();
    store.remove_expired_transfers(1_500);
    assert_eq!(handle_download_request(&store, &id, 1_500), DownloadDecision::NotFound);
}
