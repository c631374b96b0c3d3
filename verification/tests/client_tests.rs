use xfer::archive::ArchiveEntry;
use xfer::client::{
    confirmation_accepts, format_transfer_credential, parse_transfer_key,
    prepare_directory_upload, prepare_file_upload, process_download, transfer_size_display,
    ProgressTracker, TransferSizeDisplay,
};
use xfer::errors::{DownloadError, UploadError};
use xfer::protocol::{configuration_response, handle_create_transfer, handle_download_request,
    DownloadDecision};
use xfer::store::TransferStorage;

#[test]
fn file_upload_download_pipeline() {
    let prepared =
        prepare_file_upload("report.pdf", b"not really a pdf".to_vec(), 1_000_000).unwrap();
    assert_eq!(prepared.key_hex.len(), 64);
    let entries = process_download(&prepared.container, &prepared.key_hex).unwrap();
    assert_eq!(entries.len(), 1);
    assert_eq!(entries[0].path, "report.pdf");
    assert_eq!(entries[0].data, b"not really a pdf".to_vec());
}

#[test]
fn directory_upload_download_pipeline() {
    let tree = vec![
        ArchiveEntry { path: "a.txt".to_string(), data: b"one".to_vec() },
        ArchiveEntry { path: "nested/b.txt".to_string(), data: b"two".to_vec() },
    ];
    let prepared = prepare_directory_upload("project", tree, 1_000_000).unwrap();
    let entries = process_download(&prepared.container, &prepared.key_hex).unwrap();
    assert_eq!(entries.len(), 2);
    assert_eq!(entries[0].path, "project/a.txt");
    assert_eq!(entries[0].data, b"one".to_vec());
    assert_eq!(entries[1].path, "project/nested/b.txt");
    assert_eq!(entries[1].data, b"two".to_vec());
}

#[test]
fn pre_encryption_size_check_rejects_large_archives() {
    let result = prepare_file_upload("big.bin", vec![0u8; 4096], 10);
    assert_eq!(result.unwrap_err(), UploadError::SourceTooLarge);
}

#[test]
fn post_encryption_size_check_rejects_the_overhead() {
    // Learn the archive's exact size from a successful run, then set the
    // limit so that the archive fits but the encrypted container does not.
    let data = b"tight fit".to_vec();
    let prepared = prepare_file_upload("f.bin", data.clone(), 1_000_000).unwrap();
    let archive_len = (prepared.container.len() - 40) as u64;
    let result = prepare_file_upload("f.bin", data, archive_len);
    assert_eq!(result.unwrap_err(), UploadError::EncryptedTooLarge);
}

#[test]
fn wrong_credential_key_fails_cleanly() {
    let prepared = prepare_file_upload("x.txt", b"contents".to_vec(), 1_000_000).unwrap();
    let other_key = "FFEEDDCCBBAA99887766554433221100FFEEDDCCBBAA99887766554433221100";
    assert_eq!(
        process_download(&prepared.container, other_key).unwrap_err(),
        DownloadError::AuthenticationFailed
    );
    assert_eq!(
        process_download(&prepared.container, "zz").unwrap_err(),
        DownloadError::InvalidKey
    );
}

#[test]
fn credential_parses_at_the_first_slash() {
    let parsed = parse_transfer_key("alpha-bravo-charlie-delta/AABB").unwrap();
    assert_eq!(parsed.0, "alpha-bravo-charlie-delta");
    assert_eq!(parsed.1, "AABB");
    // Only the first slash splits.
    let parsed = parse_transfer_key("a/b/c").unwrap();
    assert_eq!(parsed.0, "a");
    assert_eq!(parsed.1, "b/c");
    assert!(parse_transfer_key("no-slash-here").is_none());
}

#[test]
fn credential_format_then_parse_round_trips() {
    let credential = format_transfer_credential("one-two-three-four", "00FFAA11");
    assert_eq!(credential, "one-two-three-four/00FFAA11");
    let parsed = parse_transfer_key(&credential).unwrap();
    assert_eq!(parsed.0, "one-two-three-four");
    assert_eq!(parsed.1, "00FFAA11");
}

#[test]
fn size_display_handles_a_missing_length() {
    assert_eq!(transfer_size_display(Some(123)), TransferSizeDisplay::Known(123));
    assert_eq!(transfer_size_display(None), TransferSizeDisplay::Unknown);
}

#[test]
fn confirmation_gate() {
    assert!(confirmation_accepts(true, None));
    assert!(confirmation_accepts(true, Some(false)));
    assert!(confirmation_accepts(false, Some(true)));
    assert!(!confirmation_accepts(false, Some(false)));
    assert!(!confirmation_accepts(false, None));
}

#[test]
fn progress_is_cumulative_and_monotone() {
    let mut progress = ProgressTracker::new();
    assert_eq!(progress.transferred(), 0);
    progress.record_chunk(10);
    assert_eq!(progress.transferred(), 10);
    progress.record_chunk(5);
    assert_eq!(progress.transferred(), 15);
    progress.record_chunk(u64::MAX);
    assert_eq!(progress.transferred(), u64::MAX);
}

#[test]
fn end_to_end_one_second_ttl() {
    // Server configured with a one-second TTL.
    let mut store = TransferStorage::new(1_000);
    let max_size: u64 = 50_000_000;
    let config = configuration_response(1_000, max_size);
    assert_eq!(config.transfer.expire_after_ms, 1_000);

    // Upload five bytes: archive, encrypt, create.
    let prepared = prepare_file_upload("hello", b"world".to_vec(), max_size).unwrap();
    let id = handle_create_transfer(&mut store, prepared.container.clone(), max_size, 0).unwrap();
    let credential = format_transfer_credential(&id, &prepared.key_hex);

    // Immediate download decrypts back to the five bytes.
    let (fetch_id, key) = parse_transfer_key(&credential).unwrap();
    assert!(matches!(
        handle_download_request(&store, &fetch_id, 500),
        DownloadDecision::Serve { .. }
    ));
    let fetched = store.get_transfer(&fetch_id).unwrap();
    let entries = process_download(&fetched, &key).unwrap();
    assert_eq!(entries.len(), 1);
    assert_eq!(entries[0].data, b"world".to_vec());

    // After the TTL has passed the transfer is gone for clients at once,
    // even before the sweep has deleted the entry.
    assert_eq!(handle_download_request(&store, &fetch_id, 1_100), DownloadDecision::NotFound);
    store.remove_expired_transfers(1_100);
    assert!(!store.transfer_exists(&fetch_id));
    assert_eq!(handle_download_request(&store, &fetch_id, 1_100), DownloadDecision::NotFound);
}
