use xfer::archive::{extract_archive, pack_directory_archive, pack_file_archive, ArchiveEntry};
use xfer::errors::ArchiveError;

fn entry(path: &str, data: &[u8]) -> ArchiveEntry {
    ArchiveEntry { path: path.to_string(), data: data.to_vec() }
}

#[test]
fn file_archive_round_trip() {
    let bytes = pack_file_archive("notes.txt", b"hello archive".to_vec()).unwrap();
    let entries = extract_archive(&bytes).unwrap();
    assert_eq!(entries.len(), 1);
    assert_eq!(entries[0].path, "notes.txt");
    assert_eq!(entries[0].data, b"hello archive".to_vec());
}

#[test]
fn directory_archive_round_trip() {
    let binary: Vec<u8> = (0u16..=255u16).map(|b| b as u8).collect();
    let tree = vec![
        entry("a.txt", b"alpha"),
        entry("sub/b.bin", &binary),
        entry("sub/deep/empty.dat", b""),
    ];
    let bytes = pack_directory_archive("tree", tree).unwrap();
    let entries = extract_archive(&bytes).unwrap();
    assert_eq!(entries.len(), 3);
    assert_eq!(entries[0].path, "tree/a.txt");
    assert_eq!(entries[0].data, b"alpha".to_vec());
    assert_eq!(entries[1].path, "tree/sub/b.bin");
    assert_eq!(entries[1].data, binary);
    assert_eq!(entries[2].path, "tree/sub/deep/empty.dat");
    assert_eq!(entries[2].data, Vec::<u8>::new());
}

#[test]
fn empty_directory_archive_round_trip() {
    let bytes = pack_directory_archive("empty", Vec::new()).unwrap();
    let entries = extract_archive(&bytes).unwrap();
    assert_eq!(entries.len(), 0);
}

#[test]
fn long_paths_survive_round_trip() {
    let long_name = "d/".repeat(80) + "leaf.txt";
    let tree = vec![entry(&long_name, b"deep")];
    let bytes = pack_directory_archive("root", tree).unwrap();
    let entries = extract_archive(&bytes).unwrap();
    assert_eq!(entries.len(), 1);
    assert_eq!(entries[0].path, format!("root/{long_name}"));
    assert_eq!(entries[0].data, b"deep".to_vec());
}

#[test]
fn non_canonical_paths_are_refused() {
    // Paths the tar format would refuse or silently rewrite while packing
    // are rejected up front, so that every packed path survives verbatim.
    for bad in ["", ".", "..", "../evil", "a/../b", "./a", "a//b", "a/", "/abs", "a\\b", "a/./b"] {
        let result = pack_file_archive(bad, b"x".to_vec());
        assert_eq!(result.unwrap_err(), ArchiveError::PackFailed, "path {bad:?}");
    }
    let tree = vec![entry("sub/../escape", b"x")];
    assert_eq!(
        pack_directory_archive("root", tree).unwrap_err(),
        ArchiveError::PackFailed
    );
}

#[test]
fn dotted_but_canonical_paths_are_accepted() {
    for good in ["a.txt", ".hidden", "...", "..more", "a/.config/b", "a-b/c_d"] {
        let bytes = pack_file_archive(good, b"x".to_vec()).unwrap();
        let entries = extract_archive(&bytes).unwrap();
        assert_eq!(entries.len(), 1);
        assert_eq!(entries[0].path, good);
    }
}

#[test]
fn garbage_stream_is_corrupt() {
    let garbage = b"this is not an archive at all".to_vec();
    assert_eq!(extract_archive(&garbage).unwrap_err(), ArchiveError::Corrupt);
}

#[test]
fn truncated_archive_is_corrupt() {
    let bytes = pack_file_archive("f.txt", b"data".to_vec()).unwrap();
    let truncated: Vec<u8> = bytes[..bytes.len() / 2].to_vec();
    assert_eq!(extract_archive(&truncated).unwrap_err(), ArchiveError::Corrupt);
}

#[test]
fn archive_bytes_are_deterministic() {
    let bytes1 = pack_file_archive("same.txt", b"same contents".to_vec()).unwrap();
    let bytes2 = pack_file_archive("same.txt", b"same contents".to_vec()).unwrap();
    assert_eq!(bytes1, bytes2);
}

#[test]
fn archive_is_readable_by_reference_tools() {
    // Cross-check against the tar and flate2 crates used directly.
    let bytes = pack_file_archive("check.txt", b"cross check".to_vec()).unwrap();
    let decoder = flate2::read::GzDecoder::new(&bytes[..]);
    let mut archive = tar::Archive::new(decoder);
    let mut seen = Vec::new();
    for e in archive.entries().unwrap() {
        let mut e = e.unwrap();
        let path = e.path().unwrap().to_string_lossy().into_owned();
        let mut data = Vec::new();
        std::io::Read::read_to_end(&mut e, &mut data).unwrap();
        seen.push((path, data));
    }
    assert_eq!(seen, vec![("check.txt".to_string(), b"cross check".to_vec())]);
}
