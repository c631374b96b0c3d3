//! The transfer client's pipeline: archive, check, encrypt, check again
//! on upload; decrypt and unpack on download.
//!
//! Both size checks are required and independent: the archive is checked
//! against the server's limit before encryption, and the container again
//! after it, because the cipher's overhead can push an in-budget payload
//! over the limit.

use vstd::prelude::*;

use crate::archive::{
    canonical_entries, canonical_path, entries_view, extract_archive, pack_directory_archive,
    pack_file_archive, rooted, targz_of, ArchiveEntry,
};
use crate::cipher::{sealed_container, Cryptography, KEY_LEN_BYTES, MAX_PLAINTEXT_LEN_BYTES,
    NONCE_LEN_BYTES, TAG_LEN_BYTES};
use crate::errors::{CryptoError, DownloadError, UploadError};
use crate::hexcode::{hex_decodable, hex_decoded, hex_upper_of};

verus! {

/// An encrypted transfer ready to upload, with the credential key that
/// decrypts it.
#[derive(Debug)]
pub struct PreparedUpload {
    pub container: Vec<u8>,
    pub key_hex: String,
}

/// The per-container byte overhead of encryption: the nonce prefix plus
/// the authentication tag.
pub open spec fn encryption_overhead() -> nat {
    (NONCE_LEN_BYTES + TAG_LEN_BYTES) as nat
}

/// Size-check and encrypt an archive stream.
fn seal_and_check(archive: Vec<u8>, max_size_bytes: u64) -> (r: Result<
    PreparedUpload,
    UploadError,
>)
    ensures
        r matches Ok(p) ==> archive@.len() <= max_size_bytes && p.container@.len() == archive@.len()
            + encryption_overhead() && p.container@.len() <= max_size_bytes && p.key_hex@.len()
            == 2 * KEY_LEN_BYTES && (exists|k: Seq<u8>, n: Seq<u8>|
            k.len() == KEY_LEN_BYTES && n.len() == NONCE_LEN_BYTES && p.key_hex@ == hex_upper_of(k)
                && p.container@ == #[trigger] sealed_container(k, n, archive@)),
        r == Err::<PreparedUpload, UploadError>(UploadError::SourceTooLarge) <==> archive@.len()
            > max_size_bytes,
        r == Err::<PreparedUpload, UploadError>(UploadError::EncryptedTooLarge) ==> archive@.len()
            <= max_size_bytes && archive@.len() + encryption_overhead() > max_size_bytes,
        r == Err::<PreparedUpload, UploadError>(UploadError::EncryptionFailed) ==> archive@.len()
            <= max_size_bytes && archive@.len() >= MAX_PLAINTEXT_LEN_BYTES,
        archive@.len() <= max_size_bytes && archive@.len() < MAX_PLAINTEXT_LEN_BYTES ==> (r is Ok
            <==> archive@.len() + encryption_overhead() <= max_size_bytes),
        r is Err ==> r->Err_0 != UploadError::ArchivingFailed,
{
    if archive.len() as u64 > max_size_bytes {
        return Err(UploadError::SourceTooLarge);
    }
    let mut container = archive;
    let key_hex = match Cryptography::encrypt_in_place(&mut container) {
        Ok(k) => k,
        Err(_) => {
            return Err(UploadError::EncryptionFailed);
        },
    };
    if container.len() as u64 > max_size_bytes {
        return Err(UploadError::EncryptedTooLarge);
    }
    Ok(PreparedUpload { container, key_hex })
}

/// Prepare a single file for upload: pack it under its base name, check
/// the archive against the server's limit, encrypt, and check the
/// container again.
pub fn prepare_file_upload(name: &str, data: Vec<u8>, max_size_bytes: u64) -> (r: Result<
    PreparedUpload,
    UploadError,
>)
    ensures
        r matches Ok(p) ==> ({
            let archive = targz_of(seq![(name@, data@)]);
            &&& archive.len() <= max_size_bytes
            &&& p.container@.len() == archive.len() + encryption_overhead()
            &&& p.container@.len() <= max_size_bytes
            &&& exists|k: Seq<u8>, n: Seq<u8>|
                k.len() == KEY_LEN_BYTES && n.len() == NONCE_LEN_BYTES && p.key_hex@
                    == hex_upper_of(k) && p.container@ == #[trigger] sealed_container(
                    k,
                    n,
                    archive,
                )
        }),
        r == Err::<PreparedUpload, UploadError>(UploadError::ArchivingFailed) <==> !canonical_path(
            name@,
        ),
        r == Err::<PreparedUpload, UploadError>(UploadError::SourceTooLarge) <==> canonical_path(
            name@,
        ) && targz_of(seq![(name@, data@)]).len() > max_size_bytes,
        r == Err::<PreparedUpload, UploadError>(UploadError::EncryptedTooLarge) ==> targz_of(
            seq![(name@, data@)],
        ).len() <= max_size_bytes && targz_of(seq![(name@, data@)]).len() + encryption_overhead()
            > max_size_bytes,
        r == Err::<PreparedUpload, UploadError>(UploadError::EncryptionFailed) ==> targz_of(
            seq![(name@, data@)],
        ).len() <= max_size_bytes && targz_of(seq![(name@, data@)]).len()
            >= MAX_PLAINTEXT_LEN_BYTES,
        canonical_path(name@) && targz_of(seq![(name@, data@)]).len() <= max_size_bytes && targz_of(
            seq![(name@, data@)],
        ).len() < MAX_PLAINTEXT_LEN_BYTES ==> (r is Ok <==> targz_of(seq![(name@, data@)]).len()
            + encryption_overhead() <= max_size_bytes),
{
    let archive = match pack_file_archive(name, data) {
        Ok(a) => a,
        Err(_) => {
            return Err(UploadError::ArchivingFailed);
        },
    };
    seal_and_check(archive, max_size_bytes)
}

/// Prepare a directory for upload: pack its descendants under the
/// directory's base name, check the archive against the server's limit,
/// encrypt, and check the container again.
pub fn prepare_directory_upload(
    root_name: &str,
    entries: Vec<ArchiveEntry>,
    max_size_bytes: u64,
) -> (r: Result<PreparedUpload, UploadError>)
    ensures
        r matches Ok(p) ==> ({
            let archive = targz_of(rooted(root_name@, entries_view(entries@)));
            &&& archive.len() <= max_size_bytes
            &&& p.container@.len() == archive.len() + encryption_overhead()
            &&& p.container@.len() <= max_size_bytes
            &&& exists|k: Seq<u8>, n: Seq<u8>|
                k.len() == KEY_LEN_BYTES && n.len() == NONCE_LEN_BYTES && p.key_hex@
                    == hex_upper_of(k) && p.container@ == #[trigger] sealed_container(
                    k,
                    n,
                    archive,
                )
        }),
        r == Err::<PreparedUpload, UploadError>(UploadError::ArchivingFailed)
            <==> !canonical_entries(rooted(root_name@, entries_view(entries@))),
        r == Err::<PreparedUpload, UploadError>(UploadError::SourceTooLarge)
            <==> canonical_entries(rooted(root_name@, entries_view(entries@))) && targz_of(
            rooted(root_name@, entries_view(entries@)),
        ).len() > max_size_bytes,
        r == Err::<PreparedUpload, UploadError>(UploadError::EncryptedTooLarge) ==> targz_of(
            rooted(root_name@, entries_view(entries@)),
        ).len() <= max_size_bytes && targz_of(rooted(root_name@, entries_view(entries@))).len()
            + encryption_overhead() > max_size_bytes,
        r == Err::<PreparedUpload, UploadError>(UploadError::EncryptionFailed) ==> targz_of(
            rooted(root_name@, entries_view(entries@)),
        ).len() <= max_size_bytes && targz_of(rooted(root_name@, entries_view(entries@))).len()
            >= MAX_PLAINTEXT_LEN_BYTES,
        canonical_entries(rooted(root_name@, entries_view(entries@))) && targz_of(
            rooted(root_name@, entries_view(entries@)),
        ).len() <= max_size_bytes && targz_of(rooted(root_name@, entries_view(entries@))).len()
            < MAX_PLAINTEXT_LEN_BYTES ==> (r is Ok <==> targz_of(
            rooted(root_name@, entries_view(entries@)),
        ).len() + encryption_overhead() <= max_size_bytes),
{
    let archive = match pack_directory_archive(root_name, entries) {
        Ok(a) => a,
        Err(_) => {
            return Err(UploadError::ArchivingFailed);
        },
    };
    seal_and_check(archive, max_size_bytes)
}

/// Decrypt a downloaded container and read back its archive entries.
///
/// Any container produced by the upload pipeline yields, under its
/// credential key, exactly the entries that were packed.
pub fn process_download(container: &Vec<u8>, key_hex: &str) -> (r: Result<
    Vec<ArchiveEntry>,
    DownloadError,
>)
    ensures
        forall|k: Seq<u8>, n: Seq<u8>, es: Seq<(Seq<char>, Seq<u8>)>|
            hex_decodable(key_hex@) && hex_decoded(key_hex@) == k && k.len() == KEY_LEN_BYTES
                && n.len() == NONCE_LEN_BYTES && canonical_entries(es) && container@
                == #[trigger] sealed_container(k, n, targz_of(es)) ==> r is Ok && entries_view(
                r->Ok_0@,
            ) == es,
        r == Err::<Vec<ArchiveEntry>, DownloadError>(DownloadError::InvalidKey) <==> !(
        hex_decodable(key_hex@) && hex_decoded(key_hex@).len() == KEY_LEN_BYTES),
        r is Ok ==> exists|plaintext: Seq<u8>|
            container@ == #[trigger] sealed_container(
                hex_decoded(key_hex@),
                container@.take(NONCE_LEN_BYTES as int),
                plaintext,
            ),
{
    let archive = match Cryptography::decrypt(container, key_hex) {
        Ok(a) => a,
        Err(CryptoError::InvalidKey) => {
            return Err(DownloadError::InvalidKey);
        },
        Err(_) => {
            return Err(DownloadError::AuthenticationFailed);
        },
    };
    match extract_archive(&archive) {
        Ok(entries) => Ok(entries),
        Err(_) => Err(DownloadError::ArchiveCorrupt),
    }
}

/// Split a transfer credential `<identifier>/<hex-key>` at its first
/// slash into the fetch identifier and the decryption key.
pub fn parse_transfer_key(credential: &str) -> (r: Option<(String, String)>)
    ensures
        r is Some <==> (exists|i: int|
            0 <= i < credential@.len() && credential@[i] == '/'),
        r matches Some(parts) ==> exists|i: int|
            0 <= i < credential@.len() && #[trigger] credential@[i] == '/' && (forall|j: int|
                0 <= j < i ==> credential@[j] != '/') && parts.0@ == credential@.take(i)
                && parts.1@ == credential@.skip(i + 1),
{
    let n = credential.unicode_len();
    let mut i: usize = 0;
    while i < n
        invariant
            n == credential@.len(),
            i <= n,
            forall|j: int| 0 <= j < i ==> credential@[j] != '/',
        decreases n - i,
    {
        if credential.get_char(i) == '/' {
            let id_part = credential.substring_char(0, i).to_owned();
            let key_part = credential.substring_char(i + 1, n).to_owned();
            proof {
                assert(credential@.subrange(0, i as int) =~= credential@.take(i as int));
                assert(credential@.subrange(i + 1, n as int) =~= credential@.skip(i + 1));
            }
            return Some((id_part, key_part));
        }
        i = i + 1;
    }
    None
}

/// Join an identifier and a hex key into the single copy-pasteable
/// credential `<identifier>/<hex-key>`.
pub fn format_transfer_credential(id: &str, key_hex: &str) -> (r: String)
    ensures
        r@ == id@ + seq!['/'] + key_hex@,
{
    proof {
        reveal_strlit("/");
    }
    let mut out = id.to_owned();
    out.append("/");
    out.append(key_hex);
    out
}

/// Splitting a credential undoes formatting it: as identifiers never
/// contain a slash, the first slash of `<identifier>/<hex-key>` sits
/// exactly after the identifier, so parsing recovers the identifier and
/// key unchanged.
pub proof fn lemma_credential_round_trip(id: Seq<char>, key_hex: Seq<char>)
    requires
        forall|j: int| 0 <= j < id.len() ==> id[j] != '/',
    ensures
        ({
            let s = id + seq!['/'] + key_hex;
            &&& exists|i: int| 0 <= i < s.len() && s[i] == '/'
            &&& forall|i: int|
                0 <= i < s.len() && #[trigger] s[i] == '/' && (forall|j: int|
                    0 <= j < i ==> s[j] != '/') ==> s.take(i) == id && s.skip(i + 1) == key_hex
        }),
{
    let s = id + seq!['/'] + key_hex;
    assert(s[id.len() as int] == '/');
    assert forall|i: int|
        0 <= i < s.len() && #[trigger] s[i] == '/' && (forall|j: int|
            0 <= j < i ==> s[j] != '/') implies s.take(i) == id && s.skip(i + 1) == key_hex by {
        if i < id.len() {
            assert(s[i] == id[i]);
            assert(false);
        } else if i > id.len() {
            assert(s[id.len() as int] == '/');
            assert(false);
        }
        assert(s.take(i) =~= id);
        assert(s.skip(i + 1) =~= key_hex);
    }
}

/// How a transfer's size is shown before download: a server that omits
/// the content length yields an unknown-size display, not a failure.
#[derive(Clone, Copy, Debug, PartialEq, Eq, Structural)]
pub enum TransferSizeDisplay {
    Known(u64),
    Unknown,
}

/// Interpret the optional content length of a metadata probe.
pub fn transfer_size_display(content_length: Option<u64>) -> (r: TransferSizeDisplay)
    ensures
        content_length matches Some(n) ==> r == TransferSizeDisplay::Known(n),
        content_length is None ==> r == TransferSizeDisplay::Unknown,
{
    match content_length {
        Some(n) => TransferSizeDisplay::Known(n),
        None => TransferSizeDisplay::Unknown,
    }
}

/// The confirmation gate before an upload or download: explicit override
/// skips the question, otherwise only an affirmative answer proceeds;
/// declining aborts cleanly.
pub fn confirmation_accepts(skip_confirmation: bool, answer: Option<bool>) -> (r: bool)
    ensures
        r == (skip_confirmation || answer == Some(true)),
{
    skip_confirmation || matches!(answer, Some(true))
}

/// Cumulative progress of one transfer, as reported to an observer after
/// each chunk: the count never decreases.
pub struct ProgressTracker {
    transferred_bytes: u64,
}

impl ProgressTracker {
    /// The cumulative number of bytes reported so far.
    pub closed spec fn spec_transferred(&self) -> u64 {
        self.transferred_bytes
    }

    pub fn new() -> (r: Self)
        ensures
            r.spec_transferred() == 0,
    {
        ProgressTracker { transferred_bytes: 0 }
    }

    /// Record one transferred chunk; the cumulative count grows by the
    /// chunk's size, saturating, and in particular never decreases.
    pub fn record_chunk(&mut self, chunk_bytes: u64)
        ensures
            final(self).spec_transferred() == if old(self).spec_transferred() + chunk_bytes
                <= u64::MAX {
                (old(self).spec_transferred() + chunk_bytes) as u64
            } else {
                u64::MAX
            },
            final(self).spec_transferred() >= old(self).spec_transferred(),
    {
        self.transferred_bytes = self.transferred_bytes.saturating_add(chunk_bytes);
    }

    /// The cumulative number of bytes transferred.
    pub fn transferred(&self) -> (r: u64)
        ensures
            r == self.spec_transferred(),
    {
        self.transferred_bytes
    }
}

} // verus!
