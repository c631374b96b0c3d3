//! Error taxonomy of the relay library.
//!
//! Validation failures are rejected before expensive work, cryptographic
//! failures are always fatal and never partially trusted, and archive
//! failures are typically symptomatic of a wrong key or a truncated
//! transfer.

use vstd::prelude::*;

verus! {

/// Failure of the authenticated cipher.
#[derive(Clone, Copy, Debug, PartialEq, Eq, Structural)]
pub enum CryptoError {
    /// The supplied key is not valid hex of the expected length.
    InvalidKey,
    /// The container failed authentication: it was tampered with, truncated,
    /// or encrypted under a different key.
    AuthenticationFailed,
    /// The cipher refused to encrypt (the payload exceeds its limits).
    EncryptionFailed,
}

/// Failure while building or reading a transfer archive.
#[derive(Clone, Copy, Debug, PartialEq, Eq, Structural)]
pub enum ArchiveError {
    /// An entry path is not one the archive format stores verbatim (an
    /// empty, `.` or `..` segment, or a NUL or backslash character), so
    /// no archive was produced.
    PackFailed,
    /// The byte stream is not a valid archive container; the common cause is
    /// a wrong decryption key producing garbage, or a truncated transfer.
    Corrupt,
}

/// Failure inside the object store.
#[derive(Clone, Copy, Debug, PartialEq, Eq, Structural)]
pub enum StoreError {
    /// No fresh identifier could be generated: every candidate drawn
    /// collided with a stored entry or failed validation. With a large
    /// dictionary this is practically unreachable.
    IdentifierGenerationFailed,
}

/// Reason the server refuses to create a transfer.
#[derive(Clone, Copy, Debug, PartialEq, Eq, Structural)]
pub enum CreateRejection {
    /// The body exceeds the advertised maximum transfer size.
    PayloadTooLarge,
    /// The leading bytes match a known file-type signature, so the client
    /// most likely forgot to encrypt.
    NotEncrypted,
    /// The store could not complete the creation.
    InternalError,
}

/// Failure while preparing an upload on the client.
#[derive(Clone, Copy, Debug, PartialEq, Eq, Structural)]
pub enum UploadError {
    /// The archive could not be produced: an entry path is not one the
    /// archive format stores verbatim.
    ArchivingFailed,
    /// The archive is already larger than the server's maximum size before
    /// encryption.
    SourceTooLarge,
    /// Encryption overhead pushed an in-budget archive over the server's
    /// maximum size.
    EncryptedTooLarge,
    /// The cipher refused to encrypt.
    EncryptionFailed,
}

/// Failure while decoding a downloaded transfer on the client.
#[derive(Clone, Copy, Debug, PartialEq, Eq, Structural)]
pub enum DownloadError {
    /// The decryption key is not valid hex of the expected length.
    InvalidKey,
    /// The container failed authentication.
    AuthenticationFailed,
    /// Decryption succeeded but the plaintext is not a valid archive.
    ArchiveCorrupt,
}

} // verus!
