//! An ephemeral encrypted file-relay library.
//!
//! A client packs a file or directory into a compressed archive, encrypts
//! it with a fresh random key, and uploads the opaque container to a relay
//! server. The server stores it under a generated word-list identifier
//! with a time-to-live; a recipient fetches and decrypts it with the
//! credential `<identifier>/<hex-key>`.

pub mod archive;
pub mod cipher;
pub mod client;
pub mod errors;
pub mod hexcode;
pub mod identifier;
pub mod protocol;
pub mod store;
