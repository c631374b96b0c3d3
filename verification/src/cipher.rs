//! Symmetric authenticated encryption of transfer archives.
//!
//! A container is self-describing except for the key: a fresh random
//! 24-byte nonce is prefixed to the AEAD ciphertext, which embeds its
//! 16-byte authentication tag. Decryption fails closed: it never returns
//! plaintext that does not re-seal to exactly the container it was given.

use vstd::prelude::*;
use vstd::slice::{slice_subrange, slice_to_vec};

use crate::errors::CryptoError;
use crate::hexcode::{decode_hex, encode_hex_upper, hex_decodable, hex_decoded, hex_upper_of,
    lemma_hex_round_trip};

use chacha20poly1305::aead::{Aead, KeyInit, OsRng};
use chacha20poly1305::{AeadCore, XChaCha20Poly1305, XNonce};

verus! {

/// Length of a symmetric key in bytes.
pub const KEY_LEN_BYTES: usize = 32;

/// Length of the nonce prefixed to the ciphertext, in bytes.
pub const NONCE_LEN_BYTES: usize = 24;

/// Length of the authentication tag appended to the ciphertext, in bytes.
pub const TAG_LEN_BYTES: usize = 16;

/// The largest plaintext the cipher accepts: its 32-bit block counter
/// covers just under 2^32 blocks of 64 bytes.
pub const MAX_PLAINTEXT_LEN_BYTES: u64 = 64 * 0xFFFF_FFFF;

/// The ciphertext-with-tag that the AEAD produces for a given key, nonce
/// and plaintext. The cipher is deterministic in these three inputs; the
/// bytes themselves are left unspecified.
pub uninterp spec fn aead_seal(key: Seq<u8>, nonce: Seq<u8>, plaintext: Seq<u8>) -> Seq<u8>;

/// An encrypted container: the nonce followed by the sealed payload.
pub open spec fn sealed_container(key: Seq<u8>, nonce: Seq<u8>, plaintext: Seq<u8>) -> Seq<u8> {
    nonce + aead_seal(key, nonce, plaintext)
}

/// Relies on chacha20poly1305's `XChaCha20Poly1305::generate_key` with the
/// operating-system RNG: a fresh 32-byte key. Nothing is promised of its
/// value.
#[verifier::external_body]
fn generate_key_bytes() -> (r: Vec<u8>)
    ensures
        r@.len() == KEY_LEN_BYTES,
{
    XChaCha20Poly1305::generate_key(&mut OsRng).to_vec()
}

/// Relies on chacha20poly1305's `XChaCha20Poly1305::generate_nonce` with
/// the operating-system RNG: a fresh 24-byte nonce. Nothing is promised of
/// its value.
#[verifier::external_body]
fn generate_nonce_bytes() -> (r: Vec<u8>)
    ensures
        r@.len() == NONCE_LEN_BYTES,
{
    XChaCha20Poly1305::generate_nonce(&mut OsRng).to_vec()
}

/// Relies on chacha20poly1305's `Aead::encrypt` for `XChaCha20Poly1305`:
/// deterministic in key, nonce and plaintext, the result is the
/// plaintext's length plus the 16-byte postfix tag, and the only failure
/// is a plaintext long enough to overflow the cipher's 32-bit block
/// counter.
#[verifier::external_body]
fn aead_encrypt(key: &Vec<u8>, nonce: &Vec<u8>, plaintext: &Vec<u8>) -> (r: Option<Vec<u8>>)
    requires
        key@.len() == KEY_LEN_BYTES,
        nonce@.len() == NONCE_LEN_BYTES,
    ensures
        r is Some ==> r->0@ == aead_seal(key@, nonce@, plaintext@),
        r is Some ==> r->0@.len() == plaintext@.len() + TAG_LEN_BYTES,
        plaintext@.len() < MAX_PLAINTEXT_LEN_BYTES ==> r is Some,
{
    let cipher = match XChaCha20Poly1305::new_from_slice(key.as_slice()) {
        Ok(c) => c,
        Err(_) => return None,
    };
    cipher.encrypt(XNonce::from_slice(nonce.as_slice()), plaintext.as_slice()).ok()
}

/// Relies on chacha20poly1305's `Aead::decrypt` for `XChaCha20Poly1305`:
/// under a fixed key and nonce it succeeds exactly on the ciphertexts that
/// `Aead::encrypt` produces (the one whose Poly1305 tag over the body
/// matches), and then returns the unique plaintext that seals to the given
/// ciphertext.
#[verifier::external_body]
fn aead_decrypt(key: &Vec<u8>, nonce: &Vec<u8>, ciphertext: &Vec<u8>) -> (r: Option<Vec<u8>>)
    requires
        key@.len() == KEY_LEN_BYTES,
        nonce@.len() == NONCE_LEN_BYTES,
    ensures
        forall|m: Seq<u8>|
            ciphertext@ == #[trigger] aead_seal(key@, nonce@, m) ==> r is Some && r->0@ == m,
        r is Some ==> ciphertext@ == aead_seal(key@, nonce@, r->0@),
{
    let cipher = match XChaCha20Poly1305::new_from_slice(key.as_slice()) {
        Ok(c) => c,
        Err(_) => return None,
    };
    cipher.decrypt(XNonce::from_slice(nonce.as_slice()), ciphertext.as_slice()).ok()
}

/// The authenticated cipher used for transfer archives.
#[derive(Debug)]
pub struct Cryptography;

impl Cryptography {
    /// Encrypt a byte buffer in place under a fresh random key and nonce,
    /// prefixing the nonce so the container is self-contained except for
    /// the key, which is returned as uppercase hex.
    pub fn encrypt_in_place(bytes: &mut Vec<u8>) -> (r: Result<String, CryptoError>)
        ensures
            r is Ok ==> exists|k: Seq<u8>, n: Seq<u8>|
                k.len() == KEY_LEN_BYTES && n.len() == NONCE_LEN_BYTES && r->Ok_0@ == hex_upper_of(
                    k,
                ) && final(bytes)@ == #[trigger] sealed_container(k, n, old(bytes)@),
            r is Ok ==> final(bytes)@.len() == old(bytes)@.len() + NONCE_LEN_BYTES + TAG_LEN_BYTES,
            r is Ok ==> r->Ok_0@.len() == 2 * KEY_LEN_BYTES,
            old(bytes)@.len() < MAX_PLAINTEXT_LEN_BYTES ==> r is Ok,
            r is Err ==> final(bytes)@ == old(bytes)@ && r->Err_0 == CryptoError::EncryptionFailed,
    {
        let key = generate_key_bytes();
        let nonce = generate_nonce_bytes();
        let ciphertext = match aead_encrypt(&key, &nonce, &*bytes) {
            Some(c) => c,
            None => {
                return Err(CryptoError::EncryptionFailed);
            },
        };
        let ghost old_bytes: Seq<u8> = bytes@;
        let ghost nonce_view: Seq<u8> = nonce@;
        let mut container = nonce;
        container.extend_from_slice(ciphertext.as_slice());
        *bytes = container;
        let key_hex = encode_hex_upper(&key);
        proof {
            lemma_hex_round_trip(key@);
            assert(bytes@ == sealed_container(key@, nonce_view, old_bytes));
        }
        Ok(key_hex)
    }

    /// Decrypt a container with its hex decryption key.
    ///
    /// Any container that was sealed under the decoded key decrypts to its
    /// original plaintext, and a successful decryption always returns the
    /// unique plaintext that re-seals to exactly the given container —
    /// altered plaintext is never returned.
    pub fn decrypt(bytes: &Vec<u8>, key: &str) -> (r: Result<Vec<u8>, CryptoError>)
        ensures
            forall|k: Seq<u8>, n: Seq<u8>, m: Seq<u8>|
                hex_decodable(key@) && hex_decoded(key@) == k && k.len() == KEY_LEN_BYTES
                    && n.len() == NONCE_LEN_BYTES && bytes@ == #[trigger] sealed_container(k, n, m)
                    ==> r is Ok && r->Ok_0@ == m,
            r is Ok ==> hex_decodable(key@) && hex_decoded(key@).len() == KEY_LEN_BYTES
                && bytes@.len() >= NONCE_LEN_BYTES && bytes@ == sealed_container(
                hex_decoded(key@),
                bytes@.take(NONCE_LEN_BYTES as int),
                r->Ok_0@,
            ),
            (r is Err && r->Err_0 == CryptoError::InvalidKey) <==> !(hex_decodable(key@)
                && hex_decoded(key@).len() == KEY_LEN_BYTES),
            r is Err ==> r->Err_0 == CryptoError::InvalidKey || r->Err_0
                == CryptoError::AuthenticationFailed,
    {
        let key_bytes = match decode_hex(key) {
            Some(kb) => kb,
            None => {
                return Err(CryptoError::InvalidKey);
            },
        };
        if key_bytes.len() != KEY_LEN_BYTES {
            return Err(CryptoError::InvalidKey);
        }
        if bytes.len() < NONCE_LEN_BYTES {
            proof {
                assert forall|k: Seq<u8>, n: Seq<u8>, m: Seq<u8>|
                    hex_decodable(key@) && hex_decoded(key@) == k && k.len() == KEY_LEN_BYTES
                        && n.len() == NONCE_LEN_BYTES && bytes@ == #[trigger] sealed_container(
                        k,
                        n,
                        m,
                    ) implies false by {
                    assert(bytes@.len() >= n.len());
                }
            }
            return Err(CryptoError::AuthenticationFailed);
        }
        let nonce = slice_to_vec(slice_subrange(bytes.as_slice(), 0, NONCE_LEN_BYTES));
        let ciphertext = slice_to_vec(
            slice_subrange(bytes.as_slice(), NONCE_LEN_BYTES, bytes.len()),
        );
        proof {
            assert(bytes@ =~= nonce@ + ciphertext@);
        }
        match aead_decrypt(&key_bytes, &nonce, &ciphertext) {
            Some(plaintext) => {
                proof {
                    assert(bytes@.take(NONCE_LEN_BYTES as int) =~= nonce@);
                    assert(bytes@ == sealed_container(key_bytes@, nonce@, plaintext@));
                    assert forall|k: Seq<u8>, n: Seq<u8>, m: Seq<u8>|
                        hex_decodable(key@) && hex_decoded(key@) == k && k.len() == KEY_LEN_BYTES
                            && n.len() == NONCE_LEN_BYTES && bytes@ == #[trigger] sealed_container(
                            k,
                            n,
                            m,
                        ) implies plaintext@ == m by {
                        assert(n =~= bytes@.take(NONCE_LEN_BYTES as int));
                        assert(ciphertext@ =~= aead_seal(k, n, m));
                    }
                }
                Ok(plaintext)
            },
            None => {
                proof {
                    assert forall|k: Seq<u8>, n: Seq<u8>, m: Seq<u8>|
                        hex_decodable(key@) && hex_decoded(key@) == k && k.len() == KEY_LEN_BYTES
                            && n.len() == NONCE_LEN_BYTES && bytes@ == #[trigger] sealed_container(
                            k,
                            n,
                            m,
                        ) implies false by {
                        assert(n =~= bytes@.take(NONCE_LEN_BYTES as int));
                        assert(ciphertext@ =~= aead_seal(k, n, m));
                    }
                }
                Err(CryptoError::AuthenticationFailed)
            },
        }
    }
}

} // verus!
