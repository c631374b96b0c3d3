//! The transfer API contract: the decisions behind the four HTTP
//! operations, separated from routing and transport.
//!
//! Identifiers are validated before any storage lookup; oversized bodies
//! are rejected before storage is touched; and bodies whose leading bytes
//! match a known file-type signature are refused, since a correctly
//! encrypted container is indistinguishable from random bytes.

use vstd::prelude::*;

use crate::errors::CreateRejection;
use crate::identifier::valid_identifier;
use crate::store::TransferStorage;

verus! {

/// The advertised transfer limits.
pub struct TransferConfiguration {
    pub expire_after_ms: u128,
    pub max_size_bytes: u64,
}

/// Body of the configuration endpoint.
pub struct ServerConfigurationResponse {
    pub transfer: TransferConfiguration,
}

/// Body of a successful transfer creation.
pub struct CreateTransferResponse {
    pub id: String,
}

/// Build the configuration advertisement so clients can pre-validate a
/// transfer before spending time on encryption and upload.
pub fn configuration_response(expire_after_ms: u128, max_size_bytes: u64) -> (r:
    ServerConfigurationResponse)
    ensures
        r.transfer.expire_after_ms == expire_after_ms,
        r.transfer.max_size_bytes == max_size_bytes,
{
    ServerConfigurationResponse {
        transfer: TransferConfiguration { expire_after_ms, max_size_bytes },
    }
}

/// Whether the leading bytes of a buffer match a known file-type
/// signature in infer's fixed table. A function of the bytes alone; left
/// unspecified.
pub uninterp spec fn known_signature(bytes: Seq<u8>) -> bool;

/// Relies on infer's `get`: a deterministic scan of the buffer's leading
/// bytes against a fixed table of file-type signatures.
#[verifier::external_body]
fn sniff_known_signature(bytes: &Vec<u8>) -> (r: bool)
    ensures
        r == known_signature(bytes@),
{
    infer::get(bytes.as_slice()).is_some()
}

/// Accept an uploaded body into the store, or refuse it without touching
/// storage.
///
/// A body over the size limit is rejected first; an in-budget body whose
/// leading bytes carry a known file-type signature is rejected as
/// unencrypted. Only a body that passes both checks reaches the store,
/// where it is recorded under a fresh identifier.
pub fn handle_create_transfer(
    store: &mut TransferStorage,
    body: Vec<u8>,
    max_size_bytes: u64,
    now_ms: u64,
) -> (r: Result<String, CreateRejection>)
    requires
        old(store).wf(),
    ensures
        final(store).wf(),
        final(store).expire_after_spec() == old(store).expire_after_spec(),
        r is Err ==> final(store)@ == old(store)@,
        r == Err::<String, CreateRejection>(CreateRejection::PayloadTooLarge) <==> body@.len()
            > max_size_bytes,
        r == Err::<String, CreateRejection>(CreateRejection::NotEncrypted) <==> body@.len()
            <= max_size_bytes && known_signature(body@),
        r matches Ok(id) ==> body@.len() <= max_size_bytes && !known_signature(body@)
            && valid_identifier(id@) && !old(store).contains_id(id@) && final(store)@ == old(
            store,
        )@.push((id@, body@, now_ms)),
{
    if body.len() as u64 > max_size_bytes {
        return Err(CreateRejection::PayloadTooLarge);
    }
    if sniff_known_signature(&body) {
        return Err(CreateRejection::NotEncrypted);
    }
    match store.create_transfer(body, now_ms) {
        Ok(id) => Ok(id),
        Err(_) => Err(CreateRejection::InternalError),
    }
}

/// How a request for a stored transfer is answered.
#[derive(Clone, Copy, Debug, PartialEq, Eq, Structural)]
pub enum DownloadDecision {
    /// The identifier fails syntactic validation; no storage lookup is
    /// made.
    BadRequest,
    /// The identifier is well-formed but nothing live is stored under
    /// it: either no entry exists, or the entry has expired and merely
    /// awaits the next sweep.
    NotFound,
    /// The transfer exists and has not expired: serve it with its size
    /// and the remaining lifetime for the cache-control header.
    Serve { size_bytes: u64, max_age_secs: u64 },
}

/// Remaining lifetime in whole seconds at `now_ms` of an entry expiring
/// at `expiry_ms`; zero once expired.
pub open spec fn ttl_remaining_secs(expiry_ms: u64, now_ms: u64) -> u64 {
    if expiry_ms > now_ms {
        (((expiry_ms - now_ms) as u64) / 1000) as u64
    } else {
        0
    }
}

/// Decide how to answer a fetch or metadata probe for `id` at `now_ms`:
/// bad-request on malformed identifiers before any storage lookup,
/// not-found for entries that are absent or already expired — an expired
/// entry is gone to clients even before the sweep deletes it — otherwise
/// the stored size and remaining lifetime.
pub fn handle_download_request(store: &TransferStorage, id: &str, now_ms: u64) -> (r:
    DownloadDecision)
    requires
        store.wf(),
    ensures
        r == DownloadDecision::BadRequest <==> !valid_identifier(id@),
        r == DownloadDecision::NotFound <==> valid_identifier(id@) && (!store.contains_id(id@)
            || store.stored_expiry(id@) <= now_ms),
        valid_identifier(id@) && store.contains_id(id@) && store.stored_expiry(id@) > now_ms ==> r
            == (DownloadDecision::Serve {
            size_bytes: store.stored_data(id@).len() as u64,
            max_age_secs: ttl_remaining_secs(store.stored_expiry(id@), now_ms),
        }),
{
    if !TransferStorage::validate_identifier(id) {
        return DownloadDecision::BadRequest;
    }
    let size_bytes = match store.get_transfer_size(id) {
        Some(s) => s,
        None => {
            return DownloadDecision::NotFound;
        },
    };
    let expiry_ms = match store.get_transfer_expiry(id) {
        Some(e) => e,
        None => {
            return DownloadDecision::NotFound;
        },
    };
    if expiry_ms <= now_ms {
        return DownloadDecision::NotFound;
    }
    let max_age_secs: u64 = (expiry_ms - now_ms) / 1000;
    DownloadDecision::Serve { size_bytes, max_age_secs }
}

} // verus!
