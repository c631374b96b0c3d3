//! The object store: opaque blobs keyed by generated identifiers, with a
//! time-to-live anchored at storage time and a periodic expiry sweep.
//!
//! Entries are never updated in place: they are created once, read zero or
//! more times, and deleted by the sweep once expired.

use vstd::prelude::*;

use crate::errors::StoreError;
use crate::identifier::{
    generate_candidate_identifier, valid_identifier, validate_identifier_str,
};

verus! {

/// How many identifier candidates a creation draws before giving up.
pub const MAX_IDENTIFIER_ATTEMPTS: usize = 65536;

/// One stored transfer: encrypted bytes under an identifier, with the
/// storage timestamp (milliseconds) that anchors its expiry.
pub struct StoredTransfer {
    pub id: String,
    pub data: Vec<u8>,
    pub created_at_ms: u64,
}

impl View for StoredTransfer {
    type V = (Seq<char>, Seq<u8>, u64);

    open spec fn view(&self) -> Self::V {
        (self.id@, self.data@, self.created_at_ms)
    }
}

/// The expiry instant of an entry created at `created_at_ms` under a
/// time-to-live of `ttl_ms`, saturating at the largest representable
/// instant.
pub open spec fn expiry_of(created_at_ms: u64, ttl_ms: u64) -> u64 {
    if created_at_ms + ttl_ms > u64::MAX {
        u64::MAX
    } else {
        (created_at_ms + ttl_ms) as u64
    }
}

/// Whether a snapshot holds an entry under `id`.
pub open spec fn snapshot_contains_id(s: Seq<(Seq<char>, Seq<u8>, u64)>, id: Seq<char>) -> bool {
    exists|i: int| 0 <= i < s.len() && s[i].0 == id
}

/// Pairwise-distinct identifiers in a snapshot.
pub open spec fn snapshot_distinct_ids(s: Seq<(Seq<char>, Seq<u8>, u64)>) -> bool {
    forall|i: int, j: int| 0 <= i < j < s.len() ==> s[i].0 != s[j].0
}

/// Storage of transfers, keyed by generated word-list identifiers.
pub struct TransferStorage {
    entries: Vec<StoredTransfer>,
    expire_after_ms: u64,
}

impl View for TransferStorage {
    type V = Seq<(Seq<char>, Seq<u8>, u64)>;

    closed spec fn view(&self) -> Self::V {
        self.entries@.map_values(|e: StoredTransfer| e@)
    }
}

impl TransferStorage {
    /// The configured time-to-live of stored entries, in milliseconds.
    pub closed spec fn expire_after_spec(&self) -> u64 {
        self.expire_after_ms
    }

    /// The store's invariant: identifiers are pairwise distinct.
    pub open spec fn wf(&self) -> bool {
        snapshot_distinct_ids(self@)
    }

    pub open spec fn contains_id(&self, id: Seq<char>) -> bool {
        snapshot_contains_id(self@, id)
    }

    /// The index of the entry under `id` (unique when the store is
    /// well-formed).
    pub open spec fn spec_index_of(&self, id: Seq<char>) -> int {
        choose|i: int| 0 <= i < self@.len() && self@[i].0 == id
    }

    /// The bytes stored under `id`.
    pub open spec fn stored_data(&self, id: Seq<char>) -> Seq<u8> {
        self@[self.spec_index_of(id)].1
    }

    /// The creation instant of the entry under `id`, in milliseconds.
    pub open spec fn stored_created_at(&self, id: Seq<char>) -> u64 {
        self@[self.spec_index_of(id)].2
    }

    /// The expiry instant of the entry under `id`.
    pub open spec fn stored_expiry(&self, id: Seq<char>) -> u64 {
        expiry_of(self.stored_created_at(id), self.expire_after_spec())
    }

    /// Create an empty store with the given time-to-live.
    pub fn new(expire_after_ms: u64) -> (s: Self)
        ensures
            s@ == Seq::<(Seq<char>, Seq<u8>, u64)>::empty(),
            s.wf(),
            s.expire_after_spec() == expire_after_ms,
    {
        let s = TransferStorage { entries: Vec::new(), expire_after_ms };
        proof {
            assert(s@ =~= Seq::<(Seq<char>, Seq<u8>, u64)>::empty());
        }
        s
    }

    /// Validate that a string has the shape of a generated identifier:
    /// the expected word count, with no empty segments. Purely syntactic;
    /// implies nothing about existence.
    pub fn validate_identifier(id: &str) -> (r: bool)
        ensures
            r == valid_identifier(id@),
    {
        validate_identifier_str(id)
    }

    /// The number of transfers currently stored.
    pub fn transfer_count(&self) -> (r: usize)
        ensures
            r == self@.len(),
    {
        self.entries.len()
    }

    /// The index of the entry under `id`, if present.
    fn position_of(&self, id: &str) -> (r: Option<usize>)
        requires
            self.wf(),
        ensures
            r is Some <==> self.contains_id(id@),
            r is Some ==> 0 <= r->0 < self@.len() && self@[r->0 as int].0 == id@
                && r->0 == self.spec_index_of(id@),
    {
        let mut i: usize = 0;
        while i < self.entries.len()
            invariant
                self.wf(),
                i <= self@.len(),
                self@.len() == self.entries@.len(),
                forall|j: int| 0 <= j < i ==> self@[j].0 != id@,
            decreases self.entries.len() - i,
        {
            if str_eq(self.entries[i].id.as_str(), id) {
                proof {
                    assert(self@[i as int].0 == id@);
                    let w = self.spec_index_of(id@);
                    assert(0 <= w < self@.len() && self@[w].0 == id@);
                    assert(w == i as int);
                }
                return Some(i);
            }
            i = i + 1;
        }
        None
    }

    /// Whether a transfer exists under `id`.
    pub fn transfer_exists(&self, id: &str) -> (r: bool)
        requires
            self.wf(),
        ensures
            r == self.contains_id(id@),
    {
        self.position_of(id).is_some()
    }

    /// The bytes of the transfer stored under `id`.
    pub fn get_transfer(&self, id: &str) -> (r: Option<Vec<u8>>)
        requires
            self.wf(),
        ensures
            r is Some <==> self.contains_id(id@),
            r is Some ==> r->0@ == self.stored_data(id@),
    {
        match self.position_of(id) {
            Some(i) => Some(copy_bytes(&self.entries[i].data)),
            None => None,
        }
    }

    /// The size in bytes of the transfer stored under `id`.
    pub fn get_transfer_size(&self, id: &str) -> (r: Option<u64>)
        requires
            self.wf(),
        ensures
            r is Some <==> self.contains_id(id@),
            r is Some ==> r->0 == self.stored_data(id@).len(),
    {
        match self.position_of(id) {
            Some(i) => Some(self.entries[i].data.len() as u64),
            None => None,
        }
    }

    /// The expiry instant of the transfer stored under `id`: its creation
    /// instant plus the configured time-to-live.
    pub fn get_transfer_expiry(&self, id: &str) -> (r: Option<u64>)
        requires
            self.wf(),
        ensures
            r is Some <==> self.contains_id(id@),
            r is Some ==> r->0 == self.stored_expiry(id@),
    {
        match self.position_of(id) {
            Some(i) => Some(self.entries[i].created_at_ms.saturating_add(self.expire_after_ms)),
            None => None,
        }
    }

    /// Whether the transfer stored under `id` has expired at `now_ms`.
    pub fn is_transfer_expired(&self, id: &str, now_ms: u64) -> (r: Option<bool>)
        requires
            self.wf(),
        ensures
            r is Some <==> self.contains_id(id@),
            r is Some ==> r->0 == (self.stored_expiry(id@) <= now_ms),
    {
        match self.get_transfer_expiry(id) {
            Some(expiry) => Some(expiry <= now_ms),
            None => None,
        }
    }

    /// Store `data` under a freshly generated identifier and return it.
    ///
    /// Candidates are drawn until one both validates and is absent from
    /// the live store, so the returned identifier is syntactically valid
    /// and distinct from every identifier already stored. Generation is
    /// abandoned only after a generous number of collisions, which is
    /// practically unreachable given the dictionary size; the store is
    /// then left unchanged.
    pub fn create_transfer(&mut self, data: Vec<u8>, now_ms: u64) -> (r: Result<
        String,
        StoreError,
    >)
        requires
            old(self).wf(),
        ensures
            final(self).wf(),
            final(self).expire_after_spec() == old(self).expire_after_spec(),
            r is Ok ==> valid_identifier(r->Ok_0@) && !old(self).contains_id(r->Ok_0@)
                && final(self)@ == old(self)@.push((r->Ok_0@, data@, now_ms)),
            r is Err ==> final(self)@ == old(self)@,
    {
        let mut attempts: usize = 0;
        while attempts < MAX_IDENTIFIER_ATTEMPTS
            invariant
                self.wf(),
                self@ == old(self)@,
                self.expire_after_spec() == old(self).expire_after_spec(),
                self@.len() == self.entries@.len(),
            decreases MAX_IDENTIFIER_ATTEMPTS - attempts,
        {
            attempts = attempts + 1;
            let candidate = generate_candidate_identifier();
            if Self::validate_identifier(candidate.as_str()) && !self.transfer_exists(
                candidate.as_str(),
            ) {
                let ghost pre = self@;
                let stored_id = candidate.clone();
                self.entries.push(
                    StoredTransfer { id: stored_id, data, created_at_ms: now_ms },
                );
                proof {
                    assert(self@ =~= pre.push((candidate@, data@, now_ms)));
                    assert forall|i: int, j: int| 0 <= i < j < self@.len() implies self@[i].0
                        != self@[j].0 by {
                        if j == self@.len() - 1 {
                            assert(!snapshot_contains_id(pre, candidate@));
                            assert(pre[i].0 != candidate@);
                        }
                    }
                }
                return Ok(candidate);
            }
        }
        Err(StoreError::IdentifierGenerationFailed)
    }

    /// Restore a transfer under a known identifier and creation instant,
    /// as when reloading entries from durable storage at startup. The
    /// entry is accepted only if the identifier validates and is not
    /// already present, so the store's invariant stands.
    pub fn insert_transfer(&mut self, id: String, data: Vec<u8>, created_at_ms: u64) -> (r: bool)
        requires
            old(self).wf(),
        ensures
            final(self).wf(),
            final(self).expire_after_spec() == old(self).expire_after_spec(),
            r == (valid_identifier(id@) && !old(self).contains_id(id@)),
            r ==> final(self)@ == old(self)@.push((id@, data@, created_at_ms)),
            !r ==> final(self)@ == old(self)@,
    {
        if Self::validate_identifier(id.as_str()) && !self.transfer_exists(id.as_str()) {
            let ghost pre = self@;
            let ghost id_view = id@;
            self.entries.push(StoredTransfer { id, data, created_at_ms });
            proof {
                assert(self@ =~= pre.push((id_view, data@, created_at_ms)));
                assert forall|i: int, j: int| 0 <= i < j < self@.len() implies self@[i].0
                    != self@[j].0 by {
                    if j == self@.len() - 1 {
                        assert(!snapshot_contains_id(pre, id_view));
                        assert(pre[i].0 != id_view);
                    }
                }
            }
            true
        } else {
            false
        }
    }

    /// Delete the transfer stored under `id`.
    pub fn delete_transfer(&mut self, id: &str) -> (r: bool)
        requires
            old(self).wf(),
        ensures
            final(self).wf(),
            r == old(self).contains_id(id@),
            r ==> final(self)@ == old(self)@.remove(old(self).spec_index_of(id@)),
            !r ==> final(self)@ == old(self)@,
            !final(self).contains_id(id@),
            final(self).expire_after_spec() == old(self).expire_after_spec(),
    {
        match self.position_of(id) {
            Some(i) => {
                let ghost pre = self@;
                self.entries.remove(i);
                proof {
                    assert(self@ =~= pre.remove(i as int));
                    lemma_remove_preserves_distinct(pre, i as int);
                    assert forall|j: int| 0 <= j < self@.len() implies self@[j].0 != id@ by {
                        if j < i as int {
                            assert(pre[j].0 != pre[i as int].0);
                        } else {
                            assert(self@[j] == pre[j + 1]);
                            assert(pre[j + 1].0 != pre[i as int].0);
                        }
                    }
                }
                true
            },
            None => false,
        }
    }

    /// Walk all stored transfers and remove exactly those whose expiry is
    /// not in the future: the entries kept are exactly the live ones, in
    /// their original order.
    pub fn remove_expired_transfers(&mut self, now_ms: u64)
        requires
            old(self).wf(),
        ensures
            final(self).wf(),
            final(self)@ == old(self)@.filter(
                |e: (Seq<char>, Seq<u8>, u64)|
                    expiry_of(e.2, old(self).expire_after_spec()) > now_ms,
            ),
            final(self).expire_after_spec() == old(self).expire_after_spec(),
    {
        let ghost orig = self@;
        let ghost ttl = self.expire_after_ms;
        let ghost keep = |e: (Seq<char>, Seq<u8>, u64)| expiry_of(e.2, ttl) > now_ms;
        let mut i: usize = 0;
        let ghost mut j: int = 0;
        proof {
            assert(self@.take(0) =~= orig.take(0).filter(keep));
            assert(self@.skip(0) =~= orig.skip(0));
        }
        while i < self.entries.len()
            invariant
                self.wf(),
                self.expire_after_spec() == ttl,
                self@.len() == self.entries@.len(),
                i <= self@.len(),
                0 <= j <= orig.len(),
                self@.take(i as int) == orig.take(j).filter(keep),
                self@.skip(i as int) == orig.skip(j),
                keep == (|e: (Seq<char>, Seq<u8>, u64)| expiry_of(e.2, ttl) > now_ms),
            decreases self.entries.len() - i,
        {
            proof {
                assert(orig.skip(j).len() > 0);
                assert(self@[i as int] == orig.skip(j)[0]);
                assert(orig[j] == orig.skip(j)[0]);
                assert(orig.take(j + 1) =~= orig.take(j).push(orig[j]));
                lemma_filter_push(orig.take(j), keep, orig[j]);
            }
            let expiry = self.entries[i].created_at_ms.saturating_add(self.expire_after_ms);
            if expiry <= now_ms {
                let ghost pre = self@;
                self.entries.remove(i);
                proof {
                    assert(self@ =~= pre.remove(i as int));
                    lemma_remove_preserves_distinct(pre, i as int);
                    assert(!keep(orig[j]));
                    assert(self@.take(i as int) =~= pre.take(i as int));
                    assert(self@.skip(i as int) =~= pre.skip(i as int).drop_first());
                    assert(pre.skip(i as int).drop_first() =~= orig.skip(j).drop_first());
                    assert(orig.skip(j).drop_first() =~= orig.skip(j + 1));
                }
            } else {
                proof {
                    assert(keep(orig[j]));
                    assert(self@.take(i + 1 as int) =~= self@.take(i as int).push(
                        self@[i as int],
                    ));
                    assert(self@.skip(i + 1 as int) =~= self@.skip(i as int).drop_first());
                    assert(self@.skip(i as int).drop_first() =~= orig.skip(j + 1));
                }
                i = i + 1;
            }
            proof {
                j = j + 1;
            }
        }
        proof {
            assert(orig.skip(j).len() == self@.skip(i as int).len());
            assert(j == orig.len());
            assert(orig.take(j) =~= orig);
            assert(self@.take(i as int) =~= self@);
        }
    }
}

/// Character-by-character string equality.
fn str_eq(a: &str, b: &str) -> (r: bool)
    ensures
        r == (a@ == b@),
{
    let n = a.unicode_len();
    if n != b.unicode_len() {
        return false;
    }
    let mut i: usize = 0;
    while i < n
        invariant
            n == a@.len(),
            n == b@.len(),
            i <= n,
            forall|k: int| 0 <= k < i ==> a@[k] == b@[k],
        decreases n - i,
    {
        if a.get_char(i) != b.get_char(i) {
            return false;
        }
        i = i + 1;
    }
    proof {
        assert(a@ =~= b@);
    }
    true
}

/// Byte-by-byte copy of a buffer.
fn copy_bytes(src: &Vec<u8>) -> (r: Vec<u8>)
    ensures
        r@ == src@,
{
    let mut out: Vec<u8> = Vec::new();
    let mut i: usize = 0;
    while i < src.len()
        invariant
            i <= src@.len(),
            out@ == src@.take(i as int),
        decreases src.len() - i,
    {
        out.push(src[i]);
        proof {
            assert(src@.take(i as int).push(src@[i as int]) =~= src@.take(i + 1 as int));
        }
        i = i + 1;
    }
    proof {
        assert(src@.take(src@.len() as int) =~= src@);
    }
    out
}

/// Removing one entry keeps the remaining identifiers pairwise distinct.
proof fn lemma_remove_preserves_distinct(s: Seq<(Seq<char>, Seq<u8>, u64)>, i: int)
    requires
        snapshot_distinct_ids(s),
        0 <= i < s.len(),
    ensures
        snapshot_distinct_ids(s.remove(i)),
{
    let t = s.remove(i);
    assert forall|a: int, b: int| 0 <= a < b < t.len() implies t[a].0 != t[b].0 by {
        let a2 = if a < i { a } else { a + 1 };
        let b2 = if b < i { b } else { b + 1 };
        assert(t[a] == s[a2]);
        assert(t[b] == s[b2]);
    }
}

/// Filtering a sequence extended by one element.
proof fn lemma_filter_push<A>(s: Seq<A>, pred: spec_fn(A) -> bool, e: A)
    ensures
        pred(e) ==> s.push(e).filter(pred) == s.filter(pred).push(e),
        !pred(e) ==> s.push(e).filter(pred) == s.filter(pred),
{
    reveal(Seq::filter);
    assert(s.push(e).drop_last() =~= s);
    assert(s.push(e).last() == e);
}

/// An entry survives the expiry sweep exactly when it was stored and its
/// expiry still lies in the future: retrievable just before its expiry,
/// gone from the swept store at and after it.
pub proof fn lemma_sweep_keeps_exactly_live(
    s: Seq<(Seq<char>, Seq<u8>, u64)>,
    ttl_ms: u64,
    now_ms: u64,
    e: (Seq<char>, Seq<u8>, u64),
)
    ensures
        s.filter(|x: (Seq<char>, Seq<u8>, u64)| expiry_of(x.2, ttl_ms) > now_ms).contains(e)
            <==> s.contains(e) && expiry_of(e.2, ttl_ms) > now_ms,
    decreases s.len(),
{
    reveal(Seq::filter);
    let pred = |x: (Seq<char>, Seq<u8>, u64)| expiry_of(x.2, ttl_ms) > now_ms;
    if s.len() == 0 {
        assert(!s.filter(pred).contains(e));
        assert(!s.contains(e));
    } else {
        lemma_sweep_keeps_exactly_live(s.drop_last(), ttl_ms, now_ms, e);
        lemma_filter_push(s.drop_last(), pred, s.last());
        assert(s.drop_last().push(s.last()) =~= s);
        if s.filter(pred).contains(e) {
            if pred(s.last()) && e == s.last() {
                assert(s.contains(e)) by {
                    assert(s[s.len() - 1] == e);
                }
            } else {
                if s.filter(pred) == s.drop_last().filter(pred).push(s.last()) {
                    if e != s.last() {
                        let k = choose|k: int|
                            0 <= k < s.filter(pred).len() && s.filter(pred)[k] == e;
                        assert(s.drop_last().filter(pred).contains(e)) by {
                            assert(s.filter(pred)[k] == s.drop_last().filter(pred)[k]);
                        }
                    }
                } else {
                    assert(s.drop_last().filter(pred).contains(e));
                }
                if s.drop_last().filter(pred).contains(e) {
                    assert(s.drop_last().contains(e));
                    let k = choose|k: int| 0 <= k < s.drop_last().len() && s.drop_last()[k] == e;
                    assert(s[k] == e);
                    assert(s.contains(e));
                }
            }
        }
        if s.contains(e) && pred(e) {
            let k = choose|k: int| 0 <= k < s.len() && s[k] == e;
            if k == s.len() - 1 {
                assert(s.filter(pred).last() == e);
                assert(s.filter(pred).contains(e));
            } else {
                assert(s.drop_last()[k] == e);
                assert(s.drop_last().contains(e));
                assert(s.drop_last().filter(pred).contains(e));
                let m = choose|m: int|
                    0 <= m < s.drop_last().filter(pred).len() && s.drop_last().filter(pred)[m]
                        == e;
                if pred(s.last()) {
                    assert(s.filter(pred)[m] == e);
                } else {
                    assert(s.filter(pred)[m] == e);
                }
                assert(s.filter(pred).contains(e));
            }
        }
    }
}

/// Identifiers returned by successive creations are distinct: each
/// creation returns an identifier absent from the store it extends, so an
/// identifier can never be handed out twice while its entry lives.
pub proof fn lemma_created_identifiers_distinct(
    pre: Seq<(Seq<char>, Seq<u8>, u64)>,
    first: (Seq<char>, Seq<u8>, u64),
    second_id: Seq<char>,
)
    requires
        !snapshot_contains_id(pre, first.0),
        !snapshot_contains_id(pre.push(first), second_id),
    ensures
        first.0 != second_id,
{
    assert(pre.push(first)[pre.len() as int] == first);
}

} // verus!
