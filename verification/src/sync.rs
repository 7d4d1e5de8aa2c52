//! The sync reconciliation protocol: paginated, idempotent catch-up
//! between a local history database and a remote relay.
//!
//! Download compares counts and fetches bounded pages past a moving
//! timestamp cursor, decrypting each entry before it is saved; an
//! empty page means the remote has nothing more and the counts are
//! treated as converged. Upload selects bounded batches of local
//! entries older than a moving cursor, encrypts each payload, and
//! posts the batch; re-posting an already-known id is a no-op on the
//! relay. Both loops re-evaluate counts and cursors from scratch, so
//! an interrupted sync resumes safely between pages.

use vstd::pervasive::VecAdditionalExecFns;
use vstd::prelude::*;

use crate::encryption::{spec_decrypt, PASETO_V4};
use crate::record::{AdditionalData, DecryptedData, EncryptedData};
use crate::textobj::str_eq;
use crate::Error;

verus! {

/// One local history entry: an id, a creation timestamp and the
/// serialized plaintext payload.
#[derive(Debug, Clone, PartialEq, Eq)]
pub struct HistoryEntry {
    pub id: String,
    pub timestamp: u64,
    pub data: Vec<u8>,
}

/// The abstract value of a local history entry.
pub struct EntryView {
    pub id: Seq<char>,
    pub timestamp: u64,
    pub data: Seq<u8>,
}

impl View for HistoryEntry {
    type V = EntryView;

    open spec fn view(&self) -> EntryView {
        EntryView { id: self.id@, timestamp: self.timestamp, data: self.data@ }
    }
}

/// The abstract values of a run of entries.
pub open spec fn views_of(s: Seq<HistoryEntry>) -> Seq<EntryView> {
    s.map_values(|e: HistoryEntry| e@)
}

impl HistoryEntry {
    /// A copy with the same abstract value.
    pub fn duplicate(&self) -> (r: HistoryEntry)
        ensures
            r@ == self@,
    {
        let data = vstd::slice::slice_to_vec(self.data.as_slice());
        HistoryEntry { id: self.id.clone(), timestamp: self.timestamp, data }
    }
}

/// One entry as the relay stores it: the id and timestamp in the
/// clear, the payload encrypted.
#[derive(Debug, Clone, PartialEq, Eq)]
pub struct UploadRecord {
    pub id: String,
    pub timestamp: u64,
    pub data: EncryptedData,
}

impl UploadRecord {
    /// A copy equal to the original.
    pub fn duplicate(&self) -> (r: UploadRecord)
        ensures
            r == *self,
    {
        UploadRecord { id: self.id.clone(), timestamp: self.timestamp, data: self.data.duplicate() }
    }
}

/// Whether some entry of `s` carries the id.
pub open spec fn has_id(s: Seq<UploadRecord>, id: Seq<char>) -> bool {
    exists|i: int| 0 <= i < s.len() && s[i].id@ == id
}

/// The local history database, at its interface boundary.
pub trait Database: Sized {
    /// The abstract value of every entry, in insertion order.
    spec fn entries(&self) -> Seq<EntryView>;

    /// Number of entries held.
    fn history_count(&self) -> (r: Result<usize, Error>)
        ensures
            r matches Ok(n) ==> n == self.entries().len(),
    ;

    /// Persists one fetched page; on success all of it is appended.
    fn save_bulk(&mut self, page: &Vec<HistoryEntry>) -> (r: Result<(), Error>)
        ensures
            r matches Ok(()) ==> final(self).entries() == old(self).entries() + views_of(page@),
            r is Err ==> final(self).entries() == old(self).entries(),
    ;

    /// Up to `limit` entries strictly older than `cursor`, and those
    /// the newest such: any qualifying entry left out is no newer
    /// than everything in the batch. An empty result means no entry
    /// is older than `cursor`.
    fn before(&self, cursor: u64, limit: usize) -> (r: Result<Vec<HistoryEntry>, Error>)
        requires
            limit >= 1,
        ensures
            r matches Ok(batch) ==> {
                &&& batch@.len() <= limit
                &&& forall|i: int|
                    0 <= i < batch@.len() ==> (#[trigger] batch@[i])@.timestamp < cursor
                        && self.entries().contains(batch@[i]@)
                &&& (batch@.len() == 0 ==> forall|j: int|
                    0 <= j < self.entries().len() ==> (#[trigger] self.entries()[j]).timestamp
                        >= cursor)
                &&& forall|j: int|
                    0 <= j < self.entries().len() && (#[trigger] self.entries()[j]).timestamp
                        < cursor ==> (exists|i: int|
                        0 <= i < batch@.len() && (#[trigger] batch@[i])@ == self.entries()[j]) || (
                    forall|i: int|
                        0 <= i < batch@.len() ==> self.entries()[j].timestamp <= (
                        #[trigger] batch@[i])@.timestamp)
            },
    ;
}

/// The relay, treated as a simple request/response client.
pub trait Relay: Sized {
    /// Every entry the relay holds, in arrival order.
    spec fn entries(&self) -> Seq<UploadRecord>;

    /// Number of entries held for this scope.
    fn count(&self) -> (r: Result<usize, Error>)
        ensures
            r matches Ok(n) ==> n == self.entries().len(),
    ;

    /// A bounded page of entries newer than `after`, the oldest such
    /// first to go: any qualifying entry left out is no older than
    /// everything in the page. An empty page means the relay has
    /// nothing newer, and the caller treats the counts as converged.
    fn get_history(&self, after: u64) -> (r: Result<Vec<UploadRecord>, Error>)
        ensures
            r matches Ok(page) ==> {
                &&& page@.len() <= 100
                &&& forall|i: int|
                    0 <= i < page@.len() ==> (#[trigger] page@[i]).timestamp > after
                        && self.entries().contains(page@[i])
                &&& (page@.len() == 0 ==> forall|j: int|
                    0 <= j < self.entries().len() ==> (#[trigger] self.entries()[j]).timestamp
                        <= after)
                &&& forall|j: int|
                    0 <= j < self.entries().len() && (#[trigger] self.entries()[j]).timestamp
                        > after ==> (exists|i: int|
                        0 <= i < page@.len() && (#[trigger] page@[i]) == self.entries()[j]) || (
                    forall|i: int|
                        0 <= i < page@.len() ==> self.entries()[j].timestamp >= (
                        #[trigger] page@[i]).timestamp)
            },
    ;

    /// Posts one batch of at most 100 entries. Idempotent by id:
    /// exactly the batch entries whose id the relay did not know yet
    /// are appended.
    fn post_history(&mut self, batch: &Vec<UploadRecord>) -> (r: Result<(), Error>)
        requires
            batch@.len() <= 100,
        ensures
            r matches Ok(()) ==> final(self).entries() == old(self).entries() + batch@.filter(
                |e: UploadRecord| !has_id(old(self).entries(), e.id@),
            ),
            r is Err ==> final(self).entries() == old(self).entries(),
    ;
}

/// Whether a local entry is the decryption, under `key`, of some
/// relay entry with the same id and timestamp.
pub open spec fn downloaded_from(remote: Seq<UploadRecord>, e: EntryView, key: Seq<u8>) -> bool {
    exists|j: int|
        0 <= j < remote.len() && (#[trigger] remote[j]).id@ == e.id && remote[j].timestamp
            == e.timestamp && spec_decrypt(
            remote[j].data.data@,
            remote[j].data.content_encryption_key@,
            remote[j].id@,
            "v0"@,
            "history"@,
            ""@,
            key,
        ) == Ok::<Seq<u8>, Error>(e.data)
}

/// Whether a relay entry is the encryption, under `key`, of some
/// local entry with the same id and timestamp.
pub open spec fn uploaded_from(local: Seq<EntryView>, e: UploadRecord, key: Seq<u8>) -> bool {
    exists|j: int|
        0 <= j < local.len() && (#[trigger] local[j]).id == e.id@ && local[j].timestamp
            == e.timestamp && spec_decrypt(
            e.data.data@,
            e.data.content_encryption_key@,
            e.id@,
            "v0"@,
            "history"@,
            ""@,
            key,
        ) == Ok::<Seq<u8>, Error>(local[j].data)
}

/// Whether no two local entries share a timestamp.
pub open spec fn distinct_timestamps(s: Seq<EntryView>) -> bool {
    forall|i: int, j: int| 0 <= i < j < s.len() ==> s[i].timestamp != s[j].timestamp
}

/// Whether no two relay entries share a timestamp.
pub open spec fn distinct_remote_timestamps(s: Seq<UploadRecord>) -> bool {
    forall|i: int, j: int| 0 <= i < j < s.len() ==> s[i].timestamp != s[j].timestamp
}

/// Whether some local entry carries the id.
pub open spec fn entry_id_present(s: Seq<EntryView>, id: Seq<char>) -> bool {
    exists|i: int| 0 <= i < s.len() && s[i].id == id
}

/// Every filtered entry keeps the filtering predicate and comes from
/// the original sequence.
proof fn lemma_filter_membership<A>(s: Seq<A>, pred: spec_fn(A) -> bool, i: int)
    requires
        0 <= i < s.filter(pred).len(),
    ensures
        pred(s.filter(pred)[i]),
        exists|j: int| 0 <= j < s.len() && s[j] == s.filter(pred)[i],
    decreases s.len(),
{
    reveal(Seq::filter);
    if s.len() > 0 {
        if i < s.drop_last().filter(pred).len() {
            lemma_filter_membership(s.drop_last(), pred, i);
            let j = choose|j: int|
                0 <= j < s.drop_last().len() && s.drop_last()[j] == s.drop_last().filter(pred)[i];
            assert(s[j] == s.filter(pred)[i]);
        } else {
            assert(s[s.len() - 1] == s.filter(pred)[i]);
        }
    }
}

/// A pointwise stronger predicate never keeps more entries.
proof fn lemma_filter_mono<A>(s: Seq<A>, p: spec_fn(A) -> bool, q: spec_fn(A) -> bool)
    requires
        forall|i: int| 0 <= i < s.len() ==> p(#[trigger] s[i]) ==> q(s[i]),
    ensures
        s.filter(p).len() <= s.filter(q).len(),
    decreases s.len(),
{
    reveal(Seq::filter);
    if s.len() > 0 {
        assert(forall|i: int| 0 <= i < s.drop_last().len() ==> s.drop_last()[i] == s[i]);
        lemma_filter_mono(s.drop_last(), p, q);
    }
}

/// With one witness that only the weaker predicate keeps, it keeps
/// strictly more.
proof fn lemma_filter_strict<A>(s: Seq<A>, p: spec_fn(A) -> bool, q: spec_fn(A) -> bool, w: int)
    requires
        forall|i: int| 0 <= i < s.len() ==> p(#[trigger] s[i]) ==> q(s[i]),
        0 <= w < s.len(),
        q(s[w]),
        !p(s[w]),
    ensures
        s.filter(p).len() < s.filter(q).len(),
    decreases s.len(),
{
    reveal(Seq::filter);
    assert(forall|i: int| 0 <= i < s.drop_last().len() ==> s.drop_last()[i] == s[i]);
    if w == s.len() - 1 {
        lemma_filter_mono(s.drop_last(), p, q);
    } else {
        lemma_filter_strict(s.drop_last(), p, q, w);
    }
}

/// Entries of the database strictly older than `cursor`.
pub open spec fn older_than<D: Database>(db: &D, cursor: u64) -> Seq<EntryView> {
    db.entries().filter(|e: EntryView| e.timestamp < cursor)
}

/// Downloads what the remote has and the local database lacks, page
/// by page, decrypting each fetched entry under `key` before it is
/// saved. Returns how many entries were downloaded and the local
/// count afterwards; old local entries are untouched and every saved
/// entry is the decryption of a relay entry. On success the two
/// sides have converged: the local count has reached the relay's, or
/// every relay entry's id is present locally (shown for relays whose
/// entries carry distinct nonzero timestamps; equal or epoch
/// timestamps can hide an entry from the watermark paging, as they
/// always could).
#[verifier::loop_isolation(false)]
pub fn sync_download<D: Database, R: Relay>(db: &mut D, relay: &R, key: &[u8; 32]) -> (r: Result<
    (usize, usize),
    Error,
>)
    ensures
        r matches Ok(p) ==> p.1 == final(db).entries().len() && p.0 == p.1 - old(
            db,
        ).entries().len() && p.0 <= p.1,
        final(db).entries().len() >= old(db).entries().len(),
        final(db).entries().subrange(0, old(db).entries().len() as int) == old(db).entries(),
        forall|i: int|
            old(db).entries().len() <= i < final(db).entries().len() ==> downloaded_from(
                relay.entries(),
                #[trigger] final(db).entries()[i],
                key@,
            ),
        r matches Ok(p) ==> p.1 >= relay.entries().len() || (distinct_remote_timestamps(
            relay.entries(),
        ) ==> forall|j: int|
            0 <= j < relay.entries().len() && (#[trigger] relay.entries()[j]).timestamp > 0
                ==> entry_id_present(final(db).entries(), relay.entries()[j].id@)),
{
    let ghost initial = old(db).entries();
    proof {
        assert(initial.subrange(0, initial.len() as int) =~= initial);
    }
    let remote_count = match relay.count() {
        Ok(n) => n,
        Err(_) => {
            return Err(Error::TransportFailure);
        },
    };
    let initial_local = match db.history_count() {
        Ok(n) => n,
        Err(_) => {
            return Err(Error::StoreIoFailure);
        },
    };
    let mut local_count = initial_local;
    let mut last_timestamp: u64 = 0;
    while remote_count > local_count
        invariant
            db.entries().len() >= initial.len(),
            db.entries().subrange(0, initial.len() as int) == initial,
            local_count == db.entries().len(),
            initial_local == initial.len(),
            forall|i: int|
                initial.len() <= i < db.entries().len() ==> downloaded_from(
                    relay.entries(),
                    #[trigger] db.entries()[i],
                    key@,
                ),
            distinct_remote_timestamps(relay.entries()) ==> forall|j: int|
                0 <= j < relay.entries().len() && 0 < (#[trigger] relay.entries()[j]).timestamp
                    <= last_timestamp ==> entry_id_present(db.entries(), relay.entries()[j].id@),
        decreases
                if remote_count >= local_count {
                    remote_count - local_count
                } else {
                    0
                },
    {
        let page = match relay.get_history(last_timestamp) {
            Ok(p) => p,
            Err(_) => {
                return Err(Error::TransportFailure);
            },
        };
        if page.len() == 0 {
            proof {
                if distinct_remote_timestamps(relay.entries()) {
                    assert forall|j: int|
                        0 <= j < relay.entries().len() && (#[trigger] relay.entries()[j]).timestamp
                            > 0 implies entry_id_present(
                        db.entries(),
                        relay.entries()[j].id@,
                    ) by {
                        assert(relay.entries()[j].timestamp <= last_timestamp);
                    }
                }
            }
            return Ok((local_count - initial_local, local_count));
        }
        let mut plain_page: Vec<HistoryEntry> = Vec::new();
        let mut newest: u64 = page[0].timestamp;
        let mut k: usize = 0;
        while k < page.len()
            invariant
                0 <= k <= page@.len(),
                page@.len() >= 1,
                plain_page@.len() == k,
                forall|i: int|
                    0 <= i < page@.len() ==> relay.entries().contains(#[trigger] page@[i]),
                forall|i: int|
                    0 <= i < k ==> downloaded_from(
                        relay.entries(),
                        #[trigger] views_of(plain_page@)[i],
                        key@,
                    ),
                forall|i: int|
                    0 <= i < k ==> (#[trigger] views_of(plain_page@)[i]).id == page@[i].id@,
                exists|i: int| 0 <= i < page@.len() && newest == (#[trigger] page@[i]).timestamp,
                forall|i: int| 0 <= i < k ==> (#[trigger] page@[i]).timestamp <= newest,
            decreases page@.len() - k,
        {
            let e = &page[k];
            let ad = AdditionalData {
                id: e.id.clone(),
                version: String::from_str("v0"),
                tag: String::from_str("history"),
                host: String::from_str(""),
            };
            let plain = match PASETO_V4::decrypt(&e.data, &ad, key) {
                Ok(d) => d,
                Err(err) => {
                    return Err(err);
                },
            };
            let entry = HistoryEntry { id: e.id.clone(), timestamp: e.timestamp, data: plain.0 };
            proof {
                assert(relay.entries().contains(page@[k as int]));
                let j = choose|j: int|
                    0 <= j < relay.entries().len() && relay.entries()[j] == page@[k as int];
                assert(relay.entries()[j].id@ == entry@.id);
                assert(downloaded_from(relay.entries(), entry@, key@));
            }
            let ghost prev = plain_page@;
            plain_page.push(entry);
            proof {
                assert(views_of(plain_page@) =~= views_of(prev).push(plain_page@.last()@));
            }
            if e.timestamp > newest {
                newest = e.timestamp;
            }
            k += 1;
        }
        let ghost before_save = db.entries();
        match db.save_bulk(&plain_page) {
            Ok(()) => (),
            Err(_) => {
                return Err(Error::StoreIoFailure);
            },
        }
        proof {
            assert(db.entries().subrange(0, initial.len() as int) =~= initial);
            assert forall|i: int|
                initial.len() <= i < db.entries().len() implies downloaded_from(
                relay.entries(),
                #[trigger] db.entries()[i],
                key@,
            ) by {
                if i >= before_save.len() {
                    assert(db.entries()[i] == views_of(plain_page@)[i - before_save.len()]);
                } else {
                    assert(db.entries()[i] == before_save[i]);
                }
            }
        }
        local_count = match db.history_count() {
            Ok(n) => n,
            Err(_) => {
                return Err(Error::StoreIoFailure);
            },
        };
        proof {
            if distinct_remote_timestamps(relay.entries()) {
                assert forall|j: int|
                    0 <= j < relay.entries().len() && 0 < (
                    #[trigger] relay.entries()[j]).timestamp <= newest implies entry_id_present(
                    db.entries(),
                    relay.entries()[j].id@,
                ) by {
                    let tsj = relay.entries()[j].timestamp;
                    if tsj <= last_timestamp {
                        assert(entry_id_present(before_save, relay.entries()[j].id@));
                        let w = choose|w: int|
                            0 <= w < before_save.len() && before_save[w].id == relay.entries()[j].id@;
                        assert(db.entries()[w] == before_save[w]);
                    } else {
                        if exists|i: int|
                            0 <= i < page@.len() && (#[trigger] page@[i]) == relay.entries()[j] {
                            let i = choose|i: int|
                                0 <= i < page@.len() && (#[trigger] page@[i]) == relay.entries()[j];
                            assert(views_of(plain_page@)[i].id == page@[i].id@);
                            assert(db.entries()[before_save.len() + i] == views_of(plain_page@)[i]);
                        } else {
                            let wi = choose|i: int|
                                0 <= i < page@.len() && newest == (#[trigger] page@[i]).timestamp;
                            assert(tsj >= page@[wi].timestamp);
                            assert(relay.entries().contains(page@[wi]));
                            let w = choose|w: int|
                                0 <= w < relay.entries().len() && relay.entries()[w] == page@[wi];
                            assert(relay.entries()[w].timestamp == newest);
                            assert(w == j);
                            assert(false);
                        }
                    }
                }
            }
        }
        let page_last = newest;
        if page_last == last_timestamp {
            last_timestamp = 0;
        } else {
            last_timestamp = page_last;
        }
    }
    Ok((local_count - initial_local, local_count))
}

/// Uploads what the local database has and the remote lacks, in
/// bounded batches of individually encrypted entries. Whatever state
/// it stops in, the relay's old entries are untouched and every new
/// relay entry is the encryption of a local entry under `key`. On
/// success the two sides have converged: the relay's count has
/// reached the local count, or every local entry older than `now`
/// has its id on the relay (shown for databases whose entries carry
/// distinct timestamps; equal timestamps can hide an entry from the
/// cursor paging, as they always could).
#[verifier::loop_isolation(false)]
pub fn sync_upload<D: Database, R: Relay>(db: &D, relay: &mut R, key: &[u8; 32], now: u64) -> (r:
    Result<(), Error>)
    ensures
        final(relay).entries().len() >= old(relay).entries().len(),
        final(relay).entries().subrange(0, old(relay).entries().len() as int) == old(
            relay,
        ).entries(),
        forall|i: int|
            old(relay).entries().len() <= i < final(relay).entries().len() ==> uploaded_from(
                db.entries(),
                #[trigger] final(relay).entries()[i],
                key@,
            ),
        r matches Ok(()) ==> final(relay).entries().len() >= db.entries().len() || (
        distinct_timestamps(db.entries()) ==> forall|j: int|
            0 <= j < db.entries().len() && (#[trigger] db.entries()[j]).timestamp < now
                ==> has_id(final(relay).entries(), db.entries()[j].id)),
{
    let ghost initial_remote = old(relay).entries();
    proof {
        assert(initial_remote.subrange(0, initial_remote.len() as int) =~= initial_remote);
    }
    let mut remote_count = match relay.count() {
        Ok(n) => n,
        Err(_) => {
            return Err(Error::TransportFailure);
        },
    };
    let local_count = match db.history_count() {
        Ok(n) => n,
        Err(_) => {
            return Err(Error::StoreIoFailure);
        },
    };
    let mut cursor: u64 = now;
    while local_count > remote_count
        invariant
            relay.entries().len() >= initial_remote.len(),
            relay.entries().subrange(0, initial_remote.len() as int) == initial_remote,
            forall|i: int|
                initial_remote.len() <= i < relay.entries().len() ==> uploaded_from(
                    db.entries(),
                    #[trigger] relay.entries()[i],
                    key@,
                ),
            remote_count == relay.entries().len(),
            local_count == db.entries().len(),
            distinct_timestamps(db.entries()) ==> forall|j: int|
                0 <= j < db.entries().len() && cursor <= (#[trigger] db.entries()[j]).timestamp
                    < now ==> has_id(relay.entries(), db.entries()[j].id),
        decreases older_than(db, cursor).len(),
    {
        let last = match db.before(cursor, 100) {
            Ok(b) => b,
            Err(_) => {
                return Err(Error::StoreIoFailure);
            },
        };
        if last.len() == 0 {
            proof {
                if distinct_timestamps(db.entries()) {
                    assert forall|j: int|
                        0 <= j < db.entries().len() && (#[trigger] db.entries()[j]).timestamp < now
                        implies has_id(relay.entries(), db.entries()[j].id) by {
                        assert(db.entries()[j].timestamp >= cursor);
                    }
                }
            }
            return Ok(());
        }
        let mut buffer: Vec<UploadRecord> = Vec::new();
        let mut oldest: u64 = last[0].timestamp;
        let mut k: usize = 0;
        while k < last.len()
            invariant
                0 <= k <= last@.len(),
                last@.len() >= 1,
                buffer@.len() == k,
                forall|i: int|
                    0 <= i < last@.len() ==> (#[trigger] last@[i])@.timestamp < cursor
                        && db.entries().contains(last@[i]@),
                forall|i: int|
                    0 <= i < buffer@.len() ==> uploaded_from(
                        db.entries(),
                        #[trigger] buffer@[i],
                        key@,
                    ),
                forall|i: int| 0 <= i < k ==> (#[trigger] buffer@[i]).id@ == last@[i]@.id,
                exists|i: int| 0 <= i < last@.len() && oldest == (#[trigger] last@[i])@.timestamp,
            decreases last@.len() - k,
    {
            let entry = &last[k];
            let ad = AdditionalData {
                id: entry.id.clone(),
                version: String::from_str("v0"),
                tag: String::from_str("history"),
                host: String::from_str(""),
            };
            let plain = DecryptedData(vstd::slice::slice_to_vec(entry.data.as_slice()));
            let blob = PASETO_V4::encrypt(&plain, &ad, key);
            let up = UploadRecord { id: entry.id.clone(), timestamp: entry.timestamp, data: blob };
            proof {
                assert(db.entries().contains(last@[k as int]@));
                let j = choose|j: int|
                    0 <= j < db.entries().len() && db.entries()[j] == last@[k as int]@;
                assert(db.entries()[j].id == up.id@);
                assert(uploaded_from(db.entries(), up, key@));
            }
            buffer.push(up);
            if entry.timestamp < oldest {
                oldest = entry.timestamp;
            }
            k += 1;
        }
        let ghost before_post = relay.entries();
        match relay.post_history(&buffer) {
            Ok(()) => (),
            Err(_) => {
                return Err(Error::TransportFailure);
            },
        }
        proof {
            assert(relay.entries().subrange(0, initial_remote.len() as int) =~= initial_remote);
            let pred = |e: UploadRecord| !has_id(before_post, e.id@);
            assert forall|i: int|
                initial_remote.len() <= i < relay.entries().len() implies uploaded_from(
                db.entries(),
                #[trigger] relay.entries()[i],
                key@,
            ) by {
                if i >= before_post.len() {
                    lemma_filter_membership(buffer@, pred, i - before_post.len());
                    let j = choose|j: int|
                        0 <= j < buffer@.len() && buffer@[j] == buffer@.filter(pred)[i
                            - before_post.len()];
                    assert(uploaded_from(db.entries(), buffer@[j], key@));
                } else {
                    assert(relay.entries()[i] == before_post[i]);
                }
            }
            let p = |e: EntryView| e.timestamp < oldest;
            let q = |e: EntryView| e.timestamp < cursor;
            let wi = choose|i: int|
                0 <= i < last@.len() && oldest == (#[trigger] last@[i])@.timestamp;
            let w = choose|j: int| 0 <= j < db.entries().len() && db.entries()[j] == last@[wi]@;
            lemma_filter_strict(db.entries(), p, q, w);
            assert forall|i: int| 0 <= i < buffer@.len() implies has_id(
                relay.entries(),
                (#[trigger] buffer@[i]).id@,
            ) by {
                if has_id(before_post, buffer@[i].id@) {
                    let w2 = choose|w2: int|
                        0 <= w2 < before_post.len() && (#[trigger] before_post[w2]).id@ == buffer@[
                            i
                        ].id@;
                    assert(relay.entries()[w2] == before_post[w2]);
                    assert(relay.entries()[w2].id@ == buffer@[i].id@);
                } else {
                    buffer@.lemma_filter_contains(pred, i);
                    let fi = choose|fi: int|
                        0 <= fi < buffer@.filter(pred).len() && buffer@.filter(pred)[fi] == buffer@[
                            i
                        ];
                    assert(relay.entries()[before_post.len() + fi] == buffer@[i]);
                    assert(relay.entries()[before_post.len() + fi].id@ == buffer@[i].id@);
                }
            }
            if distinct_timestamps(db.entries()) {
                assert forall|j: int|
                    0 <= j < db.entries().len() && oldest <= (
                    #[trigger] db.entries()[j]).timestamp < now implies has_id(
                    relay.entries(),
                    db.entries()[j].id,
                ) by {
                    if db.entries()[j].timestamp >= cursor {
                        assert(has_id(before_post, db.entries()[j].id));
                        let w3 = choose|w3: int|
                            0 <= w3 < before_post.len() && (#[trigger] before_post[w3]).id@
                                == db.entries()[j].id;
                        assert(relay.entries()[w3] == before_post[w3]);
                        assert(relay.entries()[w3].id@ == db.entries()[j].id);
                    } else {
                        if exists|i: int|
                            0 <= i < last@.len() && (#[trigger] last@[i])@ == db.entries()[j] {
                            let i = choose|i: int|
                                0 <= i < last@.len() && (#[trigger] last@[i])@ == db.entries()[j];
                            assert(buffer@[i].id@ == db.entries()[j].id);
                            assert(has_id(relay.entries(), buffer@[i].id@));
                        } else {
                            assert(db.entries()[j].timestamp <= last@[wi]@.timestamp);
                            let w4 = choose|w4: int|
                                0 <= w4 < db.entries().len() && db.entries()[w4] == last@[wi]@;
                            assert(db.entries()[w4].timestamp == oldest);
                            assert(w4 == j);
                            assert(false);
                        }
                    }
                }
            }
        }
        cursor = oldest;
        remote_count = match relay.count() {
            Ok(n) => n,
            Err(_) => {
                return Err(Error::TransportFailure);
            },
        };
    }
    Ok(())
}

/// One full reconciliation pass: download, then upload. A download
/// error propagates and upload is never attempted; on an upload
/// error the downloaded pages stay committed. Returns what download
/// reported, and on success both of the two convergence guarantees
/// hold.
pub fn run<D: Database, R: Relay>(db: &mut D, relay: &mut R, key: &[u8; 32], now: u64) -> (r:
    Result<(usize, usize), Error>)
    ensures
        final(relay).entries().len() >= old(relay).entries().len(),
        final(relay).entries().subrange(0, old(relay).entries().len() as int) == old(
            relay,
        ).entries(),
        forall|i: int|
            old(relay).entries().len() <= i < final(relay).entries().len() ==> uploaded_from(
                final(db).entries(),
                #[trigger] final(relay).entries()[i],
                key@,
            ),
        final(db).entries().len() >= old(db).entries().len(),
        final(db).entries().subrange(0, old(db).entries().len() as int) == old(db).entries(),
        forall|i: int|
            old(db).entries().len() <= i < final(db).entries().len() ==> downloaded_from(
                old(relay).entries(),
                #[trigger] final(db).entries()[i],
                key@,
            ),
        r matches Ok(p) ==> p.1 == final(db).entries().len() && p.0 == p.1 - old(
            db,
        ).entries().len() && p.0 <= p.1,
        r matches Ok(p) ==> p.1 >= old(relay).entries().len() || (distinct_remote_timestamps(
            old(relay).entries(),
        ) ==> forall|j: int|
            0 <= j < old(relay).entries().len() && (#[trigger] old(relay).entries()[j]).timestamp
                > 0 ==> entry_id_present(final(db).entries(), old(relay).entries()[j].id@)),
        r matches Ok(p) ==> final(relay).entries().len() >= final(db).entries().len() || (
        distinct_timestamps(final(db).entries()) ==> forall|j: int|
            0 <= j < final(db).entries().len() && (#[trigger] final(db).entries()[j]).timestamp
                < now ==> has_id(final(relay).entries(), final(db).entries()[j].id)),
{
    let downloaded = match sync_download(db, relay, key) {
        Ok(p) => p,
        Err(e) => {
            return Err(e);
        },
    };
    match sync_upload(db, relay, key, now) {
        Ok(()) => Ok(downloaded),
        Err(e) => Err(e),
    }
}

/// An in-memory history database.
pub struct MemDatabase {
    /// Every entry, in insertion order.
    pub items: Vec<HistoryEntry>,
}

impl MemDatabase {
    /// An empty database.
    pub fn new() -> (r: MemDatabase)
        ensures
            r.entries() == Seq::<EntryView>::empty(),
    {
        let r = MemDatabase { items: Vec::new() };
        proof {
            assert(views_of(r.items@) =~= Seq::<EntryView>::empty());
        }
        r
    }
}

impl Database for MemDatabase {
    open spec fn entries(&self) -> Seq<EntryView> {
        views_of(self.items@)
    }

    fn history_count(&self) -> (r: Result<usize, Error>) {
        Ok(self.items.len())
    }

    #[verifier::loop_isolation(false)]
    fn save_bulk(&mut self, page: &Vec<HistoryEntry>) -> (r: Result<(), Error>) {
        let ghost initial = self.items@;
        let mut k: usize = 0;
        while k < page.len()
            invariant
                0 <= k <= page@.len(),
                views_of(self.items@) == views_of(initial) + views_of(page@.take(k as int)),
            decreases page@.len() - k,
        {
            let ghost prev = self.items@;
            self.items.push(page[k].duplicate());
            proof {
                assert(views_of(self.items@) =~= views_of(prev).push(self.items@.last()@));
                assert(views_of(page@.take(k + 1)) =~= views_of(page@.take(k as int)).push(
                    page@[k as int]@,
                ));
                assert(views_of(self.items@) =~= views_of(initial) + views_of(page@.take(k + 1)));
            }
            k += 1;
        }
        proof {
            assert(page@.take(page@.len() as int) =~= page@);
        }
        Ok(())
    }

    #[verifier::loop_isolation(false)]
    fn before(&self, cursor: u64, limit: usize) -> (r: Result<Vec<HistoryEntry>, Error>) {
        let n = self.items.len();
        let mut taken: Vec<bool> = Vec::new();
        while taken.len() < n
            invariant
                taken@.len() <= n,
                forall|j: int| 0 <= j < taken@.len() ==> !(#[trigger] taken@[j]),
            decreases n - taken@.len(),
        {
            taken.push(false);
        }
        let mut out: Vec<HistoryEntry> = Vec::new();
        let mut done = false;
        while !done && out.len() < limit
            invariant
                taken@.len() == n,
                n == self.items@.len(),
                out@.len() <= limit,
                forall|oi: int|
                    0 <= oi < out@.len() ==> (#[trigger] out@[oi])@.timestamp < cursor
                        && self.entries().contains(out@[oi]@),
                forall|j: int, oi: int|
                    #![trigger taken@[j], out@[oi]]
                    0 <= j < n && !taken@[j] && self.items@[j]@.timestamp < cursor && 0 <= oi
                        < out@.len() ==> self.items@[j]@.timestamp <= out@[oi]@.timestamp,
                forall|j: int|
                    0 <= j < n && #[trigger] taken@[j] ==> exists|oi: int|
                        0 <= oi < out@.len() && (#[trigger] out@[oi])@ == self.items@[j]@,
                done ==> forall|j: int|
                    0 <= j < n && self.items@[j]@.timestamp < cursor ==> #[trigger] taken@[j],
            decreases 2 * (limit - out@.len()) + (if done { 0int } else { 1int }),
        {
            let mut best: usize = n;
            let mut bi: usize = 0;
            while bi < n
                invariant
                    bi <= n,
                    n == self.items@.len() == taken@.len(),
                    best == n || (best < n && !taken@[best as int] && self.items@[
                        best as int
                    ]@.timestamp < cursor),
                    best == n ==> forall|j: int|
                        0 <= j < bi ==> !(!(#[trigger] taken@[j]) && self.items@[j]@.timestamp
                            < cursor),
                    best < n ==> forall|j: int|
                        0 <= j < bi && !(#[trigger] taken@[j]) && self.items@[j]@.timestamp
                            < cursor ==> self.items@[j]@.timestamp <= self.items@[
                            best as int
                        ]@.timestamp,
                decreases n - bi,
            {
                if !taken[bi] && self.items[bi].timestamp < cursor {
                    if best == n || self.items[bi].timestamp > self.items[best].timestamp {
                        best = bi;
                    }
                }
                bi += 1;
            }
            if best == n {
                done = true;
            } else {
                let ghost prev_taken = taken@;
                let ghost prev_out = out@;
                taken.set(best, true);
                out.push(self.items[best].duplicate());
                proof {
                    assert(self.entries()[best as int] == self.items@[best as int]@);
                    assert(self.entries().contains(self.items@[best as int]@));
                    assert forall|j: int| 0 <= j < n && #[trigger] taken@[j] implies exists|
                        oi: int,
                    | 0 <= oi < out@.len() && (#[trigger] out@[oi])@ == self.items@[j]@ by {
                        if j == best {
                            assert(out@[out@.len() - 1]@ == self.items@[j]@);
                        } else {
                            assert(prev_taken[j]);
                            let oi = choose|oi: int|
                                0 <= oi < prev_out.len() && (#[trigger] prev_out[oi])@
                                    == self.items@[j]@;
                            assert(out@[oi]@ == self.items@[j]@);
                        }
                    }
                }
            }
        }
        proof {
            assert forall|j: int|
                0 <= j < self.entries().len() && (#[trigger] self.entries()[j]).timestamp < cursor
                implies (exists|i: int|
                0 <= i < out@.len() && (#[trigger] out@[i])@ == self.entries()[j]) || (forall|
                i: int,
            |
                0 <= i < out@.len() ==> self.entries()[j].timestamp <= (
                #[trigger] out@[i])@.timestamp) by {
                assert(self.entries()[j] == self.items@[j]@);
                if taken@[j] {
                    let oi = choose|oi: int|
                        0 <= oi < out@.len() && (#[trigger] out@[oi])@ == self.items@[j]@;
                    assert(out@[oi]@ == self.entries()[j]);
                } else {
                    assert forall|i: int| 0 <= i < out@.len() implies self.entries()[j].timestamp
                        <= (#[trigger] out@[i])@.timestamp by {
                        assert(self.items@[j]@.timestamp <= out@[i]@.timestamp);
                    }
                }
            }
            if out@.len() == 0 {
                assert forall|j: int| 0 <= j < self.entries().len() implies (
                #[trigger] self.entries()[j]).timestamp >= cursor by {
                    assert(self.entries()[j] == self.items@[j]@);
                    assert(!taken@[j]);
                }
            }
        }
        Ok(out)
    }
}

/// An in-memory relay.
pub struct MemRelay {
    /// Every entry ever accepted, in arrival order.
    pub items: Vec<UploadRecord>,
}

impl MemRelay {
    /// An empty relay.
    pub fn new() -> (r: MemRelay)
        ensures
            r.entries() == Seq::<UploadRecord>::empty(),
    {
        let r = MemRelay { items: Vec::new() };
        proof {
            assert(r.items@ =~= Seq::<UploadRecord>::empty());
        }
        r
    }
}

impl Relay for MemRelay {
    open spec fn entries(&self) -> Seq<UploadRecord> {
        self.items@
    }

    fn count(&self) -> (r: Result<usize, Error>) {
        Ok(self.items.len())
    }

    #[verifier::loop_isolation(false)]
    fn get_history(&self, after: u64) -> (r: Result<Vec<UploadRecord>, Error>) {
        let n = self.items.len();
        let mut taken: Vec<bool> = Vec::new();
        while taken.len() < n
            invariant
                taken@.len() <= n,
                forall|j: int| 0 <= j < taken@.len() ==> !(#[trigger] taken@[j]),
            decreases n - taken@.len(),
        {
            taken.push(false);
        }
        let mut out: Vec<UploadRecord> = Vec::new();
        let mut done = false;
        while !done && out.len() < 100
            invariant
                taken@.len() == n,
                n == self.items@.len(),
                out@.len() <= 100,
                forall|oi: int|
                    0 <= oi < out@.len() ==> (#[trigger] out@[oi]).timestamp > after
                        && self.entries().contains(out@[oi]),
                forall|j: int, oi: int|
                    #![trigger taken@[j], out@[oi]]
                    0 <= j < n && !taken@[j] && self.items@[j].timestamp > after && 0 <= oi
                        < out@.len() ==> self.items@[j].timestamp >= out@[oi].timestamp,
                forall|j: int|
                    0 <= j < n && #[trigger] taken@[j] ==> exists|oi: int|
                        0 <= oi < out@.len() && #[trigger] out@[oi] == self.items@[j],
                done ==> forall|j: int|
                    0 <= j < n && self.items@[j].timestamp > after ==> #[trigger] taken@[j],
            decreases 2 * (100 - out@.len()) + (if done { 0int } else { 1int }),
        {
            let mut best: usize = n;
            let mut bi: usize = 0;
            while bi < n
                invariant
                    bi <= n,
                    n == self.items@.len() == taken@.len(),
                    best == n || (best < n && !taken@[best as int] && self.items@[
                        best as int
                    ].timestamp > after),
                    best == n ==> forall|j: int|
                        0 <= j < bi ==> !(!(#[trigger] taken@[j]) && self.items@[j].timestamp
                            > after),
                    best < n ==> forall|j: int|
                        0 <= j < bi && !(#[trigger] taken@[j]) && self.items@[j].timestamp > after
                            ==> self.items@[j].timestamp >= self.items@[best as int].timestamp,
                decreases n - bi,
            {
                if !taken[bi] && self.items[bi].timestamp > after {
                    if best == n || self.items[bi].timestamp < self.items[best].timestamp {
                        best = bi;
                    }
                }
                bi += 1;
            }
            if best == n {
                done = true;
            } else {
                let ghost prev_taken = taken@;
                let ghost prev_out = out@;
                taken.set(best, true);
                out.push(self.items[best].duplicate());
                proof {
                    assert(self.entries()[best as int] == self.items@[best as int]);
                    assert(self.entries().contains(self.items@[best as int]));
                    assert forall|j: int| 0 <= j < n && #[trigger] taken@[j] implies exists|
                        oi: int,
                    | 0 <= oi < out@.len() && #[trigger] out@[oi] == self.items@[j] by {
                        if j == best {
                            assert(out@[out@.len() - 1] == self.items@[j]);
                        } else {
                            assert(prev_taken[j]);
                            let oi = choose|oi: int|
                                0 <= oi < prev_out.len() && #[trigger] prev_out[oi]
                                    == self.items@[j];
                            assert(out@[oi] == self.items@[j]);
                        }
                    }
                }
            }
        }
        proof {
            assert forall|j: int|
                0 <= j < self.entries().len() && (#[trigger] self.entries()[j]).timestamp > after
                implies (exists|i: int|
                0 <= i < out@.len() && (#[trigger] out@[i]) == self.entries()[j]) || (forall|
                i: int,
            |
                0 <= i < out@.len() ==> self.entries()[j].timestamp >= (
                #[trigger] out@[i]).timestamp) by {
                if taken@[j] {
                    let oi = choose|oi: int|
                        0 <= oi < out@.len() && #[trigger] out@[oi] == self.items@[j];
                } else {
                    assert forall|i: int| 0 <= i < out@.len() implies self.entries()[j].timestamp
                        >= (#[trigger] out@[i]).timestamp by {
                        assert(self.items@[j].timestamp >= out@[i].timestamp);
                    }
                }
            }
            if out@.len() == 0 {
                assert forall|j: int| 0 <= j < self.entries().len() implies (
                #[trigger] self.entries()[j]).timestamp <= after by {
                    assert(!taken@[j]);
                }
            }
        }
        Ok(out)
    }

    #[verifier::loop_isolation(false)]
    fn post_history(&mut self, batch: &Vec<UploadRecord>) -> (r: Result<(), Error>) {
        let orig_len = self.items.len();
        let ghost initial = self.items@;
        let ghost pred = |e: UploadRecord| !has_id(initial, e.id@);
        let mut k: usize = 0;
        while k < batch.len()
            invariant
                0 <= k <= batch@.len(),
                orig_len == initial.len(),
                self.items@ == initial + batch@.take(k as int).filter(pred),
            decreases batch@.len() - k,
        {
            proof {
                reveal(Seq::filter);
                assert(batch@.take(k + 1).drop_last() =~= batch@.take(k as int));
                assert(batch@.take(k + 1).last() == batch@[k as int]);
            }
            let e = &batch[k];
            let mut known = false;
            let mut j: usize = 0;
            while j < orig_len
                invariant
                    0 <= k < batch@.len(),
                    0 <= j <= orig_len,
                    orig_len == initial.len(),
                    self.items@ == initial + batch@.take(k as int).filter(pred),
                    known ==> has_id(initial, batch@[k as int].id@),
                    !known ==> forall|m: int|
                        0 <= m < j ==> (#[trigger] initial[m]).id@ != batch@[k as int].id@,
                decreases orig_len - j,
            {
                proof {
                    assert(self.items@[j as int] == initial[j as int]);
                }
                if str_eq(self.items[j].id.as_str(), e.id.as_str()) {
                    known = true;
                }
                j += 1;
            }
            if !known {
                let ghost prev = self.items@;
                self.items.push(e.duplicate());
                proof {
                    reveal(Seq::filter);
                    assert(batch@.take(k + 1).drop_last() =~= batch@.take(k as int));
                    assert(!has_id(initial, batch@[k as int].id@));
                    assert(batch@.take(k + 1).filter(pred) =~= batch@.take(k as int).filter(
                        pred,
                    ).push(batch@[k as int]));
                    assert(self.items@ =~= initial + batch@.take(k + 1).filter(pred));
                }
            } else {
                proof {
                    reveal(Seq::filter);
                    assert(batch@.take(k + 1).drop_last() =~= batch@.take(k as int));
                    assert(has_id(initial, batch@[k as int].id@));
                    assert(batch@.take(k + 1).filter(pred) =~= batch@.take(k as int).filter(pred));
                }
            }
            k += 1;
        }
        proof {
            assert(batch@.take(batch@.len() as int) =~= batch@);
        }
        Ok(())
    }
}

} // verus!
