//! The typed key/value service on top of one category's chain.
//!
//! A `KvRecord` is serialized to the compact binary form `rmp` gives
//! a two-field struct: a two-element array of strings. `set` appends
//! one encrypted record to the tail of this host's `"kv"` chain;
//! `get` walks the chain backward from the tail and returns the
//! payload of the most recent record whose key matches.

use vstd::arithmetic::div_mod::{lemma_div_denominator, lemma_fundamental_div_mod};
use vstd::prelude::*;
use vstd::slice::{slice_subrange, slice_to_vec};
use vstd::string::StringSliceAdditionalSpecFns;
use vstd::utf8::{decode_utf8, encode_utf8, valid_utf8};

use crate::encryption::{spec_decrypt, PASETO_V4};
use crate::record::{DecryptedData, EncryptedData, Record};
use crate::store::Store;
use crate::textobj::str_eq;
use crate::Error;

verus! {

/// The serialized form of one string in the compact binary encoding:
/// a header giving the byte length, then the UTF-8 bytes. Lengths of
/// 2^32 or more are not encodable.
pub open spec fn bin_str(b: Seq<u8>) -> Seq<u8> {
    if b.len() < 32 {
        seq![(0xa0 + b.len()) as u8] + b
    } else if b.len() < 256 {
        seq![0xd9u8, b.len() as u8] + b
    } else if b.len() < 65536 {
        seq![0xdau8, (b.len() / 256) as u8, (b.len() % 256) as u8] + b
    } else {
        seq![
            0xdbu8,
            (b.len() / 0x1000000) as u8,
            ((b.len() / 0x10000) % 256) as u8,
            ((b.len() / 256) % 256) as u8,
            (b.len() % 256) as u8,
        ] + b
    }
}

/// The serialized form of a key/value pair: a two-element array of
/// the two strings.
pub open spec fn kv_encoding(key: Seq<char>, value: Seq<char>) -> Seq<u8> {
    seq![0x92u8] + (bin_str(encode_utf8(key)) + bin_str(encode_utf8(value)))
}

/// Whether a key/value pair fits the encoding's length limits.
pub open spec fn kv_encodable(key: Seq<char>, value: Seq<char>) -> bool {
    encode_utf8(key).len() < 0x100000000 && encode_utf8(value).len() < 0x100000000
}

/// Reads one serialized string at position `i`: the string's bytes
/// and the position after them.
pub open spec fn bin_str_parse(s: Seq<u8>, i: int) -> Option<(Seq<u8>, int)> {
    if i < 0 || i >= s.len() {
        None
    } else {
        let b0 = s[i];
        if 0xa0 <= b0 && b0 <= 0xbf {
            let l = (b0 - 0xa0) as int;
            if i + 1 + l <= s.len() {
                Some((s.subrange(i + 1, i + 1 + l), i + 1 + l))
            } else {
                None
            }
        } else if b0 == 0xd9 {
            if i + 2 > s.len() {
                None
            } else {
                let l = s[i + 1] as int;
                if i + 2 + l <= s.len() {
                    Some((s.subrange(i + 2, i + 2 + l), i + 2 + l))
                } else {
                    None
                }
            }
        } else if b0 == 0xda {
            if i + 3 > s.len() {
                None
            } else {
                let l = s[i + 1] * 0x100 + s[i + 2];
                if i + 3 + l <= s.len() {
                    Some((s.subrange(i + 3, i + 3 + l), i + 3 + l))
                } else {
                    None
                }
            }
        } else if b0 == 0xdb {
            if i + 5 > s.len() {
                None
            } else {
                let l = s[i + 1] * 0x1000000 + s[i + 2] * 0x10000 + s[i + 3] * 0x100 + s[i + 4];
                if i + 5 + l <= s.len() {
                    Some((s.subrange(i + 5, i + 5 + l), i + 5 + l))
                } else {
                    None
                }
            }
        } else {
            None
        }
    }
}

/// Reads a whole serialized pair back into its two byte strings.
pub open spec fn kv_decode_bytes(s: Seq<u8>) -> Option<(Seq<u8>, Seq<u8>)> {
    if s.len() < 1 || s[0] != 0x92 {
        None
    } else {
        match bin_str_parse(s, 1) {
            None => None,
            Some(k) => match bin_str_parse(s, k.1) {
                None => None,
                Some(v) => if v.1 == s.len() {
                    Some((k.0, v.0))
                } else {
                    None
                },
            },
        }
    }
}

/// Reads a serialized pair back into its two texts.
pub open spec fn kv_decoding(s: Seq<u8>) -> Option<(Seq<char>, Seq<char>)> {
    match kv_decode_bytes(s) {
        None => None,
        Some(p) => if valid_utf8(p.0) && valid_utf8(p.1) {
            Some((decode_utf8(p.0), decode_utf8(p.1)))
        } else {
            None
        },
    }
}

/// A serialized string placed at position `i` of a larger buffer
/// parses back to its own bytes.
proof fn lemma_bin_str_parse_at(s: Seq<u8>, i: int, b: Seq<u8>)
    requires
        0 <= i,
        b.len() < 0x100000000,
        i + bin_str(b).len() <= s.len(),
        s.subrange(i, i + bin_str(b).len()) == bin_str(b),
    ensures
        bin_str_parse(s, i) == Some((b, i + bin_str(b).len())),
{
    let e = bin_str(b);
    let n = b.len() as int;
    let sub = s.subrange(i, i + e.len());
    let h = e.len() - n;
    assert(sub[0] == s[i] && e[0] == sub[0]);
    if h > 1 {
        assert(sub[1] == s[i + 1] && e[1] == sub[1]);
    }
    if h > 2 {
        assert(sub[2] == s[i + 2] && e[2] == sub[2]);
    }
    if h > 4 {
        assert(sub[3] == s[i + 3] && e[3] == sub[3]);
        assert(sub[4] == s[i + 4] && e[4] == sub[4]);
    }
    assert(s.subrange(i + h, i + h + n) =~= sub.subrange(h, h + n));
    assert(sub.subrange(h, h + n) =~= b);
    if n < 32 {
        assert(s[i] == (0xa0 + n) as u8);
    } else if n < 256 {
        assert(s[i] == 0xd9);
        assert(s[i + 1] == n as u8);
    } else if n < 65536 {
        assert(s[i] == 0xda);
        assert(s[i + 1] == (n / 256) as u8);
        assert(s[i + 2] == (n % 256) as u8);
        lemma_fundamental_div_mod(n, 256);
        assert(s[i + 1] * 0x100 + s[i + 2] == n);
    } else {
        assert(s[i] == 0xdb);
        lemma_fundamental_div_mod(n, 256);
        lemma_div_denominator(n, 256, 256);
        lemma_fundamental_div_mod(n / 256, 256);
        lemma_div_denominator(n / 256, 256, 256);
        lemma_fundamental_div_mod(n / 65536, 256);
        assert(n / 256 / 256 == n / 65536);
        assert(n / 65536 / 256 == n / 0x1000000);
        assert(n / 0x1000000 < 256);
        assert(s[i + 1] * 0x1000000 + s[i + 2] * 0x10000 + s[i + 3] * 0x100 + s[i + 4] == n);
    }
}

/// A serialized pair always reads back to the texts it was built
/// from.
pub proof fn lemma_kv_round_trip(key: Seq<char>, value: Seq<char>)
    requires
        kv_encodable(key, value),
    ensures
        kv_decoding(kv_encoding(key, value)) == Some((key, value)),
{
    broadcast use vstd::utf8::encode_utf8_valid_utf8;
    broadcast use vstd::utf8::encode_utf8_decode_utf8;

    let kb = encode_utf8(key);
    let vb = encode_utf8(value);
    let s = kv_encoding(key, value);
    assert(s[0] == 0x92);
    assert(s.subrange(1, 1 + bin_str(kb).len() as int) =~= bin_str(kb));
    lemma_bin_str_parse_at(s, 1, kb);
    let j = 1 + bin_str(kb).len() as int;
    assert(s.subrange(j, j + bin_str(vb).len() as int) =~= bin_str(vb));
    lemma_bin_str_parse_at(s, j, vb);
    assert(j + bin_str(vb).len() == s.len());
}

/// Appends the serialized form of one string's bytes.
fn bin_str_push(out: &mut Vec<u8>, b: &[u8])
    requires
        b@.len() < 0x100000000,
    ensures
        final(out)@ == old(out)@ + bin_str(b@),
{
    let n = b.len();
    if n < 32 {
        out.push((0xa0 + n) as u8);
    } else if n < 256 {
        out.push(0xd9);
        out.push(n as u8);
    } else if n < 65536 {
        out.push(0xda);
        out.push((n / 256) as u8);
        out.push((n % 256) as u8);
    } else {
        out.push(0xdb);
        out.push((n / 0x1000000) as u8);
        out.push(((n / 0x10000) % 256) as u8);
        out.push(((n / 256) % 256) as u8);
        out.push((n % 256) as u8);
    }
    let ghost with_header = out@;
    let mut i: usize = 0;
    while i < n
        invariant
            n == b@.len(),
            0 <= i <= n,
            out@ == with_header + b@.take(i as int),
        decreases n - i,
    {
        out.push(b[i]);
        proof {
            assert(b@.take(i + 1) =~= b@.take(i as int).push(b@[i as int]));
        }
        i += 1;
    }
    proof {
        assert(b@.take(n as int) =~= b@);
        assert(out@ =~= old(out)@ + bin_str(b@));
    }
}

/// Reads one serialized string starting at `i`: the bounds of its
/// bytes and the position after them.
fn bin_str_read(s: &[u8], i: usize) -> (r: Option<(usize, usize)>)
    ensures
        match r {
            Some(p) => bin_str_parse(s@, i as int) == Some(
                (s@.subrange(p.0 as int, p.1 as int), p.1 as int),
            ) && i <= p.0 <= p.1 <= s@.len(),
            None => bin_str_parse(s@, i as int) is None,
        },
{
    let n = s.len();
    if i >= n {
        return None;
    }
    let b0 = s[i];
    if 0xa0 <= b0 && b0 <= 0xbf {
        let l = (b0 - 0xa0) as usize;
        if l <= n - (i + 1) {
            Some((i + 1, i + 1 + l))
        } else {
            None
        }
    } else if b0 == 0xd9 {
        if n - i < 2 {
            return None;
        }
        let l = s[i + 1] as usize;
        if l <= n - (i + 2) {
            Some((i + 2, i + 2 + l))
        } else {
            None
        }
    } else if b0 == 0xda {
        if n - i < 3 {
            return None;
        }
        let l = (s[i + 1] as usize) * 0x100 + (s[i + 2] as usize);
        if l <= n - (i + 3) {
            Some((i + 3, i + 3 + l))
        } else {
            None
        }
    } else if b0 == 0xdb {
        if n - i < 5 {
            return None;
        }
        let l64 = (s[i + 1] as u64) * 0x1000000 + (s[i + 2] as u64) * 0x10000 + (s[i + 3] as u64)
            * 0x100 + (s[i + 4] as u64);
        if l64 <= (n - (i + 5)) as u64 {
            let l = l64 as usize;
            Some((i + 5, i + 5 + l))
        } else {
            None
        }
    } else {
        None
    }
}

/// Relies on std's `String::from_utf8`: succeeds exactly on valid
/// UTF-8 and returns the text those bytes encode.
#[verifier::external_body]
fn string_from_utf8(v: Vec<u8>) -> (r: Option<String>)
    ensures
        match r {
            Some(s) => v@ == encode_utf8(s@),
            None => !valid_utf8(v@),
        },
        valid_utf8(v@) ==> r is Some,
{
    String::from_utf8(v).ok()
}

/// One logical key/value pair of the store.
#[derive(Debug, Clone, PartialEq, Eq)]
pub struct KvRecord {
    pub key: String,
    pub value: String,
}

impl KvRecord {
    /// Serializes the pair to its compact binary form. Only a text
    /// whose UTF-8 form reaches 2^32 bytes is unencodable.
    pub fn serialize(&self) -> (r: Result<Vec<u8>, Error>)
        ensures
            r matches Ok(v) ==> kv_encodable(self.key@, self.value@) && v@ == kv_encoding(
                self.key@,
                self.value@,
            ),
            r is Err ==> r == Err::<Vec<u8>, Error>(Error::SerializationFailure) && !kv_encodable(
                self.key@,
                self.value@,
            ),
    {
        let kb = self.key.as_str().as_bytes();
        let vb = self.value.as_str().as_bytes();
        if kb.len() as u64 >= 0x100000000u64 || vb.len() as u64 >= 0x100000000u64 {
            return Err(Error::SerializationFailure);
        }
        let mut out: Vec<u8> = Vec::new();
        out.push(0x92);
        bin_str_push(&mut out, kb);
        bin_str_push(&mut out, vb);
        proof {
            assert(out@ =~= kv_encoding(self.key@, self.value@));
        }
        Ok(out)
    }
}

/// Reads a serialized pair back into a `KvRecord`.
pub fn deserialize_kv(bytes: &[u8]) -> (r: Option<KvRecord>)
    ensures
        match r {
            Some(kv) => kv_decoding(bytes@) == Some((kv.key@, kv.value@)),
            None => kv_decoding(bytes@) is None,
        },
{
    if bytes.len() < 1 {
        return None;
    }
    if bytes[0] != 0x92 {
        return None;
    }
    let k = match bin_str_read(bytes, 1) {
        Some(p) => p,
        None => {
            return None;
        },
    };
    let v = match bin_str_read(bytes, k.1) {
        Some(p) => p,
        None => {
            return None;
        },
    };
    if v.1 != bytes.len() {
        return None;
    }
    let kbytes = slice_to_vec(slice_subrange(bytes, k.0, k.1));
    let vbytes = slice_to_vec(slice_subrange(bytes, v.0, v.1));
    let key = match string_from_utf8(kbytes) {
        Some(s) => s,
        None => {
            return None;
        },
    };
    let value = match string_from_utf8(vbytes) {
        Some(s) => s,
        None => {
            return None;
        },
    };
    proof {
        broadcast use vstd::utf8::encode_utf8_decode_utf8;
        broadcast use vstd::utf8::encode_utf8_valid_utf8;

    }
    Some(KvRecord { key, value })
}


/// Relies on the uuid crate's `Uuid::new_v4`: a freshly drawn random
/// identifier, rendered as text. Nothing is assumed of the value.
#[verifier::external_body]
fn fresh_record_id() -> (r: String) {
    uuid::Uuid::new_v4().as_simple().to_string()
}

/// Relies on std's `SystemTime::now`: the wall clock as nanoseconds
/// since the epoch, zero if the clock reads before it. Nothing is
/// assumed of the value.
#[verifier::external_body]
fn now_timestamp() -> (r: u64) {
    match std::time::SystemTime::now().duration_since(std::time::UNIX_EPOCH) {
        Ok(d) => d.as_nanos() as u64,
        Err(_) => 0,
    }
}

/// What one chain record holds for the key/value service: its
/// payload decrypted under the master key and read back as a pair,
/// or nothing when either step fails.
#[verifier::opaque]
pub open spec fn kv_entry(rec: Record<EncryptedData>, mk: Seq<u8>) -> Option<(Seq<char>, Seq<char>)> {
    match spec_decrypt(
        rec.data.data@,
        rec.data.content_encryption_key@,
        rec.id@,
        rec.version@,
        rec.tag@,
        rec.host@,
        mk,
    ) {
        Err(e) => None,
        Ok(bytes) => kv_decoding(bytes),
    }
}

/// The resolution policy walked out: the payload of the most recent
/// record whose key matches, walking from the tail; `Absent` when
/// the chain is exhausted first; `Fail` when a record scanned on the
/// way does not decrypt or decode.
pub enum KvLookup {
    Found(Seq<char>, Seq<char>),
    Absent,
    Fail,
}

/// Resolves `key` against a chain, newest record first.
#[verifier::opaque]
pub open spec fn kv_lookup(chain: Seq<Record<EncryptedData>>, key: Seq<char>, mk: Seq<u8>) -> KvLookup
    decreases chain.len(),
{
    if chain.len() == 0 {
        KvLookup::Absent
    } else {
        match kv_entry(chain.last(), mk) {
            None => KvLookup::Fail,
            Some(kv) => if kv.0 == key {
                KvLookup::Found(kv.0, kv.1)
            } else {
                kv_lookup(chain.drop_last(), key, mk)
            },
        }
    }
}

/// A well-formed chain against an id lookup: every record is
/// reachable by its id, the oldest record has no parent, and every
/// later record's parent is the id of the record before it.
pub open spec fn chain_wf(
    chain: Seq<Record<EncryptedData>>,
    ids: Map<Seq<char>, Record<EncryptedData>>,
) -> bool {
    forall|i: int|
        0 <= i < chain.len() ==> {
            &&& ids.contains_key((#[trigger] chain[i]).id@)
            &&& ids[chain[i].id@] == chain[i]
            &&& if i == 0 {
                chain[i].parent is None
            } else {
                chain[i].parent matches Some(p) && p@ == chain[i - 1].id@
            }
        }
}

/// Appending a properly linked record with a fresh id keeps a chain
/// well-formed.
pub proof fn lemma_chain_wf_extend(
    chain: Seq<Record<EncryptedData>>,
    ids: Map<Seq<char>, Record<EncryptedData>>,
    rec: Record<EncryptedData>,
)
    requires
        chain_wf(chain, ids),
        !ids.contains_key(rec.id@),
        chain.len() == 0 ==> rec.parent is None,
        chain.len() > 0 ==> (rec.parent matches Some(p) && p@ == chain.last().id@),
    ensures
        chain_wf(chain.push(rec), ids.insert(rec.id@, rec)),
{
    let chain2 = chain.push(rec);
    let ids2 = ids.insert(rec.id@, rec);
    assert forall|i: int| 0 <= i < chain2.len() implies {
        &&& ids2.contains_key((#[trigger] chain2[i]).id@)
        &&& ids2[chain2[i].id@] == chain2[i]
        &&& if i == 0 {
            chain2[i].parent is None
        } else {
            chain2[i].parent matches Some(p) && p@ == chain2[i - 1].id@
        }
    } by {
        if i < chain.len() {
            assert(chain2[i] == chain[i]);
            assert(ids.contains_key(chain[i].id@));
            assert(chain[i].id@ != rec.id@);
            if i > 0 {
                assert(chain2[i - 1] == chain[i - 1]);
            }
        } else {
            assert(chain2[i] == rec);
            if i > 0 {
                assert(chain2[i - 1] == chain[i - 1]);
            }
        }
    }
}

/// The key/value service over one host's `"kv"` chain.
pub struct KvStore;

impl KvStore {
    /// A handle on the service.
    pub fn new() -> KvStore {
        KvStore {}
    }

    /// Sets `key` to `value`: serializes the pair, reads the current
    /// chain tail to link the new record to it, encrypts the record
    /// under the master key, and pushes it as the new tail. Exactly
    /// one record is appended, to this host's `"kv"` chain alone, and
    /// it decrypts back to the pair that was set. The new record's id
    /// is checked to be unknown to the store before the push, so ids
    /// are never reused and a well-formed chain stays well-formed; a
    /// store that already knows the freshly drawn id is refused
    /// rather than forked.
    pub fn set<S: Store>(
        &self,
        store: &mut S,
        key: &str,
        value: &str,
        host_id: &str,
        encryption_key: &[u8; 32],
    ) -> (r: Result<(), Error>)
        ensures
            r matches Ok(()) ==> exists|rec: Record<EncryptedData>|
                {
                    &&& #[trigger] final(store).chain(host_id@, "kv"@) == old(store).chain(
                        host_id@,
                        "kv"@,
                    ).push(rec)
                    &&& final(store).ids() == old(store).ids().insert(rec.id@, rec)
                    &&& rec.host@ == host_id@ && rec.tag@ == "kv"@ && rec.version@ == "v0"@
                    &&& !old(store).ids().contains_key(rec.id@)
                    &&& (old(store).chain(host_id@, "kv"@).len() == 0 ==> rec.parent is None)
                    &&& (old(store).chain(host_id@, "kv"@).len() > 0 ==> (rec.parent matches Some(
                        p,
                    ) && p@ == old(store).chain(host_id@, "kv"@).last().id@))
                    &&& spec_decrypt(
                        rec.data.data@,
                        rec.data.content_encryption_key@,
                        rec.id@,
                        rec.version@,
                        rec.tag@,
                        rec.host@,
                        encryption_key@,
                    ) == Ok::<Seq<u8>, Error>(kv_encoding(key@, value@))
                },
            r matches Ok(()) ==> forall|h: Seq<char>, t: Seq<char>|
                !(h == host_id@ && t == "kv"@) ==> #[trigger] final(store).chain(h, t) == old(
                    store,
                ).chain(h, t),
            r is Err ==> final(store).ids() == old(store).ids() && forall|h: Seq<char>, t: Seq<char>|
                #[trigger] final(store).chain(h, t) == old(store).chain(h, t),
            !kv_encodable(key@, value@) ==> r == Err::<(), Error>(Error::SerializationFailure),
            chain_wf(old(store).chain(host_id@, "kv"@), old(store).ids()) ==> chain_wf(
                final(store).chain(host_id@, "kv"@),
                final(store).ids(),
            ),
    {
        let kv = KvRecord { key: key.to_owned(), value: value.to_owned() };
        let bytes = match kv.serialize() {
            Ok(b) => b,
            Err(e) => {
                return Err(e);
            },
        };
        let len = match store.len(host_id, "kv") {
            Ok(n) => n,
            Err(e) => {
                return Err(e);
            },
        };
        let parent: Option<String> = if len > 0 {
            match store.last(host_id, "kv") {
                Ok(rec) => Some(rec.id),
                Err(e) => {
                    return Err(e);
                },
            }
        } else {
            None
        };
        let id = fresh_record_id();
        match store.get(id.as_str()) {
            Err(Error::NotFound) => (),
            Ok(_) => {
                return Err(Error::StoreIoFailure);
            },
            Err(e) => {
                return Err(e);
            },
        }
        let record = Record {
            id,
            host: host_id.to_owned(),
            version: String::from_str("v0"),
            tag: String::from_str("kv"),
            timestamp: now_timestamp(),
            parent,
            data: DecryptedData(bytes),
        };
        let encrypted = record.encrypt(encryption_key);
        let ghost witness = encrypted;
        match store.push(encrypted) {
            Ok(()) => {
                proof {
                    if chain_wf(old(store).chain(host_id@, "kv"@), old(store).ids()) {
                        lemma_chain_wf_extend(
                            old(store).chain(host_id@, "kv"@),
                            old(store).ids(),
                            witness,
                        );
                    }
                }
                Ok(())
            },
            Err(e) => Err(e),
        }
    }

    /// Looks `key` up: decrypts the tail record, then each
    /// predecessor in turn, and returns the first pair whose key
    /// matches; the chain exhausted means the key was never set, and
    /// an empty chain is vacuously exhausted, so it answers
    /// `Ok(None)`. `NotFound` is never returned.
    #[verifier::rlimit(100)]
    #[verifier::spinoff_prover]
    #[verifier::loop_isolation(false)]
    pub fn get<S: Store>(
        &self,
        store: &S,
        key: &str,
        host_id: &str,
        encryption_key: &[u8; 32],
    ) -> (r: Result<Option<KvRecord>, Error>)
        requires
            chain_wf(store.chain(host_id@, "kv"@), store.ids()),
        ensures
            store.chain(host_id@, "kv"@).len() == 0 ==> r == Ok::<Option<KvRecord>, Error>(None),
            !(r == Err::<Option<KvRecord>, Error>(Error::NotFound)),
            r matches Ok(o) ==> match o {
                Some(kv) => kv_lookup(store.chain(host_id@, "kv"@), key@, encryption_key@)
                    == KvLookup::Found(kv.key@, kv.value@),
                None => kv_lookup(store.chain(host_id@, "kv"@), key@, encryption_key@)
                    == KvLookup::Absent,
            },
    {
        let ghost chain = store.chain(host_id@, "kv"@);
        let mut rec = match store.last(host_id, "kv") {
            Ok(rec) => rec,
            Err(Error::NotFound) => {
                proof {
                    assert(kv_lookup(chain, key@, encryption_key@) == KvLookup::Absent) by {
                        reveal(kv_lookup);
                    };
                }
                return Ok(None);
            },
            Err(e) => {
                return Err(e);
            },
        };
        let ghost mut idx: int = chain.len() - 1;
        proof {
            assert(chain.take(idx + 1) =~= chain);
        }
        loop
            invariant
                0 <= idx < chain.len(),
                rec == chain[idx],
                kv_lookup(chain, key@, encryption_key@) == kv_lookup(
                    chain.take(idx + 1),
                    key@,
                    encryption_key@,
                ),
            decreases idx,
        {
            let ad = rec.additional_data();
            let plain = match PASETO_V4::decrypt(&rec.data, &ad, encryption_key) {
                Ok(d) => d,
                Err(e) => {
                    return Err(e);
                },
            };
            let found = match deserialize_kv(plain.0.as_slice()) {
                Some(kv) => kv,
                None => {
                    return Err(Error::SerializationFailure);
                },
            };
            proof {
                assert(chain.take(idx + 1).last() == chain[idx]);
                assert(chain.take(idx + 1).drop_last() =~= chain.take(idx));
                assert(kv_entry(chain[idx], encryption_key@) == Some((found.key@, found.value@)))
                    by {
                    reveal(kv_entry);
                };
                assert(kv_lookup(chain.take(idx + 1), key@, encryption_key@) == (
                if found.key@ == key@ {
                    KvLookup::Found(found.key@, found.value@)
                } else {
                    kv_lookup(chain.take(idx), key@, encryption_key@)
                })) by {
                    reveal(kv_lookup);
                };
            }
            if str_eq(found.key.as_str(), key) {
                return Ok(Some(found));
            }
            match &rec.parent {
                Some(p) => {
                    proof {
                        assert(idx != 0);
                    }
                    let next = match store.get(p.as_str()) {
                        Ok(next) => next,
                        Err(e) => {
                            return Err(e);
                        },
                    };
                    proof {
                        assert(next == chain[idx - 1]);
                        idx = idx - 1;
                    }
                    rec = next;
                },
                None => {
                    proof {
                        assert(idx == 0);
                        assert(kv_lookup(chain.take(0), key@, encryption_key@)
                            == KvLookup::Absent) by {
                            reveal(kv_lookup);
                        };
                    }
                    return Ok(None);
                },
            }
        }
    }
}

} // verus!

