//! The persistence contract for record chains, and an in-memory
//! store that satisfies it.
//!
//! A store keeps one append-only chain of encrypted records per
//! `(host, tag)` pair and a global lookup by record id. The contract
//! does not itself enforce chain linearity: the caller reads the
//! current tail and sets `parent` before pushing, under the
//! single-writer-per-chain assumption.

use vstd::prelude::*;
use crate::record::{EncryptedData, Record};
use crate::textobj::str_eq;
use crate::Error;

verus! {

/// The records of `s` that belong to the `(host, tag)` chain, in
/// append order.
pub open spec fn chain_of(
    s: Seq<Record<EncryptedData>>,
    host: Seq<char>,
    tag: Seq<char>,
) -> Seq<Record<EncryptedData>> {
    s.filter(|r: Record<EncryptedData>| r.host@ == host && r.tag@ == tag)
}

/// The id lookup of `s`: each id maps to the last record appended
/// under it.
pub open spec fn ids_of(s: Seq<Record<EncryptedData>>) -> Map<Seq<char>, Record<EncryptedData>>
    decreases s.len(),
{
    if s.len() == 0 {
        Map::empty()
    } else {
        ids_of(s.drop_last()).insert(s.last().id@, s.last())
    }
}

/// Appending one record extends exactly its own chain and leaves
/// every other chain unchanged.
pub proof fn lemma_chain_of_push(
    s: Seq<Record<EncryptedData>>,
    rec: Record<EncryptedData>,
    host: Seq<char>,
    tag: Seq<char>,
)
    ensures
        chain_of(s.push(rec), host, tag) == if rec.host@ == host && rec.tag@ == tag {
            chain_of(s, host, tag).push(rec)
        } else {
            chain_of(s, host, tag)
        },
{
    reveal(Seq::filter);
    assert(s.push(rec).drop_last() =~= s);
}

/// What a store must satisfy: a chain view per `(host, tag)` pair, a
/// global id lookup, and the four operations below, honest about
/// both.
pub trait Store: Sized {
    /// The `(host, tag)` chain, oldest first.
    spec fn chain(&self, host: Seq<char>, tag: Seq<char>) -> Seq<Record<EncryptedData>>;

    /// The id lookup; an id that was pushed twice maps to the record
    /// pushed last.
    spec fn ids(&self) -> Map<Seq<char>, Record<EncryptedData>>;

    /// Number of records in the `(host, tag)` chain. An `Err` is a
    /// store-I/O failure.
    fn len(&self, host: &str, tag: &str) -> (r: Result<usize, Error>)
        ensures
            r matches Ok(n) ==> n == self.chain(host@, tag@).len(),
    ;

    /// The chain tail. Fails with `NotFound`, and only then, when the
    /// chain is empty.
    fn last(&self, host: &str, tag: &str) -> (r: Result<Record<EncryptedData>, Error>)
        ensures
            r matches Ok(rec) ==> self.chain(host@, tag@).len() > 0 && rec == self.chain(
                host@,
                tag@,
            ).last(),
            self.chain(host@, tag@).len() == 0 ==> r == Err::<Record<EncryptedData>, Error>(
                Error::NotFound,
            ),
            r == Err::<Record<EncryptedData>, Error>(Error::NotFound) ==> self.chain(
                host@,
                tag@,
            ).len() == 0,
    ;

    /// Lookup by record id. Fails with `NotFound`, and only then,
    /// when the id is unknown.
    fn get(&self, id: &str) -> (r: Result<Record<EncryptedData>, Error>)
        ensures
            r matches Ok(rec) ==> self.ids().contains_key(id@) && rec == self.ids()[id@],
            !self.ids().contains_key(id@) ==> r == Err::<Record<EncryptedData>, Error>(
                Error::NotFound,
            ),
            r == Err::<Record<EncryptedData>, Error>(Error::NotFound) ==> !self.ids().contains_key(
                id@,
            ),
    ;

    /// Appends a record as the new tail of its own chain. On failure
    /// nothing is changed.
    fn push(&mut self, record: Record<EncryptedData>) -> (r: Result<(), Error>)
        ensures
            r matches Ok(()) ==> {
                &&& final(self).chain(record.host@, record.tag@) == old(self).chain(
                    record.host@,
                    record.tag@,
                ).push(record)
                &&& final(self).ids() == old(self).ids().insert(record.id@, record)
                &&& forall|h: Seq<char>, t: Seq<char>|
                    !(h == record.host@ && t == record.tag@) ==> #[trigger] final(self).chain(h, t)
                        == old(self).chain(h, t)
            },
            r is Err ==> final(self).ids() == old(self).ids() && forall|h: Seq<char>, t: Seq<char>|
                #[trigger] final(self).chain(h, t) == old(self).chain(h, t),
    ;
}

/// An in-memory store: every record in push order. It backs the
/// tests and any caller that needs no durable engine.
pub struct MemStore {
    /// Every record ever pushed, in push order.
    pub records: Vec<Record<EncryptedData>>,
}

impl MemStore {
    /// An empty store.
    pub fn new() -> (r: MemStore)
        ensures
            forall|h: Seq<char>, t: Seq<char>| #[trigger] r.chain(h, t) == Seq::<
                Record<EncryptedData>,
            >::empty(),
            r.ids() == Map::<Seq<char>, Record<EncryptedData>>::empty(),
    {
        let r = MemStore { records: Vec::new() };
        proof {
            reveal(Seq::filter);
            assert forall|h: Seq<char>, t: Seq<char>| #[trigger] r.chain(h, t) == Seq::<
                Record<EncryptedData>,
            >::empty() by {
                assert(r.records@.filter(
                    |x: Record<EncryptedData>| x.host@ == h && x.tag@ == t,
                ) =~= Seq::<Record<EncryptedData>>::empty());
            }
        }
        r
    }
}

impl Store for MemStore {
    open spec fn chain(&self, host: Seq<char>, tag: Seq<char>) -> Seq<Record<EncryptedData>> {
        chain_of(self.records@, host, tag)
    }

    open spec fn ids(&self) -> Map<Seq<char>, Record<EncryptedData>> {
        ids_of(self.records@)
    }

    fn len(&self, host: &str, tag: &str) -> (r: Result<usize, Error>) {
        let n = self.records.len();
        let mut count: usize = 0;
        let mut i: usize = 0;
        proof {
            reveal(Seq::filter);
            assert(self.records@.take(0) =~= Seq::<Record<EncryptedData>>::empty());
        }
        while i < n
            invariant
                n == self.records@.len(),
                0 <= i <= n,
                count == chain_of(self.records@.take(i as int), host@, tag@).len(),
                count <= i,
            decreases n - i,
        {
            proof {
                assert(self.records@.take(i + 1) =~= self.records@.take(i as int).push(
                    self.records@[i as int],
                ));
                lemma_chain_of_push(self.records@.take(i as int), self.records@[i as int], host@, tag@);
            }
            let rec = &self.records[i];
            if str_eq(rec.host.as_str(), host) && str_eq(rec.tag.as_str(), tag) {
                count += 1;
            }
            i += 1;
        }
        proof {
            assert(self.records@.take(n as int) =~= self.records@);
        }
        Ok(count)
    }

    fn last(&self, host: &str, tag: &str) -> (r: Result<Record<EncryptedData>, Error>) {
        let n = self.records.len();
        let mut found: Option<Record<EncryptedData>> = None;
        let mut i: usize = 0;
        proof {
            reveal(Seq::filter);
            assert(self.records@.take(0) =~= Seq::<Record<EncryptedData>>::empty());
        }
        while i < n
            invariant
                n == self.records@.len(),
                0 <= i <= n,
                match found {
                    Some(rec) => chain_of(self.records@.take(i as int), host@, tag@).len() > 0
                        && rec == chain_of(self.records@.take(i as int), host@, tag@).last(),
                    None => chain_of(self.records@.take(i as int), host@, tag@).len() == 0,
                },
            decreases n - i,
        {
            proof {
                assert(self.records@.take(i + 1) =~= self.records@.take(i as int).push(
                    self.records@[i as int],
                ));
                lemma_chain_of_push(self.records@.take(i as int), self.records@[i as int], host@, tag@);
            }
            let rec = &self.records[i];
            if str_eq(rec.host.as_str(), host) && str_eq(rec.tag.as_str(), tag) {
                found = Some(rec.duplicate());
                proof {
                    assert(self.records@[i as int].host@ == host@);
                    assert(self.records@[i as int].tag@ == tag@);
                }
            }
            i += 1;
        }
        proof {
            assert(self.records@.take(n as int) =~= self.records@);
        }
        match found {
            Some(rec) => Ok(rec),
            None => Err(Error::NotFound),
        }
    }

    fn get(&self, id: &str) -> (r: Result<Record<EncryptedData>, Error>) {
        let n = self.records.len();
        let mut i: usize = n;
        while i > 0
            invariant
                n == self.records@.len(),
                0 <= i <= n,
                forall|j: int| i <= j < n ==> self.records@[j].id@ != id@,
            decreases i,
        {
            i -= 1;
            let rec = &self.records[i];
            if str_eq(rec.id.as_str(), id) {
                proof {
                    lemma_ids_of_last(self.records@, i as int, id@);
                }
                return Ok(rec.duplicate());
            }
        }
        proof {
            lemma_ids_of_none(self.records@, id@);
        }
        Err(Error::NotFound)
    }

    fn push(&mut self, record: Record<EncryptedData>) -> (r: Result<(), Error>) {
        let ghost before = self.records@;
        proof {
            assert forall|h: Seq<char>, t: Seq<char>| true implies #[trigger] chain_of(
                before.push(record),
                h,
                t,
            ) == if record.host@ == h && record.tag@ == t {
                chain_of(before, h, t).push(record)
            } else {
                chain_of(before, h, t)
            } by {
                lemma_chain_of_push(before, record, h, t);
            }
        }
        self.records.push(record);
        proof {
            assert(self.records@ == before.push(record));
            assert(self.records@.drop_last() =~= before);
        }
        Ok(())
    }
}

/// A record that is the latest with its id is what the id lookup
/// returns for that id.
proof fn lemma_ids_of_last(s: Seq<Record<EncryptedData>>, i: int, id: Seq<char>)
    requires
        0 <= i < s.len(),
        s[i].id@ == id,
        forall|j: int| i < j < s.len() ==> s[j].id@ != id,
    ensures
        ids_of(s).contains_key(id),
        ids_of(s)[id] == s[i],
    decreases s.len(),
{
    if i == s.len() - 1 {
    } else {
        assert(s.drop_last()[i] == s[i]);
        lemma_ids_of_last(s.drop_last(), i, id);
        assert(s.last().id@ != id);
    }
}

/// An id no record carries is absent from the id lookup.
proof fn lemma_ids_of_none(s: Seq<Record<EncryptedData>>, id: Seq<char>)
    requires
        forall|j: int| 0 <= j < s.len() ==> s[j].id@ != id,
    ensures
        !ids_of(s).contains_key(id),
    decreases s.len(),
{
    if s.len() > 0 {
        assert(forall|j: int| 0 <= j < s.drop_last().len() ==> s.drop_last()[j] == s[j]);
        lemma_ids_of_none(s.drop_last(), id);
    }
}

} // verus!
