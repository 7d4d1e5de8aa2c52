//! The record data model: the atomic unit of synchronized state.
//!
//! A record is identified by `id`, belongs to the chain of one
//! `(host, tag)` pair, and points at its predecessor through `parent`.
//! Its payload is either decrypted bytes or an encrypted token with a
//! wrapped content key; the two forms are converted only by the
//! encryption engine.

use vstd::prelude::*;

verus! {

/// A payload in its in-memory, pre-upload form: plain serialized bytes.
#[derive(Debug, Clone, PartialEq, Eq)]
pub struct DecryptedData(pub Vec<u8>);

/// A payload at rest or on the wire: an encrypted token plus the
/// content-encryption key wrapped under the master key.
#[derive(Debug, Clone, PartialEq, Eq)]
pub struct EncryptedData {
    /// The authenticated, encrypted token carrying the payload.
    pub data: String,
    /// The footer text object holding the wrapped content key and the
    /// id of the key that wrapped it.
    pub content_encryption_key: String,
}

/// The identity quadruple that is authenticated, not merely carried,
/// with every encrypted payload.
#[derive(Debug, Clone, PartialEq, Eq)]
pub struct AdditionalData {
    pub id: String,
    pub version: String,
    pub tag: String,
    pub host: String,
}

/// One record of a `(host, tag)` chain, generic over the payload form.
#[derive(Debug, Clone, PartialEq, Eq)]
pub struct Record<D> {
    /// Globally unique identifier, assigned once at creation.
    pub id: String,
    /// Identifier of the device that created the record.
    pub host: String,
    /// Schema version tag of the payload encoding.
    pub version: String,
    /// Discriminator of the logical data stream, e.g. `"kv"`.
    pub tag: String,
    /// Creation time; used for ordering and display only, never for
    /// chain integrity.
    pub timestamp: u64,
    /// `id` of the previous record in the same chain; `None` marks the
    /// chain head.
    pub parent: Option<String>,
    /// The payload, decrypted or encrypted.
    pub data: D,
}

impl EncryptedData {
    /// A copy equal to the original.
    pub fn duplicate(&self) -> (r: EncryptedData)
        ensures
            r == *self,
    {
        EncryptedData {
            data: self.data.clone(),
            content_encryption_key: self.content_encryption_key.clone(),
        }
    }
}

impl Record<EncryptedData> {
    /// A copy equal to the original.
    pub fn duplicate(&self) -> (r: Record<EncryptedData>)
        ensures
            r == *self,
    {
        Record {
            id: self.id.clone(),
            host: self.host.clone(),
            version: self.version.clone(),
            tag: self.tag.clone(),
            timestamp: self.timestamp,
            parent: match &self.parent {
                Some(p) => Some(p.clone()),
                None => None,
            },
            data: self.data.duplicate(),
        }
    }
}

impl<D> Record<D> {
    /// The authenticated identity of this record, as bound into its
    /// encrypted payload.
    pub open spec fn spec_additional_data(self) -> (Seq<char>, Seq<char>, Seq<char>, Seq<char>) {
        (self.id@, self.version@, self.tag@, self.host@)
    }

    /// Copies the identity quadruple out of the record.
    pub fn additional_data(&self) -> (ad: AdditionalData)
        ensures
            ad.id@ == self.id@,
            ad.version@ == self.version@,
            ad.tag@ == self.tag@,
            ad.host@ == self.host@,
    {
        AdditionalData {
            id: self.id.clone(),
            version: self.version.clone(),
            tag: self.tag.clone(),
            host: self.host.clone(),
        }
    }

    /// Rebuilds the record around another payload, keeping every
    /// identity field.
    pub fn with_data<E>(self, data: E) -> (r: Record<E>)
        ensures
            r.id == self.id,
            r.host == self.host,
            r.version == self.version,
            r.tag == self.tag,
            r.timestamp == self.timestamp,
            r.parent == self.parent,
            r.data == data,
    {
        Record {
            id: self.id,
            host: self.host,
            version: self.version,
            tag: self.tag,
            timestamp: self.timestamp,
            parent: self.parent,
            data,
        }
    }
}

} // verus!
