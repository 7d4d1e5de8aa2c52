//! The envelope-encryption engine.
//!
//! Every payload is encrypted under a fresh random content-encryption
//! key (CEK) with an authenticated token scheme; the CEK is wrapped
//! under the long-lived master key (the key-encryption key, KEK) and
//! stored, together with an identifier of the KEK, in the footer text
//! next to the ciphertext. The identity quadruple of the record is
//! bound into the token as an implicit assertion: decrypting under a
//! different identity, or a different key, fails.
//!
//! Master-key rotation re-wraps only the small CEK and never touches
//! the ciphertext.

use vstd::prelude::*;

use crate::record::{AdditionalData, DecryptedData, EncryptedData, Record};
use crate::textobj::{
    assertion_text, encode_assertion, encode_footer, lemma_assertion_text_injective,
    lemma_footer_round_trip, parse_footer, parse_footer_text, str_eq, text_plain,
};
use crate::Error;

verus! {

/// What decrypting an authenticated token yields: the payload when
/// token, key and implicit assertion all match, nothing otherwise.
/// The result depends on those three values alone.
pub uninterp spec fn paseto_decrypt_of(token: Seq<char>, cek: Seq<u8>, assertion: Seq<char>) -> Option<Seq<char>>;

/// What unwrapping a wrapped-key text under a wrapping key yields.
/// The result depends on the two values alone.
pub uninterp spec fn pie_unwrap_of(wpk: Seq<char>, key: Seq<u8>) -> Option<Seq<u8>>;

/// The identifier derived from a wrapping key; a pure function of the
/// key bytes.
pub uninterp spec fn key_id_of(key: Seq<u8>) -> Seq<char>;

/// The unpadded URL-safe base64 text of a byte sequence.
pub uninterp spec fn b64_encode_of(data: Seq<u8>) -> Seq<char>;

/// What decoding unpadded URL-safe base64 text yields.
pub uninterp spec fn b64_decode_of(text: Seq<char>) -> Option<Seq<u8>>;

/// Relies on rusty_paseto's `Key::<32>::try_new_random`: 32 bytes from
/// the system randomness source. Nothing is assumed of the value.
/// Aborts only if the system randomness source itself fails.
#[verifier::external_body]
fn random_key32() -> (r: [u8; 32]) {
    let key = rusty_paseto::core::Key::<32>::try_new_random().expect("could not source from random");
    let mut out = [0u8; 32];
    out.copy_from_slice(key.as_ref());
    out
}

/// Relies on rusty_paserk's `Key::to_id`: the PASERK id of a local
/// key, a base64 text derived from the key bytes alone, so equal keys
/// give equal ids. The id text never needs escaping.
#[verifier::external_body]
fn key_id(key: &[u8; 32]) -> (r: String)
    ensures
        r@ == key_id_of(key@),
        text_plain(r@),
{
    rusty_paserk::Key::<rusty_paserk::V4, rusty_paserk::Local>::from_bytes(*key).to_id().to_string()
}

/// Relies on rusty_paserk's `Key::wrap_pie` and
/// `PieWrappedKey::unwrap_key`: wrapping is authenticated, so the
/// wrapped text unwraps to the wrapped key under the wrapping key and
/// is rejected under any other key; the text is base64 with a fixed
/// prefix and never needs escaping.
#[verifier::external_body]
fn pie_wrap(cek: &[u8; 32], kek: &[u8; 32]) -> (r: String)
    ensures
        pie_unwrap_of(r@, kek@) == Some(cek@),
        forall|k2: Seq<u8>| k2 != kek@ ==> (#[trigger] pie_unwrap_of(r@, k2)) is None,
        text_plain(r@),
{
    let cek_key = rusty_paserk::Key::<rusty_paserk::V4, rusty_paserk::Local>::from_bytes(*cek);
    let kek_key = rusty_paserk::Key::<rusty_paserk::V4, rusty_paserk::Local>::from_bytes(*kek);
    cek_key.wrap_pie(&kek_key).to_string()
}

/// Relies on rusty_paserk's `PieWrappedKey::unwrap_key` (and its
/// `FromStr`): unwrapping checks the authentication tag, and a text
/// that does not parse or does not authenticate is rejected.
#[verifier::external_body]
fn pie_unwrap(wpk: &str, kek: &[u8; 32]) -> (r: Option<[u8; 32]>)
    ensures
        match r {
            Some(k) => pie_unwrap_of(wpk@, kek@) == Some(k@),
            None => pie_unwrap_of(wpk@, kek@) is None,
        },
{
    let kek_key = rusty_paserk::Key::<rusty_paserk::V4, rusty_paserk::Local>::from_bytes(*kek);
    let wrapped: rusty_paserk::PieWrappedKey<rusty_paserk::V4, rusty_paserk::Local> = match wpk.parse() {
        Ok(w) => w,
        Err(_) => return None,
    };
    match wrapped.unwrap_key(&kek_key) {
        Ok(k) => Some(k.to_bytes()),
        Err(_) => None,
    }
}

/// Relies on rusty_paseto's `Paseto::<V4, Local>::try_encrypt`: the
/// token is authenticated encryption of the payload under the key,
/// with the implicit assertion bound into the authentication tag, so
/// it decrypts back to the payload under the same key and assertion
/// and is rejected under any other key or assertion. Aborts only if
/// the system randomness source fails while drawing the nonce.
#[verifier::external_body]
fn paseto_encrypt(payload: &str, assertion: &str, cek: &[u8; 32]) -> (r: String)
    ensures
        paseto_decrypt_of(r@, cek@, assertion@) == Some(payload@),
        forall|k2: Seq<u8>, a2: Seq<char>|
            k2 != cek@ || a2 != assertion@ ==> (#[trigger] paseto_decrypt_of(r@, k2, a2)) is None,
{
    let key = rusty_paseto::core::PasetoSymmetricKey::<rusty_paseto::core::V4, rusty_paseto::core::Local>::from(rusty_paseto::core::Key::from(*cek));
    let nonce = rusty_paseto::core::Key::<32>::try_new_random().expect("could not source from random");
    let nonce = rusty_paseto::core::PasetoNonce::from(&nonce);
    rusty_paseto::core::Paseto::builder()
        .set_payload(rusty_paseto::core::Payload::from(payload))
        .set_implicit_assertion(rusty_paseto::core::ImplicitAssertion::from(assertion))
        .try_encrypt(&key, &nonce)
        .expect("error encrypting data")
}

/// Relies on rusty_paseto's `Paseto::<V4, Local>::try_decrypt`: the
/// deterministic inverse of the token encryption, rejecting any
/// token that does not authenticate under the key and assertion.
#[verifier::external_body]
fn paseto_decrypt(token: &str, cek: &[u8; 32], assertion: &str) -> (r: Option<String>)
    ensures
        match r {
            Some(p) => paseto_decrypt_of(token@, cek@, assertion@) == Some(p@),
            None => paseto_decrypt_of(token@, cek@, assertion@) is None,
        },
{
    let key = rusty_paseto::core::PasetoSymmetricKey::<rusty_paseto::core::V4, rusty_paseto::core::Local>::from(rusty_paseto::core::Key::from(*cek));
    rusty_paseto::core::Paseto::try_decrypt(token, &key, None, rusty_paseto::core::ImplicitAssertion::from(assertion)).ok()
}

/// Relies on base64's `URL_SAFE_NO_PAD.encode`: a deterministic text
/// encoding of the bytes that its own decoder inverts.
#[verifier::external_body]
fn b64_encode(data: &[u8]) -> (r: String)
    ensures
        r@ == b64_encode_of(data@),
        b64_decode_of(r@) == Some(data@),
{
    base64::Engine::encode(&base64::engine::general_purpose::URL_SAFE_NO_PAD, data)
}

/// Relies on base64's `URL_SAFE_NO_PAD.decode`: the deterministic
/// partial inverse of the encoder.
#[verifier::external_body]
fn b64_decode(text: &str) -> (r: Option<Vec<u8>>)
    ensures
        match r {
            Some(v) => b64_decode_of(text@) == Some(v@),
            None => b64_decode_of(text@) is None,
        },
{
    base64::Engine::decode(&base64::engine::general_purpose::URL_SAFE_NO_PAD, text).ok()
}

/// What unwrapping a stored footer text under a master key yields:
/// the content-encryption key, or the error the decrypt path reports.
/// The key-id comparison comes first, so a wrong master key is
/// reported as `KeyMismatch` before any unwrap is attempted.
pub open spec fn spec_decrypt_cek(cek_text: Seq<char>, key: Seq<u8>) -> Result<Seq<u8>, Error> {
    match parse_footer_text(cek_text) {
        None => Err(Error::AuthenticationFailure),
        Some(f) => if f.1 != key_id_of(key) {
            Err(Error::KeyMismatch)
        } else {
            match pie_unwrap_of(f.0, key) {
                None => Err(Error::AuthenticationFailure),
                Some(c) => Ok(c),
            }
        },
    }
}

/// What the whole decrypt path yields for an encrypted payload, an
/// identity quadruple and a master key.
pub open spec fn spec_decrypt(
    token: Seq<char>,
    cek_text: Seq<char>,
    id: Seq<char>,
    version: Seq<char>,
    tag: Seq<char>,
    host: Seq<char>,
    key: Seq<u8>,
) -> Result<Seq<u8>, Error> {
    match spec_decrypt_cek(cek_text, key) {
        Err(e) => Err(e),
        Ok(cek) => match paseto_decrypt_of(token, cek, assertion_text(id, version, tag, host)) {
            None => Err(Error::AuthenticationFailure),
            Some(payload) => match b64_decode_of(payload) {
                None => Err(Error::AuthenticationFailure),
                Some(b) => Ok(b),
            },
        },
    }
}

/// Whether no field of an identity quadruple needs escaping. All
/// ordinary identities (ids, version tags, category names, host ids)
/// satisfy this; it is the documented scope of the identity-binding
/// claim, since the injectivity of the assertion text is proved for
/// exactly these fields.
pub open spec fn ad_plain(id: Seq<char>, version: Seq<char>, tag: Seq<char>, host: Seq<char>) -> bool {
    text_plain(id) && text_plain(version) && text_plain(tag) && text_plain(host)
}

/// The envelope-encryption engine over authenticated V4 local tokens
/// with wrapped content keys.
#[allow(non_camel_case_types)]
pub struct PASETO_V4;

impl PASETO_V4 {
    /// Wraps a fresh content key under the master key and stores it,
    /// with the master key's id, in a footer text.
    fn encrypt_cek(cek: &[u8; 32], key: &[u8; 32]) -> (r: String)
        ensures
            spec_decrypt_cek(r@, key@) == Ok::<Seq<u8>, Error>(cek@),
            forall|k2: Seq<u8>|
                key_id_of(k2) != key_id_of(key@) ==> #[trigger] spec_decrypt_cek(r@, k2) == Err::<
                    Seq<u8>,
                    Error,
                >(Error::KeyMismatch),
            forall|k2: Seq<u8>| k2 != key@ ==> (#[trigger] spec_decrypt_cek(r@, k2)) is Err,
    {
        let wpk = pie_wrap(cek, key);
        let kid = key_id(key);
        let footer = encode_footer(wpk.as_str(), kid.as_str());
        proof {
            lemma_footer_round_trip(wpk@, kid@);
        }
        footer
    }

    /// Reads the footer text back, checks that the stored key id
    /// matches the supplied master key, and unwraps the content key.
    fn decrypt_cek(cek_text: &str, key: &[u8; 32]) -> (r: Result<[u8; 32], Error>)
        ensures
            match spec_decrypt_cek(cek_text@, key@) {
                Ok(c) => r matches Ok(k) && k@ == c,
                Err(e) => r == Err::<[u8; 32], Error>(e),
            },
    {
        let parsed = match parse_footer(cek_text) {
            Some(p) => p,
            None => {
                return Err(Error::AuthenticationFailure);
            },
        };
        let current_kid = key_id(key);
        if !str_eq(parsed.1.as_str(), current_kid.as_str()) {
            return Err(Error::KeyMismatch);
        }
        match pie_unwrap(parsed.0.as_str(), key) {
            Some(cek) => Ok(cek),
            None => Err(Error::AuthenticationFailure),
        }
    }

    /// Encrypts a payload under a fresh random content key, binds the
    /// identity quadruple into the token as an implicit assertion, and
    /// wraps the content key under the master key.
    ///
    /// The contract carries the engine's laws: the blob decrypts back
    /// to the payload under the same identity and key; any master key
    /// with a different id is rejected fast as `KeyMismatch`, and any
    /// other different key fails; and for identities that need no
    /// escaping, any change to any field of the quadruple makes
    /// decryption fail.
    pub fn encrypt(data: &DecryptedData, ad: &AdditionalData, key: &[u8; 32]) -> (r: EncryptedData)
        ensures
            spec_decrypt(
                r.data@,
                r.content_encryption_key@,
                ad.id@,
                ad.version@,
                ad.tag@,
                ad.host@,
                key@,
            ) == Ok::<Seq<u8>, Error>(data.0@),
            forall|k2: Seq<u8>|
                key_id_of(k2) != key_id_of(key@) ==> #[trigger] spec_decrypt(
                    r.data@,
                    r.content_encryption_key@,
                    ad.id@,
                    ad.version@,
                    ad.tag@,
                    ad.host@,
                    k2,
                ) == Err::<Seq<u8>, Error>(Error::KeyMismatch),
            forall|k2: Seq<u8>|
                k2 != key@ ==> (#[trigger] spec_decrypt(
                    r.data@,
                    r.content_encryption_key@,
                    ad.id@,
                    ad.version@,
                    ad.tag@,
                    ad.host@,
                    k2,
                )) is Err,
            forall|id2: Seq<char>, v2: Seq<char>, t2: Seq<char>, h2: Seq<char>|
                ad_plain(ad.id@, ad.version@, ad.tag@, ad.host@) && ad_plain(id2, v2, t2, h2) && !(
                id2 == ad.id@ && v2 == ad.version@ && t2 == ad.tag@ && h2
                    == ad.host@) ==> #[trigger] spec_decrypt(
                    r.data@,
                    r.content_encryption_key@,
                    id2,
                    v2,
                    t2,
                    h2,
                    key@,
                ) == Err::<Seq<u8>, Error>(Error::AuthenticationFailure),
    {
        let cek = random_key32();
        let assertion = encode_assertion(
            ad.id.as_str(),
            ad.version.as_str(),
            ad.tag.as_str(),
            ad.host.as_str(),
        );
        let payload = b64_encode(data.0.as_slice());
        let token = paseto_encrypt(payload.as_str(), assertion.as_str(), &cek);
        let cek_text = Self::encrypt_cek(&cek, key);
        let r = EncryptedData { data: token, content_encryption_key: cek_text };
        proof {
            assert forall|id2: Seq<char>, v2: Seq<char>, t2: Seq<char>, h2: Seq<char>|
                ad_plain(ad.id@, ad.version@, ad.tag@, ad.host@) && ad_plain(id2, v2, t2, h2) && !(
                id2 == ad.id@ && v2 == ad.version@ && t2 == ad.tag@ && h2
                    == ad.host@) implies #[trigger] spec_decrypt(
                r.data@,
                r.content_encryption_key@,
                id2,
                v2,
                t2,
                h2,
                key@,
            ) == Err::<Seq<u8>, Error>(Error::AuthenticationFailure) by {
                if assertion_text(id2, v2, t2, h2) == assertion_text(
                    ad.id@,
                    ad.version@,
                    ad.tag@,
                    ad.host@,
                ) {
                    lemma_assertion_text_injective(
                        id2,
                        v2,
                        t2,
                        h2,
                        ad.id@,
                        ad.version@,
                        ad.tag@,
                        ad.host@,
                    );
                }
            }
        }
        r
    }

    /// Decrypts an encrypted payload under the identity quadruple and
    /// master key it was bound to. Every integrity failure surfaces as
    /// the same coarse `AuthenticationFailure`; only the fast key-id
    /// check is reported as `KeyMismatch`.
    pub fn decrypt(data: &EncryptedData, ad: &AdditionalData, key: &[u8; 32]) -> (r: Result<
        DecryptedData,
        Error,
    >)
        ensures
            match spec_decrypt(
                data.data@,
                data.content_encryption_key@,
                ad.id@,
                ad.version@,
                ad.tag@,
                ad.host@,
                key@,
            ) {
                Ok(b) => r matches Ok(d) && d.0@ == b,
                Err(e) => r == Err::<DecryptedData, Error>(e),
            },
    {
        let cek = match Self::decrypt_cek(data.content_encryption_key.as_str(), key) {
            Ok(c) => c,
            Err(e) => {
                return Err(e);
            },
        };
        let assertion = encode_assertion(
            ad.id.as_str(),
            ad.version.as_str(),
            ad.tag.as_str(),
            ad.host.as_str(),
        );
        let payload = match paseto_decrypt(data.data.as_str(), &cek, assertion.as_str()) {
            Some(p) => p,
            None => {
                return Err(Error::AuthenticationFailure);
            },
        };
        match b64_decode(payload.as_str()) {
            Some(v) => Ok(DecryptedData(v)),
            None => Err(Error::AuthenticationFailure),
        }
    }

    /// Rotates the master key of an encrypted payload: unwraps the
    /// content key with the old master key and re-wraps it with the
    /// new one. The ciphertext itself is untouched, so rotation costs
    /// one small re-wrap per record, never a payload re-encryption;
    /// under a different new master key the wrapped-key footer
    /// provably changes (under the same key it still changes in
    /// practice, from the fresh wrap nonce, but that is
    /// probabilistic and not stated).
    pub fn re_encrypt(
        data: EncryptedData,
        ad: &AdditionalData,
        old_key: &[u8; 32],
        new_key: &[u8; 32],
    ) -> (r: Result<EncryptedData, Error>)
        ensures
            match spec_decrypt_cek(data.content_encryption_key@, old_key@) {
                Ok(cek) => r matches Ok(e2) && e2.data@ == data.data@ && spec_decrypt_cek(
                    e2.content_encryption_key@,
                    new_key@,
                ) == Ok::<Seq<u8>, Error>(cek) && (forall|k2: Seq<u8>|
                    k2 != new_key@ ==> (#[trigger] spec_decrypt_cek(
                        e2.content_encryption_key@,
                        k2,
                    )) is Err),
                Err(e) => r == Err::<EncryptedData, Error>(e),
            },
            old_key@ != new_key@ ==> (r matches Ok(e2) ==> e2.content_encryption_key@
                != data.content_encryption_key@),
            r matches Ok(e2) ==> forall|id2: Seq<char>, v2: Seq<char>, t2: Seq<char>, h2: Seq<char>|
                #![trigger spec_decrypt(e2.data@, e2.content_encryption_key@, id2, v2, t2, h2, new_key@)]
                spec_decrypt(e2.data@, e2.content_encryption_key@, id2, v2, t2, h2, new_key@)
                    == spec_decrypt(
                    data.data@,
                    data.content_encryption_key@,
                    id2,
                    v2,
                    t2,
                    h2,
                    old_key@,
                ),
    {
        let cek = match Self::decrypt_cek(data.content_encryption_key.as_str(), old_key) {
            Ok(c) => c,
            Err(e) => {
                return Err(e);
            },
        };
        let cek_text = Self::encrypt_cek(&cek, new_key);
        Ok(EncryptedData { data: data.data, content_encryption_key: cek_text })
    }
}

impl Record<DecryptedData> {
    /// Encrypts the record's payload, binding the record's own
    /// identity quadruple into the token. Tampering with any identity
    /// field of the stored record afterwards — relinking it to another
    /// host, chain or id — makes decryption fail.
    pub fn encrypt(self, key: &[u8; 32]) -> (r: Record<EncryptedData>)
        ensures
            r.id == self.id && r.host == self.host && r.version == self.version && r.tag
                == self.tag && r.timestamp == self.timestamp && r.parent == self.parent,
            spec_decrypt(
                r.data.data@,
                r.data.content_encryption_key@,
                self.id@,
                self.version@,
                self.tag@,
                self.host@,
                key@,
            ) == Ok::<Seq<u8>, Error>(self.data.0@),
            forall|k2: Seq<u8>|
                k2 != key@ ==> (#[trigger] spec_decrypt(
                    r.data.data@,
                    r.data.content_encryption_key@,
                    self.id@,
                    self.version@,
                    self.tag@,
                    self.host@,
                    k2,
                )) is Err,
            forall|id2: Seq<char>, v2: Seq<char>, t2: Seq<char>, h2: Seq<char>|
                ad_plain(self.id@, self.version@, self.tag@, self.host@) && ad_plain(
                    id2,
                    v2,
                    t2,
                    h2,
                ) && !(id2 == self.id@ && v2 == self.version@ && t2 == self.tag@ && h2
                    == self.host@) ==> #[trigger] spec_decrypt(
                    r.data.data@,
                    r.data.content_encryption_key@,
                    id2,
                    v2,
                    t2,
                    h2,
                    key@,
                ) == Err::<Seq<u8>, Error>(Error::AuthenticationFailure),
    {
        let ad = self.additional_data();
        let blob = PASETO_V4::encrypt(&self.data, &ad, key);
        self.with_data(blob)
    }
}

impl Record<EncryptedData> {
    /// Decrypts the record's payload under the identity quadruple the
    /// record itself carries. A record whose identity fields were
    /// changed after encryption fails with `AuthenticationFailure`.
    pub fn decrypt(self, key: &[u8; 32]) -> (r: Result<Record<DecryptedData>, Error>)
        ensures
            match spec_decrypt(
                self.data.data@,
                self.data.content_encryption_key@,
                self.id@,
                self.version@,
                self.tag@,
                self.host@,
                key@,
            ) {
                Ok(b) => r matches Ok(rec) && rec.data.0@ == b && rec.id == self.id && rec.host
                    == self.host && rec.version == self.version && rec.tag == self.tag
                    && rec.timestamp == self.timestamp && rec.parent == self.parent,
                Err(e) => r == Err::<Record<DecryptedData>, Error>(e),
            },
    {
        let ad = self.additional_data();
        match PASETO_V4::decrypt(&self.data, &ad, key) {
            Ok(d) => Ok(self.with_data(d)),
            Err(e) => Err(e),
        }
    }
}

/// Key rotation preserves the whole decrypt path: when the old footer
/// unwraps under the old key and the new footer unwraps to the same
/// content key under the new key, decrypting the unchanged ciphertext
/// yields the same result under every identity quadruple.
pub proof fn lemma_rotation(
    token: Seq<char>,
    f1: Seq<char>,
    f2: Seq<char>,
    k1: Seq<u8>,
    k2: Seq<u8>,
    id: Seq<char>,
    version: Seq<char>,
    tag: Seq<char>,
    host: Seq<char>,
)
    requires
        spec_decrypt_cek(f1, k1) is Ok,
        spec_decrypt_cek(f2, k2) == spec_decrypt_cek(f1, k1),
    ensures
        spec_decrypt(token, f2, id, version, tag, host, k2) == spec_decrypt(
            token,
            f1,
            id,
            version,
            tag,
            host,
            k1,
        ),
{
}

} // verus!
