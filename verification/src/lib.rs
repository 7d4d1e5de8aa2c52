//! Client-side engine for synchronizing per-host, per-category chains of
//! encrypted records through an untrusted relay.
//!
//! The library has four parts: the envelope-encryption engine
//! ([`encryption`]), the record and chain model with its store contract
//! ([`record`] and [`store`]), a typed key/value service on top of one chain
//! ([`kv`]), and the sync reconciliation protocol ([`sync`]). The fixed
//! text-object formats that travel with every encrypted payload live in
//! [`textobj`]; [`stats`] holds small pure helpers behind the statistics
//! display.

use vstd::prelude::*;

pub mod encryption;
pub mod kv;
pub mod record;
pub mod stats;
pub mod store;
pub mod sync;
pub mod textobj;

verus! {

/// Failure taxonomy of the engine.
///
/// Every decrypt-path integrity failure is the single coarse
/// `AuthenticationFailure`; callers cannot tell a wrong key from tampered
/// data through the error value. `KeyMismatch` is the one fast-path
/// exception: it is raised before any unwrap is attempted, from the key id
/// stored next to the wrapped key.
#[derive(Clone, Copy, Debug, PartialEq, Eq, Structural)]
pub enum Error {
    /// A store lookup found nothing.
    NotFound,
    /// A decrypt-path integrity or key failure.
    AuthenticationFailure,
    /// The stored key id does not match the supplied master key.
    KeyMismatch,
    /// The backing persistence failed.
    StoreIoFailure,
    /// The relay was unreachable or answered badly.
    TransportFailure,
    /// Payload bytes did not decode.
    SerializationFailure,
}

} // verus!
