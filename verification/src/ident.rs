//! The 128-bit stable identifier that names every node.

use vstd::prelude::*;

verus! {

/// An opaque 128-bit stable identifier.  Two identifiers compare bitwise.
///
/// Fresh identifiers come from a cryptographically adequate random source
/// (see [`random_uuid_bits`]); identifiers read from the wire are rebuilt
/// from exactly 16 bytes.
#[derive(Clone, Copy, Debug, PartialEq, Eq, Hash, Structural)]
pub struct Uuid(pub u128);

/// Relies on `uuid::Uuid::new_v4`: a fresh random version-4 identifier,
/// returned as its 128-bit value.  Nothing is promised of the result; the
/// registry checks freshness itself before using one.
#[verifier::external_body]
pub(crate) fn random_uuid_bits() -> u128 {
    uuid::Uuid::new_v4().as_u128()
}

} // verus!
