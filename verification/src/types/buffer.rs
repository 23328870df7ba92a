//! Unique buffer identifiers.

use vstd::prelude::*;

verus! {

/// Unique identifier for a buffer: a 128-bit randomly generated value.
///
/// Equality is by value; the registry keys its maps by the wrapped integer.
#[derive(Debug, Clone, Copy, PartialEq, Eq, Structural, Hash)]
pub struct ID(pub u128);

/// Relies on `uuid::Uuid::new_v4` (and `Uuid::as_u128`): a randomly
/// generated version-4 UUID as a 128-bit integer.  Nothing is assumed of
/// the value; in particular, distinctness of two draws is not promised.
#[verifier::external_body]
fn fresh_id_value() -> u128 {
    uuid::Uuid::new_v4().as_u128()
}

impl ID {
    /// Creates a new buffer ID from a randomly generated 128-bit value.
    pub fn new() -> Self {
        ID(fresh_id_value())
    }
}

} // verus!
