//! Fresh random values for identifiers and tokens.

use vstd::prelude::*;

use crate::ids::ReactorID;

verus! {

/// Relies on rand::random: draws one 64-bit value from the thread-local
/// generator. Nothing is promised of the value.
#[verifier::external_body]
pub fn random_u64() -> u64 {
    rand::random::<u64>()
}

impl ReactorID {
    /// A freshly drawn 128-bit identifier.
    pub fn rand() -> ReactorID {
        ReactorID { high: random_u64(), low: random_u64() }
    }
}

} // verus!
