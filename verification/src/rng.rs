//! The one place the library touches the process-wide random generator.

use vstd::prelude::*;

verus! {

/// Relies on rand::random: draws one sample from the process-wide generator.
/// Nothing is promised of the value; every caller states what holds of every
/// outcome.
#[verifier::external_body]
pub(crate) fn random_u32() -> u32 {
    rand::random::<u32>()
}

} // verus!
