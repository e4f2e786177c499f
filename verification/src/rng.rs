//! Randomness for parameter initialization.

use vstd::prelude::*;

verus! {

use crate::fixed::Fixed;

/// Relies on `rand::random`: draws one machine word from the thread-local
/// generator. Nothing is assumed about the value drawn.
#[verifier::external_body]
fn random_u64() -> u64 {
    rand::random::<u64>()
}

/// A scalar drawn from the half-open interval `[min, max)`.
///
/// Whatever word the generator hands back, the result lies in the interval;
/// the distribution itself is not part of the contract.
pub fn random_fixed(min: Fixed, max: Fixed) -> (r: Fixed)
    requires
        min@ < max@,
    ensures
        min@ <= r@ < max@,
{
    let span_wide: i128 = (max.raw as i128) - (min.raw as i128);
    let span: u64 = span_wide as u64;
    let offset: u64 = random_u64() % span;
    let raw_wide: i128 = (min.raw as i128) + (offset as i128);
    Fixed { raw: raw_wide as i64 }
}

} // verus!
