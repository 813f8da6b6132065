//! The random source.

use rand::Rng;
use vstd::prelude::*;

verus! {

/// Draws an integer from the half-open range `low..high` with
/// `rand::Rng::gen_range` on the thread-local generator that
/// `rand::thread_rng` hands out.
///
/// Trusted: the contract claims only that the value drawn lies in the range,
/// which is what `gen_range` documents for a range that is not empty; on an
/// empty range it panics, so the range must not be empty. Which value comes
/// is left open. `thread_rng` itself fails only where the operating system
/// cannot seed the generator.
#[verifier::external_body]
pub(crate) fn random_in_range(low: i64, high: i64) -> (r: i64)
    requires
        low < high,
    ensures
        low <= r < high,
{
    rand::thread_rng().gen_range(low..high)
}

} // verus!
