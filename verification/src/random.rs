//! Random draws.

use rand::Rng;
use vstd::prelude::*;

verus! {

/// A uniform draw from `low..high`: `rand::Rng::gen_range` on the generator of the
/// thread, which panics on an empty range. Which number of the range comes is left
/// unsaid: it is random.
#[verifier::external_body]
pub(crate) fn gen_range(low: u64, high: u64) -> (r: u64)
    requires
        low < high,
    ensures
        low <= r < high,
{
    rand::thread_rng().gen_range(low..high)
}

/// A coin that shows true with a chance of `numerator` in `denominator`:
/// `rand::Rng::gen_ratio` on the generator of the thread, which panics on a zero
/// denominator and on a chance above one. A chance of one always gives true and a
/// chance of zero always gives false; what comes otherwise is left unsaid: it is random.
#[verifier::external_body]
pub(crate) fn gen_ratio(numerator: u32, denominator: u32) -> (r: bool)
    requires
        0 < denominator,
        numerator <= denominator,
    ensures
        numerator == denominator ==> r,
        numerator == 0 ==> !r,
{
    rand::thread_rng().gen_ratio(numerator, denominator)
}

/// A uniform draw from all 64-bit numbers: `rand::random`. Nothing is said of the
/// number: it is random.
#[verifier::external_body]
pub(crate) fn random() -> (r: u64) {
    rand::random::<u64>()
}

} // verus!
