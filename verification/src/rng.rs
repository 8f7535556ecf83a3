//! The seeded random source used by map generation. Randomness is always
//! injected: callers seed a generator and pass it down, so a whole match is
//! reproducible from its seed.

use vstd::prelude::*;

verus! {

/// rand's standard generator, declared so the map builder can thread one
/// through its sampling loops. Its state is opaque here.
#[verifier::external_type_specification]
#[verifier::external_body]
pub struct ExStdRng(rand::rngs::StdRng);

/// Relies on rand::Rng::gen_range over a half-open i64 range: it panics only
/// on an empty range and otherwise returns a member of the range.
#[verifier::external_body]
pub fn gen_range_i64(rng: &mut rand::rngs::StdRng, lo: i64, hi: i64) -> (r: i64)
    requires
        lo < hi,
    ensures
        lo <= r < hi,
{
    rand::Rng::gen_range(rng, lo..hi)
}

} // verus!
