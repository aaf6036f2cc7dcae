//! The two sources of randomness the engine consumes: a bounded random
//! index for the shuffle, and a fresh random identifier for players and
//! tables. Nothing is assumed about which values come back.

use vstd::prelude::*;

verus! {

/// Relies on rand::Rng::gen_range over `0..n`: a uniformly drawn index
/// strictly below `n`; the call panics only on an empty range, which the
/// precondition rules out.
#[verifier::external_body]
pub fn rand_below(n: usize) -> (r: usize)
    requires
        n > 0,
    ensures
        r < n,
{
    rand::Rng::gen_range(&mut rand::thread_rng(), 0..n)
}

/// Relies on uuid::Uuid::new_v4: a random identifier, folded to its low
/// 64 bits. Freshness is overwhelmingly likely but not promised, so the
/// callers treat a returned identifier as an arbitrary value.
#[verifier::external_body]
pub fn fresh_id() -> u64 {
    uuid::Uuid::new_v4().as_u64_pair().1
}

} // verus!
