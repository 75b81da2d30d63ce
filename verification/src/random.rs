//! Sources of randomness, wrapped so that verified code can state what holds
//! of every possible outcome. Nothing is assumed about which outcome comes
//! back, only about its shape.

use vstd::prelude::*;
use rand::Rng;
use rand::prelude::SliceRandom;

verus! {

/// Rearrange a vector uniformly at random.
///
/// Relies on `rand::seq::SliceRandom::shuffle`, which permutes the slice in
/// place by swapping elements, so the contents are kept, order aside.
#[verifier::external_body]
pub fn shuffle<T>(v: &mut Vec<T>)
    ensures
        final(v)@.to_multiset() == old(v)@.to_multiset(),
        final(v)@.len() == old(v)@.len(),
{
    v.shuffle(&mut rand::thread_rng());
}

/// Draw a uniformly random integer below `n`.
///
/// Relies on `rand::Rng::gen_range` over the range `0..n`, which panics on an
/// empty range and otherwise samples from it.
#[verifier::external_body]
pub fn pick_below(n: usize) -> (r: usize)
    requires
        n >= 1,
    ensures
        r < n,
{
    rand::thread_rng().gen_range(0..n)
}

/// Flip a fair coin.
///
/// Relies on `rand::random`, which returns an arbitrary value of the
/// requested type; for `bool`, either side comes back with equal chance.
#[verifier::external_body]
pub fn coin() -> bool {
    rand::random::<bool>()
}

/// Flip a biased coin that comes up true with probability `num` in `den`.
///
/// Relies on `rand::Rng::gen_ratio`, which panics when `den` is zero or
/// `num > den`, and otherwise returns a random boolean.
#[verifier::external_body]
pub fn chance(num: u32, den: u32) -> (r: bool)
    requires
        1 <= den,
        num <= den,
{
    rand::thread_rng().gen_ratio(num, den)
}

} // verus!
