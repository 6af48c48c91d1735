//! Drawing numbers at random.
//!
//! Both functions ask the operating system for randomness through the
//! generators of `rand`, which panic if the system has none to give.

use rand::seq::IteratorRandom;
use rand::Rng;
use rand::SeedableRng;
use vstd::prelude::*;

verus! {

/// `rand::Rng::gen_range` from zero, on the generator of
/// `rand::thread_rng`: a number at random that is less than `high`. Which
/// one is not said. The call panics on an empty range, so `high` must be
/// positive.
#[verifier::external_body]
pub(crate) fn random_below(high: usize) -> (drawn: usize)
    requires
        high > 0,
    ensures
        drawn < high,
{
    rand::thread_rng().gen_range(0, high)
}

/// `rand::seq::IteratorRandom::choose` over the numbers below `count`, on
/// a generator made by `rand::SeedableRng::from_entropy`: one of these
/// numbers at random, and `None` if and only if there is none. Which one
/// is not said.
#[verifier::external_body]
pub(crate) fn choose_below(count: usize) -> (chosen: Option<usize>)
    ensures
        count == 0 <==> chosen is None,
        chosen matches Some(index) ==> index < count,
{
    (0..count).choose(&mut rand::rngs::StdRng::from_entropy())
}

} // verus!
