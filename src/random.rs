//! Random choices made by the library.

use rand::Rng;
use vstd::prelude::*;

verus! {

/// Relies on `rand::Rng::gen_range` over an inclusive `i32` range drawn from
/// `rand::thread_rng()`: the value lies in the range; it panics on an empty one.
#[verifier::external_body]
pub fn random_int(t_min: i32, t_max: i32) -> (r: i32)
    requires
        t_min <= t_max,
    ensures
        t_min <= r <= t_max,
{
    rand::thread_rng().gen_range(t_min..=t_max)
}

} // verus!
