use vstd::prelude::*;

verus! {

/// Draws an integer uniformly from the closed range `[min, max]`.
///
/// Calls `fastrand::i32(min..=max)`. Its contract claims only that the draw
/// lies in `[min, max]`; fastrand panics on an empty range, which the
/// `requires` leaves out. Which value comes back depends on the thread's
/// random state and is not stated.
#[verifier::external_body]
pub fn random_i32_range(min: i32, max: i32) -> (r: i32)
    requires
        min <= max,
    ensures
        min <= r <= max,
{
    fastrand::i32(min..=max)
}

} // verus!
