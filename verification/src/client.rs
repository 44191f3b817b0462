//! Client-side helpers of the SDK.
use vstd::prelude::*;

use rand::rngs::ThreadRng;
use rand::RngExt;

verus! {

/// The thread-local generator of the `rand` crate.
#[verifier::external_type_specification]
#[verifier::external_body]
pub struct ExThreadRng(ThreadRng);

/// Calls `rand::rng`, which hands out the thread-local generator. It seeds the
/// generator from the operating system the first time, and panics if that
/// seeding fails; nothing is stated of the generator.
#[verifier::external_body]
fn thread_rng() -> ThreadRng {
    rand::rng()
}

/// Calls `RngExt::random_range` on the range `0..len`, which panics when the
/// range is empty; the result is some index below `len`, chosen at random.
#[verifier::external_body]
fn random_index(rng: &mut ThreadRng, len: usize) -> (index: usize)
    requires
        len > 0,
    ensures
        index < len,
{
    rng.random_range(0..len)
}

/// One of the values, chosen at random; the list must not be empty.
pub fn get_random_value<T: Copy>(values: &[T]) -> (value: T)
    requires
        values@.len() > 0,
    ensures
        exists|i: int| 0 <= i < values@.len() && value == values@[i],
{
    let mut rng = thread_rng();
    let index = random_index(&mut rng, values.len());
    values[index]
}

} // verus!
