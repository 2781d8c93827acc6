//! The source of randomness: the thread's generator of the `rand` crate.
//!
//! What comes out of it is never known in advance, so the contracts here say
//! only what holds of every outcome.

use rand::rngs::ThreadRng;
use rand::seq::IndexedRandom;
use vstd::prelude::*;

verus! {

/// `rand::rngs::ThreadRng`, a handle to the generator of a thread. Nothing of
/// what it holds is seen here.
#[verifier::external_type_specification]
#[verifier::external_body]
pub struct ExThreadRng(ThreadRng);

/// `rand::rng` hands out a handle to the generator of the calling thread.
/// Nothing is claimed of the handle. The call fails where the operating
/// system gives the thread no randomness to start from.
pub assume_specification[ rand::rng ]() -> (rng: ThreadRng)
;

/// `IndexedRandom::choose` on the slice of `items`: `None` where the slice is
/// empty, else a reference to one of its elements. Which one is not claimed.
#[verifier::external_body]
pub(crate) fn choose_one<'a, T>(items: &'a Vec<T>, rng: &mut ThreadRng) -> (r: Option<&'a T>)
    ensures
        items@.len() == 0 ==> r is None,
        items@.len() > 0 ==> r is Some && items@.contains(*r.unwrap()),
{
    items.choose(rng)
}

} // verus!
