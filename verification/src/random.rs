use rand::rngs::ThreadRng;
use rand::Rng;
use vstd::prelude::*;

verus! {

/// `rand::rngs::ThreadRng`: the handle to a thread's generator. It is carried
/// from where it is made to where numbers are drawn; nothing is known of what
/// it holds.
#[verifier::external_type_specification]
#[verifier::external_body]
pub struct ExThreadRng(ThreadRng);

/// `rand::thread_rng`: a handle to the calling thread's generator, which the
/// operating system seeds. Nothing is claimed of the handle; the call fails
/// only if the system cannot supply a seed.
pub assume_specification[ rand::thread_rng ]() -> (rng: ThreadRng)
;

/// `Rng::gen_range` on the half-open range `low..high`. The draw lies in the
/// range; which value comes out is not stated, and two calls may differ. The
/// outside function panics on an empty range, so `low < high` is asked for.
#[verifier::external_body]
pub(crate) fn random_index(rng: &mut ThreadRng, low: usize, high: usize) -> (drawn: usize)
    requires
        low < high,
    ensures
        low <= drawn < high,
{
    rng.gen_range(low..high)
}

} // verus!
