//! The one door through which chance comes in.

use vstd::prelude::*;
use rand::RngCore;

verus! {

/// Draws a word with `RngCore::next_u64` from the generator of the
/// thread, `rand::thread_rng`, which the system seeds. The word differs
/// from call to call: nothing is claimed of it.
#[verifier::external_body]
pub(crate) fn fresh_word() -> u64 {
    rand::thread_rng().next_u64()
}

} // verus!
