//! Random bytes of the system.

use vstd::prelude::*;

verus! {

/// `getrandom::Error`: why there are no random bytes to be had.
#[verifier::external_type_specification]
#[verifier::external_body]
pub struct ExError(getrandom::Error);

/// Calls `getrandom::getrandom`. Claims that the buffer keeps its length, and
/// that an empty one is filled at once; whether another can be filled, and
/// with what, is up to the system.
#[verifier::external_body]
pub(crate) fn system_random(out: &mut [u8]) -> (filled: Result<(), getrandom::Error>)
    ensures
        final(out)@.len() == old(out)@.len(),
        old(out)@.len() == 0 ==> filled is Ok,
{
    getrandom::getrandom(out)
}

} // verus!
