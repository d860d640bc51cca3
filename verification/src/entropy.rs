//! Random bytes from the operating system, through the `getrandom` crate.
use vstd::prelude::*;

verus! {

#[verifier::external_type_specification]
#[verifier::external_body]
pub struct ExRandomError(getrandom::Error);

/// Calls `getrandom::getrandom` on the ten bytes of `buf`.
///
/// On success the crate fills all of `buf` with random bytes; which bytes is
/// left unsaid, as it rests on chance. Nothing is claimed of `buf` after an
/// error either.
#[verifier::external_body]
pub(crate) fn fill_random(buf: &mut [u8; 10]) -> Result<(), getrandom::Error> {
    getrandom::getrandom(buf)
}

} // verus!
