//! The operating system random number generator.

use getrandom::Error as OsRngError;
use vstd::prelude::*;



verus! {

#[verifier::external_type_specification]
#[verifier::external_body]
pub struct ExOsRngError(OsRngError);

/// `getrandom::fill`: overwrites `bytes` with output of the operating system
/// generator, or reports that it could not. Only the length of `bytes` is
/// claimed to stay the same; what is written depends on chance, so nothing is
/// said of the bytes themselves, nor of when the call fails.
#[verifier::external_body]
pub(crate) fn os_fill(bytes: &mut [u8]) -> (result: Result<(), OsRngError>)
    ensures
        final(bytes)@.len() == old(bytes)@.len(),
{
    getrandom::fill(bytes)
}

/// `N` bytes from the operating system generator, or why there are none.
pub(crate) fn random_array<const N: usize>() -> (result: Result<[u8; N], OsRngError>)
    ensures
        result matches Ok(bytes) ==> bytes@.len() == N,
{
    let mut bytes = [0u8; N];
    match os_fill(&mut bytes) {
        Ok(()) => Ok(bytes),
        Err(error) => Err(error),
    }
}

/// Fills `bytes` from the operating system generator.
pub(crate) fn fill(bytes: &mut [u8]) -> (result: Result<(), crate::crypto::Error>)
    ensures
        final(bytes)@.len() == old(bytes)@.len(),
        result is Err ==> result == Err::<(), crate::crypto::Error>(crate::crypto::Error::Rng),
{
    match os_fill(bytes) {
        Ok(()) => Ok(()),
        Err(_) => Err(crate::crypto::Error::Rng),
    }
}

} // verus!
