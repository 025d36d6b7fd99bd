//! The operating system's random number generator.

use vstd::prelude::*;

verus! {

#[verifier::external_type_specification]
#[verifier::external_body]
pub struct ExRandError(rand::Error);

/// Asks `rand::rngs::OsRng` for sixteen bytes, with `try_fill_bytes`.
///
/// Trusted: nothing but the type; what comes back differs from call to
/// call.
#[verifier::external_body]
pub(crate) fn os_random_block() -> (res: Result<[u8; 16], rand::Error>) {
    let mut block = [0u8; 16];
    rand::RngCore::try_fill_bytes(&mut rand::rngs::OsRng, &mut block).map(|_| block)
}

} // verus!
