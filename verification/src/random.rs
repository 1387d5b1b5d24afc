use vstd::prelude::*;

verus! {

/// Fills an array with bytes from `rand::thread_rng()` through `RngCore::fill_bytes`.
///
/// Trusted: nothing is promised of the bytes, which come from the operating
/// system's generator; two calls may return different arrays.
#[verifier::external_body]
pub(crate) fn random_array<const N: usize>() -> (r: [u8; N]) {
    let mut data = [0u8; N];
    rand::RngCore::fill_bytes(&mut rand::thread_rng(), &mut data);
    data
}

/// Draws a number from `rand::thread_rng()` through `RngCore::next_u64`.
///
/// Trusted: nothing is promised of the number.
#[verifier::external_body]
pub(crate) fn random_u64() -> (r: u64) {
    rand::RngCore::next_u64(&mut rand::thread_rng())
}

} // verus!
