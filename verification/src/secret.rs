//! Wiping secret intermediate buffers.

use vstd::prelude::*;

verus! {

/// Overwrite every lane of a Keccak state with zero.
///
/// Calls `zeroize::Zeroize::zeroize` on the array, which writes the
/// default value (zero) into each element with volatile stores.
#[verifier::external_body]
pub(crate) fn wipe_lanes(state: &mut [u64; 25])
    ensures
        final(state)@ == Seq::new(25, |i: int| 0u64),
{
    zeroize::Zeroize::zeroize(state);
}

/// Overwrite every byte of a fixed-size buffer with zero.
///
/// Calls `zeroize::Zeroize::zeroize` on the array, which writes zero into
/// each element with volatile stores.
#[verifier::external_body]
pub(crate) fn wipe_array<const N: usize>(buffer: &mut [u8; N])
    ensures
        final(buffer)@ == Seq::new(N as nat, |i: int| 0u8),
{
    zeroize::Zeroize::zeroize(buffer);
}

/// Overwrite the contents of a byte vector and empty it.
///
/// Calls `zeroize::Zeroize::zeroize` on the vector, which zeroes its
/// elements and spare capacity and then clears it.
#[verifier::external_body]
pub(crate) fn wipe_vec(buffer: &mut Vec<u8>)
    ensures
        final(buffer)@.len() == 0,
{
    zeroize::Zeroize::zeroize(buffer);
}

/// Overwrite the contents of a bit vector and empty it.
///
/// Calls `zeroize::Zeroize::zeroize` on the vector, which sets its elements
/// and spare capacity to `false` and then clears it.
#[verifier::external_body]
pub(crate) fn wipe_bits(buffer: &mut Vec<bool>)
    ensures
        final(buffer)@.len() == 0,
{
    zeroize::Zeroize::zeroize(buffer);
}

} // verus!
