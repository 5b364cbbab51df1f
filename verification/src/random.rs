//! Randomness for recipient nonces, blinded seals and key material.
use vstd::prelude::*;

use crate::endpoint::NONCE_LEN;

verus! {

/// Sixteen random bytes from `rand::random`, which draws them from the thread-local generator
/// seeded by the operating system (and panics only if the operating system gives no
/// randomness). Nothing is claimed of the bytes but their number.
#[verifier::external_body]
pub(crate) fn random_bytes() -> (res: Vec<u8>)
    ensures
        res@.len() == NONCE_LEN,
{
    rand::random::<[u8; 16]>().to_vec()
}

/// The number that the first eight bytes of `b` stand for, least significant first.
pub(crate) open spec fn le_u64(b: Seq<u8>) -> int {
    b[0] + 256 * (b[1] + 256 * (b[2] + 256 * (b[3] + 256 * (b[4] + 256 * (b[5] + 256 * (b[6]
        + 256 * b[7]))))))
}

/// A `u64` made of the first eight bytes of `b`, least significant first.
pub(crate) fn u64_from_bytes(b: &Vec<u8>) -> (res: u64)
    requires
        b@.len() >= 8,
    ensures
        res == le_u64(b@),
{
    let v: u64 = b[7] as u64;
    let v: u64 = b[6] as u64 + 256 * v;
    let v: u64 = b[5] as u64 + 256 * v;
    let v: u64 = b[4] as u64 + 256 * v;
    let v: u64 = b[3] as u64 + 256 * v;
    let v: u64 = b[2] as u64 + 256 * v;
    let v: u64 = b[1] as u64 + 256 * v;
    b[0] as u64 + 256 * v
}

} // verus!
