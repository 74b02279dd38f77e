//! Random bytes from the operating system.

use vstd::prelude::*;
use rand_core::{OsRng, RngCore};
use crate::bytes::{array_12, array_16, array_32};

verus! {

/// `rand_core::OsRng` filling a buffer of `n` bytes. Claimed of it: the buffer's length stays.
#[verifier::external_body]
pub(crate) fn random_bytes(n: usize) -> (bytes: Vec<u8>)
    ensures
        bytes@.len() == n,
{
    let mut bytes = vec![0u8; n];
    OsRng.fill_bytes(&mut bytes);
    bytes
}

/// Twelve random bytes, as the operating system gives them. Nothing holds of every outcome but
/// their number, which is the type's, so no clause says which bytes they are.
pub fn random_12() -> (bytes: [u8; 12]) {
    match array_12(random_bytes(12).as_slice()) {
        Some(bytes) => bytes,
        None => {
            assert(false);
            [0u8; 12]
        },
    }
}

/// Sixteen random bytes, as the operating system gives them. Nothing holds of every outcome but
/// their number, which is the type's, so no clause says which bytes they are.
pub fn random_16() -> (bytes: [u8; 16]) {
    match array_16(random_bytes(16).as_slice()) {
        Some(bytes) => bytes,
        None => {
            assert(false);
            [0u8; 16]
        },
    }
}

/// Thirty-two random bytes, as the operating system gives them. Nothing holds of every outcome
/// but their number, which is the type's, so no clause says which bytes they are.
pub fn random_32() -> (bytes: [u8; 32]) {
    match array_32(random_bytes(32).as_slice()) {
        Some(bytes) => bytes,
        None => {
            assert(false);
            [0u8; 32]
        },
    }
}

} // verus!
