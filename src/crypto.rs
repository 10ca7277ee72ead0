//! Password key derivation and random bytes, from `ring`.

use ring::rand::SecureRandom;
use vstd::prelude::*;

verus! {

/// Inputs of at most this many bytes stay far below the input limit of
/// ring's HMAC-SHA256, past which key derivation panics.
pub const SECRET_MAX_LEN: u64 = 0x1000_0000_0000_0000;

/// Length in bytes of a derived password key.
pub const PASSWORD_KEY_LEN: usize = 32;

/// Length in bytes of the random part of a salt.
pub const SALT_BYTES_LEN: usize = 12;

/// The 32-byte PBKDF2-HMAC-SHA256 key of `secret` under `salt` with
/// `iterations` rounds.
pub uninterp spec fn pbkdf2_sha256_key(iterations: nat, salt: Seq<u8>, secret: Seq<u8>) -> Seq<u8>;

/// Relies on ring::pbkdf2::derive with PBKDF2_HMAC_SHA256: it fills a
/// 32-byte buffer with the derived key (one block, so no output limit
/// applies).
#[verifier::external_body]
pub(crate) fn pbkdf2_derive(iterations: u32, salt: &[u8], secret: &[u8]) -> (r: Vec<u8>)
    requires
        iterations > 0,
        salt@.len() < SECRET_MAX_LEN,
        secret@.len() < SECRET_MAX_LEN,
    ensures
        r@ == pbkdf2_sha256_key(iterations as nat, salt@, secret@),
        r@.len() == PASSWORD_KEY_LEN,
{
    let mut out = vec![0u8; PASSWORD_KEY_LEN];
    let iterations = core::num::NonZeroU32::new(iterations).unwrap();
    ring::pbkdf2::derive(ring::pbkdf2::PBKDF2_HMAC_SHA256, iterations, salt, secret, &mut out);
    out
}

/// Relies on ring::pbkdf2::verify with PBKDF2_HMAC_SHA256: for a 32-byte
/// `previously_derived` it derives one block and compares it in constant
/// time, succeeding exactly when the two are equal.
#[verifier::external_body]
pub(crate) fn pbkdf2_verify(iterations: u32, salt: &[u8], secret: &[u8], previously_derived: &[u8]) -> (r: bool)
    requires
        iterations > 0,
        salt@.len() < SECRET_MAX_LEN,
        secret@.len() < SECRET_MAX_LEN,
    ensures
        previously_derived@.len() == PASSWORD_KEY_LEN ==> (r <==> pbkdf2_sha256_key(
            iterations as nat,
            salt@,
            secret@,
        ) == previously_derived@),
{
    let iterations = core::num::NonZeroU32::new(iterations).unwrap();
    ring::pbkdf2::verify(ring::pbkdf2::PBKDF2_HMAC_SHA256, iterations, salt, secret, previously_derived)
        .is_ok()
}

/// Relies on ring::rand::SystemRandom::fill: on success the buffer of `len`
/// bytes holds fresh random bytes, of which nothing is known; a failure of
/// the system source is reported as an error, not a panic.
#[verifier::external_body]
pub(crate) fn random_bytes(len: usize) -> (r: Option<Vec<u8>>)
    ensures
        r matches Some(s) ==> s@.len() == len,
{
    let mut out = vec![0u8; len];
    match ring::rand::SystemRandom::new().fill(&mut out) {
        Ok(()) => Some(out),
        Err(_) => None,
    }
}

} // verus!
