//! Salted, memory-hard hashing of secrets with Argon2, used alike for account
//! passwords and for refresh credentials at rest.
use vstd::prelude::*;
use crate::error::AccountError;

verus! {

/// Whether argon2's `PasswordHash::new` accepts `record` as a PHC string.
pub uninterp spec fn phc_parses(record: Seq<char>) -> bool;

/// Whether argon2's `verify_password` (with `Argon2::default()`) accepts
/// `secret` against the PHC string `record`.
pub uninterp spec fn argon2_accepts(secret: Seq<u8>, record: Seq<char>) -> bool;

#[verifier::external_type_specification]
#[verifier::external_body]
pub struct ExPasswordHashError(argon2::password_hash::Error);

#[verifier::external_type_specification]
#[verifier::external_body]
pub struct ExRandError(rand_core::Error);

/// Relies on rand_core's `OsRng::try_fill_bytes`: `N` bytes from the
/// operating system's secure random source, or its error.
#[verifier::external_body]
pub(crate) fn os_random<const N: usize>() -> (r: Result<[u8; N], rand_core::Error>) {
    let mut bytes = [0u8; N];
    match rand_core::RngCore::try_fill_bytes(&mut rand_core::OsRng, &mut bytes) {
        Ok(()) => Ok(bytes),
        Err(e) => Err(e),
    }
}

/// Relies on argon2's `Argon2::default().hash_password`, with the salt made by
/// `SaltString::encode_b64`: it fails only for a secret longer than
/// `u32::MAX` bytes (a 16-byte salt is within bounds); the PHC string it gives
/// parses, and `verify_password` accepts `secret` against it, since verifying
/// hashes the secret again under the parameters and salt that the string records.
#[verifier::external_body]
fn argon2_hash(secret: &[u8], salt: &[u8; 16]) -> (r: Result<String, argon2::password_hash::Error>)
    ensures
        secret@.len() <= 0xffff_ffff ==> r is Ok,
        r matches Ok(h) ==> phc_parses(h@) && argon2_accepts(secret@, h@),
{
    let salt = argon2::password_hash::SaltString::encode_b64(salt)?;
    let hash = argon2::PasswordHasher::hash_password(&argon2::Argon2::default(), secret, &salt)?;
    Ok(hash.to_string())
}

/// Relies on argon2's `PasswordHash::new`: whether `record` is a well-formed
/// PHC string.
#[verifier::external_body]
fn phc_check(record: &str) -> (r: Result<(), argon2::password_hash::Error>)
    ensures
        r is Ok <==> phc_parses(record@),
{
    argon2::PasswordHash::new(record).map(|_| ())
}

/// Relies on argon2's `verify_password` with `Argon2::default()`, on the
/// record parsed by `PasswordHash::new`: the outcome depends on the secret and
/// the record alone.
#[verifier::external_body]
fn argon2_verify(secret: &[u8], record: &str) -> (r: Result<(), argon2::password_hash::Error>)
    ensures
        r is Ok <==> argon2_accepts(secret@, record@),
{
    let parsed = argon2::PasswordHash::new(record)?;
    argon2::PasswordVerifier::verify_password(&argon2::Argon2::default(), secret, &parsed)
}

/// Hashes `secret` under a fresh random salt into a self-describing PHC
/// string, which `verify_secret` accepts `secret` against.
pub fn hash_secret(secret: &[u8]) -> (r: Result<String, AccountError>)
    ensures
        r matches Ok(h) ==> phc_parses(h@) && argon2_accepts(secret@, h@),
        r matches Err(e) ==> e is Hashing,
{
    let salt: [u8; 16] = match os_random() {
        Ok(s) => s,
        Err(_) => {
            return Err(AccountError::Hashing("no random salt available".to_owned()));
        },
    };
    match argon2_hash(secret, &salt) {
        Ok(h) => Ok(h),
        Err(_) => Err(AccountError::Hashing("failed to hash secret".to_owned())),
    }
}

/// Checks `secret` against the stored `record`. A malformed record is a
/// `Hashing` error; a mismatch is `Ok(false)`.
pub fn verify_secret(secret: &[u8], record: &str) -> (r: Result<bool, AccountError>)
    ensures
        r is Ok <==> phc_parses(record@),
        r matches Ok(ok) ==> ok == argon2_accepts(secret@, record@),
        r matches Err(e) ==> e is Hashing,
{
    match phc_check(record) {
        Ok(()) => {},
        Err(_) => {
            return Err(AccountError::Hashing("failed to parse stored hash".to_owned()));
        },
    }
    match argon2_verify(secret, record) {
        Ok(()) => Ok(true),
        Err(_) => Ok(false),
    }
}

} // verus!
