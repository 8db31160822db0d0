//! Password credentials: derivation and verification of salted, memory-hard
//! password hashes through the Argon2 algorithm with its default parameters.

use argon2::PasswordHasher;
use argon2::PasswordVerifier;
use crate::errors::MyError;
use vstd::prelude::*;
use vstd::utf8::encode_utf8;

verus! {

/// Whether Argon2 verification accepts `password` against the encoded hash
/// text `encoded`: algorithm, parameters and salt are read out of `encoded`,
/// the digest is recomputed from `password` with them, and compared with the
/// stored digest in constant time. A function of the two arguments alone.
pub uninterp spec fn argon2_matches(password: Seq<u8>, encoded: Seq<char>) -> bool;

/// Relies on argon2's `Argon2::default().hash_password`: it draws a fresh
/// sixteen-byte random salt, hashes the password with the default parameters,
/// and returns the PHC-encoded text. Verification recomputes the digest from
/// the same salt and parameters it finds in that text, so the text verifies
/// against the same password. The call fails only when the entropy source
/// fails or the password is longer than Argon2 accepts.
#[verifier::external_body]
fn argon2_hash(password: &[u8]) -> (r: Option<String>)
    ensures
        r is Some ==> argon2_matches(password@, r->0@),
{
    match argon2::Argon2::default().hash_password(password) {
        Ok(h) => Some(h.to_string()),
        Err(_) => None,
    }
}

/// Relies on argon2's `Argon2::default().verify_password` for hash text: it
/// parses the PHC text, recomputes the digest from the password, and
/// compares in constant time; any parse failure or digest mismatch is a
/// rejection.
#[verifier::external_body]
fn argon2_verify(password: &[u8], encoded: &str) -> (ok: bool)
    ensures
        ok == argon2_matches(password@, encoded@),
{
    argon2::Argon2::default().verify_password(password, encoded).is_ok()
}

/// Derive a salted hash of `password`, encoded with its algorithm,
/// parameters and salt; every hash this returns verifies against
/// `password`, and an error means only that the entropy source failed.
pub fn hash_password(password: &String) -> (r: Result<String, MyError>)
    ensures
        r is Ok ==> argon2_matches(encode_utf8(password@), r->Ok_0@),
        r is Err ==> r == Err::<String, MyError>(MyError::ArgonError),
{
    match argon2_hash(password.as_str().as_bytes()) {
        Some(h) => Ok(h),
        None => Err(MyError::ArgonError),
    }
}

/// Check `password` against a stored hash text: success exactly when the
/// recomputed digest matches the stored one; a malformed stored text and a
/// wrong password are alike a verification failure.
pub fn check_password(password: &String, hash_str: &String) -> (r: Result<(), MyError>)
    ensures
        r is Ok <==> argon2_matches(encode_utf8(password@), hash_str@),
        r is Err ==> r == Err::<(), MyError>(MyError::ArgonError),
{
    if argon2_verify(password.as_str().as_bytes(), hash_str.as_str()) {
        Ok(())
    } else {
        Err(MyError::ArgonError)
    }
}

} // verus!
