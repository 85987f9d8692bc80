//! The password hasher: salted, memory-hard one-way hashing of secrets into
//! self-describing credential strings, and constant-time verification of a
//! secret against such a string.
//!
//! What the hash function computes is named, not written out:
//! `argon2_verifies(credential, secret)` says whether the credential string
//! parses and its embedded hash matches the secret under the embedded salt
//! and parameters. It is a function of the two strings alone.

use argon2::PasswordHasher;
use argon2::PasswordVerifier;
use vstd::prelude::*;

verus! {

/// Whether the credential string is well formed and its embedded hash
/// matches this secret (recomputed with the embedded salt and parameters).
/// Names the result of argon2's `PasswordVerifier::verify_password` combined
/// with `PasswordHash::new`: deterministic in the two strings alone.
pub uninterp spec fn argon2_verifies(credential: Seq<char>, secret: Seq<char>) -> bool;

/// Relies on argon2's `PasswordHash::new` (parse the self-describing
/// credential string; a malformed string yields `false`, never a panic) and
/// `Argon2::verify_password` (recompute the hash with the embedded salt and
/// parameters and compare in constant time). Deterministic in the two
/// strings, so its result is exactly `argon2_verifies`.
#[verifier::external_body]
pub fn verify_hash(password: String, hash: String) -> (r: bool)
    ensures
        r == argon2_verifies(hash@, password@),
{
    let argon2 = argon2::Argon2::default();
    match argon2::PasswordHash::new(hash.as_str()) {
        Ok(parsed) => argon2.verify_password(password.as_bytes(), &parsed).is_ok(),
        Err(_) => false,
    }
}

/// Relies on argon2's `SaltString::generate` (a fresh random salt from the
/// operating system's generator) and `Argon2::hash_password`, which returns a
/// self-describing credential string that `verify_password` accepts for the
/// same secret: that is all that is promised of the randomized result. The
/// length bound keeps the secret's byte form under argon2's input limit on
/// every outcome, so the call cannot fail.
#[verifier::external_body]
pub fn hash_password(password: String) -> (r: String)
    requires
        password@.len() <= 0x3FFFFFFF,
    ensures
        argon2_verifies(r@, password@),
        r@.len() > 0,
{
    let argon2 = argon2::Argon2::default();
    let salt = argon2::password_hash::SaltString::generate(&mut rand_core::OsRng);
    let hashed = argon2.hash_password(password.as_bytes(), &salt).unwrap();
    hashed.to_string()
}

} // verus!
