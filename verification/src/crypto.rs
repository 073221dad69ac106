//! Password hashing and token generation, delegated to the argon2 crate.
//!
//! The relation between a stored digest and a password is modelled by the
//! uninterpreted `password_matches`: hashing promises that the fresh digest
//! matches the password it was derived from, and verification decides the
//! relation for any digest/password pair.

use vstd::prelude::*;

use argon2::password_hash::SaltString;
use argon2::{Argon2, PasswordHash, PasswordHasher, PasswordVerifier};
use rand_core::OsRng;

verus! {

/// What argon2's password verification returns for a stored digest and a
/// candidate password.  The digest encodes algorithm, parameters and salt,
/// so the outcome depends on the two arguments alone.
pub uninterp spec fn password_matches(digest: Seq<char>, password: Seq<char>) -> bool;

/// Relies on argon2's `Argon2::hash_password` with a freshly generated
/// random salt: the returned digest string verifies against the password it
/// was derived from.  Hashing with default parameters fails only for
/// passwords of 2^32 bytes or more; a character encodes to at most four
/// UTF-8 bytes, so bounding the characters below 2^30 keeps every admitted
/// password under that limit.
#[verifier::external_body]
pub(crate) fn hash_password(password: &str) -> (r: String)
    requires
        password@.len() < 0x4000_0000,
    ensures
        password_matches(r@, password@),
{
    let salt = SaltString::generate(&mut OsRng);
    Argon2::default()
        .hash_password(password.as_bytes(), &salt)
        .expect("argon2 with default parameters accepts any password")
        .to_string()
}

/// Relies on argon2's `Argon2::verify_password`: recomputes the hash from
/// the parameters and salt encoded in the digest and compares; the result is
/// a function of the digest and the password.  A digest that does not parse
/// as a PHC string matches no password.
#[verifier::external_body]
pub(crate) fn verify_password(digest: &str, password: &str) -> (r: bool)
    ensures
        r == password_matches(digest@, password@),
{
    match PasswordHash::new(digest) {
        Ok(parsed) => Argon2::default().verify_password(password.as_bytes(), &parsed).is_ok(),
        Err(_) => false,
    }
}

/// Relies on argon2's `SaltString::generate` over the operating system's
/// randomness: a fresh salt string, used here as an opaque bearer token.
/// Nothing is assumed about the value.
#[verifier::external_body]
pub(crate) fn generate_token() -> String {
    SaltString::generate(&mut OsRng).to_string()
}

} // verus!
