use vstd::prelude::*;
use argon2::password_hash::{PasswordHash, PasswordHasher, PasswordVerifier, SaltString};
use argon2::Argon2;
use rand::distributions::{Alphanumeric, DistString};
use rand::rngs::OsRng;

verus! {

/// Longest password, in chars, that the hasher always accepts.
pub const MAX_PASSWORD_CHARS: usize = 0x3FFF_FFFF;

/// Whether Argon2 accepts `password` against the PHC string `hash`, under
/// the algorithm, version, parameters and salt that the string carries.
/// Malformed hashes are not accepted.
pub uninterp spec fn password_matches(password: Seq<char>, hash: Seq<char>) -> bool;

/// Relies on `SaltString::generate` (password-hash) with `OsRng`, then
/// `Argon2::hash_password` (argon2): hashes `password` under a fresh random
/// salt and returns the PHC string. That string verifies against the same
/// password under `PasswordVerifier::verify_password`, which recomputes the
/// hash from the salt and parameters the string carries. It fails only on a
/// password over `u32::MAX` bytes; a char takes at most four bytes in UTF-8.
#[verifier::external_body]
pub(crate) fn hash_password(password: &str) -> (r: Option<String>)
    ensures
        r matches Some(h) ==> password_matches(password@, h@),
        password@.len() <= MAX_PASSWORD_CHARS ==> r is Some,
{
    let salt = SaltString::generate(&mut OsRng);
    Argon2::default().hash_password(password.as_bytes(), &salt).ok().map(|h| h.to_string())
}

/// Relies on `PasswordHash::new` and `PasswordVerifier::verify_password`
/// (password-hash, implemented by argon2): checks `password` against the PHC
/// string `hash`; a hash that does not parse is a failed check.
#[verifier::external_body]
pub(crate) fn verify_password(password: &str, hash: &str) -> (r: bool)
    ensures
        r == password_matches(password@, hash@),
{
    match PasswordHash::new(hash) {
        Ok(parsed) => Argon2::default().verify_password(password.as_bytes(), &parsed).is_ok(),
        Err(_) => false,
    }
}

/// An ASCII letter or digit.
pub open spec fn is_ascii_alphanumeric(c: char) -> bool {
    ('0' <= c && c <= '9') || ('a' <= c && c <= 'z') || ('A' <= c && c <= 'Z')
}

/// Relies on `DistString::sample_string` for `Alphanumeric` (rand) with
/// `OsRng`: `len` random ASCII letters and digits.
#[verifier::external_body]
pub(crate) fn random_token(len: usize) -> (r: String)
    ensures
        r@.len() == len,
        forall|i: int| 0 <= i < r@.len() ==> is_ascii_alphanumeric(#[trigger] r@[i]),
{
    Alphanumeric.sample_string(&mut OsRng, len)
}

} // verus!
