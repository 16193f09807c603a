//! The credential gate: hashing the master password with Argon2 and checking
//! a password against a stored hash.

use argon2::password_hash::{PasswordHasher, PasswordVerifier};
use vstd::prelude::*;
use vstd::string::*;

verus! {

/// Why hashing or checking a password failed.
#[derive(Debug)]
pub struct SecurityError {
    pub message: String,
}

/// What checking a password against a hash gave.
#[derive(Debug)]
pub enum Verification {
    /// The password is the one that was hashed.
    Match,
    /// The password is another one.
    Mismatch,
    /// The hash could not be read or used; the text says why.
    Invalid(String),
}

/// A verification as plain values: whether the password matched, or why it
/// could not be checked.
pub open spec fn outcome_of(verification: Verification) -> Result<bool, Seq<char>> {
    match verification {
        Verification::Match => Ok(true),
        Verification::Mismatch => Ok(false),
        Verification::Invalid(reason) => Err(reason@),
    }
}

/// What Argon2 with its default parameters makes of checking `password`
/// against the hash string `hash`.
pub uninterp spec fn argon2_check(password: Seq<char>, hash: Seq<char>) -> Result<
    bool,
    Seq<char>,
>;

/// The hash string that Argon2 with its default parameters gives for
/// `password` and the salt `salt`, or the reason why it gives none.
pub uninterp spec fn argon2_phc(password: Seq<char>, salt: Seq<char>) -> Result<
    Seq<char>,
    Seq<char>,
>;

/// Calls `SaltString::generate` with the random numbers of the operating
/// system and hands the salt out as text. Nothing is claimed of it: each call
/// gives another salt.
#[verifier::external_body]
fn new_salt() -> (salt: String) {
    argon2::password_hash::SaltString::generate(&mut argon2::password_hash::rand_core::OsRng)
        .as_str().to_owned()
}

/// Calls `Argon2::hash_password` with the default parameters, on the salt
/// that `SaltString::from_b64` reads. The contract names the hash string it
/// gives, or the text of its error.
#[verifier::external_body]
fn argon2_hash(password: &str, salt: &str) -> (hash: Result<String, String>)
    ensures
        match hash {
            Ok(text) => argon2_phc(password@, salt@) == Ok::<Seq<char>, Seq<char>>(text@),
            Err(reason) => argon2_phc(password@, salt@) == Err::<Seq<char>, Seq<char>>(reason@),
        },
{
    let salt = match argon2::password_hash::SaltString::from_b64(salt) {
        Ok(salt) => salt,
        Err(error) => return Err(error.to_string()),
    };
    match argon2::Argon2::default().hash_password(password.as_bytes(), &salt) {
        Ok(hash) => Ok(hash.to_string()),
        Err(error) => Err(error.to_string()),
    }
}

/// Calls `Argon2::verify_password` with the default parameters, on the hash
/// that `PasswordHash::new` reads. The contract names what comes of it:
/// success is a match, the error `Password` a mismatch, any other error its
/// text.
#[verifier::external_body]
fn argon2_verify(password: &str, hash: &str) -> (verification: Verification)
    ensures
        outcome_of(verification) == argon2_check(password@, hash@),
{
    let parsed = match argon2::password_hash::PasswordHash::new(hash) {
        Ok(parsed) => parsed,
        Err(error) => return Verification::Invalid(error.to_string()),
    };
    match argon2::Argon2::default().verify_password(password.as_bytes(), &parsed) {
        Ok(()) => Verification::Match,
        Err(argon2::password_hash::Error::Password) => Verification::Mismatch,
        Err(error) => Verification::Invalid(error.to_string()),
    }
}

/// Whether `result` is what `outcome` says: the same value, or an error with
/// the same message.
pub open spec fn tells<T: View>(result: Result<T, SecurityError>, outcome: Result<T::V, Seq<char>>) -> bool {
    match outcome {
        Ok(value) => result matches Ok(got) && got@ == value,
        Err(reason) => result matches Err(error) && error.message@ == reason,
    }
}

/// The Argon2 hash string of `password` with the salt `salt`.
pub fn hash_password_with_salt(password: &str, salt: &str) -> (result: Result<
    String,
    SecurityError,
>)
    ensures
        tells(result, argon2_phc(password@, salt@)),
{
    match argon2_hash(password, salt) {
        Ok(hash) => Ok(hash),
        Err(message) => Err(SecurityError { message }),
    }
}

/// The Argon2 hash string of `password` with a fresh random salt.
pub fn hash_password(password: &str) -> (result: Result<String, SecurityError>)
    ensures
        exists|salt: Seq<char>| tells(result, #[trigger] argon2_phc(password@, salt)),
{
    let salt = new_salt();
    hash_password_with_salt(password, salt.as_str())
}

/// What a verification means for the caller: a match is `true`, a mismatch is
/// `false`, and a hash that cannot be used is an error.
pub fn verification_result(verification: Verification) -> (result: Result<bool, SecurityError>)
    ensures
        match verification {
            Verification::Match => result == Ok::<bool, SecurityError>(true),
            Verification::Mismatch => result == Ok::<bool, SecurityError>(false),
            Verification::Invalid(reason) => result == Err::<bool, SecurityError>(
                SecurityError { message: reason },
            ),
        },
{
    match verification {
        Verification::Match => Ok(true),
        Verification::Mismatch => Ok(false),
        Verification::Invalid(message) => Err(SecurityError { message }),
    }
}

/// Whether `password` is the one that `hash` was made of. A hash that cannot
/// be read is an error, not a mismatch.
pub fn verify_password(password: &str, hash: &str) -> (result: Result<bool, SecurityError>)
    ensures
        match argon2_check(password@, hash@) {
            Ok(matched) => result matches Ok(got) && got == matched,
            Err(reason) => result matches Err(error) && error.message@ == reason,
        },
{
    verification_result(argon2_verify(password, hash))
}

} // verus!
