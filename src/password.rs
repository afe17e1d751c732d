use argon2::password_hash::rand_core::OsRng;
use argon2::password_hash::{PasswordHash, PasswordHasher, PasswordVerifier, SaltString};
use argon2::Argon2;
use vstd::prelude::*;

use crate::error::DatabaseError;

verus! {

/// Whether Argon2 with default parameters, run on `password` with the salt,
/// version and parameters that the PHC string `phc` carries, reproduces the
/// digest that `phc` carries.
pub uninterp spec fn argon2_accepts(password: Seq<char>, phc: Seq<char>) -> bool;

/// Whether `PasswordHash::new` parses `phc` as a PHC string.
pub uninterp spec fn phc_parses(phc: Seq<char>) -> bool;

/// The start of every hash made with Argon2's default settings: the
/// algorithm, its version and the memory, time and parallelism costs.
pub open spec fn default_phc_prefix() -> Seq<char> {
    "$argon2id$v=19$m=19456,t=2,p=1$"@
}

/// Whether `h` begins with `default_phc_prefix()` and goes on past it.
pub open spec fn has_default_phc_prefix(h: Seq<char>) -> bool {
    h.len() > default_phc_prefix().len() && h.subrange(0, default_phc_prefix().len() as int)
        == default_phc_prefix()
}

/// The longest password, in characters, that Argon2 is sure to take: its
/// UTF-8 form then stays under Argon2's limit of `u32::MAX` bytes.
pub const MAX_PASSWORD_CHARS: usize = 0x3FFF_FFFF;

/// Relies on `SaltString::generate` and `Argon2::hash_password` (argon2 0.5):
/// a fresh random 16-byte salt, then a PHC string
/// `$argon2id$v=19$m=19456,t=2,p=1$<salt>$<digest>` that records salt,
/// version and parameters, so that `PasswordVerifier::verify_password`
/// recomputes the same digest from it for the same password. With the
/// default parameters and such a salt the only refusal is a password over
/// `u32::MAX` bytes (a failing random source panics instead of returning).
#[verifier::external_body]
fn argon2_hash(password: &str) -> (r: Result<String, String>)
    ensures
        password@.len() <= MAX_PASSWORD_CHARS ==> r is Ok,
        r matches Ok(h) ==> argon2_accepts(password@, h@) && has_default_phc_prefix(h@),
{
    let salt = SaltString::generate(&mut OsRng);
    match Argon2::default().hash_password(password.as_bytes(), &salt) {
        Ok(h) => Ok(h.to_string()),
        Err(e) => Err(e.to_string()),
    }
}

/// Relies on `PasswordHash::new` and `PasswordVerifier::verify_password`
/// (password-hash 0.5): `Ok(true)` exactly when the digest is reproduced,
/// `Ok(false)` on `Error::Password` (a well-formed hash of another password),
/// and the error's text for a hash that does not parse (or whose algorithm
/// or parameters Argon2 refuses).
#[verifier::external_body]
fn argon2_check(password: &str, phc: &str) -> (r: Result<bool, String>)
    ensures
        (r == Ok::<bool, String>(true)) <==> argon2_accepts(password@, phc@),
        !phc_parses(phc@) ==> r is Err,
        r is Ok ==> phc_parses(phc@),
{
    match PasswordHash::new(phc) {
        Ok(parsed) => match Argon2::default().verify_password(password.as_bytes(), &parsed) {
            Ok(()) => Ok(true),
            Err(argon2::password_hash::Error::Password) => Ok(false),
            Err(e) => Err(e.to_string()),
        },
        Err(e) => Err(e.to_string()),
    }
}

/// Hashes `password` under a fresh random salt into a self-describing PHC
/// string. Every hash it returns verifies against the same password, and
/// hashing succeeds for every password Argon2 can take.
pub fn hash_password(password: &String) -> (r: Result<String, DatabaseError>)
    ensures
        password@.len() <= MAX_PASSWORD_CHARS ==> r is Ok,
        r matches Ok(h) ==> argon2_accepts(password@, h@) && has_default_phc_prefix(h@),
        r matches Err(e) ==> e is Argon2Error,
{
    match argon2_hash(password.as_str()) {
        Ok(h) => Ok(h),
        Err(msg) => Err(DatabaseError::Argon2Error(msg)),
    }
}

/// Checks `password` against a stored PHC string, telling a hash that does
/// not parse (`MalformedHash`) apart from a hash of another password
/// (`Ok(false)`).
pub fn check_password(password: &String, hash: &String) -> (r: Result<bool, DatabaseError>)
    ensures
        (r == Ok::<bool, DatabaseError>(true)) <==> argon2_accepts(password@, hash@),
        !phc_parses(hash@) ==> (r matches Err(e) && e is MalformedHash),
        r is Ok ==> phc_parses(hash@),
        r matches Err(e) ==> e is MalformedHash,
{
    match argon2_check(password.as_str(), hash.as_str()) {
        Ok(b) => Ok(b),
        Err(msg) => Err(DatabaseError::MalformedHash(msg)),
    }
}

/// Whether `password` is the one that `hash` was made from. A hash that does
/// not parse yields `false`, never an error.
pub fn verify_password(password: &String, hash: &String) -> (r: bool)
    ensures
        r == argon2_accepts(password@, hash@),
{
    match check_password(password, hash) {
        Ok(b) => b,
        Err(_) => false,
    }
}

} // verus!
