use vstd::prelude::*;

use crate::error::DatabaseError;
use crate::password::{argon2_accepts, verify_password};
use crate::user::User;

verus! {

/// A sign-in form as submitted.
pub struct LoginForm {
    pub email: String,
    pub password: String,
}

/// A registration form as submitted.
pub struct RegisterForm {
    pub email: String,
    pub password: String,
    pub password_confirm: String,
}

/// The answer to a sign-in attempt.
#[derive(Debug, Clone, Copy, PartialEq, Eq)]
pub enum LoginOutcome {
    /// The password is right: record this id in the session.
    SignIn(i32),
    /// No such account, or the wrong password; the two are not told apart.
    InvalidCredentials,
    /// The store or the cache failed.
    Unavailable,
}

/// The message shown for a refused sign-in.
pub const INVALID_CREDENTIALS: &'static str = "Invalid mail or password";

/// The detail given when an address is registered already.
pub const ACCOUNT_EXISTS: &'static str = "An account already exists with that mail";

/// Decides a sign-in from the lookup of the submitted address and the
/// submitted password.
pub fn login_outcome(lookup: Result<User, DatabaseError>, password: &String) -> (r: LoginOutcome)
    ensures
        match lookup {
            Ok(u) => if argon2_accepts(password@, u.hashed_password@) {
                r == LoginOutcome::SignIn(u.id)
            } else {
                r == LoginOutcome::InvalidCredentials
            },
            Err(DatabaseError::NotFound) => r == LoginOutcome::InvalidCredentials,
            Err(_) => r == LoginOutcome::Unavailable,
        },
{
    match lookup {
        Ok(u) => {
            if verify_password(password, &u.hashed_password) {
                LoginOutcome::SignIn(u.id)
            } else {
                LoginOutcome::InvalidCredentials
            }
        },
        Err(DatabaseError::NotFound) => LoginOutcome::InvalidCredentials,
        Err(_) => LoginOutcome::Unavailable,
    }
}

/// Whether the two passwords of a registration form agree.
pub fn passwords_match(form: &RegisterForm) -> (r: bool)
    ensures
        r == (form.password@ == form.password_confirm@),
{
    form.password == form.password_confirm
}

/// Decides, from the lookup of the submitted address, whether a registration
/// goes on to create the account: only when no account has that address.
pub fn registration_check(existing: Result<User, DatabaseError>) -> (r: Result<(), DatabaseError>)
    ensures
        existing is Ok ==> (r matches Err(DatabaseError::UserAlreadyExists(m)) && m@
            == ACCOUNT_EXISTS@),
        existing == Err::<User, DatabaseError>(DatabaseError::NotFound) ==> r is Ok,
        existing matches Err(e) ==> (e != DatabaseError::NotFound ==> r == Err::<(), DatabaseError>(e)),
{
    match existing {
        Ok(_) => Err(DatabaseError::UserAlreadyExists(String::from_str(ACCOUNT_EXISTS))),
        Err(DatabaseError::NotFound) => Ok(()),
        Err(e) => Err(e),
    }
}

} // verus!
