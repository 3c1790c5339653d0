//! Account data types and the validation a signup form must pass before any
//! credentials are stored. Password hashing and persistence stay with the
//! caller; the acceptance decision is made here.

use vstd::prelude::*;

use crate::AppError;

verus! {

/// A login request.
#[derive(Debug, Clone)]
pub struct UserLogin {
    pub username: String,
    pub password: String,
}

/// A signup form.
#[derive(Debug, Clone)]
pub struct UserSignup {
    pub display_name: String,
    pub username: String,
    pub password: String,
    pub email: String,
}

/// A bearer token as the clients store and send it.
#[derive(Debug, Clone)]
pub struct AuthToken(pub String);

impl AuthToken {
    pub fn as_str(&self) -> (r: &str)
        ensures
            r@ == self.0@,
    {
        self.0.as_str()
    }
}

/// The identity a verified token asserts.
#[derive(Debug, Clone)]
pub struct UserAuth {
    pub username: String,
    pub id: i32,
    pub is_superuser: bool,
}

/// A user's public profile data.
#[derive(Debug, Clone)]
pub struct UserInfo {
    pub display_name: String,
}

/// An administrative password reset request.
#[derive(Debug, Clone)]
pub struct AdminResetPassword {
    pub username: String,
    pub password: String,
}

/// Whether the text is a well-formed email address; a function of the text
/// alone.
pub uninterp spec fn email_is_valid(s: Seq<char>) -> bool;

/// Relies on email_address's `EmailAddress::is_valid`: it parses the text
/// against the address grammar and depends on nothing but the text.
#[verifier::external_body]
fn check_email(s: &str) -> (r: bool)
    ensures
        r == email_is_valid(s@),
{
    email_address::EmailAddress::is_valid(s)
}

/// A signup form is accepted when its email address is well formed and none
/// of the other fields is empty.
pub open spec fn spec_signup_valid(data: UserSignup) -> bool {
    &&& email_is_valid(data.email@)
    &&& data.display_name@.len() > 0
    &&& data.username@.len() > 0
    &&& data.password@.len() > 0
}

/// The acceptance check a signup runs before any credential is derived or
/// stored: a rejected form fails with a validation error and exactly the
/// well-formed forms pass.
pub fn validate_signup(data: &UserSignup) -> (r: Result<(), AppError>)
    ensures
        r is Ok <==> spec_signup_valid(*data),
        r is Err ==> r->Err_0 == AppError::ValidationError,
{
    if !check_email(data.email.as_str()) || data.display_name.as_str().is_empty()
        || data.username.as_str().is_empty() || data.password.as_str().is_empty() {
        Result::Err(AppError::ValidationError)
    } else {
        Result::Ok(())
    }
}

} // verus!
