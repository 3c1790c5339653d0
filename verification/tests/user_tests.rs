use gt_core::user::validate_signup;
use gt_core::user::UserSignup;
use gt_core::AppError;

fn signup(display_name: &str, username: &str, password: &str, email: &str) -> UserSignup {
    UserSignup {
        display_name: display_name.to_string(),
        username: username.to_string(),
        password: password.to_string(),
        email: email.to_string(),
    }
}

#[test]
fn well_formed_signup_is_accepted() {
    let data = signup("Ada Lovelace", "ada", "some-password", "ada@example.com");
    assert!(validate_signup(&data).is_ok());
}

#[test]
fn bad_email_is_rejected() {
    let data = signup("Ada Lovelace", "ada", "some-password", "not-an-email");
    assert_eq!(validate_signup(&data).unwrap_err(), AppError::ValidationError);
}

#[test]
fn empty_display_name_is_rejected() {
    let data = signup("", "ada", "some-password", "ada@example.com");
    assert_eq!(validate_signup(&data).unwrap_err(), AppError::ValidationError);
}

#[test]
fn empty_username_is_rejected() {
    let data = signup("Ada Lovelace", "", "some-password", "ada@example.com");
    assert_eq!(validate_signup(&data).unwrap_err(), AppError::ValidationError);
}

#[test]
fn empty_password_is_rejected() {
    let data = signup("Ada Lovelace", "ada", "", "ada@example.com");
    assert_eq!(validate_signup(&data).unwrap_err(), AppError::ValidationError);
}
