use tilings::account::{
    clamp_optional, editor_role_post, email_display_name_taken, email_recipient, email_sender, get_code,
    get_cookie_value, hash_password, is_available, password_reset_email_body, reset_api_key, reset_password,
    sign_up, validate_password, validate_sign_up, verification_email_body, verify_sign_in, SignUpPost,
};
use tilings::error::Error;

fn bad_request(msg: &str) -> Error {
    Error::Custom(400, String::from(msg))
}

fn post(display_name: &str, email: &str, password: &str) -> SignUpPost {
    SignUpPost {
        display_name: String::from(display_name),
        email: String::from(email),
        password: String::from(password),
    }
}

#[test]
fn clamp_optional_limits() {
    assert_eq!(50, clamp_optional(50, None));
    assert_eq!(10, clamp_optional(50, Some(10)));
    assert_eq!(50, clamp_optional(50, Some(50)));
    assert_eq!(50, clamp_optional(50, Some(51)));
}

#[test]
fn availability_from_counts() {
    assert!(is_available(Some(0)));
    assert!(!is_available(Some(1)));
    assert!(!is_available(None));
}

#[test]
fn password_length_rules() {
    assert_eq!(Err(bad_request("Password must be 10 characters or more.")), validate_password("short"));
    assert_eq!(Err(bad_request("Password must be 100 characters or less.")), validate_password(&"x".repeat(101)));
    assert_eq!(Ok(()), validate_password("0123456789"));
    assert_eq!(Ok(()), validate_password(&"x".repeat(100)));
}

#[test]
fn sign_up_rules_in_order() {
    let long_email = format!("{}@example.com", "a".repeat(100));
    assert_eq!(
        Err(bad_request("Email must be 100 characters or less.")),
        validate_sign_up(&post("name", &long_email, "short"))
    );
    assert_eq!(
        Err(bad_request("Password must be 10 characters or more.")),
        validate_sign_up(&post("n", "a@example.com", "short"))
    );
    assert_eq!(
        Err(bad_request("Display Name must be 3 characters or more.")),
        validate_sign_up(&post("ab", "not an email", "0123456789"))
    );
    assert_eq!(
        Err(bad_request("Display Name must be 100 characters or less.")),
        validate_sign_up(&post(&"d".repeat(101), "a@example.com", "0123456789"))
    );
    assert_eq!(
        Err(bad_request("Invalid email.")),
        validate_sign_up(&post("name", "not an email", "0123456789"))
    );
    assert_eq!(Ok(()), validate_sign_up(&post("name", "a@example.com", "0123456789")));
}

#[test]
fn sign_in_without_account() {
    assert_eq!(Err(bad_request("Invalid email.")), verify_sign_in(None, "0123456789"));
}

#[test]
fn sign_in_with_malformed_hash() {
    assert_eq!(Err(bad_request("Invalid password.")), verify_sign_in(Some("not a hash"), "0123456789"));
}

#[test]
fn signed_up_password_signs_in() {
    let account = sign_up(&post("name", "a@example.com", "0123456789")).unwrap();
    assert_eq!("a@example.com", account.email);
    assert_eq!("name", account.display_name);
    assert!(!account.verified);
    assert_eq!(32, account.verification_code.as_ref().unwrap().len());
    assert!(account.verification_code.as_ref().unwrap().chars().all(|c| c.is_ascii_alphanumeric()));
    assert_ne!("0123456789", account.password);
    assert_eq!(Ok(()), verify_sign_in(Some(&account.password), "0123456789"));
    assert_eq!(Err(bad_request("Invalid password.")), verify_sign_in(Some(&account.password), "9876543210"));
}

#[test]
fn sign_up_refusal_is_the_first_complaint() {
    assert_eq!(
        Err(bad_request("Invalid email.")),
        sign_up(&post("name", "not an email", "0123456789")).map(|_| ())
    );
}

#[test]
fn hashed_password_verifies() {
    let hash = hash_password("correct horse");
    assert_eq!(Ok(()), verify_sign_in(Some(&hash), "correct horse"));
    let other = hash_password("correct horse");
    assert_ne!(hash, other);
}

#[test]
fn reset_password_checks_then_hashes() {
    assert_eq!(Err(bad_request("Password must be 10 characters or more.")), reset_password("short"));
    let hash = reset_password("0123456789").unwrap();
    assert_eq!(Ok(()), verify_sign_in(Some(&hash), "0123456789"));
}

#[test]
fn codes_are_alphanumeric() {
    for code in [get_code(), get_cookie_value()] {
        assert_eq!(32, code.len());
        assert!(code.chars().all(|c| c.is_ascii_alphanumeric()));
    }
}

#[test]
fn api_key_reset_makes_a_verifiable_key() {
    let (key, row) = reset_api_key(12);
    assert_eq!(100, key.len());
    assert!(key.chars().all(|c| c.is_ascii_alphanumeric()));
    assert_eq!(12, row.account_id);
    assert_eq!(Ok(()), verify_sign_in(Some(&row.content), &key));
}

#[test]
fn account_rows_and_errors() {
    let role = editor_role_post(9);
    assert_eq!(9, role.account_id);
    assert_eq!(2, role.role_id);
    assert_eq!(bad_request("Email / Display Name taken."), email_display_name_taken());
}

#[test]
fn email_texts() {
    assert_eq!("Tilings <bot@example.com>", email_sender("bot@example.com"));
    assert_eq!("Ann <ann@example.com>", email_recipient("Ann", "ann@example.com"));
    assert_eq!(
        Ok(String::from("Follow the link to verify your tilings account.\nhttps://host/verify/abc")),
        verification_email_body("https://host", "/verify", Some("abc"))
    );
    assert_eq!(Err(Error::Default), verification_email_body("https://host", "/verify", None));
    assert_eq!(
        Ok(String::from(
            "Follow the link to reset your password.\nhttps://host/reset/abc\nThis link will expire in 15 minutes."
        )),
        password_reset_email_body("https://host", "/reset", Some("abc"))
    );
    assert_eq!(Err(Error::Default), password_reset_email_body("https://host", "/reset", None));
}
