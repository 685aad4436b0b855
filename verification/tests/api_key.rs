use tilings::api_key::{
    account_from_api_key, account_from_session, account_from_stored_api_key, invalid_api_key, bearer_token, credentials, decode_token, encode_token,
    missing_credentials, parse_i32, Credentials,
};
use tilings::account::reset_api_key;
use tilings::error::{APIKeyError, Error};

#[test]
fn token_round_trip() {
    let claims = r#"{"email":"a@example.com","api_key":"abc"}"#;
    let token = encode_token(claims);
    assert_eq!(Ok(String::from(claims)), decode_token(&token));
}

#[test]
fn token_is_standard_base64() {
    assert_eq!("TWFu", encode_token("Man"));
    assert_eq!("TWE=", encode_token("Ma"));
    assert_eq!("TQ==", encode_token("M"));
    assert_eq!("", encode_token(""));
}

#[test]
fn invalid_tokens() {
    assert_eq!(Err(Error::APIKey(APIKeyError::Invalid)), decode_token("not base64!"));
    // base64 of bytes that are not UTF-8
    assert_eq!(Err(Error::APIKey(APIKeyError::Invalid)), decode_token("/w=="));
}

#[test]
fn bearer_prefix_is_dropped() {
    assert_eq!("abc", bearer_token("Bearer abc"));
    assert_eq!("", bearer_token("Bearer "));
    assert_eq!("", bearer_token("Bear"));
}

#[test]
fn parse_i32_as_std() {
    for s in ["0", "42", "-42", "+7", "2147483647", "-2147483648", "", "-", "+", "12a", "2147483648",
        "-2147483649", "99999999999999999999", " 1", "1 "] {
        assert_eq!(s.parse::<i32>().ok(), parse_i32(s), "{}", s);
    }
}

#[test]
fn credentials_sources() {
    assert_eq!(Credentials::ApiKey(String::from("tok")), credentials(Some("Bearer tok"), Some("key")));
    assert_eq!(Credentials::Session(String::from("key")), credentials(None, Some("key")));
    assert_eq!(Credentials::Missing, credentials(None, None));
    assert_eq!((401, Error::APIKey(APIKeyError::Missing)), missing_credentials());
}

#[test]
fn session_values() {
    assert_eq!(17, account_from_session("17").unwrap().id);
    assert_eq!(Err((401, Error::APIKey(APIKeyError::Invalid))), account_from_session("abc").map(|a| a.id));
}

#[test]
fn api_key_checks() {
    let (key, row) = reset_api_key(3);
    assert_eq!(3, account_from_api_key(&row.content, &key, row.account_id).unwrap().id);
    assert_eq!(
        Err((401, Error::APIKey(APIKeyError::Invalid))),
        account_from_api_key(&row.content, "wrong", 3).map(|a| a.id)
    );
    assert_eq!(Err((500, Error::Default)), account_from_api_key("not a hash", &key, 3).map(|a| a.id));
}

#[test]
fn stored_api_key_lookup() {
    let (key, row) = reset_api_key(7);
    assert_eq!(Err((401, Error::APIKey(APIKeyError::Invalid))), account_from_stored_api_key(None, &key).map(|a| a.id));
    assert_eq!(7, account_from_stored_api_key(Some((7, row.content.as_str())), &key).unwrap().id);
    assert_eq!(
        Err((401, Error::APIKey(APIKeyError::Invalid))),
        account_from_stored_api_key(Some((7, row.content.as_str())), "wrong").map(|a| a.id)
    );
    assert_eq!(Err((500, Error::Default)), account_from_stored_api_key(Some((7, "not a hash")), &key).map(|a| a.id));
    assert_eq!((401, Error::APIKey(APIKeyError::Invalid)), invalid_api_key());
}
