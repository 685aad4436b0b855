use tilings::error::{APIKeyError, Error, Response};

#[test]
fn api_key_errors_are_unauthorized() {
    let r = Response::from(Error::APIKey(APIKeyError::Invalid));
    assert_eq!("API key invalid.", r.message);
    assert_eq!(401, r.status);
    let r = Response::from(Error::APIKey(APIKeyError::Missing));
    assert_eq!("API key missing.", r.message);
    assert_eq!(401, r.status);
}

#[test]
fn rate_limit_is_too_many_requests() {
    let r = Response::from(Error::RateLimit);
    assert_eq!("Too many requests", r.message);
    assert_eq!(429, r.status);
}

#[test]
fn status_keeps_its_code_with_empty_message() {
    let r = Response::from(Error::Status(400));
    assert_eq!("", r.message);
    assert_eq!(400, r.status);
}

#[test]
fn unauthorized_response() {
    let r = Response::from(Error::Unauthorized);
    assert_eq!("Unauthorized.", r.message);
    assert_eq!(401, r.status);
}

#[test]
fn other_errors_are_internal() {
    for err in vec![
        Error::Custom(400, String::from("Invalid email.")),
        Error::Default,
        Error::Diesel(String::from("Record not found")),
        Error::R2D2(String::from("timed out")),
        Error::Redis(String::from("refused")),
    ] {
        let r = Response::from(err);
        assert_eq!("Internal server error.", r.message);
        assert_eq!(500, r.status);
    }
}

#[test]
fn api_key_error_messages() {
    assert_eq!("Invalid API key.", APIKeyError::Invalid.message());
    assert_eq!("Missing API Key.", APIKeyError::Missing.message());
}
