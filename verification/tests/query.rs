use tilings::error::Error;
use tilings::query::{clean_query, percent_decode, percent_encode};

#[test]
fn percent_encoding_keeps_letters_and_digits() {
    assert_eq!("abc123", percent_encode(String::from("abc123")));
    assert_eq!("a%20b%26c%3D", percent_encode(String::from("a b&c=")));
    assert_eq!("%C3%A9", percent_encode(String::from("é")));
}

#[test]
fn percent_decoding() {
    assert_eq!(Ok(String::from("a b&c=")), percent_decode(String::from("a%20b%26c%3D")));
    assert_eq!(Ok(String::from("é")), percent_decode(String::from("%C3%A9")));
    assert_eq!(Ok(String::from("100%")), percent_decode(String::from("100%")));
    assert_eq!(
        Err(Error::Custom(400, String::from("Invalid query string."))),
        percent_decode(String::from("%FF"))
    );
}

#[test]
fn decode_undoes_encode() {
    for s in ["", "plain", "with space", "ünïcödé & more=stuff", "%41"] {
        assert_eq!(Ok(String::from(s)), percent_decode(percent_encode(String::from(s))));
    }
}

#[test]
fn clean_query_drops_empty_parameters() {
    assert_eq!(
        "/api/tilings/v1/labels?start_id&end_id=5",
        clean_query(String::from("/api/tilings/v1/labels?start_id=&end_id=5&limit="))
    );
    assert_eq!(
        "/api/tilings/v1/labels?start_id=1&end_id=5&limit=3",
        clean_query(String::from("/api/tilings/v1/labels?start_id=1&end_id=5&limit=3"))
    );
    assert_eq!("/api/tilings/v1/labels", clean_query(String::from("/api/tilings/v1/labels?limit=")));
    assert_eq!("/api/tilings/v1/atlases", clean_query(String::from("/api/tilings/v1/atlases")));
}
