//! How a request is authenticated: by an API key carried as a bearer token
//! (base64 of the JSON claims, checked against the stored argon2 hash), or by
//! a session cookie whose stored value is the account id.

use vstd::prelude::*;
use vstd::string::StringSliceAdditionalSpecFns;
use vstd::utf8::{decode_utf8, encode_utf8, valid_utf8};
use crate::account::{argon2_verify_encoded, spec_argon2_verify};
use crate::error::{APIKeyError, Error, STATUS_INTERNAL_SERVER_ERROR, STATUS_UNAUTHORIZED};
use crate::roles::AuthAccount;
use crate::strings::{chars_of, push_char};

verus! {

/// The private cookie that holds the key of a session.
pub const COOKIE_KEY: &'static str = "tilings_account_id";
/// The header that carries an API key.
pub const AUTHORIZATION_HEADER_KEY: &'static str = "Authorization";
pub const SECRET: &'static str = "JWT_TOKEN";
pub const TOKEN_DURATION_IN_SECONDS: i64 = 10 * 365 * 24 * 60 * 60;
/// The number of characters of `"Bearer "`, which the header value starts with.
pub const AUTHORIZATION_HEADER_VALUE_PREFIX_END_INDEX: usize = 7;

/// The character of a base64 digit (standard alphabet).
pub open spec fn base64_char(v: int) -> char {
    if v < 26 {
        (65 + v) as char
    } else if v < 52 {
        (97 + v - 26) as char
    } else if v < 62 {
        (48 + v - 52) as char
    } else if v == 62 {
        '+'
    } else {
        '/'
    }
}

/// Standard base64 with padding: each three bytes become four digits of six
/// bits; a last group of one or two bytes is padded with `=`.
pub open spec fn spec_base64_encode(b: Seq<u8>) -> Seq<char>
    decreases b.len(),
{
    if b.len() == 0 {
        Seq::empty()
    } else {
        let x = b[0] as int;
        let y = if b.len() > 1 { b[1] as int } else { 0 };
        let z = if b.len() > 2 { b[2] as int } else { 0 };
        if b.len() == 1 {
            seq![base64_char(x / 4), base64_char((x % 4) * 16), '=', '=']
        } else if b.len() == 2 {
            seq![base64_char(x / 4), base64_char((x % 4) * 16 + y / 16), base64_char((y % 16) * 4), '=']
        } else {
            seq![
                base64_char(x / 4),
                base64_char((x % 4) * 16 + y / 16),
                base64_char((y % 16) * 4 + z / 64),
                base64_char(z % 64),
            ] + spec_base64_encode(b.skip(3))
        }
    }
}

/// Encodes bytes with `base64::encode` (standard alphabet, padded).
#[verifier::external_body]
fn base64_encode(bytes: &[u8]) -> (text: String)
    ensures
        text@ == spec_base64_encode(bytes@),
{
    base64::encode(bytes)
}

/// What `base64::decode` gives for a text: `None` where it reports an error.
pub uninterp spec fn spec_base64_decode(text: Seq<char>) -> Option<Seq<u8>>;

/// Decodes a text with `base64::decode`. The contract names the result and
/// states one fact of it: the encoding of some bytes decodes to those bytes.
#[verifier::external_body]
fn base64_decode(text: &str) -> (bytes: Option<Vec<u8>>)
    ensures
        bytes is Some ==> spec_base64_decode(text@) == Some(bytes.unwrap()@),
        bytes is None ==> spec_base64_decode(text@) is None,
        forall|b: Seq<u8>| text@ == #[trigger] spec_base64_encode(b) ==> bytes is Some && bytes.unwrap()@ == b,
{
    base64::decode(text).ok()
}

/// Reads bytes as UTF-8 with `String::from_utf8`: `None` where they are not.
#[verifier::external_body]
fn string_from_utf8(bytes: Vec<u8>) -> (s: Option<String>)
    ensures
        s is Some <==> valid_utf8(bytes@),
        s matches Some(t) ==> t@ == decode_utf8(bytes@),
{
    String::from_utf8(bytes).ok()
}

/// The token of a serialized set of claims: the base64 of its UTF-8 bytes.
pub fn encode_token(serialized: &str) -> (token: String)
    ensures
        token@ == spec_base64_encode(encode_utf8(serialized@)),
{
    base64_encode(serialized.as_bytes())
}

/// The serialized claims that a token carries, where the token is base64 of
/// UTF-8 text.
pub open spec fn spec_decode_token(token: Seq<char>) -> Option<Seq<char>> {
    match spec_base64_decode(token) {
        Some(b) => if valid_utf8(b) { Some(decode_utf8(b)) } else { None },
        None => None,
    }
}

/// Reads the serialized claims out of a token; an invalid API key where the
/// token is not base64 of UTF-8 text.
pub fn decode_token(token: &str) -> (r: Result<String, Error>)
    ensures
        r matches Ok(s) ==> spec_decode_token(token@) == Some(s@),
        r is Err ==> spec_decode_token(token@) is None,
        r matches Err(e) ==> e == Error::APIKey(APIKeyError::Invalid),
        forall|s: Seq<char>| token@ == #[trigger] spec_base64_encode(encode_utf8(s)) ==> (r matches Ok(t) && t@ == s),
{
    proof {
        assert forall|s: Seq<char>| token@ == #[trigger] spec_base64_encode(encode_utf8(s)) implies valid_utf8(encode_utf8(s))
            && decode_utf8(encode_utf8(s)) == s by {
            vstd::utf8::encode_utf8_valid_utf8(s);
            vstd::utf8::encode_utf8_decode_utf8(s);
        }
    }
    let bytes = match base64_decode(token) {
        Some(b) => b,
        None => return Err(Error::APIKey(APIKeyError::Invalid)),
    };
    match string_from_utf8(bytes) {
        Some(s) => Ok(s),
        None => Err(Error::APIKey(APIKeyError::Invalid)),
    }
}

/// The text of the `Authorization` header after its `"Bearer "` prefix.
pub open spec fn spec_bearer_token(header: Seq<char>) -> Seq<char> {
    if header.len() <= AUTHORIZATION_HEADER_VALUE_PREFIX_END_INDEX {
        Seq::empty()
    } else {
        header.skip(AUTHORIZATION_HEADER_VALUE_PREFIX_END_INDEX as int)
    }
}

/// The token of an `Authorization` header: its characters after the first
/// seven.
pub fn bearer_token(header: &str) -> (token: String)
    ensures
        token@ == spec_bearer_token(header@),
{
    let chars = chars_of(header);
    let mut token = String::new();
    let mut i: usize = AUTHORIZATION_HEADER_VALUE_PREFIX_END_INDEX;
    if chars.len() <= i {
        return token;
    }
    while i < chars.len()
        invariant
            AUTHORIZATION_HEADER_VALUE_PREFIX_END_INDEX <= i <= chars.len(),
            chars@ == header@,
            token@ == chars@.subrange(AUTHORIZATION_HEADER_VALUE_PREFIX_END_INDEX as int, i as int),
        decreases chars.len() - i,
    {
        push_char(&mut token, chars[i]);
        i = i + 1;
        assert(token@ =~= chars@.subrange(AUTHORIZATION_HEADER_VALUE_PREFIX_END_INDEX as int, i as int));
    }
    assert(token@ =~= spec_bearer_token(header@));
    token
}

/// Whether a character is an ASCII decimal digit.
pub open spec fn is_digit(c: char) -> bool {
    '0' <= c <= '9'
}

/// Whether every character is an ASCII decimal digit.
pub open spec fn all_digits(s: Seq<char>) -> bool {
    forall|i: int| 0 <= i < s.len() ==> is_digit(#[trigger] s[i])
}

/// The number that a string of decimal digits writes.
pub open spec fn digits_value(s: Seq<char>) -> nat
    decreases s.len(),
{
    if s.len() == 0 {
        0
    } else {
        digits_value(s.drop_last()) * 10 + ((s.last() as int - 48) as nat)
    }
}

/// What `str::parse::<i32>` gives: an optional sign (`-` or `+`) and at least
/// one decimal digit, nothing else, and a value within `i32`.
pub open spec fn spec_parse_i32(s: Seq<char>) -> Option<i32> {
    let signed = s.len() > 0 && (s[0] == '-' || s[0] == '+');
    let digits = if signed { s.skip(1) } else { s };
    if digits.len() == 0 || !all_digits(digits) {
        None
    } else {
        let v: int = if s[0] == '-' { -(digits_value(digits) as int) } else { digits_value(digits) as int };
        if i32::MIN <= v <= i32::MAX {
            Some(v as i32)
        } else {
            None
        }
    }
}

/// Reads a decimal `i32` as `str::parse::<i32>` does.
pub fn parse_i32(s: &str) -> (r: Option<i32>)
    ensures
        r == spec_parse_i32(s@),
{
    let chars = chars_of(s);
    let n = chars.len();
    let mut start: usize = 0;
    let mut neg = false;
    if n > 0 && (chars[0] == '-' || chars[0] == '+') {
        neg = chars[0] == '-';
        start = 1;
    }
    let ghost digits = chars@.subrange(start as int, n as int);
    assert(digits =~= if start == 1 { s@.skip(1) } else { s@ });
    if start >= n {
        assert(digits.len() == 0);
        return None;
    }
    let cap: i64 = 2147483649;
    let mut acc: i64 = 0;
    let mut i: usize = start;
    assert(chars@.subrange(start as int, start as int) =~= Seq::<char>::empty());
    while i < n
        invariant
            start <= i <= n,
            n == chars@.len(),
            digits == chars@.subrange(start as int, n as int),
            chars@ == s@,
            digits == (if s@.len() > 0 && (s@[0] == '-' || s@[0] == '+') { s@.skip(1) } else { s@ }),
            digits.len() > 0,
            cap == 2147483649,
            all_digits(chars@.subrange(start as int, i as int)),
            acc == if digits_value(chars@.subrange(start as int, i as int)) < cap {
                digits_value(chars@.subrange(start as int, i as int)) as int
            } else {
                cap as int
            },
        decreases n - i,
    {
        let c = chars[i];
        if !('0' <= c && c <= '9') {
            assert(!is_digit(digits[i - start]));
            return None;
        }
        let d: i64 = (c as u32 - 48) as i64;
        let ghost prev = chars@.subrange(start as int, i as int);
        let ghost next_digits = chars@.subrange(start as int, i + 1);
        assert(next_digits.drop_last() =~= prev);
        assert(digits_value(next_digits) == digits_value(prev) * 10 + d);
        let next = acc * 10 + d;
        acc = if next > cap { cap } else { next };
        i = i + 1;
        assert(all_digits(next_digits));
    }
    assert(chars@.subrange(start as int, i as int) =~= digits);
    let v: i64 = if neg { -acc } else { acc };
    if v < -2147483648 || v > 2147483647 {
        None
    } else {
        Some(v as i32)
    }
}

/// Where a request's credentials come from: an API key in the
/// `Authorization` header (its token), or else the session cookie (its
/// value, the key of the stored session), or nowhere.
#[derive(Debug, PartialEq, Eq)]
pub enum Credentials {
    ApiKey(String),
    Session(String),
    Missing,
}

/// A refused request: the status it is answered with and the error.
pub type Refusal = (u16, Error);

/// Reads where a request's credentials come from; the header wins over the
/// cookie.
pub fn credentials(authorization: Option<&str>, session_cookie: Option<&str>) -> (c: Credentials)
    ensures
        authorization matches Some(h) ==> (c matches Credentials::ApiKey(t) && t@ == spec_bearer_token(h@)),
        authorization is None ==> (session_cookie matches Some(k) ==> (c matches Credentials::Session(v) && v@ == k@)),
        authorization is None && session_cookie is None ==> c == Credentials::Missing,
{
    match authorization {
        Some(h) => Credentials::ApiKey(bearer_token(h)),
        None => match session_cookie {
            Some(k) => Credentials::Session(crate::strings::string_from(k)),
            None => Credentials::Missing,
        },
    }
}

/// The refusal of a request without credentials.
pub fn missing_credentials() -> (r: Refusal)
    ensures
        r == (STATUS_UNAUTHORIZED, Error::APIKey(APIKeyError::Missing)),
{
    (STATUS_UNAUTHORIZED, Error::APIKey(APIKeyError::Missing))
}

/// The account of a session, from the stored value of the session's key:
/// the account id it writes, or an invalid API key where it writes none.
pub fn account_from_session(value: &str) -> (r: Result<AuthAccount, Refusal>)
    ensures
        spec_parse_i32(value@) matches Some(id) ==> (r matches Ok(a) && a.spec_id() == id && a.spec_roles() is None
            && a.spec_verified() is None),
        spec_parse_i32(value@) is None ==> r == Err::<AuthAccount, Refusal>((STATUS_UNAUTHORIZED, Error::APIKey(APIKeyError::Invalid))),
{
    match parse_i32(value) {
        Some(id) => Ok(AuthAccount::new(id)),
        None => Err((STATUS_UNAUTHORIZED, Error::APIKey(APIKeyError::Invalid))),
    }
}

/// The account of an API key, from the stored hash of the account's key:
/// accepted where argon2 matches the presented key against the hash, an
/// invalid API key where it does not, an internal error where the hash
/// cannot be read.
pub fn account_from_api_key(stored_hash: &str, api_key: &str, account_id: i32) -> (r: Result<AuthAccount, Refusal>)
    ensures
        spec_argon2_verify(stored_hash@, api_key.spec_bytes()) == Some(true) ==> (r matches Ok(a)
            && a.spec_id() == account_id && a.spec_roles() is None && a.spec_verified() is None),
        spec_argon2_verify(stored_hash@, api_key.spec_bytes()) == Some(false)
            ==> r == Err::<AuthAccount, Refusal>((STATUS_UNAUTHORIZED, Error::APIKey(APIKeyError::Invalid))),
        spec_argon2_verify(stored_hash@, api_key.spec_bytes()) is None
            ==> r == Err::<AuthAccount, Refusal>((STATUS_INTERNAL_SERVER_ERROR, Error::Default)),
{
    match argon2_verify_encoded(stored_hash, api_key.as_bytes()) {
        Some(true) => Ok(AuthAccount::new(account_id)),
        Some(false) => Err((STATUS_UNAUTHORIZED, Error::APIKey(APIKeyError::Invalid))),
        None => Err((STATUS_INTERNAL_SERVER_ERROR, Error::Default)),
    }
}

/// The refusal of an API key that cannot be read (its claims do not decode)
/// or whose email has no stored key.
pub fn invalid_api_key() -> (r: Refusal)
    ensures
        r == (STATUS_UNAUTHORIZED, Error::APIKey(APIKeyError::Invalid)),
{
    (STATUS_UNAUTHORIZED, Error::APIKey(APIKeyError::Invalid))
}

/// The account of an API key, given what the lookup of its email found: the
/// account id and stored hash of its key, or nothing (an invalid API key);
/// a found key is checked as `account_from_api_key` does.
pub fn account_from_stored_api_key(stored: Option<(i32, &str)>, api_key: &str) -> (r: Result<AuthAccount, Refusal>)
    ensures
        stored is None ==> r == Err::<AuthAccount, Refusal>((STATUS_UNAUTHORIZED, Error::APIKey(APIKeyError::Invalid))),
        stored matches Some((id, hash)) ==> {
            &&& spec_argon2_verify(hash@, api_key.spec_bytes()) == Some(true) ==> (r matches Ok(a)
                && a.spec_id() == id && a.spec_roles() is None && a.spec_verified() is None)
            &&& spec_argon2_verify(hash@, api_key.spec_bytes()) == Some(false)
                ==> r == Err::<AuthAccount, Refusal>((STATUS_UNAUTHORIZED, Error::APIKey(APIKeyError::Invalid)))
            &&& spec_argon2_verify(hash@, api_key.spec_bytes()) is None
                ==> r == Err::<AuthAccount, Refusal>((STATUS_INTERNAL_SERVER_ERROR, Error::Default))
        },
{
    match stored {
        None => Err(invalid_api_key()),
        Some((account_id, hash)) => account_from_api_key(hash, api_key, account_id),
    }
}

} // verus!
