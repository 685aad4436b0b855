//! Account rules: what a sign-up or a new password must satisfy, how a
//! sign-in is judged, and the paging limit of listing requests.

use vstd::prelude::*;
use crate::error::{Error, STATUS_BAD_REQUEST};
use vstd::string::StringSliceAdditionalSpecFns;
use vstd::utf8::encode_utf8;
use crate::strings::{byte_len, utf8_len};
use crate::strings::{push_str, string_from};
use crate::roles::{spec_role_id, AccountRole, RoleEnum};
use rand::Rng;

verus! {

pub const MAX_EMAIL_LENGTH: usize = 100;
pub const MIN_PASSWORD_LENGTH: usize = 10;
pub const MAX_PASSWORD_LENGTH: usize = 100;
pub const MIN_DISPLAY_NAME_LENGTH: usize = 3;
pub const MAX_DISPLAY_NAME_LENGTH: usize = 100;
pub const VALID_PASSWORD_RESET_CODE_DURATION_IN_MINUTES: i64 = 15;

pub const MAX_EMAIL_ERR_MSG: &'static str = "Email must be 100 characters or less.";
pub const INVALID_EMAIL_ERR_MSG: &'static str = "Invalid email.";
pub const MIN_PASSWORD_ERR_MSG: &'static str = "Password must be 10 characters or more.";
pub const MAX_PASSWORD_ERR_MSG: &'static str = "Password must be 100 characters or less.";
pub const INVALID_PASSWORD_ERR_MSG: &'static str = "Invalid password.";
pub const MIN_DISPLAY_NAME_ERR_MSG: &'static str = "Display Name must be 3 characters or more.";
pub const MAX_DISPLAY_NAME_ERR_MSG: &'static str = "Display Name must be 100 characters or less.";
pub const EMAIL_DISPLAY_NAME_TAKEN_ERR_MSG: &'static str = "Email / Display Name taken.";

/// Length of verification and password-reset codes, and of session cookies.
pub const VERIFICATION_CODE_LENGTH: usize = 32;
pub const COOKIE_LENGTH: usize = 32;
/// Length of an API key.
pub const API_KEY_LENGTH: usize = 100;
/// Length of the random salt of a password hash.
pub const SALT_LENGTH: usize = 32;

/// A request to create an account.
#[derive(Debug, PartialEq, Eq)]
pub struct SignUpPost {
    pub display_name: String,
    pub email: String,
    pub password: String,
}

/// A request to sign in.
#[derive(Debug, PartialEq, Eq)]
pub struct SignInPost {
    pub email: String,
    pub password: String,
}

/// A request to replace a forgotten password.
#[derive(Debug, PartialEq, Eq)]
pub struct ResetPasswordPost {
    pub password_reset_code: String,
    pub password: String,
}

/// Whether an email address is well formed, as `validator::validate_email` judges it.
pub uninterp spec fn spec_validate_email(email: Seq<char>) -> bool;

/// Checks an email address with `validator::validate_email`.
#[verifier::external_body]
fn validate_email(email: &str) -> (valid: bool)
    ensures
        valid == spec_validate_email(email@),
{
    validator::validate_email(email)
}

/// Whether `argon2::verify_encoded` accepts a password for an encoded hash:
/// `None` where it reports an error (a malformed hash).
pub uninterp spec fn spec_argon2_verify(encoded: Seq<char>, password: Seq<u8>) -> Option<bool>;

/// Checks a password against an encoded hash with `argon2::verify_encoded`.
#[verifier::external_body]
pub(crate) fn argon2_verify_encoded(encoded: &str, password: &[u8]) -> (matched: Option<bool>)
    ensures
        matched == spec_argon2_verify(encoded@, password@),
{
    match argon2::verify_encoded(encoded, password) {
        Ok(b) => Some(b),
        Err(_) => None,
    }
}

/// A bad-request error with a message.
fn bad_request(msg: &str) -> (e: Error)
    ensures
        e matches Error::Custom(code, m) && code == STATUS_BAD_REQUEST && m@ == msg@,
{
    Error::Custom(STATUS_BAD_REQUEST, string_from(msg))
}

/// Whether `r` is the outcome that `msg` calls for: success for none, a bad
/// request with that message otherwise.
pub open spec fn is_outcome(r: Result<(), Error>, msg: Option<Seq<char>>) -> bool {
    match msg {
        None => r is Ok,
        Some(m) => r matches Err(Error::Custom(code, s)) && code == STATUS_BAD_REQUEST && s@ == m,
    }
}

/// The complaint about a password's byte length, if any.
pub open spec fn spec_password_error(password: Seq<char>) -> Option<Seq<char>> {
    if byte_len(password) < MIN_PASSWORD_LENGTH {
        Some(MIN_PASSWORD_ERR_MSG@)
    } else if byte_len(password) > MAX_PASSWORD_LENGTH {
        Some(MAX_PASSWORD_ERR_MSG@)
    } else {
        None
    }
}

/// Checks the byte length of a new password: at least 10, at most 100.
pub fn validate_password(password: &str) -> (r: Result<(), Error>)
    ensures
        is_outcome(r, spec_password_error(password@)),
{
    if password.len() < MIN_PASSWORD_LENGTH {
        return Err(bad_request(MIN_PASSWORD_ERR_MSG));
    }
    if password.len() > MAX_PASSWORD_LENGTH {
        return Err(bad_request(MAX_PASSWORD_ERR_MSG));
    }
    Ok(())
}

/// The first complaint about a sign-up, if any: the email's length, the
/// password, the display name's length, then the email's form.
pub open spec fn spec_sign_up_error(email: Seq<char>, password: Seq<char>, display_name: Seq<char>) -> Option<Seq<char>> {
    if byte_len(email) > MAX_EMAIL_LENGTH {
        Some(MAX_EMAIL_ERR_MSG@)
    } else if spec_password_error(password) is Some {
        spec_password_error(password)
    } else if byte_len(display_name) < MIN_DISPLAY_NAME_LENGTH {
        Some(MIN_DISPLAY_NAME_ERR_MSG@)
    } else if byte_len(display_name) > MAX_DISPLAY_NAME_LENGTH {
        Some(MAX_DISPLAY_NAME_ERR_MSG@)
    } else if !spec_validate_email(email) {
        Some(INVALID_EMAIL_ERR_MSG@)
    } else {
        None
    }
}

/// Whether a sign-up with these byte lengths of email, password and display
/// name, and this judgement of the email's form, is refused with `msg`:
/// the checks run in order (email length at most 100, password 10 to 100
/// bytes, display name 3 to 100 bytes, then the email's form) and the first
/// that fails gives its message.
pub open spec fn sign_up_refused_with(email_len: int, password_len: int, display_name_len: int, email_ok: bool, msg: Seq<char>) -> bool {
    if email_len > 100 {
        msg == MAX_EMAIL_ERR_MSG@
    } else if password_len < 10 {
        msg == MIN_PASSWORD_ERR_MSG@
    } else if password_len > 100 {
        msg == MAX_PASSWORD_ERR_MSG@
    } else if display_name_len < 3 {
        msg == MIN_DISPLAY_NAME_ERR_MSG@
    } else if display_name_len > 100 {
        msg == MAX_DISPLAY_NAME_ERR_MSG@
    } else if !email_ok {
        msg == INVALID_EMAIL_ERR_MSG@
    } else {
        false
    }
}

/// The sign-up messages are told apart (no two of them are the same text).
proof fn lemma_sign_up_messages_differ()
    ensures
        MIN_DISPLAY_NAME_ERR_MSG@ != MAX_EMAIL_ERR_MSG@,
        MIN_DISPLAY_NAME_ERR_MSG@ != MIN_PASSWORD_ERR_MSG@,
        MIN_DISPLAY_NAME_ERR_MSG@ != MAX_PASSWORD_ERR_MSG@,
        MIN_DISPLAY_NAME_ERR_MSG@ != MAX_DISPLAY_NAME_ERR_MSG@,
        MIN_DISPLAY_NAME_ERR_MSG@ != INVALID_EMAIL_ERR_MSG@,
{
    reveal_strlit("Email must be 100 characters or less.");
    reveal_strlit("Invalid email.");
    reveal_strlit("Password must be 10 characters or more.");
    reveal_strlit("Password must be 100 characters or less.");
    reveal_strlit("Display Name must be 3 characters or more.");
    reveal_strlit("Display Name must be 100 characters or less.");
    assert(MIN_DISPLAY_NAME_ERR_MSG@.len() == 42);
    assert(MAX_EMAIL_ERR_MSG@.len() == 37);
    assert(MIN_PASSWORD_ERR_MSG@.len() == 39);
}

/// The sign-up checks, stated on byte lengths: a sign-up whose email has at
/// most 100 bytes and a valid form, whose password has 10 to 100 bytes and
/// whose display name has 3 to 100 bytes is accepted; any other is refused
/// with the message of the first check it fails; and a display name of 3
/// bytes or more is never refused as too short.
pub proof fn lemma_sign_up_checks_on_lengths(email: Seq<char>, password: Seq<char>, display_name: Seq<char>)
    requires
        utf8_len(email) <= usize::MAX,
        utf8_len(password) <= usize::MAX,
        utf8_len(display_name) <= usize::MAX,
    ensures
        spec_sign_up_error(email, password, display_name) is None <==> (utf8_len(email) <= MAX_EMAIL_LENGTH
            && MIN_PASSWORD_LENGTH <= utf8_len(password) <= MAX_PASSWORD_LENGTH
            && MIN_DISPLAY_NAME_LENGTH <= utf8_len(display_name) <= MAX_DISPLAY_NAME_LENGTH
            && spec_validate_email(email)),
        spec_sign_up_error(email, password, display_name) matches Some(msg) ==> sign_up_refused_with(
            utf8_len(email) as int,
            utf8_len(password) as int,
            utf8_len(display_name) as int,
            spec_validate_email(email),
            msg,
        ),
        utf8_len(display_name) >= MIN_DISPLAY_NAME_LENGTH
            ==> spec_sign_up_error(email, password, display_name) != Some(MIN_DISPLAY_NAME_ERR_MSG@),
{
    lemma_sign_up_messages_differ();
}

/// Checks a sign-up request before the account is created.
pub fn validate_sign_up(sign_up_post: &SignUpPost) -> (r: Result<(), Error>)
    ensures
        is_outcome(
            r,
            spec_sign_up_error(
                sign_up_post.email@,
                sign_up_post.password@,
                sign_up_post.display_name@,
            ),
        ),
        r is Ok <==> (utf8_len(sign_up_post.email@) <= MAX_EMAIL_LENGTH
            && MIN_PASSWORD_LENGTH <= utf8_len(sign_up_post.password@) <= MAX_PASSWORD_LENGTH
            && MIN_DISPLAY_NAME_LENGTH <= utf8_len(sign_up_post.display_name@) <= MAX_DISPLAY_NAME_LENGTH
            && spec_validate_email(sign_up_post.email@)),
        r matches Err(e) ==> (e matches Error::Custom(code, m) && code == STATUS_BAD_REQUEST && sign_up_refused_with(
            utf8_len(sign_up_post.email@) as int,
            utf8_len(sign_up_post.password@) as int,
            utf8_len(sign_up_post.display_name@) as int,
            spec_validate_email(sign_up_post.email@),
            m@,
        )),
        utf8_len(sign_up_post.display_name@) >= MIN_DISPLAY_NAME_LENGTH
            ==> !(r matches Err(Error::Custom(_, m)) && m@ == MIN_DISPLAY_NAME_ERR_MSG@),
{
    let email = sign_up_post.email.as_str();
    let password = sign_up_post.password.as_str();
    let display_name = sign_up_post.display_name.as_str();
    byte_len_exact(email);
    byte_len_exact(password);
    byte_len_exact(display_name);
    proof {
        lemma_sign_up_checks_on_lengths(email@, password@, display_name@);
    }
    if email.len() > MAX_EMAIL_LENGTH {
        return Err(bad_request(MAX_EMAIL_ERR_MSG));
    }
    validate_password(password)?;
    if display_name.len() < MIN_DISPLAY_NAME_LENGTH {
        return Err(bad_request(MIN_DISPLAY_NAME_ERR_MSG));
    }
    if display_name.len() > MAX_DISPLAY_NAME_LENGTH {
        return Err(bad_request(MAX_DISPLAY_NAME_ERR_MSG));
    }
    if !validate_email(email) {
        return Err(bad_request(INVALID_EMAIL_ERR_MSG));
    }
    Ok(())
}

/// The complaint about a sign-in, if any: no account has the email; the
/// stored hash is malformed or does not match the password.
pub open spec fn spec_sign_in_error(stored_password: Option<Seq<char>>, password: Seq<char>) -> Option<Seq<char>> {
    match stored_password {
        None => Some(INVALID_EMAIL_ERR_MSG@),
        Some(hash) => if spec_argon2_verify(hash, encode_utf8(password)) == Some(true) {
            None
        } else {
            Some(INVALID_PASSWORD_ERR_MSG@)
        },
    }
}

/// Judges a sign-in, given the password hash stored for the email (if an
/// account has it).
pub fn verify_sign_in(stored_password: Option<&str>, password: &str) -> (r: Result<(), Error>)
    ensures
        is_outcome(
            r,
            spec_sign_in_error(
                match stored_password {
                    Some(h) => Some(h@),
                    None => None,
                },
                password@,
            ),
        ),
{
    let hash = match stored_password {
        Some(hash) => hash,
        None => return Err(bad_request(INVALID_EMAIL_ERR_MSG)),
    };
    match argon2_verify_encoded(hash, password.as_bytes()) {
        Some(true) => Ok(()),
        _ => Err(bad_request(INVALID_PASSWORD_ERR_MSG)),
    }
}

/// Whether an email or display name is free, given how many accounts use it
/// (`None` when the count could not be read).
pub fn is_available(count: Option<i64>) -> (free: bool)
    ensures
        free == (count == Some(0i64)),
{
    match count {
        Some(count) => count == 0,
        None => false,
    }
}

/// The number of items a listing returns: the requested limit, at most `max`,
/// and `max` when none is requested.
pub fn clamp_optional(max: u32, value: Option<u32>) -> (limit: u32)
    ensures
        limit == (match value {
            Some(v) => if v >= max {
                max
            } else {
                v
            },
            None => max,
        }),
        limit <= max,
{
    match value {
        Some(value) => if value >= max {
            max
        } else {
            value
        },
        None => max,
    }
}

/// Whether a character is an ASCII letter or digit.
pub open spec fn is_alphanumeric(c: char) -> bool {
    ('0' <= c <= '9') || ('A' <= c <= 'Z') || ('a' <= c <= 'z')
}

/// Draws `n` characters from `rand::distributions::Alphanumeric` with the
/// thread's generator: each is an ASCII letter or digit, which ones is chance.
#[verifier::external_body]
fn random_alphanumeric(n: usize) -> (s: String)
    ensures
        s@.len() == n,
        forall|i: int| 0 <= i < n ==> is_alphanumeric(#[trigger] s@[i]),
{
    rand::thread_rng().sample_iter(&rand::distributions::Alphanumeric).take(n).map(char::from).collect()
}

/// Draws a salt of 32 random bytes from the thread's generator (`Rng::gen`).
#[verifier::external_body]
fn random_salt() -> (salt: Vec<u8>)
    ensures
        salt@.len() == SALT_LENGTH,
{
    let salt: [u8; 32] = rand::thread_rng().gen();
    salt.to_vec()
}

/// What `argon2::hash_encoded` gives for a password and a salt under the
/// default configuration: `None` where it reports an error.
pub uninterp spec fn spec_argon2_hash(password: Seq<u8>, salt: Seq<u8>) -> Option<Seq<char>>;

/// Hashes a password with `argon2::hash_encoded` and `Config::default()`.
/// Besides naming the hash, the contract states what the crate shows: under
/// the default configuration hashing fails only for a password longer than
/// `u32::MAX` bytes or a salt shorter than 8 or longer than `u32::MAX` bytes
/// (`Context::new`), and `argon2::verify_encoded` accepts the password
/// against its hash.
#[verifier::external_body]
fn argon2_hash_encoded(password: &[u8], salt: &[u8]) -> (hash: Option<String>)
    ensures
        hash is Some ==> spec_argon2_hash(password@, salt@) == Some(hash.unwrap()@),
        hash is None ==> spec_argon2_hash(password@, salt@) is None,
        password@.len() <= 0xffff_ffff && 8 <= salt@.len() <= 0xffff_ffff ==> hash is Some,
        hash is Some ==> spec_argon2_verify(hash.unwrap()@, password@) == Some(true),
{
    argon2::hash_encoded(password, salt, &argon2::Config::default()).ok()
}

/// A new verification or password-reset code: 32 random letters and digits.
pub fn get_code() -> (code: String)
    ensures
        code@.len() == VERIFICATION_CODE_LENGTH,
        forall|i: int| 0 <= i < code@.len() ==> is_alphanumeric(#[trigger] code@[i]),
{
    random_alphanumeric(VERIFICATION_CODE_LENGTH)
}

/// A new session key, the value of the session cookie: 32 random letters
/// and digits.
pub fn get_cookie_value() -> (value: String)
    ensures
        value@.len() == COOKIE_LENGTH,
        forall|i: int| 0 <= i < value@.len() ==> is_alphanumeric(#[trigger] value@[i]),
{
    random_alphanumeric(COOKIE_LENGTH)
}

/// The byte length of a string is the length of its UTF-8 encoding (it
/// fits in `usize`).
fn byte_len_exact(s: &str)
    ensures
        byte_len(s@) as int == s.spec_bytes().len(),
{
    let b = s.as_bytes();
    proof {
        assert(b@.len() == b.len());
    }
}

/// Hashes a password with a fresh random salt. The hash is one that a
/// sign-in with the same password accepts. (`argon2` refuses passwords
/// longer than `u32::MAX` bytes.)
pub fn hash_password(password: &str) -> (h: String)
    requires
        password.spec_bytes().len() <= 0xffff_ffff,
    ensures
        spec_sign_in_error(Some(h@), password@) is None,
        exists|salt: Seq<u8>| salt.len() == SALT_LENGTH
            && #[trigger] spec_argon2_hash(password.spec_bytes(), salt) == Some(h@),
{
    let salt = random_salt();
    match argon2_hash_encoded(password.as_bytes(), salt.as_slice()) {
        Some(h) => h,
        None => {
            assert(false);
            String::new()
        },
    }
}

/// A new account, as it is stored: not verified yet, with a verification
/// code, and the hash of its password in place of the password.
#[derive(Debug, PartialEq, Eq)]
pub struct AccountPost {
    pub email: String,
    pub password: String,
    pub display_name: String,
    pub verified: bool,
    pub verification_code: Option<String>,
}

/// Makes the account of a sign-up: the request is checked first (its first
/// complaint is a bad request), then the password is hashed and a
/// verification code drawn. The stored hash accepts the signed-up password.
pub fn sign_up(sign_up_post: &SignUpPost) -> (r: Result<AccountPost, Error>)
    ensures
        spec_sign_up_error(sign_up_post.email@, sign_up_post.password@, sign_up_post.display_name@) matches Some(msg)
            ==> (r matches Err(Error::Custom(code, m)) && code == STATUS_BAD_REQUEST && m@ == msg),
        spec_sign_up_error(sign_up_post.email@, sign_up_post.password@, sign_up_post.display_name@) is None
            ==> (r matches Ok(a)
            && a.email@ == sign_up_post.email@
            && a.display_name@ == sign_up_post.display_name@
            && !a.verified
            && (a.verification_code matches Some(c) && c@.len() == VERIFICATION_CODE_LENGTH
                && forall|i: int| 0 <= i < c@.len() ==> is_alphanumeric(#[trigger] c@[i]))
            && spec_sign_in_error(Some(a.password@), sign_up_post.password@) is None),
{
    validate_sign_up(sign_up_post)?;
    let pw = sign_up_post.password.as_str();
    byte_len_exact(pw);
    let password = hash_password(pw);
    Ok(AccountPost {
        email: string_from(sign_up_post.email.as_str()),
        password,
        display_name: string_from(sign_up_post.display_name.as_str()),
        verified: false,
        verification_code: Some(get_code()),
    })
}

/// The error of a sign-up whose email or display name is taken.
pub fn email_display_name_taken() -> (e: Error)
    ensures
        e matches Error::Custom(code, m) && code == STATUS_BAD_REQUEST && m@ == EMAIL_DISPLAY_NAME_TAKEN_ERR_MSG@,
{
    bad_request(EMAIL_DISPLAY_NAME_TAKEN_ERR_MSG)
}

/// The role row that makes a new account an editor.
pub fn editor_role_post(account_id: i32) -> (r: AccountRole)
    ensures
        r.account_id == account_id,
        r.role_id == spec_role_id(RoleEnum::Editor),
        r.id == 0,
{
    AccountRole { id: 0, account_id, role_id: RoleEnum::Editor.as_role_id() }
}

/// The new password hash of a password reset: the password is checked as at
/// sign-up, then hashed. The hash accepts the new password.
pub fn reset_password(password: &str) -> (r: Result<String, Error>)
    ensures
        is_outcome(match r { Ok(_) => Ok(()), Err(e) => Err(e) }, spec_password_error(password@)),
        r matches Ok(h) ==> spec_sign_in_error(Some(h@), password@) is None,
{
    validate_password(password)?;
    byte_len_exact(password);
    Ok(hash_password(password))
}

/// A new API key of an account and the row that stores its hash.
#[derive(Debug, PartialEq, Eq)]
pub struct APIKeyPost {
    pub account_id: i32,
    pub content: String,
}

/// Draws a new API key for an account (100 random letters and digits) and
/// hashes it for storage; argon2 accepts the key against the stored hash.
pub fn reset_api_key(account_id: i32) -> (r: (String, APIKeyPost))
    ensures
        r.0@.len() == API_KEY_LENGTH,
        forall|i: int| 0 <= i < r.0@.len() ==> is_alphanumeric(#[trigger] r.0@[i]),
        r.1.account_id == account_id,
        spec_argon2_verify(r.1.content@, encode_utf8(r.0@)) == Some(true),
{
    let key = random_alphanumeric(API_KEY_LENGTH);
    proof {
        crate::strings::lemma_utf8_len_bound(key@);
    }
    let content = hash_password(key.as_str());
    (key, APIKeyPost { account_id, content })
}

/// The sender of the server's emails: `Tilings <address>`.
pub fn email_sender(smtp_email: &str) -> (from: String)
    ensures
        from@ == "Tilings <"@ + smtp_email@ + ">"@,
{
    let mut from = String::new();
    push_str(&mut from, "Tilings <");
    push_str(&mut from, smtp_email);
    push_str(&mut from, ">");
    from
}

/// The recipient of an email to an account: `display name <email>`.
pub fn email_recipient(display_name: &str, email: &str) -> (to: String)
    ensures
        to@ == display_name@ + " <"@ + email@ + ">"@,
{
    let mut to = String::new();
    push_str(&mut to, display_name);
    push_str(&mut to, " <");
    push_str(&mut to, email);
    push_str(&mut to, ">");
    to
}

/// The body of the email that asks to verify an account: the link to the
/// verification page with the account's code; an internal error where the
/// account has no code.
pub fn verification_email_body(client_host: &str, verify_path: &str, code: Option<&str>) -> (r: Result<String, Error>)
    ensures
        code matches Some(c) ==> (r matches Ok(b) && b@ == "Follow the link to verify your tilings account.\n"@
            + client_host@ + verify_path@ + "/"@ + c@),
        code is None ==> r == Err::<String, Error>(Error::Default),
{
    let code = match code {
        Some(c) => c,
        None => return Err(Error::Default),
    };
    let mut body = String::new();
    push_str(&mut body, "Follow the link to verify your tilings account.\n");
    push_str(&mut body, client_host);
    push_str(&mut body, verify_path);
    push_str(&mut body, "/");
    push_str(&mut body, code);
    Ok(body)
}

/// The body of the email with a password-reset link: the link to the reset
/// page with the account's code, and how long the link lasts; an internal
/// error where the account has no code.
pub fn password_reset_email_body(client_host: &str, reset_password_path: &str, code: Option<&str>) -> (r: Result<String, Error>)
    ensures
        code matches Some(c) ==> (r matches Ok(b) && b@ == "Follow the link to reset your password.\n"@
            + client_host@ + reset_password_path@ + "/"@ + c@ + "\nThis link will expire in "@
            + crate::strings::decimal(VALID_PASSWORD_RESET_CODE_DURATION_IN_MINUTES as nat) + " minutes."@),
        code is None ==> r == Err::<String, Error>(Error::Default),
{
    let code = match code {
        Some(c) => c,
        None => return Err(Error::Default),
    };
    let mut body = String::new();
    push_str(&mut body, "Follow the link to reset your password.\n");
    push_str(&mut body, client_host);
    push_str(&mut body, reset_password_path);
    push_str(&mut body, "/");
    push_str(&mut body, code);
    push_str(&mut body, "\nThis link will expire in ");
    crate::strings::push_decimal(&mut body, VALID_PASSWORD_RESET_CODE_DURATION_IN_MINUTES as u64);
    push_str(&mut body, " minutes.");
    Ok(body)
}

} // verus!
