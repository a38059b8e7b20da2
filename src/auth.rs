use vstd::prelude::*;

use crate::errors::ApiError;

verus! {

/// The two kinds of bearer token.
#[derive(Debug, Clone, Copy, PartialEq, Eq, Structural)]
pub enum TokenType {
    /// Long-lived; only good for getting a new access token.
    Refresh,
    /// Short-lived; authorises mutating requests.
    Access,
}

/// What a token states: its subject, when it expires, from when it is valid
/// (both in seconds since the Unix epoch), its session and its kind.
#[derive(Debug)]
pub struct Claims {
    pub sub: String,
    pub exp: i64,
    pub nbf: i64,
    pub sid: String,
    pub token_type: TokenType,
}

/// Lifetime of an access token: five minutes.
pub const ACCESS_LIFETIME: i64 = 300;

/// Lifetime of a refresh token: five years of 365 days.
pub const REFRESH_LIFETIME: i64 = 5 * 365 * 86400;

/// A refresh token is not valid before four minutes have passed, a little
/// less than the access token issued with it lives.
pub const REFRESH_DELAY: i64 = 240;

/// Claims of an access token for user `name` in session `sid`, issued at
/// `now`.
pub fn access_claims(name: &str, sid: &str, now: i64) -> (r: Claims)
    requires
        now <= i64::MAX - ACCESS_LIFETIME,
    ensures
        r.sub@ == name@,
        r.sid@ == sid@,
        r.nbf == now,
        r.exp == now + ACCESS_LIFETIME,
        r.token_type == TokenType::Access,
{
    Claims {
        sub: String::from_str(name),
        exp: now + ACCESS_LIFETIME,
        nbf: now,
        sid: String::from_str(sid),
        token_type: TokenType::Access,
    }
}

/// Claims of a refresh token for the user whose id reads `subject`, in
/// session `sid`, issued at `now`.
pub fn refresh_claims(subject: &str, sid: &str, now: i64) -> (r: Claims)
    requires
        now <= i64::MAX - REFRESH_LIFETIME,
    ensures
        r.sub@ == subject@,
        r.sid@ == sid@,
        r.nbf == now + REFRESH_DELAY,
        r.exp == now + REFRESH_LIFETIME,
        r.token_type == TokenType::Refresh,
{
    Claims {
        sub: String::from_str(subject),
        exp: now + REFRESH_LIFETIME,
        nbf: now + REFRESH_DELAY,
        sid: String::from_str(sid),
        token_type: TokenType::Refresh,
    }
}

/// A request is authorised by a token that decoded and verified (signature,
/// expiry, not-before) into `claims`, and only when it is an access token.
pub fn is_authorised(claims: &Option<Claims>) -> (r: bool)
    ensures
        r == (claims is Some && claims->0.token_type == TokenType::Access),
{
    match claims {
        Some(c) => c.token_type == TokenType::Access,
        None => false,
    }
}

pub open spec fn is_hex_digit(c: char) -> bool {
    ('0' <= c <= '9') || ('a' <= c <= 'f') || ('A' <= c <= 'F')
}

pub open spec fn hex_digit_value(c: char) -> int {
    if '0' <= c <= '9' {
        (c as u32) - ('0' as u32)
    } else if 'a' <= c <= 'f' {
        (c as u32) - ('a' as u32) + 10
    } else {
        (c as u32) - ('A' as u32) + 10
    }
}

/// The number that a run of hex digits reads, most significant first.
pub open spec fn hex_number(d: Seq<char>) -> int
    decreases d.len(),
{
    if d.len() == 0 {
        0
    } else {
        hex_number(d.drop_last()) * 16 + hex_digit_value(d.last())
    }
}

/// The 32 digits of the 8-4-4-4-12 form, when the hyphens stand where they
/// should.
pub open spec fn hyphenated_digits(s: Seq<char>) -> Option<Seq<char>> {
    if s.len() == 36 && s[8] == '-' && s[13] == '-' && s[18] == '-' && s[23] == '-' {
        Some(s.subrange(0, 8) + s.subrange(9, 13) + s.subrange(14, 18) + s.subrange(19, 23) + s.subrange(24, 36))
    } else {
        None
    }
}

/// `c` is `lower`, or its ASCII upper case.
pub open spec fn same_letter(c: char, lower: char) -> bool {
    c == lower || ('a' <= lower <= 'z' && (c as u32) + 32 == (lower as u32))
}

/// The digits of a UUID text in one of its four shapes: 32 hex digits; the
/// hyphenated form; the hyphenated form in braces; or the hyphenated form
/// after `urn:uuid:`, in any case.
pub open spec fn uuid_digits(s: Seq<char>) -> Option<Seq<char>> {
    if s.len() == 32 {
        Some(s)
    } else if s.len() == 36 {
        hyphenated_digits(s)
    } else if s.len() == 38 && s[0] == '{' && s[37] == '}' {
        hyphenated_digits(s.subrange(1, 37))
    } else if s.len() == 45 && forall|k: int| 0 <= k < 9 ==> same_letter(#[trigger] s[k], "urn:uuid:"@[k]) {
        hyphenated_digits(s.subrange(9, 45))
    } else {
        None
    }
}

/// The 128-bit value of a UUID text, or `None` where the text is not one.
pub open spec fn uuid_value(s: Seq<char>) -> Option<u128> {
    match uuid_digits(s) {
        Some(d) => if forall|k: int| 0 <= k < d.len() ==> is_hex_digit(#[trigger] d[k]) {
            Some(hex_number(d) as u128)
        } else {
            None
        },
        None => None,
    }
}

/// Relies on `uuid::Uuid::parse_str`, which reads the shapes of
/// `uuid_digits` with hex digits of either case, and on `Uuid::as_u128`,
/// which reads the 32 digits as one big-endian number.
#[verifier::external_body]
fn parse_uuid(s: &str) -> (r: Option<u128>)
    ensures
        r == uuid_value(s@),
{
    uuid::Uuid::parse_str(s).ok().map(|u| u.as_u128())
}

/// The session that a refresh token names, as the 128-bit value of its UUID.
/// `claims` is the decoded and verified token, or `None` where it did not
/// verify.
pub fn refresh_session(claims: &Option<Claims>) -> (r: Result<u128, ApiError>)
    ensures
        claims is None ==> r == Err::<u128, ApiError>(ApiError::Authentication),
        claims is Some && claims->0.token_type != TokenType::Refresh ==> r == Err::<u128, ApiError>(
            ApiError::Authorization,
        ),
        claims is Some && claims->0.token_type == TokenType::Refresh ==> r == match uuid_value(claims->0.sid@) {
            Some(v) => Ok::<u128, ApiError>(v),
            None => Err(ApiError::Authentication),
        },
{
    match claims {
        None => Err(ApiError::Authentication),
        Some(c) => {
            if c.token_type != TokenType::Refresh {
                return Err(ApiError::Authorization);
            }
            match parse_uuid(c.sid.as_str()) {
                Some(u) => Ok(u),
                None => Err(ApiError::Authentication),
            }
        },
    }
}

/// Whether `password` matches the bcrypt `hash`.
pub uninterp spec fn bcrypt_verifies(password: Seq<char>, hash: Seq<char>) -> bool;

/// Relies on `bcrypt::verify`: it hashes `password` with the cost and salt
/// that `hash` holds and compares; a hash that does not parse matches no
/// password.
#[verifier::external_body]
fn password_matches(password: &str, hash: &str) -> (r: bool)
    ensures
        r == bcrypt_verifies(password@, hash@),
{
    bcrypt::verify(password, hash).unwrap_or(false)
}

/// An administrator account as stored.
#[derive(Debug)]
pub struct AdminUser {
    pub id: i32,
    pub password_hash: String,
}

/// Checks a login: `user` is the account stored under the given name, if
/// any. Gives the account's id when the password matches its hash.
pub fn check_login(user: &Option<AdminUser>, password: &str) -> (r: Result<i32, ApiError>)
    ensures
        user is None ==> r == Err::<i32, ApiError>(ApiError::Authentication),
        user is Some ==> r == if bcrypt_verifies(password@, user->0.password_hash@) {
            Ok::<i32, ApiError>(user->0.id)
        } else {
            Err(ApiError::Authentication)
        },
{
    match user {
        None => Err(ApiError::Authentication),
        Some(u) => {
            if password_matches(password, u.password_hash.as_str()) {
                Ok(u.id)
            } else {
                Err(ApiError::Authentication)
            }
        },
    }
}

} // verus!
