use scoreboard::auth::{
    access_claims, check_login, is_authorised, refresh_claims, refresh_session, AdminUser, Claims, TokenType,
    ACCESS_LIFETIME, REFRESH_DELAY, REFRESH_LIFETIME,
};
use scoreboard::birthday::{is_birthday, modify_birthday, CalendarDay};
use scoreboard::errors::ApiError;

const SID: &str = "550e8400-e29b-41d4-a716-446655440000";

fn claims(kind: TokenType, sid: &str) -> Claims {
    Claims { sub: "admin".to_string(), exp: 10, nbf: 0, sid: sid.to_string(), token_type: kind }
}

#[test]
fn access_claims_live_five_minutes() {
    let c = access_claims("admin", SID, 1_000);
    assert_eq!(c.sub, "admin");
    assert_eq!(c.sid, SID);
    assert_eq!(c.nbf, 1_000);
    assert_eq!(c.exp, 1_300);
    assert_eq!(c.token_type, TokenType::Access);
    assert_eq!(ACCESS_LIFETIME, 300);
}

#[test]
fn refresh_claims_live_five_years_after_a_delay() {
    let c = refresh_claims("17", SID, 1_000);
    assert_eq!(c.sub, "17");
    assert_eq!(c.nbf, 1_240);
    assert_eq!(c.exp, 1_000 + 157_680_000);
    assert_eq!(c.token_type, TokenType::Refresh);
    assert_eq!((REFRESH_DELAY, REFRESH_LIFETIME), (240, 157_680_000));
}

#[test]
fn only_access_tokens_authorise() {
    assert!(is_authorised(&Some(claims(TokenType::Access, SID))));
    assert!(!is_authorised(&Some(claims(TokenType::Refresh, SID))));
    assert!(!is_authorised(&None));
}

#[test]
fn refresh_needs_a_refresh_token_with_a_session_id() {
    let ok = refresh_session(&Some(claims(TokenType::Refresh, SID))).expect("valid session id");
    assert_eq!(ok, u128::from_str_radix("550e8400e29b41d4a716446655440000", 16).unwrap());
    assert_eq!(refresh_session(&Some(claims(TokenType::Access, SID))), Err(ApiError::Authorization));
    assert_eq!(refresh_session(&None), Err(ApiError::Authentication));
    assert_eq!(refresh_session(&Some(claims(TokenType::Refresh, "not-a-session"))), Err(ApiError::Authentication));
}

#[test]
fn login_checks_the_bcrypt_hash() {
    let user = Some(AdminUser {
        id: 3,
        password_hash: "$2a$04$UuTkLRZZ6QofpDOlMz32MuuxEHA43WOemOYHPz6.SjsVsyO1tDU96".to_string(),
    });
    assert_eq!(check_login(&user, "password"), Ok(3));
    assert_eq!(check_login(&user, "wrong"), Err(ApiError::Authentication));
    assert_eq!(check_login(&None, "password"), Err(ApiError::Authentication));
    let broken = Some(AdminUser { id: 3, password_hash: "not a hash".to_string() });
    assert_eq!(check_login(&broken, "password"), Err(ApiError::Authentication));
}

#[test]
fn error_statuses() {
    assert_eq!(ApiError::Authentication.status_code(), 401);
    assert_eq!(ApiError::Authorization.status_code(), 401);
    assert_eq!(ApiError::Conflict.status_code(), 409);
    assert_eq!(ApiError::NotFound.status_code(), 404);
    assert_eq!(ApiError::Internal.status_code(), 500);
    let p = ApiError::Precondition.status_code();
    assert!((400..500).contains(&p) && p != 404 && p != 400);
}

#[test]
fn birthday_decorates_the_name() {
    let today = CalendarDay { year: 2024, month: 3, day: 9 };
    let bday = Some(CalendarDay { year: 1990, month: 3, day: 9 });
    let other = Some(CalendarDay { year: 1990, month: 9, day: 3 });
    assert!(is_birthday(&bday, today));
    assert!(!is_birthday(&other, today));
    assert!(!is_birthday(&None, today));
    assert_eq!(modify_birthday("ann", &bday, today), "\u{1f381} ann");
    assert_eq!(modify_birthday("ann", &other, today), "ann");
    assert_eq!(modify_birthday("ann", &None, today), "ann");
}

#[test]
fn session_ids_in_every_uuid_shape() {
    let value = u128::from_str_radix("550e8400e29b41d4a716446655440000", 16).unwrap();
    for text in [
        "550e8400e29b41d4a716446655440000",
        "550E8400-E29B-41D4-A716-446655440000",
        "{550e8400-e29b-41d4-a716-446655440000}",
        "urn:uuid:550e8400-e29b-41d4-a716-446655440000",
        "URN:UUID:550e8400-e29b-41d4-a716-446655440000",
    ] {
        assert_eq!(refresh_session(&Some(claims(TokenType::Refresh, text))), Ok(value), "{text}");
    }
    for text in [
        "550e8400e29b41d4a71644665544000g",
        "550e8400-e29b-41d4-a716_446655440000",
        "{550e8400e29b41d4a716446655440000}",
        "urn:uuix:550e8400-e29b-41d4-a716-446655440000",
        "550e8400-e29b-41d4-a716-44665544000",
        "",
    ] {
        assert_eq!(refresh_session(&Some(claims(TokenType::Refresh, text))), Err(ApiError::Authentication), "{text}");
    }
}
