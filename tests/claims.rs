use rcli::jwt::{check_claims, claims_current, parse_timestamp, sign_claims, ClaimError, SignClaims};

#[test]
fn timestamps_parse() {
    assert_eq!(parse_timestamp(Some("1431648000")), Ok(1431648000));
    assert_eq!(parse_timestamp(Some("-5")), Ok(-5));
    assert_eq!(parse_timestamp(Some("12a")), Err(ClaimError::NotANumber));
    assert_eq!(parse_timestamp(None), Err(ClaimError::Missing));
    assert_eq!(parse_timestamp(Some("9223372036854775807")), Err(ClaimError::OutOfRange));
}

#[test]
fn current_window_edges() {
    assert!(claims_current(100, 500, 101, 100, 99));
    assert!(!claims_current(100, 0, 101, 100, 99));
    assert!(!claims_current(101, 0, 101, 100, 99));
    assert!(claims_current(100, 999_999_999, 101, 99, 100));
    assert!(!claims_current(-10, 0, 0, -5, -20));
}

#[test]
fn claims_are_checked_in_order() {
    assert_eq!(check_claims(100, 1, None, Some("x"), Some("1")), Err(ClaimError::Missing));
    assert_eq!(check_claims(100, 1, Some("200"), Some("x"), None), Err(ClaimError::NotANumber));
    assert_eq!(check_claims(100, 1, Some("200"), Some("50"), None), Err(ClaimError::Missing));
    assert_eq!(check_claims(100, 1, Some("200"), Some("50"), Some("60")), Ok(()));
    assert_eq!(check_claims(300, 0, Some("200"), Some("50"), Some("60")), Err(ClaimError::Expired));
}

#[test]
fn sign_claims_in_order() {
    let c = SignClaims {
        subject: Some("me".to_string()),
        issuer: None,
        expiration_time: Some(1700000000),
        audience: None,
        nbf: Some(-3),
        iat: None,
        jti: Some("id-1".to_string()),
    };
    let claims = sign_claims(&c, "payload".to_string());
    let expected: Vec<(String, String)> = vec![
        ("sub".into(), "me".into()),
        ("exp".into(), "1700000000".into()),
        ("nbf".into(), "-3".into()),
        ("jti".into(), "id-1".into()),
        ("data".into(), "payload".into()),
    ];
    assert_eq!(claims, expected);
}

#[test]
fn sign_claims_data_only() {
    let c = SignClaims {
        subject: None,
        issuer: None,
        expiration_time: None,
        audience: None,
        nbf: None,
        iat: None,
        jti: None,
    };
    assert_eq!(sign_claims(&c, String::new()), vec![("data".to_string(), String::new())]);
}
