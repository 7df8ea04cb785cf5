use credential_auth::{
    check_claims, claims_for, find_signature_dot, get_jwt_for_user, login, verify_token,
    CredentialStore, IssueError, LoginOutcome, RegisterOutcome, TokenError, JWT_HEADER_SEGMENT,
    TOKEN_TTL_SECS,
};

const SECRET: &[u8] = b"our_secret";
const NOW: u64 = 1_700_000_000;

fn s(x: &str) -> String {
    x.to_string()
}

fn signed(payload: serde_json::Value, secret: &[u8]) -> String {
    jsonwebtoken::encode(
        &jsonwebtoken::Header::default(),
        &payload,
        &jsonwebtoken::EncodingKey::from_secret(secret),
    )
    .unwrap()
}

#[test]
fn claims_window_is_sixty_seconds() {
    assert_eq!(TOKEN_TTL_SECS, 60);
    let c = claims_for(&s("bob"), 100).unwrap();
    assert_eq!(c.sub, "bob");
    assert_eq!(c.iat, 100);
    assert_eq!(c.exp, 160);
    assert!(claims_for(&s("bob"), u64::MAX - 59).is_none());
    assert_eq!(claims_for(&s("bob"), u64::MAX - 60).unwrap().exp, u64::MAX);
}

#[test]
fn issue_fails_when_expiry_overflows() {
    assert_eq!(get_jwt_for_user(&s("bob"), u64::MAX, SECRET), Err(IssueError::ClockOutOfRange));
}

#[test]
fn issued_token_has_three_segments_and_hs256_header() {
    let t = get_jwt_for_user(&s("bob"), NOW, SECRET).unwrap();
    assert_eq!(t.split('.').count(), 3);
    assert_ne!(t, "bob");
    let header = jsonwebtoken::decode_header(&t).unwrap();
    assert_eq!(header.alg, jsonwebtoken::Algorithm::HS256);
    let k = find_signature_dot(&t).unwrap();
    assert_eq!(k, t.rfind('.').unwrap());
    assert_eq!(t.split('.').next().unwrap(), JWT_HEADER_SEGMENT);
    assert_eq!(JWT_HEADER_SEGMENT, "eyJ0eXAiOiJKV1QiLCJhbGciOiJIUzI1NiJ9");
}

#[test]
fn issuing_is_deterministic() {
    let a = get_jwt_for_user(&s("bob"), NOW, SECRET).unwrap();
    let b = get_jwt_for_user(&s("bob"), NOW, SECRET).unwrap();
    assert_eq!(a, b);
    assert_ne!(a, get_jwt_for_user(&s("bob"), NOW + 1, SECRET).unwrap());
    assert_ne!(a, get_jwt_for_user(&s("bob"), NOW, b"other_secret").unwrap());
    assert_ne!(a, get_jwt_for_user(&s("rob"), NOW, SECRET).unwrap());
}

#[test]
fn issued_token_verifies_until_expiry() {
    let t = get_jwt_for_user(&s("bob"), NOW, SECRET).unwrap();
    assert_eq!(verify_token(&t, NOW, SECRET), Ok(s("bob")));
    assert_eq!(verify_token(&t, NOW + 60, SECRET), Ok(s("bob")));
    assert_eq!(verify_token(&t, NOW + 61, SECRET), Err(TokenError::Expired));
}

#[test]
fn token_payload_carries_the_claims() {
    let t = get_jwt_for_user(&s("alice"), NOW, SECRET).unwrap();
    let mut v = jsonwebtoken::Validation::new(jsonwebtoken::Algorithm::HS256);
    v.validate_exp = false;
    let data = jsonwebtoken::decode::<serde_json::Value>(
        &t,
        &jsonwebtoken::DecodingKey::from_secret(SECRET),
        &v,
    )
    .unwrap();
    assert_eq!(data.claims["sub"], "alice");
    assert_eq!(data.claims["iat"], NOW);
    assert_eq!(data.claims["exp"], NOW + 60);
    assert_eq!(data.claims.as_object().unwrap().len(), 3);
}

#[test]
fn tampered_signature_is_rejected() {
    let t = get_jwt_for_user(&s("bob"), NOW, SECRET).unwrap();
    let k = t.rfind('.').unwrap();
    let chars: Vec<char> = t.chars().collect();
    for j in (k + 1)..chars.len() {
        for repl in ['A', 'z', '0', '.', '-'] {
            if chars[j] == repl {
                continue;
            }
            let mut c = chars.clone();
            c[j] = repl;
            let bad: String = c.into_iter().collect();
            assert!(verify_token(&bad, NOW, SECRET).is_err());
            assert!(verify_token(&bad, 0, SECRET).is_err());
        }
    }
}

#[test]
fn wrong_secret_is_bad_signature() {
    let t = get_jwt_for_user(&s("bob"), NOW, SECRET).unwrap();
    assert_eq!(verify_token(&t, NOW, b"other_secret"), Err(TokenError::BadSignature));
}

#[test]
fn malformed_tokens_are_rejected() {
    assert_eq!(verify_token("", NOW, SECRET), Err(TokenError::Malformed));
    assert_eq!(verify_token("abc", NOW, SECRET), Err(TokenError::Malformed));
    assert_eq!(verify_token("a.b", NOW, SECRET), Err(TokenError::Malformed));
    assert_eq!(verify_token("a.b.c.d", NOW, SECRET), Err(TokenError::Malformed));
    assert_eq!(verify_token("a.b.c", NOW, SECRET), Err(TokenError::BadSignature));
    assert_eq!(find_signature_dot("a.b.c"), Some(3));
    assert_eq!(find_signature_dot("..."), None);
    assert_eq!(find_signature_dot("a..b"), Some(2));
}

#[test]
fn payload_without_required_fields_is_malformed() {
    let no_exp = signed(serde_json::Value::from(serde_json::Map::from_iter([
        (s("sub"), serde_json::Value::from("bob")),
        (s("iat"), serde_json::Value::from(NOW)),
    ])), SECRET);
    assert_eq!(verify_token(&no_exp, NOW, SECRET), Err(TokenError::Malformed));
    let sub_number = signed(serde_json::Value::from(serde_json::Map::from_iter([
        (s("sub"), serde_json::Value::from(7)),
        (s("iat"), serde_json::Value::from(NOW)),
        (s("exp"), serde_json::Value::from(NOW + 60)),
    ])), SECRET);
    assert_eq!(verify_token(&sub_number, NOW, SECRET), Err(TokenError::Malformed));
    let full = signed(serde_json::Value::from(serde_json::Map::from_iter([
        (s("sub"), serde_json::Value::from("eve")),
        (s("iat"), serde_json::Value::from(NOW)),
        (s("exp"), serde_json::Value::from(NOW + 5)),
    ])), SECRET);
    assert_eq!(verify_token(&full, NOW + 5, SECRET), Ok(s("eve")));
    assert_eq!(verify_token(&full, NOW + 6, SECRET), Err(TokenError::Expired));
}

#[test]
fn check_claims_decides_on_fields() {
    assert_eq!(check_claims(Some((Some(s("a")), Some(1), Some(10), 3)), 10), Ok(s("a")));
    assert_eq!(check_claims(Some((Some(s("a")), Some(1), Some(10), 3)), 11), Err(TokenError::Expired));
    assert_eq!(check_claims(Some((None, Some(1), Some(10), 3)), 5), Err(TokenError::Malformed));
    assert_eq!(check_claims(Some((Some(s("a")), None, Some(10), 3)), 5), Err(TokenError::Malformed));
    assert_eq!(check_claims(Some((Some(s("a")), Some(1), None, 3)), 5), Err(TokenError::Malformed));
    assert_eq!(check_claims(None, 5), Err(TokenError::Malformed));
}

#[test]
fn password_must_match_exactly() {
    let mut store = CredentialStore::new();
    store.register(s("alice"), s("secret"));
    match login(&store, &s("alice"), &s("secret"), NOW, SECRET) {
        Ok(LoginOutcome::Valid(t)) => assert_eq!(verify_token(&t, NOW, SECRET), Ok(s("alice"))),
        other => panic!("unexpected {:?}", other),
    }
    assert_eq!(login(&store, &s("alice"), &s("secre"), NOW, SECRET), Ok(LoginOutcome::Invalid));
    assert_eq!(login(&store, &s("alice"), &s("Secret"), NOW, SECRET), Ok(LoginOutcome::Invalid));
}

#[test]
fn unknown_user_and_wrong_password_are_alike() {
    let mut store = CredentialStore::new();
    store.register(s("alice"), s("secret"));
    let ghost = login(&store, &s("ghost"), &s("x"), NOW, SECRET);
    let wrong = login(&store, &s("alice"), &s("wrong"), NOW, SECRET);
    assert_eq!(ghost, Ok(LoginOutcome::Invalid));
    assert_eq!(ghost, wrong);
}

#[test]
fn login_overflowing_clock_is_an_error() {
    let mut store = CredentialStore::new();
    store.register(s("alice"), s("secret"));
    assert_eq!(
        login(&store, &s("alice"), &s("secret"), u64::MAX, SECRET),
        Err(IssueError::ClockOutOfRange)
    );
    assert_eq!(login(&store, &s("alice"), &s("nope"), u64::MAX, SECRET), Ok(LoginOutcome::Invalid));
}

#[test]
fn bob_scenario() {
    let mut store = CredentialStore::new();
    assert_eq!(store.register(s("bob"), s("pw1")), RegisterOutcome::Created);
    assert_eq!(store.register(s("bob"), s("pw2")), RegisterOutcome::Conflict);
    match login(&store, &s("bob"), &s("pw1"), NOW, SECRET) {
        Ok(LoginOutcome::Valid(t)) => assert_eq!(verify_token(&t, NOW, SECRET), Ok(s("bob"))),
        other => panic!("unexpected {:?}", other),
    }
    assert_eq!(login(&store, &s("bob"), &s("pw2"), NOW, SECRET), Ok(LoginOutcome::Invalid));
}
