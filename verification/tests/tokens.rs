use otushw_web_back::{generate_token, validate_token, TokenError, TOKEN_LIFETIME_SECS};

const KEY: &[u8] = b"test-signing-key";
const NOW: u64 = 1_700_000_000;
const ID: u128 = 0x0123_4567_89ab_cdef_0123_4567_89ab_cdef;

#[test]
fn issue_then_validate_within_lifetime() {
    let token = generate_token(KEY, ID, NOW).expect("issuing should succeed");
    let claims = validate_token(KEY, &token, NOW + 1).expect("a fresh token must validate");
    assert_eq!(claims.id, ID);
    assert_eq!(claims.exp, NOW + TOKEN_LIFETIME_SECS);
    let at_issue = validate_token(KEY, &token, NOW).expect("valid at the moment of issue");
    assert_eq!(at_issue.id, ID);
    let last_moment = validate_token(KEY, &token, NOW + TOKEN_LIFETIME_SECS - 1);
    assert!(last_moment.is_ok());
}

#[test]
fn lifetime_is_fifteen_minutes() {
    assert_eq!(TOKEN_LIFETIME_SECS, 15 * 60);
}

#[test]
fn validate_after_lifetime_reports_expiry() {
    let token = generate_token(KEY, ID, NOW).expect("issuing should succeed");
    let r = validate_token(KEY, &token, NOW + TOKEN_LIFETIME_SECS);
    assert_eq!(r.unwrap_err(), TokenError::Expired);
    let much_later = validate_token(KEY, &token, NOW + 10 * TOKEN_LIFETIME_SECS);
    assert_eq!(much_later.unwrap_err(), TokenError::Expired);
}

#[test]
fn tampered_signature_byte_fails() {
    let token = generate_token(KEY, ID, NOW).expect("issuing should succeed");
    let mut chars: Vec<char> = token.chars().collect();
    let last = chars.len() - 1;
    chars[last] = if chars[last] == 'A' { 'B' } else { 'A' };
    let tampered: String = chars.into_iter().collect();
    assert_ne!(token, tampered);
    let r = validate_token(KEY, &tampered, NOW + 1);
    assert_eq!(r.unwrap_err(), TokenError::InvalidSignature);
}

#[test]
fn tampered_payload_fails() {
    let token = generate_token(KEY, ID, NOW).expect("issuing should succeed");
    let first_dot = token.find('.').unwrap();
    let mut chars: Vec<char> = token.chars().collect();
    let i = first_dot + 2;
    chars[i] = if chars[i] == 'A' { 'B' } else { 'A' };
    let tampered: String = chars.into_iter().collect();
    assert!(validate_token(KEY, &tampered, NOW + 1).is_err());
}

#[test]
fn wrong_key_fails() {
    let token = generate_token(KEY, ID, NOW).expect("issuing should succeed");
    let r = validate_token(b"another-signing-key", &token, NOW + 1);
    assert_eq!(r.unwrap_err(), TokenError::InvalidSignature);
}

#[test]
fn malformed_tokens_are_classified_as_malformed() {
    for bad in ["", "garbage", "a.b", "a.b.c.d", "..", "\u{1F600}.x.y"] {
        let r = validate_token(KEY, bad, NOW);
        assert_eq!(r.unwrap_err(), TokenError::Malformed, "on input {:?}", bad);
    }
}

#[test]
fn token_has_three_segments_and_canonical_header() {
    let token = generate_token(KEY, ID, NOW).expect("issuing should succeed");
    let parts: Vec<&str> = token.split('.').collect();
    assert_eq!(parts.len(), 3);
    // the standard base64url text of {"typ":"JWT","alg":"HS256"}
    assert_eq!(parts[0], "eyJ0eXAiOiJKV1QiLCJhbGciOiJIUzI1NiJ9");
    assert!(!parts[1].is_empty());
    assert!(!parts[2].is_empty());
}

#[test]
fn signature_is_the_one_jsonwebtoken_computes() {
    let token = generate_token(KEY, ID, NOW).expect("issuing should succeed");
    let second_dot = token.rfind('.').unwrap();
    let (message, rest) = token.split_at(second_dot);
    let signature = &rest[1..];
    let key = jsonwebtoken::DecodingKey::from_secret(KEY);
    let ok = jsonwebtoken::crypto::verify(
        signature,
        message.as_bytes(),
        &key,
        jsonwebtoken::Algorithm::HS256,
    )
    .expect("verification should run");
    assert!(ok, "the token signature must be the HMAC-SHA256 tag of its first two segments");
}

#[test]
fn same_inputs_give_the_same_token() {
    let t1 = generate_token(KEY, ID, NOW).unwrap();
    let t2 = generate_token(KEY, ID, NOW).unwrap();
    assert_eq!(t1, t2, "the token is a function of key, identifier and time");
}

#[test]
fn distinct_users_get_distinct_tokens() {
    let t1 = generate_token(KEY, 1, NOW).unwrap();
    let t2 = generate_token(KEY, 2, NOW).unwrap();
    assert_ne!(t1, t2);
    assert_eq!(validate_token(KEY, &t1, NOW).unwrap().id, 1);
    assert_eq!(validate_token(KEY, &t2, NOW).unwrap().id, 2);
}
