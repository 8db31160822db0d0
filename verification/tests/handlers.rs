use otushw_web_back::{
    build_search_query, login, register, validate_token, Date, LoginRequest, MyError,
    RegisterRequest,
};

const KEY: &[u8] = b"test-signing-key";
const NOW: u64 = 1_700_000_000;

fn ann_lee() -> RegisterRequest {
    RegisterRequest {
        first_name: "Ann".to_string(),
        second_name: "Lee".to_string(),
        birthdate: Date::new(1990, 1, 1).expect("a real date"),
        biography: "".to_string(),
        city: "Oslo".to_string(),
        password: "p@ss".to_string(),
    }
}

#[test]
fn register_login_get_search_scenario() {
    let request = ann_lee();
    let (profile, stored_hash) = register(&request).expect("registration should succeed");

    // the response repeats the profile fields and carries no password
    assert_eq!(profile.first_name, "Ann");
    assert_eq!(profile.second_name, "Lee");
    assert_eq!(profile.birthdate, Date { year: 1990, month: 1, day: 1 });
    assert_eq!(profile.biography, "");
    assert_eq!(profile.city, "Oslo");
    assert_ne!(stored_hash, "p@ss");

    // login with the right password: a nonempty bearer token
    let good = LoginRequest { id: profile.id, password: "p@ss".to_string() };
    let token = login(KEY, &good, &Some(stored_hash.clone()), NOW).expect("login should succeed");
    assert!(!token.is_empty());

    // login with the wrong password: the generic authentication failure
    let bad = LoginRequest { id: profile.id, password: "wrong".to_string() };
    let r = login(KEY, &bad, &Some(stored_hash.clone()), NOW);
    assert_eq!(r.unwrap_err(), MyError::ArgonError);

    // a protected read would validate the token first; it names the user
    let claims = validate_token(KEY, &token, NOW + 1).expect("the token must validate");
    assert_eq!(claims.id, profile.id);

    // the search the scenario runs: one first-name filter
    let q = build_search_query(&Some("An".to_string()), &None).expect("one filter is enough");
    assert_eq!(q.params, vec!["An%".to_string()]);
    assert!(q.sql.contains("u.first_name LIKE $1"));
    assert!(q.sql.ends_with(" ORDER BY u.id"));
}

#[test]
fn login_unknown_user_is_the_same_failure_as_wrong_password() {
    let request = ann_lee();
    let (profile, stored_hash) = register(&request).expect("registration should succeed");
    let attempt = LoginRequest { id: profile.id, password: "wrong".to_string() };
    let unknown = login(KEY, &attempt, &None, NOW).unwrap_err();
    let mismatch = login(KEY, &attempt, &Some(stored_hash), NOW).unwrap_err();
    assert_eq!(unknown, mismatch);
}

#[test]
fn register_assigns_fresh_identifiers() {
    let (first, _) = register(&ann_lee()).expect("registration should succeed");
    let (second, _) = register(&ann_lee()).expect("registration should succeed");
    assert_ne!(first.id, second.id);
}

#[test]
fn search_without_filters_is_refused() {
    assert!(build_search_query(&None, &None).is_none());
}

#[test]
fn search_with_both_filters_numbers_both_placeholders() {
    let q = build_search_query(&Some("An".to_string()), &Some("Le".to_string()))
        .expect("two filters are enough");
    assert_eq!(q.params, vec!["An%".to_string(), "Le%".to_string()]);
    assert!(q.sql.contains("u.first_name LIKE $1"));
    assert!(q.sql.contains(" AND u.second_name LIKE $2"));
    assert!(q.sql.ends_with(" ORDER BY u.id"));
}

#[test]
fn search_with_second_name_only_uses_the_first_placeholder() {
    let q = build_search_query(&None, &Some("Le".to_string())).expect("one filter is enough");
    assert_eq!(q.params, vec!["Le%".to_string()]);
    assert!(q.sql.contains("u.second_name LIKE $1"));
    assert!(!q.sql.contains("$2"));
}

#[test]
fn search_parameterizes_hostile_input() {
    let hostile = "x' OR '1'='1".to_string();
    let q = build_search_query(&Some(hostile.clone()), &None).expect("one filter is enough");
    assert!(!q.sql.contains("OR '1'='1"), "filter text must never reach the SQL");
    assert_eq!(q.params, vec![format!("{}%", hostile)]);
}

#[test]
fn date_validity_follows_the_calendar() {
    assert!(Date::new(1990, 1, 1).is_some());
    assert!(Date::new(2024, 2, 29).is_some());
    assert!(Date::new(2000, 2, 29).is_some());
    assert!(Date::new(2023, 2, 29).is_none());
    assert!(Date::new(1900, 2, 29).is_none());
    assert!(Date::new(1990, 13, 1).is_none());
    assert!(Date::new(1990, 0, 1).is_none());
    assert!(Date::new(1990, 4, 31).is_none());
    assert!(Date::new(1990, 1, 0).is_none());
}
