use otushw_web_back::{check_password, hash_password, MyError};

#[test]
fn hash_then_verify_succeeds() {
    let password = "p@ss".to_string();
    let hash = hash_password(&password).expect("hashing should succeed");
    assert!(check_password(&password, &hash).is_ok());
}

#[test]
fn verify_rejects_other_passwords() {
    let pairs = [
        ("p@ss", "wrong"),
        ("correct horse battery staple", "correct horse battery stable"),
        ("", "not empty"),
        ("aaaaaaaa", "aaaaaaab"),
    ];
    for (p, q) in pairs {
        let hash = hash_password(&p.to_string()).expect("hashing should succeed");
        let r = check_password(&q.to_string(), &hash);
        assert!(r.is_err(), "{:?} must not verify against hash of {:?}", q, p);
        assert_eq!(r.unwrap_err(), MyError::ArgonError);
    }
}

#[test]
fn hash_twice_gives_distinct_encodings() {
    let password = "p@ss".to_string();
    let h1 = hash_password(&password).expect("hashing should succeed");
    let h2 = hash_password(&password).expect("hashing should succeed");
    assert_ne!(h1, h2, "two hashes of one password must differ in their salts");
    assert!(check_password(&password, &h1).is_ok());
    assert!(check_password(&password, &h2).is_ok());
}

#[test]
fn malformed_stored_hash_is_a_verification_failure() {
    let r = check_password(&"anything".to_string(), &"not a hash".to_string());
    assert_eq!(r.unwrap_err(), MyError::ArgonError);
}

#[test]
fn hash_is_not_the_password() {
    let password = "p@ss".to_string();
    let hash = hash_password(&password).expect("hashing should succeed");
    assert_ne!(hash, password);
    assert!(hash.starts_with("$argon2"));
}
