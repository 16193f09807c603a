use bastion::security::{
    hash_password, hash_password_with_salt, verification_result, verify_password, Verification,
};

#[test]
fn test_password_hash_and_verify() {
    let password = "test_password_123!";
    let hash = hash_password(password).unwrap();

    assert!(verify_password(password, &hash).unwrap());
    assert!(!verify_password("wrong_password", &hash).unwrap());
}

#[test]
fn hash_is_an_argon2id_string_with_a_fresh_salt() {
    let first = hash_password("secret").unwrap();
    let second = hash_password("secret").unwrap();
    assert!(first.starts_with("$argon2id$v=19$m=19456,t=2,p=1$"));
    assert_ne!(first, second);
    assert_ne!(first, "secret");
}

#[test]
fn hash_with_a_given_salt_is_always_the_same() {
    let hash = hash_password_with_salt("secret", "c29tZXNhbHR2YWx1ZQ").unwrap();
    assert!(hash.starts_with("$argon2id$v=19$m=19456,t=2,p=1$c29tZXNhbHR2YWx1ZQ$"));
    assert_eq!(hash_password_with_salt("secret", "c29tZXNhbHR2YWx1ZQ").unwrap(), hash);
    assert_ne!(hash_password_with_salt("other", "c29tZXNhbHR2YWx1ZQ").unwrap(), hash);
    assert!(verify_password("secret", &hash).unwrap());
}

#[test]
fn salt_that_cannot_be_read_is_an_error() {
    assert!(hash_password_with_salt("secret", "").is_err());
    assert!(hash_password_with_salt("secret", "!!!").is_err());
}

#[test]
fn hash_that_cannot_be_read_is_an_error_not_a_mismatch() {
    assert!(verify_password("secret", "").is_err());
    assert!(verify_password("secret", "not a hash").is_err());
}

#[test]
fn verification_maps_to_the_result() {
    assert_eq!(verification_result(Verification::Match).ok(), Some(true));
    assert_eq!(verification_result(Verification::Mismatch).ok(), Some(false));
    let error = verification_result(Verification::Invalid("broken".to_string())).err().unwrap();
    assert_eq!(error.message, "broken");
}
