use fileshare_core::{PasswordError, PasswordManager, PasswordStrengthLevel, SecureString};

#[test]
fn test_password_hashing() {
    let manager = PasswordManager::new();
    let password = "test_password_123";

    let hash = manager.hash_password(password).unwrap();
    assert!(!hash.is_empty());

    assert!(manager.verify_password(password, &hash).unwrap());
    assert!(!manager.verify_password("wrong_password", &hash).unwrap());
}

#[test]
fn test_password_generation() {
    let password = PasswordManager::generate_secure_password(16);
    assert_eq!(password.len(), 16);

    let has_upper = password.chars().any(|c| c.is_uppercase());
    let has_lower = password.chars().any(|c| c.is_lowercase());
    let has_digit = password.chars().any(|c| c.is_numeric());

    assert!(has_upper || has_lower || has_digit);
}

#[test]
fn test_password_strength() {
    let weak = PasswordManager::check_password_strength("123");
    assert_eq!(weak.level, PasswordStrengthLevel::Weak);

    let strong = PasswordManager::check_password_strength("MyStr0ng!P@ssw0rd");
    assert!(matches!(strong.level, PasswordStrengthLevel::Strong | PasswordStrengthLevel::VeryStrong));
}

#[test]
fn test_secure_string() {
    let mut secure = SecureString::new("secret".to_string());
    assert_eq!(secure.as_str().unwrap(), "secret");
    assert_eq!(secure.len(), 6);

    secure.zeroize();
    assert!(secure.is_empty());
}

#[test]
fn hash_is_a_self_describing_argon2_string() {
    let manager = PasswordManager::default();
    let hash = manager.hash_password("pw").unwrap();
    assert!(hash.starts_with("$argon2id$"));
    assert_ne!(hash, manager.hash_password("pw").unwrap());
}

#[test]
fn verify_rejects_other_password_hash() {
    let manager = PasswordManager::new();
    let other = manager.hash_password("other").unwrap();
    assert_eq!(manager.verify_password("mine", &other), Ok(false));
}

#[test]
fn malformed_hash_is_a_handled_failure() {
    let manager = PasswordManager::new();
    assert_eq!(manager.verify_password("anything", "not-a-valid-hash"), Err(PasswordError::InvalidHash));
    assert_eq!(manager.verify_password("anything", ""), Err(PasswordError::InvalidHash));
}

#[test]
fn strength_scores_exactly() {
    let weak = PasswordManager::check_password_strength("123");
    assert_eq!(weak.score, 1);
    assert_eq!(
        weak.feedback,
        vec![
            "Password should be at least 8 characters long".to_string(),
            "Include uppercase letters".to_string(),
            "Include lowercase letters".to_string(),
            "Include special characters".to_string(),
        ]
    );

    let strong = PasswordManager::check_password_strength("MyStr0ng!P@ssw0rd");
    assert_eq!(strong.score, 6);
    assert_eq!(strong.level, PasswordStrengthLevel::Strong);
    assert!(strong.feedback.is_empty());

    let medium = PasswordManager::check_password_strength("abcdefgh1");
    assert_eq!(medium.score, 3);
    assert_eq!(medium.level, PasswordStrengthLevel::Medium);
}

#[test]
fn common_patterns_cost_a_point() {
    let r = PasswordManager::check_password_strength("MyPASSWORD!9x");
    assert_eq!(r.score, 5);
    assert_eq!(r.feedback, vec!["Avoid common patterns".to_string()]);
    assert!(PasswordManager::contains_common_patterns("xxQWERTYxx"));
    assert!(!PasswordManager::contains_common_patterns("qwert"));
}

#[test]
fn generated_passwords_use_the_charset() {
    let p = PasswordManager::generate_secure_password(64);
    let charset = "ABCDEFGHIJKLMNOPQRSTUVWXYZabcdefghijklmnopqrstuvwxyz0123456789!@#$%^&*";
    assert!(p.chars().all(|c| charset.contains(c)));
    assert_eq!(PasswordManager::generate_secure_password(0), "");
}

#[test]
fn secure_string_bytes() {
    let s = SecureString::from_bytes(vec![0xff, 0xfe]);
    assert!(s.as_str().is_err());
    assert_eq!(s.as_bytes(), &[0xff, 0xfe]);
    let t = SecureString::new("héllo".to_string());
    assert_eq!(t.len(), 6);
    assert_eq!(t.as_bytes(), "héllo".as_bytes());
}
