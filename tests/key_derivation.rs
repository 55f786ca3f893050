use fileshare_core::{KeyDerivation, KeyDerivationFactory, KeyPurpose, SecureKey};

#[test]
fn test_key_derivation_from_password() {
    let password = "test_password";
    let salt = KeyDerivation::generate_salt(16);
    let context = "test_context";

    let key1 = KeyDerivation::derive_key_from_password(password, &salt, context);
    let key2 = KeyDerivation::derive_key_from_password(password, &salt, context);

    assert_eq!(key1, key2);

    let salt2 = KeyDerivation::generate_salt(16);
    let key3 = KeyDerivation::derive_key_from_password(password, &salt2, context);
    assert_ne!(key1, key3);
}

#[test]
fn test_secure_key() {
    let password = "test_password";
    let salt = KeyDerivation::generate_salt(16);
    let context = "test";

    let key = SecureKey::from_password(password, &salt, context);
    assert_eq!(key.context(), context);
    assert_eq!(key.as_bytes().len(), 32);

    let subkey = key.derive_subkey("sub");
    assert_ne!(key.as_bytes(), subkey.as_bytes());
    assert_eq!(subkey.context(), "test:sub");
}

#[test]
fn test_key_factory() {
    let master_key = SecureKey::generate("master".to_string());
    let factory = KeyDerivationFactory::new(master_key);

    let file_key1 = factory.derive_file_key("file1");
    let file_key2 = factory.derive_file_key("file2");
    let user_key = factory.derive_user_key("user1");

    assert_ne!(file_key1.as_bytes(), file_key2.as_bytes());
    assert_ne!(file_key1.as_bytes(), user_key.as_bytes());

    let file_key1_again = factory.derive_file_key("file1");
    assert_eq!(file_key1.as_bytes(), file_key1_again.as_bytes());
}

#[test]
fn test_key_stretching() {
    let original_key = b"short_key";
    let stretched1 = KeyDerivation::stretch_key(original_key, 1000);
    let stretched2 = KeyDerivation::stretch_key(original_key, 1000);
    let stretched_different = KeyDerivation::stretch_key(original_key, 1001);

    assert_eq!(stretched1, stretched2);
    assert_ne!(stretched1, stretched_different);
}

#[test]
fn zero_rounds_pad_or_cut_the_key() {
    let mut padded = [0u8; 32];
    padded[..3].copy_from_slice(b"abc");
    assert_eq!(KeyDerivation::stretch_key(b"abc", 0), padded);
    let long: Vec<u8> = (0..40).collect();
    let cut: Vec<u8> = (0..32).collect();
    assert_eq!(KeyDerivation::stretch_key(&long, 0).to_vec(), cut);
}

#[test]
fn stretching_rounds_chain_derivations() {
    let round0 = KeyDerivation::stretch_key(b"k", 0);
    let round1 = KeyDerivation::stretch_key(b"k", 1);
    let round2 = KeyDerivation::stretch_key(b"k", 2);
    assert_eq!(round1, blake3::derive_key("stretch:0", &round0));
    assert_eq!(round2, blake3::derive_key("stretch:1", &round1));
    let round11 = KeyDerivation::stretch_key(b"k", 11);
    let round10 = KeyDerivation::stretch_key(b"k", 10);
    assert_eq!(round11, blake3::derive_key("stretch:10", &round10));
}

#[test]
fn derivation_is_deterministic_and_context_scoped() {
    let mk = [42u8; 32];
    let a = KeyDerivation::derive_subkey(&mk, "ctx", "a");
    assert_eq!(a, KeyDerivation::derive_subkey(&mk, "ctx", "a"));
    assert_ne!(a, KeyDerivation::derive_subkey(&mk, "ctx", "b"));
    assert_ne!(a, KeyDerivation::derive_subkey(&mk, "ctx2", "a"));
    assert_ne!(a.to_vec(), mk.to_vec());
    assert_eq!(a, blake3::derive_key("ctx:a", &mk));
}

#[test]
fn subkey_paths_join_with_colons() {
    let root = SecureKey::new([1u8; 32], "root".to_string());
    let child = root.derive_subkey("a").derive_subkey("b");
    assert_eq!(child.context(), "root:a:b");
    assert_eq!(root.export_for_storage("disk"), KeyDerivation::derive_subkey(&[1u8; 32], "root", "disk"));
}

#[test]
fn purposes_have_fixed_distinct_roots() {
    let all = [
        KeyPurpose::FileEncryption,
        KeyPurpose::DatabaseEncryption,
        KeyPurpose::UserAuthentication,
        KeyPurpose::SessionToken,
        KeyPurpose::ApiKey,
        KeyPurpose::BackupEncryption,
    ];
    assert_eq!(KeyPurpose::FileEncryption.context(), "fileshare.file.encryption");
    assert_eq!(KeyPurpose::ApiKey.context(), "fileshare.api.key");
    for (i, a) in all.iter().enumerate() {
        for (j, b) in all.iter().enumerate() {
            if i != j {
                assert_ne!(a.context(), b.context());
            }
        }
    }
}

#[test]
fn factory_contexts_and_purpose_separation() {
    let factory = KeyDerivationFactory::new(SecureKey::new([2u8; 32], "m".to_string()));
    let file = factory.derive_file_key("x");
    let api = factory.derive_api_key("x");
    let user = factory.derive_user_key("x");
    assert_eq!(file.context(), "m:fileshare.file.encryption:x");
    assert_eq!(api.context(), "m:fileshare.api.key:x");
    assert_eq!(user.context(), "m:fileshare.user.auth:x");
    assert_ne!(file.as_bytes(), api.as_bytes());
    assert_ne!(file.as_bytes(), user.as_bytes());
    let bare = factory.derive_key(KeyPurpose::SessionToken, None);
    assert_eq!(bare.context(), "m:fileshare.session.token");
}

#[test]
fn factory_from_password_uses_master_context() {
    let a = KeyDerivationFactory::from_password("pw", b"salt").derive_file_key("f");
    let b = KeyDerivationFactory::from_password("pw", b"salt").derive_file_key("f");
    let c = KeyDerivationFactory::from_password("pw2", b"salt").derive_file_key("f");
    assert_eq!(a.as_bytes(), b.as_bytes());
    assert_ne!(a.as_bytes(), c.as_bytes());
    assert_eq!(a.context(), "fileshare.master:fileshare.file.encryption:f");
}

#[test]
fn zeroized_secure_key_is_wiped() {
    let mut k = SecureKey::new([5u8; 32], "ctx".to_string());
    k.zeroize();
    assert_eq!(k.as_bytes(), &[0u8; 32]);
    assert_eq!(k.context(), "");
}
