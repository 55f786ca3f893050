//! Fixed-nonce AES-GCM engine, crypto settings, and salted digests.
use vstd::prelude::*;
use vstd::string::StringExecFns;
use vstd::utf8::encode_utf8;

use crate::encryption::{aes_gcm_open, aes_gcm_seal, gcm_open, gcm_seal, EncryptionKey, MAX_PLAINTEXT_LEN};
use crate::hashing::{content_digest, FileHasher};

verus! {

/// Settings of the cryptographic layer.
#[derive(Debug, Clone)]
pub struct CryptoConfig {
    pub encryption_algorithm: String,
    pub key_size: usize,
    pub pbkdf2_iterations: u32,
    pub salt_size: usize,
}

impl Default for CryptoConfig {
    fn default() -> (r: Self)
        ensures
            r.encryption_algorithm@ == "AES-256-GCM"@,
            r.key_size == 32,
            r.pbkdf2_iterations == 100_000,
            r.salt_size == 16,
    {
        CryptoConfig {
            encryption_algorithm: String::from_str("AES-256-GCM"),
            key_size: 32,
            pbkdf2_iterations: 100_000,
            salt_size: 16,
        }
    }
}

/// AES-256-GCM under one key with caller-supplied nonces; the output carries
/// the tag at its end.
#[derive(Clone)]
pub struct CryptoEngine {
    key: EncryptionKey,
}

impl CryptoEngine {
    pub closed spec fn key_bytes(&self) -> Seq<u8> {
        self.key.bytes()
    }

    pub fn new(key: &[u8; 32]) -> (r: Self)
        ensures
            r.key_bytes() == key@,
    {
        CryptoEngine { key: EncryptionKey::new(*key) }
    }

    pub fn encrypt(&self, data: &[u8], nonce: &[u8; 12]) -> (r: Result<Vec<u8>, String>)
        ensures
            r is Ok <==> data@.len() <= MAX_PLAINTEXT_LEN,
            r matches Ok(c) ==> c@ == aes_gcm_seal(self.key_bytes(), nonce@, data@),
    {
        match gcm_seal(self.key.as_array(), nonce.as_slice(), data) {
            Some(c) => Ok(c),
            None => Err(String::from_str("Encryption failed")),
        }
    }

    pub fn decrypt(&self, data: &[u8], nonce: &[u8; 12]) -> (r: Result<Vec<u8>, String>)
        ensures
            match r {
                Ok(p) => aes_gcm_open(self.key_bytes(), nonce@, data@) == Some(p@),
                Err(_) => aes_gcm_open(self.key_bytes(), nonce@, data@) is None,
            },
    {
        match gcm_open(self.key.as_array(), nonce.as_slice(), data) {
            Some(p) => Ok(p),
            None => Err(String::from_str("Decryption failed")),
        }
    }
}

/// The content digest of a buffer, computed incrementally.
pub fn hash_file(data: &[u8]) -> (r: String)
    ensures
        r@ == content_digest(data@),
{
    let mut hasher = FileHasher::new();
    hasher.update(data);
    proof {
        assert(Seq::<u8>::empty() + data@ =~= data@);
    }
    hasher.finalize()
}

/// The content digest of the password's bytes followed by the salt's.
pub fn hash_password(password: &str, salt: &str) -> (r: String)
    ensures
        r@ == content_digest(encode_utf8(password@) + encode_utf8(salt@)),
{
    let mut hasher = FileHasher::new();
    hasher.update(password.as_bytes());
    hasher.update(salt.as_bytes());
    proof {
        assert(Seq::<u8>::empty() + encode_utf8(password@) =~= encode_utf8(password@));
    }
    hasher.finalize()
}

} // verus!
