use fileshare_core::{CryptoEngine, CryptoError, EncryptedData, EncryptionKey, FileEncryption};

#[test]
fn test_encrypt_decrypt() {
    let key = EncryptionKey::generate();
    let encryption = FileEncryption::new(&key);

    let data = b"Hello, World!";
    let encrypted = encryption.encrypt(data).unwrap();
    let decrypted = encryption.decrypt(&encrypted).unwrap();

    assert_eq!(data, decrypted.as_slice());
}

#[test]
fn test_stream_encryption() {
    let key = EncryptionKey::generate();
    let encryption = FileEncryption::new(&key);

    let data = b"This is a longer piece of data that will be encrypted in chunks";
    let encrypted_buffer = encryption.encrypt_stream(data, 16);

    let decrypted_buffer = encryption.decrypt_stream(&encrypted_buffer).unwrap();

    assert_eq!(data, decrypted_buffer.as_slice());
}

fn fixed_key() -> EncryptionKey {
    EncryptionKey::new([7u8; 32])
}

#[test]
fn encrypted_unit_has_nonce_tag_and_hidden_text() {
    let enc = FileEncryption::new(&fixed_key());
    let data = b"attack at dawn";
    let e = enc.encrypt(data).unwrap();
    assert_eq!(e.nonce.len(), 12);
    assert_eq!(e.tag.len(), 16);
    assert_eq!(e.data.len(), data.len());
    assert_ne!(e.data.as_slice(), &data[..]);
}

#[test]
fn empty_plaintext_round_trips() {
    let enc = FileEncryption::new(&fixed_key());
    let e = enc.encrypt(b"").unwrap();
    assert!(e.data.is_empty());
    assert_eq!(enc.decrypt(&e).unwrap(), Vec::<u8>::new());
}

#[test]
fn nonces_are_fresh() {
    let enc = FileEncryption::new(&fixed_key());
    let a = enc.encrypt(b"same").unwrap();
    let b = enc.encrypt(b"same").unwrap();
    assert_ne!(a.nonce, b.nonce);
}

#[test]
fn any_single_bit_flip_fails_decryption() {
    let enc = FileEncryption::new(&fixed_key());
    let e = enc.encrypt(b"integrity matters").unwrap();
    for i in 0..e.data.len() {
        for bit in 0..8 {
            let mut t = e.clone();
            t.data[i] ^= 1 << bit;
            assert_eq!(enc.decrypt(&t).unwrap_err(), CryptoError::DecryptionFailed);
        }
    }
    for i in 0..e.tag.len() {
        for bit in 0..8 {
            let mut t = e.clone();
            t.tag[i] ^= 1 << bit;
            assert_eq!(enc.decrypt(&t).unwrap_err(), CryptoError::DecryptionFailed);
        }
    }
}

#[test]
fn wrong_key_fails_decryption() {
    let enc = FileEncryption::new(&fixed_key());
    let other = FileEncryption::new(&EncryptionKey::new([8u8; 32]));
    let e = enc.encrypt(b"secret").unwrap();
    assert_eq!(other.decrypt(&e).unwrap_err(), CryptoError::DecryptionFailed);
}

#[test]
fn bad_nonce_is_rejected() {
    let enc = FileEncryption::new(&fixed_key());
    let e = EncryptedData { data: vec![1, 2, 3], nonce: vec![0; 11], tag: vec![0; 16] };
    assert_eq!(enc.decrypt(&e).unwrap_err(), CryptoError::InvalidNonce);
}

#[test]
fn key_size_is_checked() {
    assert!(matches!(EncryptionKey::from_slice(&[0u8; 31]), Err(CryptoError::InvalidKeySize)));
    assert!(matches!(EncryptionKey::from_slice(&[0u8; 33]), Err(CryptoError::InvalidKeySize)));
    let k = EncryptionKey::from_slice(&[5u8; 32]).unwrap();
    assert_eq!(k.as_bytes(), &[5u8; 32][..]);
}

#[test]
fn zeroized_key_is_all_zero() {
    let mut k = EncryptionKey::new([9u8; 32]);
    k.zeroize();
    assert_eq!(k.as_bytes(), &[0u8; 32][..]);
}

#[test]
fn stream_round_trip_edge_lengths() {
    let enc = FileEncryption::new(&fixed_key());
    for len in [0usize, 1, 15, 16, 17, 32, 100] {
        let data: Vec<u8> = (0..len).map(|i| i as u8).collect();
        let out = enc.encrypt_stream(&data, 16);
        let frames = (len + 15) / 16;
        assert_eq!(out.len(), len + frames * 32);
        assert_eq!(enc.decrypt_stream(&out).unwrap(), data);
    }
}

#[test]
fn stream_frame_layout() {
    let enc = FileEncryption::new(&fixed_key());
    let out = enc.encrypt_stream(b"abc", 16);
    assert_eq!(out.len(), 4 + 12 + 16 + 3);
    assert_eq!(&out[0..4], &31u32.to_le_bytes());
}

#[test]
fn short_frame_is_invalid_chunk() {
    let enc = FileEncryption::new(&fixed_key());
    let mut input = 10u32.to_le_bytes().to_vec();
    input.extend_from_slice(&[0u8; 10]);
    assert_eq!(enc.decrypt_stream(&input).unwrap_err(), CryptoError::InvalidChunk);
}

#[test]
fn short_declared_frame_is_invalid_chunk_even_when_cut_short() {
    let enc = FileEncryption::new(&fixed_key());
    assert_eq!(enc.decrypt_stream(&5u32.to_le_bytes()).unwrap_err(), CryptoError::InvalidChunk);
    assert_eq!(enc.decrypt_stream(&27u32.to_le_bytes()).unwrap_err(), CryptoError::InvalidChunk);
}

#[test]
fn truncated_frame_is_io_error() {
    let enc = FileEncryption::new(&fixed_key());
    let out = enc.encrypt_stream(b"hello", 16);
    assert_eq!(enc.decrypt_stream(&out[..out.len() - 1]).unwrap_err(), CryptoError::IoError);
}

#[test]
fn tampered_stream_fails() {
    let enc = FileEncryption::new(&fixed_key());
    let mut out = enc.encrypt_stream(b"hello world", 4);
    let last = out.len() - 1;
    out[last] ^= 0x80;
    assert_eq!(enc.decrypt_stream(&out).unwrap_err(), CryptoError::DecryptionFailed);
}

#[test]
fn engine_round_trip_with_given_nonce() {
    let engine = CryptoEngine::new(&[3u8; 32]);
    let nonce = [1u8; 12];
    let c = engine.encrypt(b"payload", &nonce).unwrap();
    assert_eq!(c.len(), 7 + 16);
    assert_eq!(engine.encrypt(b"payload", &nonce).unwrap(), c);
    assert_eq!(engine.decrypt(&c, &nonce).unwrap(), b"payload".to_vec());
    assert!(engine.decrypt(&c, &[2u8; 12]).is_err());
}
