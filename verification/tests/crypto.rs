use hybridconsensus::crypto::post_quantum::{
    CryptoError, PostQuantumCrypto, KYBER_CIPHERTEXT_BYTES, KYBER_PUBLIC_KEY_BYTES,
    KYBER_SECRET_KEY_BYTES, NONCE_BYTES, SHARED_SECRET_BYTES,
};
use hybridconsensus::crypto::CryptoManager;
use pqcrypto_kyber::kyber768;

#[test]
fn test_encrypt_decrypt() {
    let crypto = PostQuantumCrypto::new().unwrap();
    let original_data = b"Hello, post-quantum world!";

    let encrypted = crypto.encrypt(original_data).unwrap();
    let decrypted = crypto.decrypt(&encrypted).unwrap();

    assert_eq!(original_data.to_vec(), decrypted);
}

#[test]
fn sizes_match_kyber768() {
    assert_eq!(KYBER_CIPHERTEXT_BYTES, kyber768::ciphertext_bytes());
    assert_eq!(KYBER_PUBLIC_KEY_BYTES, kyber768::public_key_bytes());
    assert_eq!(KYBER_SECRET_KEY_BYTES, kyber768::secret_key_bytes());
    assert_eq!(SHARED_SECRET_BYTES, kyber768::shared_secret_bytes());
}

#[test]
fn frame_layout() {
    let crypto = PostQuantumCrypto::new().unwrap();
    let data = b"abc";
    let encrypted = crypto.encrypt(data).unwrap();
    assert_eq!(encrypted.len(), NONCE_BYTES + KYBER_CIPHERTEXT_BYTES + data.len() + 16);
    // The encrypted body is not the plaintext.
    assert_ne!(&encrypted[encrypted.len() - 19..encrypted.len() - 16], &data[..]);
}

#[test]
fn short_ciphertext_is_refused() {
    let crypto = PostQuantumCrypto::new().unwrap();
    match crypto.decrypt(&[0u8; 1099]) {
        Err(CryptoError::DecryptionError(m)) => assert_eq!(m, "Invalid ciphertext length"),
        other => panic!("unexpected {:?}", other),
    }
}

#[test]
fn tampered_ciphertext_is_refused() {
    let crypto = PostQuantumCrypto::new().unwrap();
    let mut encrypted = crypto.encrypt(b"payload").unwrap();
    let last = encrypted.len() - 1;
    encrypted[last] ^= 1;
    match crypto.decrypt(&encrypted) {
        Err(CryptoError::DecryptionError(m)) => assert_eq!(m, "aead::Error"),
        other => panic!("unexpected {:?}", other),
    }
}

#[test]
fn another_key_pair_cannot_decrypt() {
    let a = PostQuantumCrypto::new().unwrap();
    let b = PostQuantumCrypto::new().unwrap();
    let encrypted = a.encrypt(b"secret").unwrap();
    assert!(b.decrypt(&encrypted).is_err());
}

#[test]
fn manager_round_trip() {
    let manager = CryptoManager::new();
    let encrypted = manager.encrypt(b"").unwrap();
    assert_eq!(encrypted.len(), NONCE_BYTES + KYBER_CIPHERTEXT_BYTES + 16);
    assert_eq!(manager.decrypt(&encrypted).unwrap(), Vec::<u8>::new());
    assert!(manager.decrypt(b"short").is_err());
}

#[test]
fn manager_frame_decrypts_to_the_data() {
    let manager = CryptoManager::new();
    let data = b"round trip".to_vec();
    let frame = manager.encrypt(&data).unwrap();
    assert_eq!(frame.len(), 12 + 1088 + data.len() + 16);
    assert_eq!(manager.decrypt(&frame).unwrap(), data);
}
