//! Encryption of the messages nodes exchange.
use vstd::prelude::*;
use self::post_quantum::PostQuantumCrypto;

pub mod post_quantum;

verus! {

#[derive(Debug)]
pub enum CryptoError {
    EncryptionError(String),
    DecryptionError(String),
}

/// The error of this module for an error of the post-quantum scheme.
pub open spec fn same_error(e: post_quantum::CryptoError, r: CryptoError) -> bool {
    match e {
        post_quantum::CryptoError::EncryptionError(m) => r == CryptoError::EncryptionError(m),
        post_quantum::CryptoError::DecryptionError(m) => r == CryptoError::DecryptionError(m),
        post_quantum::CryptoError::KeyGenerationError(m) => r == CryptoError::EncryptionError(m),
    }
}

fn convert_error(e: post_quantum::CryptoError) -> (r: CryptoError)
    ensures
        same_error(e, r),
{
    match e {
        post_quantum::CryptoError::EncryptionError(m) => CryptoError::EncryptionError(m),
        post_quantum::CryptoError::DecryptionError(m) => CryptoError::DecryptionError(m),
        post_quantum::CryptoError::KeyGenerationError(m) => CryptoError::EncryptionError(m),
    }
}

pub struct CryptoManager {
    pq_crypto: PostQuantumCrypto,
}

impl CryptoManager {
    /// The post-quantum scheme this manager uses.
    pub closed spec fn scheme(&self) -> PostQuantumCrypto {
        self.pq_crypto
    }

    /// A manager with a fresh key pair.
    pub fn new() -> (r: Self)
        ensures
            r.scheme().well_formed(),
    {
        CryptoManager { pq_crypto: PostQuantumCrypto::generate() }
    }

    /// Encrypts with the post-quantum scheme (see `PostQuantumCrypto::encrypt`):
    /// the frame decrypts back to `data` with this manager's `decrypt`.
    pub fn encrypt(&self, data: &[u8]) -> (r: Result<Vec<u8>, CryptoError>)
        requires
            self.scheme().well_formed(),
        ensures
            r is Ok <==> data@.len() <= post_quantum::AES_GCM_MAX_PLAINTEXT,
            r matches Ok(out) ==> {
                &&& post_quantum::sealed_for(self.scheme().secret_key(), data@, out@)
                &&& out@.len() == post_quantum::NONCE_BYTES + post_quantum::KYBER_CIPHERTEXT_BYTES
                    + data@.len() + 16
                &&& post_quantum::open_frame(self.scheme().secret_key(), out@) == Some(data@)
            },
            r matches Err(e) ==> (e matches CryptoError::EncryptionError(m) && m@ == "aead::Error"@),
    {
        match self.pq_crypto.encrypt(data) {
            Ok(out) => Ok(out),
            Err(e) => Err(convert_error(e)),
        }
    }

    /// Decrypts with the post-quantum scheme (see `PostQuantumCrypto::decrypt`).
    pub fn decrypt(&self, data: &[u8]) -> (r: Result<Vec<u8>, CryptoError>)
        requires
            self.scheme().well_formed(),
        ensures
            data@.len() < post_quantum::NONCE_BYTES + post_quantum::KYBER_CIPHERTEXT_BYTES ==> (
            r matches Err(CryptoError::DecryptionError(m)) && m@ == "Invalid ciphertext length"@),
            data@.len() >= post_quantum::NONCE_BYTES + post_quantum::KYBER_CIPHERTEXT_BYTES ==> match post_quantum::open_frame(
                self.scheme().secret_key(),
                data@,
            ) {
                Some(p) => r matches Ok(v) && v@ == p,
                None => r matches Err(CryptoError::DecryptionError(m)) && m@ == "aead::Error"@,
            },
    {
        match self.pq_crypto.decrypt(data) {
            Ok(p) => Ok(p),
            Err(e) => Err(convert_error(e)),
        }
    }
}

} // verus!
