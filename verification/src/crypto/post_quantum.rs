//! Hybrid post-quantum encryption: a Kyber768 key encapsulation yields a
//! shared secret that keys AES-256-GCM. A ciphertext is framed as
//! `nonce (12 bytes) || Kyber ciphertext (1088 bytes) || AES-GCM output`.
use vstd::prelude::*;
use vstd::string::StringExecFns;
use aes_gcm::aead::{Aead, KeyInit, OsRng};
use aes_gcm::{Aes256Gcm, Key, Nonce};
use pqcrypto_kyber::kyber768;
use pqcrypto_traits::kem::{Ciphertext, PublicKey, SecretKey, SharedSecret};
use rand::RngCore;

verus! {

/// Bytes of an AES-GCM nonce.
pub const NONCE_BYTES: usize = 12;

/// Bytes of a Kyber768 ciphertext.
pub const KYBER_CIPHERTEXT_BYTES: usize = 1088;

/// Bytes of a Kyber768 public key.
pub const KYBER_PUBLIC_KEY_BYTES: usize = 1184;

/// Bytes of a Kyber768 secret key.
pub const KYBER_SECRET_KEY_BYTES: usize = 2400;

/// Bytes of a Kyber768 shared secret (an AES-256 key).
pub const SHARED_SECRET_BYTES: usize = 32;

/// The largest plaintext AES-GCM encrypts: 2^36 bytes.
pub const AES_GCM_MAX_PLAINTEXT: u64 = 68719476736;

#[derive(Debug)]
pub enum CryptoError {
    EncryptionError(String),
    DecryptionError(String),
    KeyGenerationError(String),
}

/// The AES-256-GCM encryption of `plaintext` under `key` and `nonce`, with
/// no associated data (ciphertext followed by the 16-byte tag).
pub uninterp spec fn aes256_gcm_seal(key: Seq<u8>, nonce: Seq<u8>, plaintext: Seq<u8>) -> Seq<u8>;

/// The AES-256-GCM decryption of `ciphertext` under `key` and `nonce`, with
/// no associated data: the plaintext when the tag checks, nothing otherwise.
pub uninterp spec fn aes256_gcm_open(key: Seq<u8>, nonce: Seq<u8>, ciphertext: Seq<u8>) -> Option<
    Seq<u8>,
>;

/// The shared secret that Kyber768 decapsulation recovers from a
/// ciphertext with a secret key (both as bytes).
pub uninterp spec fn kyber768_decapsulate(ciphertext: Seq<u8>, secret_key: Seq<u8>) -> Seq<u8>;

/// Holds of a public key and a secret key (as bytes) that one call of
/// `kyber768::keypair` returns together.
pub uninterp spec fn kyber768_key_pair(public_key: Seq<u8>, secret_key: Seq<u8>) -> bool;

/// `kyber768::keypair()`, the keys returned as their bytes (`as_bytes`).
/// The keys are random; stated are their lengths, that they form a key pair
/// (`kyber768_key_pair`), and that the secret key holds a copy of the public
/// key from byte 1152 on (PQClean's `crypto_kem_keypair_derand` copies it
/// there).
#[verifier::external_body]
fn kyber_keypair() -> (r: (Vec<u8>, Vec<u8>))
    ensures
        r.0@.len() == KYBER_PUBLIC_KEY_BYTES,
        r.1@.len() == KYBER_SECRET_KEY_BYTES,
        kyber768_key_pair(r.0@, r.1@),
        r.0@ == r.1@.subrange(1152, 2336),
{
    let (pk, sk) = kyber768::keypair();
    (pk.as_bytes().to_vec(), sk.as_bytes().to_vec())
}

/// `kyber768::encapsulate` to the public key given as bytes
/// (`PublicKey::from_bytes`, which accepts exactly 1184 bytes); returns the
/// shared secret and the ciphertext as bytes. Both are random; stated are
/// their lengths and that decapsulating the ciphertext with the secret key
/// of the public key's pair gives the shared secret back, as the crate's
/// documentation example and its `test_kem` assert. (Kyber768's decryption
/// failure probability, about 2^-164, is not modelled.)
#[verifier::external_body]
fn kyber_encapsulate(public_key: &[u8]) -> (r: (Vec<u8>, Vec<u8>))
    requires
        public_key@.len() == KYBER_PUBLIC_KEY_BYTES,
    ensures
        r.0@.len() == SHARED_SECRET_BYTES,
        r.1@.len() == KYBER_CIPHERTEXT_BYTES,
        forall|sk: Seq<u8>|
            #[trigger] kyber768_key_pair(public_key@, sk) ==> kyber768_decapsulate(r.1@, sk)
                == r.0@,
{
    let pk = kyber768::PublicKey::from_bytes(public_key).unwrap();
    let (ss, ct) = kyber768::encapsulate(&pk);
    (ss.as_bytes().to_vec(), ct.as_bytes().to_vec())
}

/// `kyber768::decapsulate` of a ciphertext with a secret key, both given as
/// bytes (`from_bytes` accepts exactly 1088 and 2400 bytes); the result is
/// named `kyber768_decapsulate` of the two, 32 bytes long.
#[verifier::external_body]
fn kyber_decapsulate(ciphertext: &[u8], secret_key: &[u8]) -> (r: Vec<u8>)
    requires
        ciphertext@.len() == KYBER_CIPHERTEXT_BYTES,
        secret_key@.len() == KYBER_SECRET_KEY_BYTES,
    ensures
        r@ == kyber768_decapsulate(ciphertext@, secret_key@),
        r@.len() == SHARED_SECRET_BYTES,
{
    let ct = kyber768::Ciphertext::from_bytes(ciphertext).unwrap();
    let sk = kyber768::SecretKey::from_bytes(secret_key).unwrap();
    kyber768::decapsulate(&ct, &sk).as_bytes().to_vec()
}

/// Twelve bytes from the operating system's random source (`OsRng`).
#[verifier::external_body]
fn random_nonce() -> (r: [u8; 12]) {
    let mut nonce = [0u8; 12];
    OsRng.fill_bytes(&mut nonce);
    nonce
}

/// `Aes256Gcm::encrypt` with a 32-byte key and a 12-byte nonce. It fails
/// (with the error whose text is `aead::Error`) exactly when the plaintext
/// is longer than 2^36 bytes; otherwise the result is named
/// `aes256_gcm_seal`, is 16 bytes longer than the plaintext, and decrypts
/// back to the plaintext under the same key and nonce.
#[verifier::external_body]
fn aes_gcm_encrypt(key: &[u8], nonce: &[u8], plaintext: &[u8]) -> (r: Result<Vec<u8>, String>)
    requires
        key@.len() == SHARED_SECRET_BYTES,
        nonce@.len() == NONCE_BYTES,
    ensures
        r is Ok <==> plaintext@.len() <= AES_GCM_MAX_PLAINTEXT,
        r matches Ok(c) ==> {
            &&& c@ == aes256_gcm_seal(key@, nonce@, plaintext@)
            &&& c@.len() == plaintext@.len() + 16
            &&& aes256_gcm_open(key@, nonce@, c@) == Some(plaintext@)
        },
        r matches Err(m) ==> m@ == "aead::Error"@,
{
    let cipher = Aes256Gcm::new(Key::<Aes256Gcm>::from_slice(key));
    match cipher.encrypt(Nonce::from_slice(nonce), plaintext) {
        Ok(c) => Ok(c),
        Err(e) => Err(e.to_string()),
    }
}

/// `Aes256Gcm::decrypt` with a 32-byte key and a 12-byte nonce: the
/// plaintext named `aes256_gcm_open`, or the error whose text is
/// `aead::Error` when that is nothing.
#[verifier::external_body]
fn aes_gcm_decrypt(key: &[u8], nonce: &[u8], ciphertext: &[u8]) -> (r: Result<Vec<u8>, String>)
    requires
        key@.len() == SHARED_SECRET_BYTES,
        nonce@.len() == NONCE_BYTES,
    ensures
        match aes256_gcm_open(key@, nonce@, ciphertext@) {
            Some(p) => r matches Ok(v) && v@ == p,
            None => r matches Err(m) && m@ == "aead::Error"@,
        },
{
    let cipher = Aes256Gcm::new(Key::<Aes256Gcm>::from_slice(key));
    match cipher.decrypt(Nonce::from_slice(nonce), ciphertext) {
        Ok(p) => Ok(p),
        Err(e) => Err(e.to_string()),
    }
}

/// What decrypting the frame `data` with the secret key `secret_key` gives:
/// nothing for a frame too short to hold a nonce and a Kyber ciphertext, else
/// the AES-GCM decryption of the rest under the decapsulated secret.
pub open spec fn open_frame(secret_key: Seq<u8>, data: Seq<u8>) -> Option<Seq<u8>> {
    if data.len() < NONCE_BYTES + KYBER_CIPHERTEXT_BYTES {
        None
    } else {
        let nonce = data.subrange(0, NONCE_BYTES as int);
        let ct = data.subrange(NONCE_BYTES as int, (NONCE_BYTES + KYBER_CIPHERTEXT_BYTES) as int);
        let body = data.subrange((NONCE_BYTES + KYBER_CIPHERTEXT_BYTES) as int, data.len() as int);
        aes256_gcm_open(kyber768_decapsulate(ct, secret_key), nonce, body)
    }
}

/// `out` is a frame of `data` for `secret_key`: a 12-byte nonce, a Kyber
/// ciphertext, and the AES-GCM encryption of `data` under the secret that
/// decapsulating that ciphertext with `secret_key` recovers.
pub open spec fn sealed_for(secret_key: Seq<u8>, data: Seq<u8>, out: Seq<u8>) -> bool {
    exists|nonce: Seq<u8>, ct: Seq<u8>|
        #![trigger aes256_gcm_seal(kyber768_decapsulate(ct, secret_key), nonce, data)]
        {
            &&& nonce.len() == NONCE_BYTES
            &&& ct.len() == KYBER_CIPHERTEXT_BYTES
            &&& out == nonce + ct + aes256_gcm_seal(kyber768_decapsulate(ct, secret_key), nonce, data)
        }
}

/// Builds a frame from a nonce, a Kyber ciphertext and the shared secret it
/// carries: the nonce, the Kyber ciphertext, then the AES-GCM encryption of
/// `data` under the secret. Fails exactly when `data` is longer than AES-GCM
/// allows.
pub fn seal_frame(nonce: &[u8], kyber_ciphertext: &[u8], shared_secret: &[u8], data: &[u8]) -> (r: Result<
    Vec<u8>,
    CryptoError,
>)
    requires
        nonce@.len() == NONCE_BYTES,
        kyber_ciphertext@.len() == KYBER_CIPHERTEXT_BYTES,
        shared_secret@.len() == SHARED_SECRET_BYTES,
    ensures
        r is Ok <==> data@.len() <= AES_GCM_MAX_PLAINTEXT,
        r matches Ok(out) ==> {
            &&& out@ == nonce@ + kyber_ciphertext@ + aes256_gcm_seal(shared_secret@, nonce@, data@)
            &&& out@.len() == NONCE_BYTES + KYBER_CIPHERTEXT_BYTES + data@.len() + 16
            &&& forall|sk: Seq<u8>| kyber768_decapsulate(kyber_ciphertext@, sk) == shared_secret@
                ==> #[trigger] open_frame(sk, out@) == Some(data@)
        },
        r matches Err(e) ==> (e matches CryptoError::EncryptionError(m) && m@ == "aead::Error"@),
{
    match aes_gcm_encrypt(shared_secret, nonce, data) {
        Ok(encrypted) => {
            let mut result: Vec<u8> = Vec::new();
            crate::codec::push_slice(&mut result, nonce);
            crate::codec::push_slice(&mut result, kyber_ciphertext);
            crate::codec::push_slice(&mut result, encrypted.as_slice());
            proof {
                let out = result@;
                assert(out.subrange(0, 12) =~= nonce@);
                assert(out.subrange(12, 1100) =~= kyber_ciphertext@);
                assert(out.subrange(1100, out.len() as int) =~= encrypted@);
            }
            Ok(result)
        },
        Err(m) => Err(CryptoError::EncryptionError(m)),
    }
}

/// What decrypting `data` with `secret_key` returns: a frame too short to
/// hold a nonce and a Kyber ciphertext is refused as such; otherwise the
/// plaintext `open_frame` gives, or the AES-GCM error when it gives none.
pub open spec fn decrypt_outcome(
    secret_key: Seq<u8>,
    data: Seq<u8>,
    r: Result<Vec<u8>, CryptoError>,
) -> bool {
    if data.len() < NONCE_BYTES + KYBER_CIPHERTEXT_BYTES {
        r matches Err(CryptoError::DecryptionError(m)) && m@ == "Invalid ciphertext length"@
    } else {
        match open_frame(secret_key, data) {
            Some(p) => r matches Ok(v) && v@ == p,
            None => r matches Err(CryptoError::DecryptionError(m)) && m@ == "aead::Error"@,
        }
    }
}

/// Decrypting what `encrypt` made gives the data back: a frame as long as
/// `encrypt` makes it and that opens to `data` decrypts to `data`.
pub proof fn lemma_round_trip(
    secret_key: Seq<u8>,
    data: Seq<u8>,
    frame: Seq<u8>,
    decrypted: Result<Vec<u8>, CryptoError>,
)
    requires
        frame.len() == NONCE_BYTES + KYBER_CIPHERTEXT_BYTES + data.len() + 16,
        open_frame(secret_key, frame) == Some(data),
        decrypt_outcome(secret_key, frame, decrypted),
    ensures
        decrypted matches Ok(v) && v@ == data,
{
}

pub struct PostQuantumCrypto {
    public_key: Vec<u8>,
    secret_key: Vec<u8>,
}

impl PostQuantumCrypto {
    /// The public key's bytes.
    pub closed spec fn public_key(&self) -> Seq<u8> {
        self.public_key@
    }

    /// The secret key's bytes.
    pub closed spec fn secret_key(&self) -> Seq<u8> {
        self.secret_key@
    }

    /// The keys have the sizes Kyber768 gives them and form a key pair.
    pub open spec fn well_formed(&self) -> bool {
        &&& self.public_key().len() == KYBER_PUBLIC_KEY_BYTES
        &&& self.secret_key().len() == KYBER_SECRET_KEY_BYTES
        &&& kyber768_key_pair(self.public_key(), self.secret_key())
    }

    /// A fresh Kyber768 key pair.
    pub fn new() -> (r: Result<Self, CryptoError>)
        ensures
            r matches Ok(c) && c.well_formed(),
    {
        Ok(Self::generate())
    }

    /// A fresh Kyber768 key pair.
    pub(crate) fn generate() -> (r: Self)
        ensures
            r.well_formed(),
    {
        let (public_key, secret_key) = kyber_keypair();
        PostQuantumCrypto { public_key, secret_key }
    }

    /// Encrypts `data` to this key pair under a fresh random nonce and a
    /// fresh Kyber encapsulation. Fails exactly when `data` is longer than
    /// AES-GCM allows. The frame is 12 + 1088 + 16 bytes longer than `data`
    /// and decrypts back to `data` with this key pair's secret key.
    pub fn encrypt(&self, data: &[u8]) -> (r: Result<Vec<u8>, CryptoError>)
        requires
            self.well_formed(),
        ensures
            r is Ok <==> data@.len() <= AES_GCM_MAX_PLAINTEXT,
            r matches Ok(out) ==> {
                &&& sealed_for(self.secret_key(), data@, out@)
                &&& out@.len() == NONCE_BYTES + KYBER_CIPHERTEXT_BYTES + data@.len() + 16
                &&& open_frame(self.secret_key(), out@) == Some(data@)
            },
            r matches Err(e) ==> (e matches CryptoError::EncryptionError(m) && m@ == "aead::Error"@),
    {
        let nonce = random_nonce();
        let (shared_secret, kyber_ciphertext) = kyber_encapsulate(self.public_key.as_slice());
        proof {
            assert(kyber768_key_pair(self.public_key(), self.secret_key()));
            assert(kyber768_decapsulate(kyber_ciphertext@, self.secret_key()) == shared_secret@);
        }
        let r = seal_frame(&nonce, kyber_ciphertext.as_slice(), shared_secret.as_slice(), data);
        proof {
            if r is Ok {
                let out = r->Ok_0;
                assert(open_frame(self.secret_key(), out@) == Some(data@));
                assert(out@ == nonce@ + kyber_ciphertext@ + aes256_gcm_seal(
                    kyber768_decapsulate(kyber_ciphertext@, self.secret_key()),
                    nonce@,
                    data@,
                ));
                assert(sealed_for(self.secret_key(), data@, out@));
            }
        }
        r
    }

    /// Decrypts a frame made by `encrypt`: a frame too short to hold a nonce
    /// and a Kyber ciphertext is refused; otherwise the secret is
    /// decapsulated and the rest decrypted with AES-GCM.
    pub fn decrypt(&self, data: &[u8]) -> (r: Result<Vec<u8>, CryptoError>)
        requires
            self.well_formed(),
        ensures
            decrypt_outcome(self.secret_key(), data@, r),
    {
        if data.len() < NONCE_BYTES + KYBER_CIPHERTEXT_BYTES {
            return Err(CryptoError::DecryptionError(String::from_str("Invalid ciphertext length")));
        }
        let nonce = slice_range(data, 0, NONCE_BYTES);
        let kyber_ciphertext = slice_range(data, NONCE_BYTES, NONCE_BYTES + KYBER_CIPHERTEXT_BYTES);
        let body = slice_range(data, NONCE_BYTES + KYBER_CIPHERTEXT_BYTES, data.len());
        let shared_secret = kyber_decapsulate(kyber_ciphertext.as_slice(), self.secret_key.as_slice());
        match aes_gcm_decrypt(shared_secret.as_slice(), nonce.as_slice(), body.as_slice()) {
            Ok(p) => Ok(p),
            Err(m) => Err(CryptoError::DecryptionError(m)),
        }
    }
}

/// The bytes of `data` from `start` up to `end`.
fn slice_range(data: &[u8], start: usize, end: usize) -> (r: Vec<u8>)
    requires
        start <= end <= data@.len(),
    ensures
        r@ == data@.subrange(start as int, end as int),
{
    let mut r: Vec<u8> = Vec::new();
    let mut i: usize = start;
    while i < end
        invariant
            start <= i <= end <= data@.len(),
            r@ == data@.subrange(start as int, i as int),
        decreases end - i,
    {
        r.push(data[i]);
        i = i + 1;
        assert(r@ =~= data@.subrange(start as int, i as int));
    }
    r
}

} // verus!
