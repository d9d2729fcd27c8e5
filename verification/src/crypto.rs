//! Crypto helpers: the salted token hash sent in `Auth`, HKDF-SHA256 session
//! key derivation, and the AES-256-GCM context kept for a session.
//!
//! The hash, the key derivation and the AEAD primitive come from outside
//! crates; each is reached through one trusted wrapper whose contract names
//! its result. Everything around the calls (lengths, nonce framing,
//! inversion) is verified.

use vstd::prelude::*;
use vstd::slice::slice_to_vec;
use aes_gcm::KeyInit;
use aes_gcm::aead::Aead;
use rand::Rng;

verus! {

/// SHA-256 digest of the given bytes. The digest depends on the bytes alone.
pub uninterp spec fn sha256_of(data: Seq<u8>) -> Seq<u8>;

/// The 32 bytes that HKDF-SHA256 expands from the token (input key material,
/// no salt) with the client id as the info string.
pub uninterp spec fn session_key_of(token: Seq<char>, client_id: Seq<char>) -> Seq<u8>;

/// AES-256-GCM ciphertext, authentication tag appended, for one key, nonce
/// and plaintext.
pub uninterp spec fn sealed_of(key: Seq<u8>, nonce: Seq<u8>, plain: Seq<u8>) -> Seq<u8>;

/// An error from the crypto helpers.
#[derive(Debug, Clone, Copy, PartialEq, Eq, Structural)]
pub enum CryptoError {
    /// The session key handed to `CryptoContext::new` is not 32 bytes.
    BadKeyLength,
    /// The AEAD refused to seal (the plaintext is too long).
    EncryptFailed,
    /// The ciphertext is too short or fails authentication.
    DecryptFailed,
    /// Key derivation refused the requested output length.
    DeriveFailed,
}

/// The fixed 16-byte salt appended to the token before hashing.
pub open spec fn spec_magic_salt() -> Seq<u8> {
    seq![
        0x2eu8, 0x4bu8, 0x69u8, 0x74u8, 0x61u8, 0x5fu8, 0x49u8, 0x6bu8,
        0x75u8, 0x79u8, 0x6fu8, 0x2eu8, 0x5eu8, 0x5fu8, 0x5eu8, 0x2eu8,
    ]
}

/// The fixed salt as bytes.
pub fn magic_salt() -> (r: Vec<u8>)
    ensures
        r@ == spec_magic_salt(),
{
    let r: Vec<u8> = vec![
        0x2eu8, 0x4bu8, 0x69u8, 0x74u8, 0x61u8, 0x5fu8, 0x49u8, 0x6bu8,
        0x75u8, 0x79u8, 0x6fu8, 0x2eu8, 0x5eu8, 0x5fu8, 0x5eu8, 0x2eu8,
    ];
    assert(r@ =~= spec_magic_salt());
    r
}

/// SHA-256 over `data || salt`.
///
/// Relies on sha2's `Sha256`: feeding `data` and then `salt` hashes their
/// concatenation, and the digest is 32 bytes.
#[verifier::external_body]
pub fn sha256_with_salt(data: &[u8], salt: &[u8]) -> (r: Vec<u8>)
    ensures
        r@ == sha256_of(data@ + salt@),
        r@.len() == 32,
{
    let mut hasher = sha2::Sha256::default();
    sha2::Digest::update(&mut hasher, data);
    sha2::Digest::update(&mut hasher, salt);
    sha2::Digest::finalize(hasher).to_vec()
}

/// Hashing is a function of the hashed bytes alone: equal inputs give equal
/// digests. Together with the contract of `sha256_with_salt` (32-byte
/// output), this is the salted-hash law.
pub proof fn lemma_salted_hash_deterministic(
    data1: Seq<u8>, salt1: Seq<u8>, data2: Seq<u8>, salt2: Seq<u8>,
)
    requires
        data1 + salt1 == data2 + salt2,
    ensures
        sha256_of(data1 + salt1) == sha256_of(data2 + salt2),
{
}

/// Key derivation is a function of the token and the client id alone: two
/// sessions with the same inputs share the session key. Together with the
/// contract of `CryptoContext::derive_session_key` (32-byte output), this is
/// the session-key law.
pub proof fn lemma_session_key_deterministic(
    token1: Seq<char>, client1: Seq<char>, token2: Seq<char>, client2: Seq<char>,
)
    requires
        token1 == token2,
        client1 == client2,
    ensures
        session_key_of(token1, client1) == session_key_of(token2, client2),
{
}

/// Fills a fresh 12-byte nonce.
///
/// Relies on rand's `ThreadRng::fill_bytes`; nothing is assumed of the bytes
/// beyond their count.
#[verifier::external_body]
fn random_nonce() -> (r: Vec<u8>)
    ensures
        r@.len() == 12,
{
    let mut bytes = [0u8; 12];
    rand::rng().fill_bytes(&mut bytes);
    bytes.to_vec()
}

/// Seals `plain` under `key` and `nonce`.
///
/// Relies on aes_gcm's `Aes256Gcm`: `new_from_slice` converts the 32-byte key
/// and `Aead::encrypt` returns ciphertext with the tag appended, failing only
/// on over-long input; the ciphertext depends on key, nonce and plaintext
/// alone.
#[verifier::external_body]
fn aead_seal(key: &[u8], nonce: &[u8], plain: &[u8]) -> (r: Option<Vec<u8>>)
    requires
        key@.len() == 32,
        nonce@.len() == 12,
    ensures
        r matches Some(ct) ==> ct@ == sealed_of(key@, nonce@, plain@),
{
    let cipher = match aes_gcm::Aes256Gcm::new_from_slice(key) {
        Ok(c) => c,
        Err(_) => return None,
    };
    let nonce_arr: &aes_gcm::Nonce<aes_gcm::aead::consts::U12> = match nonce.try_into() {
        Ok(n) => n,
        Err(_) => return None,
    };
    cipher.encrypt(nonce_arr, plain).ok()
}

/// The opened box holds whatever plaintext the sealed bytes seal: whenever
/// the input is `sealed_of(key, nonce, plain)`, the result is that plaintext.
pub open spec fn opens_sealed(key: Seq<u8>, nonce: Seq<u8>, sealed: Seq<u8>,
    r: Option<Vec<u8>>) -> bool {
    forall|plain: Seq<u8>| sealed == sealed_of(key, nonce, plain)
        ==> (r matches Some(p) && p@ == plain)
}

/// Opens a sealed box under `key` and `nonce`.
///
/// Relies on aes_gcm's `Aes256Gcm`: `new_from_slice` converts the 32-byte key
/// and `Aead::decrypt` returns the plaintext that was sealed under the same
/// key and nonce (decryption inverts encryption).
#[verifier::external_body]
fn aead_open(key: &[u8], nonce: &[u8], sealed: &[u8]) -> (r: Option<Vec<u8>>)
    requires
        key@.len() == 32,
        nonce@.len() == 12,
    ensures
        opens_sealed(key@, nonce@, sealed@, r),
{
    let cipher = match aes_gcm::Aes256Gcm::new_from_slice(key) {
        Ok(c) => c,
        Err(_) => return None,
    };
    let nonce_arr: &aes_gcm::Nonce<aes_gcm::aead::consts::U12> = match nonce.try_into() {
        Ok(n) => n,
        Err(_) => return None,
    };
    cipher.decrypt(nonce_arr, sealed).ok()
}

/// AEAD context holding one session's 32-byte key.
pub struct CryptoContext {
    key: Vec<u8>,
}

impl View for CryptoContext {
    type V = Seq<u8>;

    closed spec fn view(&self) -> Seq<u8> {
        self.key@
    }
}

impl CryptoContext {
    /// The key a context holds is always 32 bytes.
    pub open spec fn wf(&self) -> bool {
        self@.len() == 32
    }

    /// Derives the session key for one client from the shared token.
    ///
    /// Relies on hkdf's `Hkdf::<Sha256>::new` (no salt) and `expand`: the
    /// output is a function of the token and the info string, and expanding
    /// to 32 bytes is always within HKDF's output bound, so it succeeds.
    #[verifier::external_body]
    pub fn derive_session_key(token: &str, client_id: &str) -> (r: Result<Vec<u8>, CryptoError>)
        ensures
            r is Ok,
            r matches Ok(k) ==> k@ == session_key_of(token@, client_id@) && k@.len() == 32,
    {
        let hk = hkdf::Hkdf::<sha2::Sha256>::new(None, token.as_bytes());
        let mut okm = [0u8; 32];
        match hk.expand(client_id.as_bytes(), &mut okm) {
            Ok(()) => Ok(okm.to_vec()),
            Err(_) => Err(CryptoError::DeriveFailed),
        }
    }

    /// Accepts exactly a 32-byte session key.
    pub fn new(session_key: &[u8]) -> (r: Result<CryptoContext, CryptoError>)
        ensures
            session_key@.len() == 32 ==> (r matches Ok(c) && c@ == session_key@ && c.wf()),
            session_key@.len() != 32 ==> r == Err::<CryptoContext, CryptoError>(
                CryptoError::BadKeyLength),
    {
        if session_key.len() != 32 {
            return Err(CryptoError::BadKeyLength);
        }
        Ok(CryptoContext { key: slice_to_vec(session_key) })
    }

    /// Seals `data` under a fresh random nonce; the nonce is prepended to the
    /// ciphertext.
    pub fn encrypt(&self, data: &[u8]) -> (r: Result<Vec<u8>, CryptoError>)
        requires
            self.wf(),
        ensures
            r matches Ok(out) ==> out@.len() >= 12
                && out@.skip(12) == sealed_of(self@, out@.take(12), data@),
    {
        let nonce = random_nonce();
        match aead_seal(self.key.as_slice(), nonce.as_slice(), data) {
            None => Err(CryptoError::EncryptFailed),
            Some(sealed) => {
                let ghost nonce_view = nonce@;
                let ghost sealed_view = sealed@;
                let mut out = nonce;
                let mut ct = sealed;
                out.append(&mut ct);
                proof {
                    assert(out@.take(12) =~= nonce_view);
                    assert(out@.skip(12) =~= sealed_view);
                }
                Ok(out)
            },
        }
    }

    /// Opens `nonce || ciphertext`; returns exactly the plaintext that was
    /// sealed under this context's key and the leading nonce.
    pub fn decrypt(&self, encrypted_data: &[u8]) -> (r: Result<Vec<u8>, CryptoError>)
        requires
            self.wf(),
        ensures
            encrypted_data@.len() < 12 ==> r == Err::<Vec<u8>, CryptoError>(
                CryptoError::DecryptFailed),
            forall|plain: Seq<u8>|
                encrypted_data@.len() >= 12
                    && encrypted_data@.skip(12) == sealed_of(
                        self@, encrypted_data@.take(12), plain)
                    ==> (r matches Ok(p) && p@ == plain),
    {
        if encrypted_data.len() < 12 {
            return Err(CryptoError::DecryptFailed);
        }
        let (nonce, sealed) = encrypted_data.split_at(12);
        proof {
            assert(nonce@ =~= encrypted_data@.take(12));
            assert(sealed@ =~= encrypted_data@.skip(12));
        }
        match aead_open(self.key.as_slice(), nonce, sealed) {
            None => Err(CryptoError::DecryptFailed),
            Some(p) => Ok(p),
        }
    }
}

} // verus!
