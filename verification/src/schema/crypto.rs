//! The cryptographic primitives the keyring rests on, each a thin call into
//! its crate: the operating system's random generator (`rand`), Argon2id
//! (`argon2`), HKDF-SHA256 (`hkdf`, `sha2`) and AES-256-GCM (`aes-gcm`).
//!
//! Results that depend on the arguments alone are named by uninterpreted
//! functions; the contracts say when each call succeeds and, for AES-GCM,
//! that opening what was sealed under the same key and nonce gives the
//! plaintext back.
use vstd::prelude::*;

use aes_gcm::aead::{Aead, KeyInit};

verus! {

/// A 256-bit key.
pub type KeyBytes = [u8; 32];

/// The error type of the AEAD traits.
#[verifier::external_type_specification]
#[verifier::external_body]
pub struct ExAeadError(aes_gcm::aead::Error);

/// The error type of `argon2`.
#[verifier::external_type_specification]
#[verifier::external_body]
pub struct ExArgon2Error(argon2::Error);

/// The error `hkdf` reports for an over-long output.
#[verifier::external_type_specification]
#[verifier::external_body]
pub struct ExHkdfInvalidLength(hkdf::InvalidLength);

/// The 32-byte Argon2id (version 0x13) output for these cost parameters,
/// password and salt.
pub uninterp spec fn argon2id_key(m_cost: u32, t_cost: u32, p_cost: u32, password: Seq<u8>, salt: Seq<u8>) -> Seq<u8>;

/// The 32-byte HKDF-SHA256 output for this salt, input key material and info.
pub uninterp spec fn hkdf_sha256_key(salt: Seq<u8>, ikm: Seq<u8>, info: Seq<u8>) -> Seq<u8>;

/// The AES-256-GCM ciphertext, tag appended, of `plaintext` under `key` and
/// `nonce`, with no associated data.
pub uninterp spec fn aes_gcm_sealed(key: Seq<u8>, nonce: Seq<u8>, plaintext: Seq<u8>) -> Seq<u8>;

/// What opening `ciphertext` under `key` and `nonce` yields: the plaintext
/// when the tag verifies, `None` otherwise.
pub uninterp spec fn aes_gcm_opened(key: Seq<u8>, nonce: Seq<u8>, ciphertext: Seq<u8>) -> Option<Seq<u8>>;

/// Whether `argon2::Params::new` accepts these costs with a 32-byte output.
pub open spec fn argon2_params_ok(m_cost: u32, t_cost: u32, p_cost: u32) -> bool {
    &&& m_cost >= 8
    &&& m_cost >= p_cost * 8
    &&& t_cost >= 1
    &&& 1 <= p_cost <= 0xFFFFFF
}

/// Whether `Argon2::hash_password_into` accepts this password and salt.
pub open spec fn argon2_inputs_ok(password: Seq<u8>, salt: Seq<u8>) -> bool {
    &&& password.len() <= 0xFFFF_FFFF
    &&& 8 <= salt.len() <= 0xFFFF_FFFF
}

/// Whether the Argon2id call below accepts these costs and inputs.
pub open spec fn argon2_accepts(m_cost: u32, t_cost: u32, p_cost: u32, password: Seq<u8>, salt: Seq<u8>) -> bool {
    argon2_params_ok(m_cost, t_cost, p_cost) && argon2_inputs_ok(password, salt)
}

/// `rand::fill`: overwrites `dest` with bytes from the thread-local CSPRNG.
/// Nothing is promised of the bytes but their number.
#[verifier::external_body]
pub(crate) fn fill_random(dest: &mut [u8])
    ensures
        final(dest)@.len() == old(dest)@.len(),
{
    rand::fill(dest);
}

/// `argon2::Params::new` with a 32-byte output, then
/// `Argon2::hash_password_into` with Argon2id version 0x13: succeeds exactly
/// when the costs and inputs are in the ranges the crate checks, and then
/// yields the named key.
#[verifier::external_body]
pub(crate) fn argon2id_hash(m_cost: u32, t_cost: u32, p_cost: u32, password: &[u8], salt: &[u8]) -> (r: Result<KeyBytes, argon2::Error>)
    requires
        p_cost <= 0x1FFF_FFFF,
    ensures
        r is Ok <==> argon2_accepts(m_cost, t_cost, p_cost, password@, salt@),
        r matches Ok(k) ==> k@ == argon2id_key(m_cost, t_cost, p_cost, password@, salt@),
{
    let params = argon2::Params::new(m_cost, t_cost, p_cost, Some(32))?;
    let argon = argon2::Argon2::new(argon2::Algorithm::Argon2id, argon2::Version::V0x13, params);
    let mut out = [0u8; 32];
    argon.hash_password_into(password, salt, &mut out)?;
    Ok(out)
}

/// `argon2::Error`'s `Display` text.
#[verifier::external_body]
pub(crate) fn argon2_error_text(e: &argon2::Error) -> String {
    e.to_string()
}

/// `Hkdf::<Sha256>::new(Some(salt), ikm)` then `expand(info, ..)` into 32
/// bytes, which is within the 255-block limit, so it always succeeds.
#[verifier::external_body]
pub(crate) fn hkdf_sha256(salt: &[u8], ikm: &[u8], info: &[u8]) -> (r: Result<KeyBytes, hkdf::InvalidLength>)
    ensures
        r is Ok,
        r matches Ok(k) ==> k@ == hkdf_sha256_key(salt@, ikm@, info@),
{
    let mut out = [0u8; 32];
    hkdf::Hkdf::<sha2::Sha256>::new(Some(salt), ikm).expand(info, &mut out)?;
    Ok(out)
}

/// `hkdf::InvalidLength`'s `Display` text.
#[verifier::external_body]
pub(crate) fn hkdf_error_text(e: &hkdf::InvalidLength) -> String {
    e.to_string()
}

/// `Aes256Gcm::encrypt` with no associated data: fails only for a plaintext
/// over 2^36 bytes; otherwise yields the named ciphertext, 16 bytes longer
/// than the plaintext, which opens under the same key and nonce to the
/// plaintext.
#[verifier::external_body]
pub(crate) fn aes_gcm_seal(key: &[u8; 32], nonce: &[u8; 12], plaintext: &[u8]) -> (r: Result<Vec<u8>, aes_gcm::aead::Error>)
    ensures
        r is Ok <==> plaintext@.len() <= 0x10_0000_0000,
        r matches Ok(c) ==> {
            &&& c@ == aes_gcm_sealed(key@, nonce@, plaintext@)
            &&& c@.len() == plaintext@.len() + 16
            &&& aes_gcm_opened(key@, nonce@, c@) == Some(plaintext@)
        },
{
    let cipher = aes_gcm::Aes256Gcm::new(key.into());
    cipher.encrypt(&aes_gcm::Nonce::from(*nonce), plaintext)
}

/// `Aes256Gcm::decrypt` with no associated data: the plaintext exactly when
/// the tag verifies, as named.
#[verifier::external_body]
pub(crate) fn aes_gcm_open(key: &[u8; 32], nonce: &[u8; 12], ciphertext: &[u8]) -> (r: Result<Vec<u8>, aes_gcm::aead::Error>)
    ensures
        match r {
            Ok(p) => aes_gcm_opened(key@, nonce@, ciphertext@) == Some(p@),
            Err(_) => aes_gcm_opened(key@, nonce@, ciphertext@) is None,
        },
{
    let cipher = aes_gcm::Aes256Gcm::new(key.into());
    cipher.decrypt(&aes_gcm::Nonce::from(*nonce), ciphertext)
}

/// `aes_gcm::aead::Error`'s `Display` text.
#[verifier::external_body]
pub(crate) fn aead_error_text(e: &aes_gcm::aead::Error) -> String {
    e.to_string()
}

} // verus!
