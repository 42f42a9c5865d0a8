//! The symmetric cipher and hash primitives of the channel.
//!
//! The channel encrypts every record with AES-256-CBC under the shared
//! secret, with an initialization vector derived once per channel as a
//! one-way hash of that secret. Both operations are deterministic
//! functions of their arguments, so their results carry names that the
//! rest of the library reasons with: `enc_of`, `dec_of` and `iv_of`.

use vstd::prelude::*;

use crate::framing::spec_padded_len;
use crate::ChannelError;

verus! {

/// AES-256 key length in bytes: the length of the shared secret.
pub const KEY_BYTES: usize = 32;

/// Initialization-vector length in bytes: one cipher block.
pub const IV_BYTES: usize = 16;

/// The ciphertext that AES-256-CBC with PKCS#7 padding produces for
/// the given key, initialization vector and plaintext.
pub uninterp spec fn enc_of(key: Seq<u8>, iv: Seq<u8>, data: Seq<u8>) -> Seq<u8>;

/// What AES-256-CBC decryption with PKCS#7 unpadding yields for the
/// given key, initialization vector and ciphertext: `None` exactly
/// when the ciphertext length or the final padding is invalid.
pub uninterp spec fn dec_of(key: Seq<u8>, iv: Seq<u8>, ct: Seq<u8>) -> Option<Seq<u8>>;

/// The 16-byte one-way digest that the channel derives its
/// initialization vector from.
pub uninterp spec fn iv_of(secret: Seq<u8>) -> Seq<u8>;

/// Relies on openssl's `symm::encrypt` with `Cipher::aes_256_cbc`:
/// deterministic CBC encryption with PKCS#7 padding, which expands an
/// `n`-byte plaintext to the next multiple of 16 bytes (a full extra
/// block when `n` is already a multiple) and which `symm::decrypt`
/// inverts under the same key and initialization vector.
#[verifier::external_body]
pub(crate) fn aes_encrypt(key: &[u8], iv: &[u8], data: &[u8]) -> (r: Result<Vec<u8>, ChannelError>)
    requires
        key@.len() == KEY_BYTES,
        iv@.len() == IV_BYTES,
    ensures
        r matches Ok(ct) ==> ct@ == enc_of(key@, iv@, data@) && ct@.len() == spec_padded_len(
            data@.len() as int,
        ) && dec_of(key@, iv@, ct@) == Some(data@),
        r matches Err(e) ==> e == ChannelError::Crypto,
{
    match openssl::symm::encrypt(openssl::symm::Cipher::aes_256_cbc(), key, Some(iv), data) {
        Ok(ct) => Ok(ct),
        Err(_) => Err(ChannelError::Crypto),
    }
}

/// Relies on openssl's `symm::decrypt` with `Cipher::aes_256_cbc`:
/// deterministic CBC decryption with PKCS#7 unpadding, which fails
/// exactly when the ciphertext length or the final block's padding is
/// invalid.
#[verifier::external_body]
pub(crate) fn aes_decrypt(key: &[u8], iv: &[u8], ct: &[u8]) -> (r: Result<Vec<u8>, ChannelError>)
    requires
        key@.len() == KEY_BYTES,
        iv@.len() == IV_BYTES,
    ensures
        r matches Ok(pt) ==> dec_of(key@, iv@, ct@) == Some(pt@),
        r matches Err(e) ==> e == ChannelError::Crypto && dec_of(key@, iv@, ct@) is None,
{
    match openssl::symm::decrypt(openssl::symm::Cipher::aes_256_cbc(), key, Some(iv), ct) {
        Ok(pt) => Ok(pt),
        Err(_) => Err(ChannelError::Crypto),
    }
}

/// Relies on openssl's `hash` with `MessageDigest::shake_128`: a
/// deterministic 16-byte digest of its input.
#[verifier::external_body]
pub(crate) fn derive_iv(secret: &[u8]) -> (r: Result<Vec<u8>, ChannelError>)
    ensures
        r matches Ok(iv) ==> iv@ == iv_of(secret@) && iv@.len() == IV_BYTES,
        r matches Err(e) ==> e == ChannelError::Crypto,
{
    match openssl::hash::hash(openssl::hash::MessageDigest::shake_128(), secret) {
        Ok(digest) => Ok(digest.to_vec()),
        Err(_) => Err(ChannelError::Crypto),
    }
}

} // verus!
