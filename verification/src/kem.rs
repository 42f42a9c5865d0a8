//! The key-encapsulation primitive of the handshake.
//!
//! The requester sends a fresh public key; the acceptor encapsulates a
//! fresh shared secret to it and sends back the ciphertext; the
//! requester decapsulates. Decapsulation is a deterministic function
//! of ciphertext and secret key, named `decap_of`; key generation and
//! encapsulation draw randomness, so their contracts state only what
//! holds of every outcome.

use vstd::prelude::*;

use crate::ChannelError;

verus! {

/// Public-key length of the key-encapsulation mechanism, in bytes.
pub const KEM_PUBLIC_KEY_BYTES: usize = 1568;

/// Secret-key length of the key-encapsulation mechanism, in bytes.
pub const KEM_SECRET_KEY_BYTES: usize = 3168;

/// Ciphertext length of the key-encapsulation mechanism, in bytes.
pub const KEM_CIPHERTEXT_BYTES: usize = 1568;

/// Shared-secret length, in bytes: exactly one cipher key.
pub const SHARED_SECRET_BYTES: usize = 32;

/// Whether the two byte strings are a matching public/secret keypair
/// of the key-encapsulation mechanism.
pub uninterp spec fn kem_keypair(pk: Seq<u8>, sk: Seq<u8>) -> bool;

/// The shared secret that decapsulating `ct` with `sk` yields: a
/// deterministic function of the two.
pub uninterp spec fn decap_of(ct: Seq<u8>, sk: Seq<u8>) -> Seq<u8>;

/// Relies on pqcrypto's `mlkem1024::keypair`: a fresh ML-KEM-1024
/// keypair, returned here as its byte encodings.
#[verifier::external_body]
pub(crate) fn kem_generate() -> (r: (Vec<u8>, Vec<u8>))
    ensures
        r.0@.len() == KEM_PUBLIC_KEY_BYTES,
        r.1@.len() == KEM_SECRET_KEY_BYTES,
        kem_keypair(r.0@, r.1@),
{
    let (pk, sk) = pqcrypto::kem::mlkem1024::keypair();
    (
        pqcrypto::traits::kem::PublicKey::as_bytes(&pk).to_vec(),
        pqcrypto::traits::kem::SecretKey::as_bytes(&sk).to_vec(),
    )
}

/// Relies on pqcrypto's `mlkem1024::encapsulate` (with
/// `PublicKey::from_bytes`, which fails exactly on a wrong-length
/// encoding): whatever randomness is drawn, the returned ciphertext
/// decapsulates to the returned shared secret under every secret key
/// paired with `pk`.
#[verifier::external_body]
pub(crate) fn kem_encapsulate(pk: &[u8]) -> (r: Result<(Vec<u8>, Vec<u8>), ChannelError>)
    ensures
        r matches Ok(p) ==> pk@.len() == KEM_PUBLIC_KEY_BYTES && p.0@.len() == SHARED_SECRET_BYTES
            && p.1@.len() == KEM_CIPHERTEXT_BYTES && (forall|sk: Seq<u8>|
            kem_keypair(pk@, sk) ==> decap_of(p.1@, sk) == p.0@),
        r matches Err(e) ==> e == ChannelError::Handshake && pk@.len() != KEM_PUBLIC_KEY_BYTES,
{
    let pk = <pqcrypto::kem::mlkem1024::PublicKey as pqcrypto::traits::kem::PublicKey>::from_bytes(
        pk,
    ).map_err(|_| ChannelError::Handshake)?;
    let (ss, ct) = pqcrypto::kem::mlkem1024::encapsulate(&pk);
    Ok((
        pqcrypto::traits::kem::SharedSecret::as_bytes(&ss).to_vec(),
        pqcrypto::traits::kem::Ciphertext::as_bytes(&ct).to_vec(),
    ))
}

/// Relies on pqcrypto's `mlkem1024::decapsulate` (with
/// `Ciphertext::from_bytes` and `SecretKey::from_bytes`, which fail
/// exactly on wrong-length encodings): a deterministic function of
/// ciphertext and secret key.
#[verifier::external_body]
pub(crate) fn kem_decapsulate(ct: &[u8], sk: &[u8]) -> (r: Result<Vec<u8>, ChannelError>)
    ensures
        r matches Ok(ss) ==> ct@.len() == KEM_CIPHERTEXT_BYTES && sk@.len()
            == KEM_SECRET_KEY_BYTES && ss@.len() == SHARED_SECRET_BYTES && ss@ == decap_of(
            ct@,
            sk@,
        ),
        r matches Err(e) ==> e == ChannelError::Handshake && (ct@.len() != KEM_CIPHERTEXT_BYTES
            || sk@.len() != KEM_SECRET_KEY_BYTES),
{
    let ct = <pqcrypto::kem::mlkem1024::Ciphertext as pqcrypto::traits::kem::Ciphertext>::from_bytes(
        ct,
    ).map_err(|_| ChannelError::Handshake)?;
    let sk = <pqcrypto::kem::mlkem1024::SecretKey as pqcrypto::traits::kem::SecretKey>::from_bytes(
        sk,
    ).map_err(|_| ChannelError::Handshake)?;
    let ss = pqcrypto::kem::mlkem1024::decapsulate(&ct, &sk);
    Ok(pqcrypto::traits::kem::SharedSecret::as_bytes(&ss).to_vec())
}

} // verus!
