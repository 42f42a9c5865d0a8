//! The detached-signature primitive of the authentication extension.
//!
//! A peer authenticates by signing the raw shared secret with its
//! long-term secret key and sending the detached signature as one
//! framed message; the other peer checks it against a pre-trusted
//! public key. Verification is a deterministic function of signature,
//! message and public key, named `sig_verifies`; signing may draw
//! randomness, so its contract states only what holds of every
//! outcome.

use vstd::prelude::*;

use crate::ChannelError;

verus! {

/// Public-key length of the signature scheme, in bytes.
pub const SIG_PUBLIC_KEY_BYTES: usize = 1952;

/// Secret-key length of the signature scheme, in bytes.
pub const SIG_SECRET_KEY_BYTES: usize = 4032;

/// Detached-signature length of the signature scheme, in bytes.
pub const SIG_BYTES: usize = 3309;

/// Whether the two byte strings are a matching public/secret keypair
/// of the signature scheme.
pub uninterp spec fn sig_keypair(pk: Seq<u8>, sk: Seq<u8>) -> bool;

/// Whether `sig` is a detached signature over `msg` that passes
/// verification under `pk`: a deterministic function of the three.
pub uninterp spec fn sig_verifies(sig: Seq<u8>, msg: Seq<u8>, pk: Seq<u8>) -> bool;

/// Relies on pqcrypto's `mldsa65::detached_sign` (with
/// `SecretKey::from_bytes`, which fails exactly on a wrong-length
/// encoding): whatever randomness is drawn, the returned signature
/// verifies over `msg` under every public key paired with `sk`.
#[verifier::external_body]
pub(crate) fn sign_detached(msg: &[u8], sk: &[u8]) -> (r: Result<Vec<u8>, ChannelError>)
    ensures
        r matches Ok(sig) ==> sk@.len() == SIG_SECRET_KEY_BYTES && sig@.len() <= SIG_BYTES && (
        forall|pk: Seq<u8>| sig_keypair(pk, sk@) ==> sig_verifies(sig@, msg@, pk)),
        r matches Err(e) ==> e == ChannelError::Crypto && sk@.len() != SIG_SECRET_KEY_BYTES,
{
    let sk = <pqcrypto::sign::mldsa65::SecretKey as pqcrypto::traits::sign::SecretKey>::from_bytes(
        sk,
    ).map_err(|_| ChannelError::Crypto)?;
    let sig = pqcrypto::sign::mldsa65::detached_sign(msg, &sk);
    Ok(pqcrypto::traits::sign::DetachedSignature::as_bytes(&sig).to_vec())
}

/// Relies on pqcrypto's `mldsa65::verify_detached_signature` (with
/// `DetachedSignature::from_bytes`, which fails exactly on an
/// over-long encoding, and `PublicKey::from_bytes`, which fails
/// exactly on a wrong-length one): deterministic verification of a
/// detached signature.
#[verifier::external_body]
pub(crate) fn verify_detached(sig: &[u8], msg: &[u8], pk: &[u8]) -> (r: Result<
    (),
    ChannelError,
>)
    ensures
        r matches Ok(u) ==> sig@.len() <= SIG_BYTES && pk@.len() == SIG_PUBLIC_KEY_BYTES
            && sig_verifies(sig@, msg@, pk@),
        r matches Err(e) ==> e == ChannelError::Crypto && (sig@.len() > SIG_BYTES || pk@.len()
            != SIG_PUBLIC_KEY_BYTES || !sig_verifies(sig@, msg@, pk@)),
{
    let sig = <pqcrypto::sign::mldsa65::DetachedSignature as pqcrypto::traits::sign::DetachedSignature>::from_bytes(
        sig,
    ).map_err(|_| ChannelError::Crypto)?;
    let pk = <pqcrypto::sign::mldsa65::PublicKey as pqcrypto::traits::sign::PublicKey>::from_bytes(
        pk,
    ).map_err(|_| ChannelError::Crypto)?;
    pqcrypto::sign::mldsa65::verify_detached_signature(&sig, msg, &pk).map_err(|_| ChannelError::Crypto)
}

} // verus!
