//! A point-to-point secure channel over an ordered byte stream.
//!
//! A post-quantum key-encapsulation mechanism establishes a shared
//! secret, a one-way hash of that secret fixes the initialization
//! vector, and every message then travels as two block-cipher records:
//! a fixed-width, zero-padded ASCII-decimal length field followed by
//! the payload. A detached-signature exchange over the shared secret
//! optionally authenticates either peer, and a small structured-value
//! codec carries request/response documents over the byte channel.
//!
//! The modules here hold the computational core: the caller owns the
//! stream and moves the produced records onto it (and the received
//! records back) unchanged.

use vstd::prelude::*;

pub mod channel;
pub mod cipher;
pub mod framing;
pub mod json;
pub mod kem;
pub mod sign;

verus! {

/// Why a channel operation failed. Every failure is fatal to the
/// channel: the stream cannot be trusted to resynchronize.
#[derive(Clone, Copy, Debug, PartialEq, Eq, Structural)]
pub enum ChannelError {
    /// A malformed or wrong-length public key or key-encapsulation
    /// ciphertext: the channel never becomes usable.
    Handshake,
    /// Decryption, encryption, hashing or signature verification
    /// failed.
    Crypto,
    /// The declared payload length overflowed while being accumulated.
    Framing,
    /// Received bytes did not decode as a structured value, or a value
    /// outside the supported shape was handed in for sending.
    Decode,
}

} // verus!
