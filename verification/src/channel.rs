//! The secure channel: handshake, authentication and framed records.
//!
//! The channel owns no stream. Its constructors and methods compute
//! exactly the byte records the protocol exchanges; the caller moves
//! them over its transport unchanged. A requester first sends the
//! public key from [`Encrypted::request_start`], reads the fixed-size
//! ciphertext and finishes with [`Encrypted::request_finish`]; an
//! acceptor reads the fixed-size public key, calls
//! [`Encrypted::accept`] and sends the ciphertext back. Both sides
//! then hold the same shared secret and the same derived
//! initialization vector, and exchange messages as two-record frames.

use vstd::prelude::*;

use crate::cipher::{aes_encrypt, aes_decrypt, derive_iv, enc_of, dec_of, iv_of, IV_BYTES, KEY_BYTES};
use crate::framing::{
    encode_len_field, decode_len_field, padded_len, spec_len_field, spec_parse_len,
    spec_padded_len, LEN_LIMIT, LEN_RECORD_BYTES,
};
use crate::kem::{
    kem_generate, kem_encapsulate, kem_decapsulate, kem_keypair, decap_of, KEM_CIPHERTEXT_BYTES,
    KEM_PUBLIC_KEY_BYTES, KEM_SECRET_KEY_BYTES, SHARED_SECRET_BYTES,
};
use crate::json::{from_bytes, to_bytes, spec_ser, spec_wf, Json};
use crate::sign::{sign_detached, verify_detached, sig_keypair, sig_verifies, SIG_BYTES,
    SIG_PUBLIC_KEY_BYTES, SIG_SECRET_KEY_BYTES};
use crate::ChannelError;

verus! {

/// One message on the wire: the encrypted length record followed by
/// the encrypted payload record. The caller writes `header` first,
/// then `body`, each exactly as produced.
pub struct Frame {
    /// Ciphertext of the 16-byte length field; always 32 bytes.
    pub header: Vec<u8>,
    /// Ciphertext of the payload.
    pub body: Vec<u8>,
}

/// A requester handshake that has sent its public key and waits for
/// the acceptor's ciphertext.
pub struct Pending {
    sk: Vec<u8>,
}

impl Pending {
    /// The secret key generated for this handshake attempt.
    pub closed spec fn spec_sk(&self) -> Seq<u8> {
        self.sk@
    }
}

/// An established channel: the shared secret and the initialization
/// vector derived from it, constant for the channel's lifetime.
pub struct Encrypted {
    secret: Vec<u8>,
    iv: Vec<u8>,
}

impl Encrypted {
    /// The shared secret agreed during the handshake: the cipher key.
    pub closed spec fn spec_secret(&self) -> Seq<u8> {
        self.secret@
    }

    /// The initialization vector used for every record.
    pub closed spec fn spec_iv(&self) -> Seq<u8> {
        self.iv@
    }

    /// A usable channel: a full-length key, with the initialization
    /// vector derived from it by the one-way hash.
    pub open spec fn wf(&self) -> bool {
        &&& self.spec_secret().len() == KEY_BYTES
        &&& self.spec_iv() == iv_of(self.spec_secret())
        &&& self.spec_iv().len() == IV_BYTES
    }

    /// Builds the channel state over an agreed shared secret by
    /// deriving the initialization vector from it.
    pub fn from_secret(secret: Vec<u8>) -> (r: Result<Encrypted, ChannelError>)
        requires
            secret@.len() == KEY_BYTES,
        ensures
            r matches Ok(ch) ==> ch.wf() && ch.spec_secret() == secret@,
            r matches Err(e) ==> e == ChannelError::Crypto,
    {
        match derive_iv(secret.as_slice()) {
            Ok(iv) => Ok(Encrypted { secret, iv }),
            Err(e) => Err(e),
        }
    }

    /// Starts the requester role: generates a fresh keypair and
    /// returns the public key to write onto the stream, with the
    /// pending state that finishes the handshake.
    pub fn request_start() -> (r: (Pending, Vec<u8>))
        ensures
            r.1@.len() == KEM_PUBLIC_KEY_BYTES,
            r.0.spec_sk().len() == KEM_SECRET_KEY_BYTES,
            kem_keypair(r.1@, r.0.spec_sk()),
    {
        let (pk, sk) = kem_generate();
        (Pending { sk }, pk)
    }

    /// Finishes the requester role with the ciphertext read from the
    /// stream: decapsulates the shared secret and derives the
    /// initialization vector. A wrong-length ciphertext is a fatal
    /// handshake error.
    pub fn request_finish(pending: Pending, ct: &[u8]) -> (r: Result<Encrypted, ChannelError>)
        requires
            pending.spec_sk().len() == KEM_SECRET_KEY_BYTES,
        ensures
            r matches Ok(ch) ==> ch.wf() && ct@.len() == KEM_CIPHERTEXT_BYTES && ch.spec_secret()
                == decap_of(ct@, pending.spec_sk()),
            ct@.len() != KEM_CIPHERTEXT_BYTES ==> r == Err::<Encrypted, ChannelError>(
                ChannelError::Handshake,
            ),
            r matches Err(e) ==> e == ChannelError::Handshake || e == ChannelError::Crypto,
    {
        match kem_decapsulate(ct, pending.sk.as_slice()) {
            Ok(secret) => Self::from_secret(secret),
            Err(e) => Err(e),
        }
    }

    /// The acceptor role, over the public key read from the stream:
    /// encapsulates a fresh shared secret, derives the initialization
    /// vector, and returns the established channel with the ciphertext
    /// to write back. A wrong-length public key is a fatal handshake
    /// error.
    pub fn accept(pk: &[u8]) -> (r: Result<(Encrypted, Vec<u8>), ChannelError>)
        ensures
            r matches Ok(p) ==> p.0.wf() && pk@.len() == KEM_PUBLIC_KEY_BYTES && p.1@.len()
                == KEM_CIPHERTEXT_BYTES && (forall|sk: Seq<u8>|
                kem_keypair(pk@, sk) ==> decap_of(p.1@, sk) == p.0.spec_secret()),
            pk@.len() != KEM_PUBLIC_KEY_BYTES ==> r == Err::<(Encrypted, Vec<u8>), ChannelError>(
                ChannelError::Handshake,
            ),
            r matches Err(e) ==> e == ChannelError::Handshake || e == ChannelError::Crypto,
    {
        match kem_encapsulate(pk) {
            Ok((secret, ct)) => match Self::from_secret(secret) {
                Ok(ch) => Ok((ch, ct)),
                Err(e) => Err(e),
            },
            Err(e) => Err(e),
        }
    }

    /// Encrypts one message as the two records of a frame: the 16-byte
    /// length field, then the payload, each under the channel key and
    /// initialization vector.
    pub fn send_bytes(&self, data: &[u8]) -> (r: Result<Frame, ChannelError>)
        requires
            self.wf(),
            (data@.len() as int) < LEN_LIMIT as int,
        ensures
            r matches Ok(f) ==> {
                &&& f.header@ == enc_of(
                    self.spec_secret(),
                    self.spec_iv(),
                    spec_len_field(data@.len() as nat),
                )
                &&& f.header@.len() == LEN_RECORD_BYTES
                &&& dec_of(self.spec_secret(), self.spec_iv(), f.header@) == Some(
                    spec_len_field(data@.len() as nat),
                )
                &&& f.body@ == enc_of(self.spec_secret(), self.spec_iv(), data@)
                &&& f.body@.len() == spec_padded_len(data@.len() as int)
                &&& dec_of(self.spec_secret(), self.spec_iv(), f.body@) == Some(data@)
            },
            r matches Err(e) ==> e == ChannelError::Crypto,
    {
        let field = encode_len_field(data.len());
        proof {
            crate::framing::lemma_len_field_round_trip(data@.len() as nat);
        }
        let header = match aes_encrypt(self.secret.as_slice(), self.iv.as_slice(), field.as_slice()) {
            Ok(ct) => ct,
            Err(e) => return Err(e),
        };
        let body = match aes_encrypt(self.secret.as_slice(), self.iv.as_slice(), data) {
            Ok(ct) => ct,
            Err(e) => return Err(e),
        };
        Ok(Frame { header, body })
    }

    /// Decrypts a received length record and scans it for the declared
    /// payload length. A record that does not decrypt is a
    /// cryptographic error; a declared length that overflows the
    /// accumulator is a framing error.
    pub fn receive_header(&self, header: &[u8]) -> (r: Result<usize, ChannelError>)
        requires
            self.wf(),
        ensures
            match r {
                Ok(n) => dec_of(self.spec_secret(), self.spec_iv(), header@) matches Some(pt)
                    && n as nat == spec_parse_len(pt),
                Err(e) => (e == ChannelError::Crypto && dec_of(
                    self.spec_secret(),
                    self.spec_iv(),
                    header@,
                ) is None) || (e == ChannelError::Framing && (dec_of(
                    self.spec_secret(),
                    self.spec_iv(),
                    header@,
                ) matches Some(pt) && spec_parse_len(pt) > usize::MAX)),
            },
    {
        let field = match aes_decrypt(self.secret.as_slice(), self.iv.as_slice(), header) {
            Ok(pt) => pt,
            Err(e) => return Err(e),
        };
        decode_len_field(field.as_slice())
    }

    /// How many payload-record bytes to read for a declared length:
    /// the padding rule applied to it.
    pub fn payload_record_len(&self, declared: usize) -> (r: usize)
        requires
            declared + 16 <= usize::MAX,
        ensures
            r == spec_padded_len(declared as int),
    {
        padded_len(declared)
    }

    /// Decrypts a received payload record. The plaintext is exactly
    /// what the cipher yields for it; a record that does not decrypt
    /// is a cryptographic error.
    pub fn receive_body(&self, body: &[u8]) -> (r: Result<Vec<u8>, ChannelError>)
        requires
            self.wf(),
        ensures
            match r {
                Ok(pt) => dec_of(self.spec_secret(), self.spec_iv(), body@) == Some(pt@),
                Err(e) => e == ChannelError::Crypto && dec_of(
                    self.spec_secret(),
                    self.spec_iv(),
                    body@,
                ) is None,
            },
    {
        aes_decrypt(self.secret.as_slice(), self.iv.as_slice(), body)
    }

    /// Signs the raw shared secret with the caller's long-term secret
    /// key and frames the detached signature as one message, ready to
    /// send.
    pub fn authorize(&self, sk: &[u8]) -> (r: Result<Frame, ChannelError>)
        requires
            self.wf(),
        ensures
            r matches Ok(f) ==> sk@.len() == SIG_SECRET_KEY_BYTES && (exists|sig: Seq<u8>|
                {
                    &&& sig.len() <= SIG_BYTES
                    &&& (forall|pk: Seq<u8>|
                        sig_keypair(pk, sk@) ==> sig_verifies(sig, self.spec_secret(), pk))
                    &&& dec_of(self.spec_secret(), self.spec_iv(), f.body@) == Some(sig)
                    &&& dec_of(self.spec_secret(), self.spec_iv(), f.header@) == Some(
                        spec_len_field(sig.len()),
                    )
                }),
            r matches Err(e) ==> e == ChannelError::Crypto,
    {
        let sig = match sign_detached(self.secret.as_slice(), sk) {
            Ok(sig) => sig,
            Err(e) => return Err(e),
        };
        match self.send_bytes(sig.as_slice()) {
            Ok(f) => {
                proof {
                    let s = sig@;
                    assert(s.len() <= SIG_BYTES && (forall|pk: Seq<u8>|
                        sig_keypair(pk, sk@) ==> sig_verifies(s, self.spec_secret(), pk)) && dec_of(
                        self.spec_secret(),
                        self.spec_iv(),
                        f.body@,
                    ) == Some(s) && dec_of(self.spec_secret(), self.spec_iv(), f.header@) == Some(
                        spec_len_field(s.len()),
                    ));
                }
                Ok(f)
            },
            Err(e) => Err(e),
        }
    }

    /// Checks a received message as a detached signature over the raw
    /// shared secret, against a caller-supplied, pre-trusted public
    /// key. Succeeds exactly when the bytes verify; on failure the
    /// channel must be torn down.
    pub fn verify(&self, pk: &[u8], sig: &[u8]) -> (r: Result<(), ChannelError>)
        requires
            self.wf(),
        ensures
            r matches Ok(u) ==> sig@.len() <= SIG_BYTES && pk@.len() == SIG_PUBLIC_KEY_BYTES
                && sig_verifies(sig@, self.spec_secret(), pk@),
            r matches Err(e) ==> e == ChannelError::Crypto && (sig@.len() > SIG_BYTES || pk@.len()
                != SIG_PUBLIC_KEY_BYTES || !sig_verifies(sig@, self.spec_secret(), pk@)),
    {
        verify_detached(sig, self.secret.as_slice(), pk)
    }

    /// Serializes a structured value to its canonical encoding and
    /// frames it as one message. A value outside the supported shape
    /// is a decode error; an encoding too long for the length field is
    /// a framing error.
    pub fn send_json(&self, value: &Json) -> (r: Result<Frame, ChannelError>)
        requires
            self.wf(),
        ensures
            r matches Ok(f) ==> {
                &&& spec_wf(*value)
                &&& (spec_ser(*value).len() as int) < LEN_LIMIT as int
                &&& dec_of(self.spec_secret(), self.spec_iv(), f.header@) == Some(
                    spec_len_field(spec_ser(*value).len() as nat),
                )
                &&& f.header@.len() == LEN_RECORD_BYTES
                &&& f.body@ == enc_of(self.spec_secret(), self.spec_iv(), spec_ser(*value))
                &&& f.body@.len() == spec_padded_len(spec_ser(*value).len() as int)
                &&& dec_of(self.spec_secret(), self.spec_iv(), f.body@) == Some(spec_ser(*value))
            },
            r matches Err(e) ==> (e == ChannelError::Decode && !spec_wf(*value)) || (e
                == ChannelError::Framing && spec_wf(*value) && (spec_ser(*value).len() as int)
                >= LEN_LIMIT as int) || e == ChannelError::Crypto,
    {
        let bytes = match to_bytes(value) {
            Ok(b) => b,
            Err(e) => return Err(e),
        };
        if bytes.len() as u64 >= LEN_LIMIT {
            return Err(ChannelError::Framing);
        }
        self.send_bytes(bytes.as_slice())
    }

    /// Decrypts a received payload record and parses it as one
    /// structured value. A record that does not decrypt is a
    /// cryptographic error; decrypted bytes that are not a canonical
    /// encoding are a decode error.
    pub fn receive_json(&self, body: &[u8]) -> (r: Result<Json, ChannelError>)
        requires
            self.wf(),
        ensures
            r matches Ok(v) ==> (dec_of(self.spec_secret(), self.spec_iv(), body@) matches Some(pt)
                && spec_wf(v) && spec_ser(v) == pt),
            r matches Err(e) ==> (e == ChannelError::Crypto && dec_of(
                self.spec_secret(),
                self.spec_iv(),
                body@,
            ) is None) || (e == ChannelError::Decode && dec_of(
                self.spec_secret(),
                self.spec_iv(),
                body@,
            ) is Some),
    {
        let plain = match self.receive_body(body) {
            Ok(pt) => pt,
            Err(e) => return Err(e),
        };
        from_bytes(plain.as_slice())
    }
}

/// Handshake symmetry: when the acceptor encapsulates to an honestly
/// generated public key, the requester's decapsulation with the paired
/// secret key yields the acceptor's shared secret, and both peers
/// derive the same initialization vector from it.
pub proof fn lemma_handshake_symmetry(pk: Seq<u8>, sk: Seq<u8>, secret: Seq<u8>, ct: Seq<u8>)
    requires
        kem_keypair(pk, sk),
        forall|s: Seq<u8>| kem_keypair(pk, s) ==> decap_of(ct, s) == secret,
    ensures
        decap_of(ct, sk) == secret,
        iv_of(decap_of(ct, sk)) == iv_of(secret),
{
}

/// What the receiver recovers from a received length record: the
/// declared length scanned from the decrypted field, when the record
/// decrypts at all.
pub open spec fn spec_open_header(key: Seq<u8>, iv: Seq<u8>, header: Seq<u8>) -> Option<nat> {
    match dec_of(key, iv, header) {
        Some(pt) => Some(spec_parse_len(pt)),
        None => None,
    }
}

/// Round-trip framing: the two records an honest sender produces for a
/// payload open back to exactly that payload — the length record
/// scans to the payload's length, the padding rule names the exact
/// number of body bytes the receiver must read, and the body record
/// decrypts to the payload.
pub proof fn lemma_round_trip_framing(
    key: Seq<u8>,
    iv: Seq<u8>,
    data: Seq<u8>,
    header: Seq<u8>,
    body: Seq<u8>,
)
    requires
        dec_of(key, iv, header) == Some(spec_len_field(data.len() as nat)),
        dec_of(key, iv, body) == Some(data),
        body.len() == spec_padded_len(data.len() as int),
        (data.len() as int) < LEN_LIMIT as int,
    ensures
        spec_open_header(key, iv, header) == Some(data.len() as nat),
        spec_padded_len(data.len() as int) == body.len(),
        dec_of(key, iv, body) == Some(data),
{
    crate::framing::lemma_len_field_round_trip(data.len() as nat);
}

/// Round-trip of a structured payload, in the form the canonical codec
/// states it: when the payload record an honest sender produced for
/// `value` decrypts back and a structured value `w` is recovered from
/// it, then `w`'s canonical encoding is exactly `value`'s — the
/// receiver can neither observe different bytes nor accept a value
/// that encodes differently.
pub proof fn lemma_structured_round_trip(
    key: Seq<u8>,
    iv: Seq<u8>,
    value: Json,
    w: Json,
    body: Seq<u8>,
)
    requires
        dec_of(key, iv, body) == Some(spec_ser(value)),
        dec_of(key, iv, body) matches Some(pt) && spec_ser(w) == pt,
    ensures
        spec_ser(w) == spec_ser(value),
{
}

/// Authentication correctness: a signature produced over the channel's
/// shared secret with a long-term secret key passes verification under
/// the paired public key — so `verify` succeeds on what the matching
/// peer's `authorize` sent.
pub proof fn lemma_authentication_correct(pk: Seq<u8>, sk: Seq<u8>, secret: Seq<u8>, sig: Seq<u8>)
    requires
        sig_keypair(pk, sk),
        forall|p: Seq<u8>| sig_keypair(p, sk) ==> sig_verifies(sig, secret, p),
    ensures
        sig_verifies(sig, secret, pk),
{
}

} // verus!
