use pqcrypto::traits::sign::PublicKey as SignPublicKey;
use pqcrypto::traits::sign::SecretKey as SignSecretKey;
use secure_channel::channel::Encrypted;
use secure_channel::ChannelError;

/// Runs a full loopback handshake and returns the two ends.
fn loopback() -> (Encrypted, Encrypted) {
    let (pending, pk_msg) = Encrypted::request_start();
    let (acceptor, ct_msg) = Encrypted::accept(pk_msg.as_slice()).expect("accept failed");
    let requester = Encrypted::request_finish(pending, ct_msg.as_slice()).expect("finish failed");
    (requester, acceptor)
}

/// One full receive over a frame, as the stream-owning caller does it:
/// open the length record, size the payload record, decrypt it.
fn receive_frame(ch: &Encrypted, header: &[u8], body: &[u8]) -> Result<Vec<u8>, ChannelError> {
    let declared = ch.receive_header(header)?;
    let want = ch.payload_record_len(declared);
    assert_eq!(want, body.len());
    ch.receive_body(body)
}

#[test]
fn handshake_symmetry() {
    // Both roles derive the same secret and IV: a message sealed by
    // one end opens at the other, in both directions.
    let (requester, acceptor) = loopback();
    let msg = b"handshake check".to_vec();
    let frame = requester.send_bytes(msg.as_slice()).expect("send failed");
    let got = receive_frame(&acceptor, frame.header.as_slice(), frame.body.as_slice())
        .expect("receive failed");
    assert_eq!(got, msg);
    let back = acceptor.send_bytes(msg.as_slice()).expect("send failed");
    let got2 = receive_frame(&requester, back.header.as_slice(), back.body.as_slice())
        .expect("receive failed");
    assert_eq!(got2, msg);
}

#[test]
fn handshake_rejects_wrong_lengths() {
    let short_pk = vec![0u8; 7];
    assert_eq!(
        Encrypted::accept(short_pk.as_slice()).err(),
        Some(ChannelError::Handshake)
    );
    let (pending, _pk_msg) = Encrypted::request_start();
    let short_ct = vec![0u8; 9];
    assert_eq!(
        Encrypted::request_finish(pending, short_ct.as_slice()).err(),
        Some(ChannelError::Handshake)
    );
}

#[test]
fn round_trip_framing_boundary_lengths() {
    // Lengths around the block size: empty, one byte, block-1, exactly
    // one block, block+1.
    let (requester, acceptor) = loopback();
    for len in [0usize, 1, 15, 16, 17, 100] {
        let data: Vec<u8> = (0..len).map(|i| (i % 251) as u8).collect();
        let frame = requester.send_bytes(data.as_slice()).expect("send failed");
        assert_eq!(frame.header.len(), 32);
        let got = receive_frame(&acceptor, frame.header.as_slice(), frame.body.as_slice())
            .expect("receive failed");
        assert_eq!(got, data);
    }
}

#[test]
fn length_field_boundary() {
    // A declared length of zero and one that is an exact multiple of
    // the block size both expand by a full extra block.
    let (requester, _acceptor) = loopback();
    assert_eq!(requester.payload_record_len(0), 16);
    assert_eq!(requester.payload_record_len(16), 32);
    assert_eq!(requester.payload_record_len(32), 48);
    assert_eq!(requester.payload_record_len(1), 16);
    assert_eq!(requester.payload_record_len(15), 16);
    assert_eq!(requester.payload_record_len(17), 32);
}

#[test]
fn ciphertext_is_not_plaintext() {
    // The records on the wire are encrypted: the payload record does
    // not begin with the plaintext, and the length record does not
    // begin with the 16-byte length field.
    let secret: Vec<u8> = (7..39u8).collect();
    let ch = Encrypted::from_secret(secret).expect("from_secret failed");
    let data = b"a perfectly ordinary message".to_vec();
    let frame = ch.send_bytes(data.as_slice()).expect("send failed");
    assert_ne!(&frame.body[..data.len()], data.as_slice());
    let field: Vec<u8> = {
        let digits = data.len().to_string().into_bytes();
        let mut f = vec![0u8; 16 - digits.len()];
        f.extend_from_slice(&digits);
        f
    };
    assert_ne!(&frame.header[..16], field.as_slice());
}

#[test]
fn authentication_correctness() {
    // verify succeeds exactly on a signature the matching peer made
    // over the same shared secret.
    let (requester, acceptor) = loopback();
    let (pk, sk) = pqcrypto::sign::mldsa65::keypair();
    let pk_bytes = pk.as_bytes().to_vec();
    let sk_bytes = sk.as_bytes().to_vec();

    let frame = requester.authorize(sk_bytes.as_slice()).expect("authorize failed");
    let sig = receive_frame(&acceptor, frame.header.as_slice(), frame.body.as_slice())
        .expect("receive failed");
    assert!(acceptor.verify(pk_bytes.as_slice(), sig.as_slice()).is_ok());

    // One flipped signature bit fails verification.
    let mut bad_sig = sig.clone();
    bad_sig[10] ^= 0x40;
    assert_eq!(
        acceptor.verify(pk_bytes.as_slice(), bad_sig.as_slice()).err(),
        Some(ChannelError::Crypto)
    );

    // A mismatched keypair fails verification.
    let (other_pk, _other_sk) = pqcrypto::sign::mldsa65::keypair();
    let other_pk_bytes = other_pk.as_bytes().to_vec();
    assert_eq!(
        acceptor.verify(other_pk_bytes.as_slice(), sig.as_slice()).err(),
        Some(ChannelError::Crypto)
    );

    // A signature over a different channel's secret does not verify
    // here: authentication is bound to this channel's secret.
    let (other_req, _other_acc) = loopback();
    let other_frame = other_req.authorize(sk_bytes.as_slice()).expect("authorize failed");
    let other_sig = receive_frame(
        &other_req,
        other_frame.header.as_slice(),
        other_frame.body.as_slice(),
    )
    .expect("receive failed");
    assert_eq!(
        acceptor.verify(pk_bytes.as_slice(), other_sig.as_slice()).err(),
        Some(ChannelError::Crypto)
    );
}

#[test]
fn tamper_detection() {
    // Flipping bits in a transmitted record never silently yields the
    // original plaintext back.
    let secret: Vec<u8> = (0..32u8).collect();
    let ch = Encrypted::from_secret(secret).expect("from_secret failed");
    let data = b"untampered payload bytes".to_vec();
    let frame = ch.send_bytes(data.as_slice()).expect("send failed");

    // Tampered payload record: every flipped byte position must either
    // fail to decrypt or decrypt to something other than the payload.
    for pos in 0..frame.body.len() {
        let mut body = frame.body.clone();
        body[pos] ^= 0x01;
        match ch.receive_body(body.as_slice()) {
            Ok(plain) => assert_ne!(plain, data),
            Err(e) => assert_eq!(e, ChannelError::Crypto),
        }
    }

    // Tampered length record: either an error, or a declared length
    // other than the real one.
    let mut header = frame.header.clone();
    header[3] ^= 0x20;
    match ch.receive_header(header.as_slice()) {
        Ok(declared) => assert_ne!(declared, data.len()),
        Err(e) => assert!(e == ChannelError::Crypto || e == ChannelError::Framing),
    }
}

#[test]
fn records_are_bound_to_the_channel_key() {
    // A record sealed under one secret does not open as the same
    // plaintext under another.
    let a = Encrypted::from_secret((0u8..32).collect::<Vec<u8>>()).expect("from_secret failed");
    let b = Encrypted::from_secret((1u8..33).collect::<Vec<u8>>()).expect("from_secret failed");
    let data = b"bound to one key".to_vec();
    let frame = a.send_bytes(data.as_slice()).expect("send failed");
    match b.receive_body(frame.body.as_slice()) {
        Ok(plain) => assert_ne!(plain, data),
        Err(e) => assert_eq!(e, ChannelError::Crypto),
    }
}

#[test]
fn iv_derivation_is_deterministic() {
    // A channel rebuilt from the same secret behaves identically: the
    // IV derivation is deterministic.
    let secret: Vec<u8> = (100..132u8).collect();
    let a = Encrypted::from_secret(secret.clone()).expect("from_secret failed");
    let b = Encrypted::from_secret(secret).expect("from_secret failed");
    let data = b"determinism".to_vec();
    let fa = a.send_bytes(data.as_slice()).expect("send failed");
    let fb = b.send_bytes(data.as_slice()).expect("send failed");
    assert_eq!(fa.header, fb.header);
    assert_eq!(fa.body, fb.body);
    let got = receive_frame(&b, fa.header.as_slice(), fa.body.as_slice()).expect("receive failed");
    assert_eq!(got, data);
}
