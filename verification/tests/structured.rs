use secure_channel::channel::Encrypted;
use secure_channel::framing::{decode_len_field, encode_len_field};
use secure_channel::json::{from_bytes, to_bytes, Json};
use secure_channel::ChannelError;

fn key(k: &str) -> Vec<u8> {
    k.as_bytes().to_vec()
}

fn s(v: &str) -> Json {
    Json::Str(v.as_bytes().to_vec())
}

fn num(v: &str) -> Json {
    Json::Num(v.as_bytes().to_vec())
}

fn loopback() -> (Encrypted, Encrypted) {
    let (pending, pk_msg) = Encrypted::request_start();
    let (acceptor, ct_msg) = Encrypted::accept(pk_msg.as_slice()).expect("accept failed");
    let requester = Encrypted::request_finish(pending, ct_msg.as_slice()).expect("finish failed");
    (requester, acceptor)
}

fn receive_json(ch: &Encrypted, header: &[u8], body: &[u8]) -> Result<Json, ChannelError> {
    let declared = ch.receive_header(header)?;
    let want = ch.payload_record_len(declared);
    assert_eq!(want, body.len());
    ch.receive_json(body)
}

#[test]
fn canonical_encoding_exact() {
    let request = Json::Obj(vec![
        (key("type"), s("get")),
        (key("info"), s("weather")),
    ]);
    let bytes = to_bytes(&request).expect("encode failed");
    assert_eq!(bytes, b"{\"type\":\"get\",\"info\":\"weather\"}".to_vec());

    let reply = Json::Obj(vec![
        (key("type"), s("weather report")),
        (key("temp"), num("21.5")),
    ]);
    let bytes = to_bytes(&reply).expect("encode failed");
    assert_eq!(bytes, b"{\"type\":\"weather report\",\"temp\":21.5}".to_vec());
}

#[test]
fn codec_round_trips() {
    let values = vec![
        Json::Null,
        Json::Bool(true),
        Json::Bool(false),
        num("0"),
        num("21.5"),
        num("-17"),
        num("-0.25"),
        s(""),
        s("weather"),
        Json::Arr(vec![]),
        Json::Arr(vec![Json::Null, num("1"), s("two"), Json::Arr(vec![Json::Bool(false)])]),
        Json::Obj(vec![]),
        Json::Obj(vec![
            (key("a"), Json::Arr(vec![num("1"), num("2")])),
            (key("b"), Json::Obj(vec![(key("c"), Json::Null)])),
        ]),
    ];
    for v in values {
        let bytes = to_bytes(&v).expect("encode failed");
        let back = from_bytes(bytes.as_slice()).expect("decode failed");
        assert_eq!(back, v);
    }
}

#[test]
fn encode_rejects_malformed_values() {
    // A string byte that would need an escape.
    let bad = Json::Str(b"a\"b".to_vec());
    assert_eq!(to_bytes(&bad).err(), Some(ChannelError::Decode));
    let bad = Json::Str(b"a\\b".to_vec());
    assert_eq!(to_bytes(&bad).err(), Some(ChannelError::Decode));
    let bad = Json::Str(vec![7u8]);
    assert_eq!(to_bytes(&bad).err(), Some(ChannelError::Decode));
    // Number literals outside the grammar.
    for text in ["", "-", ".", "1.", ".5", "1..2", "1.2.3", "one", "--1"] {
        let bad = Json::Num(text.as_bytes().to_vec());
        assert_eq!(to_bytes(&bad).err(), Some(ChannelError::Decode));
    }
    // A malformed key inside a well-formed tree.
    let bad = Json::Obj(vec![(b"a\"b".to_vec(), Json::Null)]);
    assert_eq!(to_bytes(&bad).err(), Some(ChannelError::Decode));
}

#[test]
fn decode_rejects_malformed_bytes() {
    for text in [
        "", "tru", "nul", "falsy", "\"open", "\"a\\nb\"", "{", "[1,", "[1 2]", "{\"a\"1}",
        "{\"a\":1,}", "[]x", "01x", "- 1", "[,]", "{:1}",
    ] {
        assert_eq!(
            from_bytes(text.as_bytes()).err(),
            Some(ChannelError::Decode),
            "accepted: {text}"
        );
    }
}

#[test]
fn scenario_weather_request() {
    // Immediately after the handshake the requester sends the weather
    // request; the acceptor receives a deep-equal value and replies;
    // the requester receives a value deep-equal to the reply.
    let (requester, acceptor) = loopback();

    let request = Json::Obj(vec![
        (key("type"), s("get")),
        (key("info"), s("weather")),
    ]);
    let frame = requester.send_json(&request).expect("send failed");
    let got = receive_json(&acceptor, frame.header.as_slice(), frame.body.as_slice())
        .expect("receive failed");
    assert_eq!(got, request);

    let reply = Json::Obj(vec![
        (key("type"), s("weather report")),
        (key("temp"), num("21.5")),
    ]);
    let frame = acceptor.send_json(&reply).expect("send failed");
    let got = receive_json(&requester, frame.header.as_slice(), frame.body.as_slice())
        .expect("receive failed");
    assert_eq!(got, reply);
}

#[test]
fn length_field_codec_round_trip() {
    for n in [0usize, 1, 9, 10, 16, 255, 1000, 123456789] {
        let field = encode_len_field(n);
        assert_eq!(field.len(), 16);
        assert_eq!(decode_len_field(field.as_slice()), Ok(n));
    }
    // The field is null-padded ASCII decimal.
    let field = encode_len_field(23);
    let mut expect = vec![0u8; 14];
    expect.extend_from_slice(b"23");
    assert_eq!(field, expect);
    // Non-digit bytes are skipped by the scan.
    assert_eq!(decode_len_field(b"\0\0 42 \0"), Ok(42));
    // Accumulator overflow is a framing error.
    assert_eq!(
        decode_len_field(b"99999999999999999999999999999999").err(),
        Some(ChannelError::Framing)
    );
}
