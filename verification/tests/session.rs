use mcio::io::{ByteBuffer, ByteReader, MinecraftRead, MinecraftWrite};
use mcio::packet::{Handshake, Packet, Ping, Request, Response, ServerPlayers, ServerVersion};
use mcio::{opening_frames, session_response_action, McError, SessionAction};

/// Frames a Response-shaped reply: an envelope holding packet ID `id` and a
/// VarInt-length-prefixed string body.
fn reply_envelope(id: i32, json: &str) -> Vec<u8> {
    let mut inner = ByteBuffer::new();
    inner.write_varint(id);
    inner.write_string(String::from(json));
    let inner = inner.into_bytes();
    let mut envelope = ByteBuffer::new();
    envelope.write_varint(inner.len() as i32);
    for b in inner {
        envelope.data.push(b);
    }
    envelope.into_bytes()
}

#[test]
fn packet_ids() {
    assert_eq!(Handshake::new(47, String::from("localhost"), 25565).get_id(), 0x00);
    assert_eq!(Request::new().get_id(), 0x00);
    assert_eq!(Ping::new().get_id(), 0x01);
}

#[test]
fn framing_round_trip() {
    let cases: Vec<(i32, Vec<u8>)> = vec![
        (0x00, vec![]),
        (0x01, vec![0xAA, 0xBB, 0xCC]),
        (0x05, vec![0x00; 300]),
        (-1, vec![0x10, 0x20]),
    ];
    for (id, body) in cases {
        let mut inner = ByteBuffer::new();
        inner.write_varint(id);
        for b in &body {
            inner.data.push(*b);
        }
        let inner = inner.into_bytes();
        let mut envelope = ByteBuffer::new();
        envelope.write_varint(inner.len() as i32);
        for b in &inner {
            envelope.data.push(*b);
        }
        // The emitted length prefix equals size(VarInt(id)) + len(body).
        let mut id_alone = ByteBuffer::new();
        id_alone.write_varint(id);
        let mut prefix = ByteReader::new(envelope.data.clone());
        assert_eq!(
            prefix.read_varint(),
            Ok((id_alone.into_bytes().len() + body.len()) as i32)
        );
        let mut reader = ByteReader::new(envelope.into_bytes());
        let (got_id, got_body) = reader.read_packet().unwrap();
        assert_eq!(got_id, id);
        assert_eq!(got_body, body);
        assert_eq!(reader.into_bytes(), Vec::<u8>::new());
    }
}

#[test]
fn read_packet_truncated() {
    // Envelope declares five bytes but the stream holds two.
    let mut reader = ByteReader::new(vec![0x05, 0x00, 0x61]);
    assert_eq!(
        reader.read_packet().map(|p| p.0),
        Err(McError::UnexpectedEof)
    );
}

#[test]
fn handshake() {
    let mut stream = ByteBuffer::new();
    let packet = Handshake::new(335, String::from("localhost"), 25577);

    stream.write_packet(packet);
    stream.write_packet(Request::new());
    stream.write_packet(Ping::new());

    // The server side of the exchange: three envelopes, in order.
    let mut reader = ByteReader::new(stream.into_bytes());
    let (id, body) = reader.read_packet().unwrap();
    assert_eq!(id, 0x00);
    let mut fields = ByteReader::new(body);
    assert_eq!(fields.read_varint(), Ok(335));
    assert_eq!(fields.read_string(), Ok(String::from("localhost")));
    assert_eq!(fields.read_u16(), Ok(25577));
    assert_eq!(fields.read_varint(), Ok(1));
    let (id, body) = reader.read_packet().unwrap();
    assert_eq!(id, 0x00);
    assert_eq!(body, Vec::<u8>::new());
    let (id, body) = reader.read_packet().unwrap();
    assert_eq!(id, 0x01);
    let mut fields = ByteReader::new(body);
    assert_eq!(fields.read_long(), Ok(-1));
}

#[test]
fn opening_frames_match_packet_writes() {
    let (h, r, p) = opening_frames(47, String::from("localhost"), 25565);
    let mut expected = ByteBuffer::new();
    expected.write_packet(Handshake::new(47, String::from("localhost"), 25565));
    assert_eq!(h, expected.into_bytes());
    let mut expected = ByteBuffer::new();
    expected.write_packet(Request::new());
    assert_eq!(r, expected.into_bytes());
    let mut expected = ByteBuffer::new();
    expected.write_packet(Ping::new());
    assert_eq!(p, expected.into_bytes());
}

/// The JSON collaborator's role in the tests: the status record parsed out
/// of the reply text.
fn parse_status(json: &str) -> Response {
    let value: serde_json::Value = serde_json::from_str(json).unwrap();
    let version = value.get("version").unwrap();
    let players = value.get("players").unwrap();
    Response {
        version: ServerVersion {
            name: String::from(version.get("name").unwrap().as_str().unwrap()),
            protocol: version.get("protocol").unwrap().as_u64().unwrap() as u16,
        },
        players: ServerPlayers {
            max: players.get("max").unwrap().as_i64().unwrap() as i32,
            online: players.get("online").unwrap().as_i64().unwrap() as i32,
            sample: None,
        },
        favicon: String::from(value.get("favicon").unwrap().as_str().unwrap()),
    }
}

const STATUS_JSON: &str = "{\"version\":{\"name\":\"1.8\",\"protocol\":47},\"players\":{\"max\":20,\"online\":0},\"description\":\"A server\",\"favicon\":\"\"}";

#[test]
fn end_to_end_status_query() {
    // The mock server checks the three packets arrive in order with the
    // expected fields, then replies with one Response.
    let (h, r, p) = opening_frames(47, String::from("localhost"), 25565);
    let mut wire = Vec::new();
    wire.extend(h);
    wire.extend(r);
    wire.extend(p);
    let mut server = ByteReader::new(wire);
    let (id, body) = server.read_packet().unwrap();
    assert_eq!(id, 0x00);
    let mut fields = ByteReader::new(body);
    assert_eq!(fields.read_varint(), Ok(47));
    assert_eq!(fields.read_string(), Ok(String::from("localhost")));
    assert_eq!(fields.read_u16(), Ok(25565));
    assert_eq!(fields.read_varint(), Ok(1));
    let (id, _) = server.read_packet().unwrap();
    assert_eq!(id, 0x00);
    let (id, body) = server.read_packet().unwrap();
    assert_eq!(id, 0x01);
    let mut fields = ByteReader::new(body);
    assert_eq!(fields.read_long(), Ok(-1));

    let mut client = ByteReader::new(reply_envelope(0x00, STATUS_JSON));
    let outcome = client.receive();
    match session_response_action(outcome) {
        SessionAction::Complete(json) => {
            let status = parse_status(&json);
            assert_eq!(status.version.protocol, 47);
            assert_eq!(status.players.max, 20);
        }
        _ => panic!("expected the session to complete"),
    }
}

#[test]
fn retry_once_on_empty_payload() {
    // The scripted server answers an empty-string Response first, then a
    // valid one; the session must sleep exactly once.
    let replies = vec![
        reply_envelope(0x00, ""),
        reply_envelope(0x00, STATUS_JSON),
    ];
    let mut sleeps: usize = 0;
    let mut result = None;
    for reply in replies {
        let mut client = ByteReader::new(reply);
        match session_response_action(client.receive()) {
            SessionAction::Complete(json) => {
                result = Some(json);
                break;
            }
            SessionAction::RetryAfterDelay => {
                sleeps += 1;
            }
            _ => panic!("unexpected session action"),
        }
    }
    assert_eq!(sleeps, 1);
    let status = parse_status(&result.unwrap());
    assert_eq!(status.version.protocol, 47);
}

#[test]
fn protocol_violation_on_wrong_id() {
    let mut client = ByteReader::new(reply_envelope(0x05, STATUS_JSON));
    let outcome = client.receive();
    assert_eq!(outcome.clone().map(|_| ()), Err(McError::ProtocolViolation));
    match session_response_action(outcome) {
        SessionAction::Abort(e) => assert_eq!(e, McError::ProtocolViolation),
        _ => panic!("expected a fatal decode error"),
    }
}

#[test]
fn transport_failure_gives_up() {
    // A connection dropped mid-envelope is reported as "no response".
    let mut client = ByteReader::new(vec![0x40, 0x00]);
    match session_response_action(client.receive()) {
        SessionAction::GiveUp => {}
        _ => panic!("expected the session to give up"),
    }
}
