use looking_glass::error::ProtocolError;
use looking_glass::session::{Action, Event, Phase, Session, Stage};
use looking_glass::varint::{decode, encode};

const PEER: &str = "203.0.113.7";
const BRAND: &str = "Void";
const KNOWN: [i32; 3] = [47, 767, 769];

/// What a driver saw of one conversation.
#[derive(Debug, PartialEq)]
struct Transcript {
    outcome: Result<(), ProtocolError>,
    written: Vec<u8>,
    writes: usize,
    consumed: usize,
    lookups: Vec<i32>,
    shut_down: bool,
    phase: Phase,
    protocol: Option<i32>,
}

/// Drives a session over `input` as a driver with a socket would: it reads
/// what is asked for, answers look-ups from `KNOWN`, and collects what it is
/// told to write.
fn converse_with(peer: &str, brand: &str, input: &[u8]) -> Transcript {
    let mut session = Session::new(peer, brand);
    let mut action = session.action();
    let mut transcript = Transcript {
        outcome: Ok(()),
        written: Vec::new(),
        writes: 0,
        consumed: 0,
        lookups: Vec::new(),
        shut_down: false,
        phase: Phase::Handshake,
        protocol: None,
    };
    for _ in 0..1000 {
        let event = match action {
            Action::Read { count } => {
                assert!(count >= 1 && count <= 255);
                if transcript.consumed + count > input.len() {
                    Event::TransportFailed
                } else {
                    let bytes = input[transcript.consumed..transcript.consumed + count].to_vec();
                    transcript.consumed += count;
                    Event::Bytes(bytes)
                }
            }
            Action::Lookup { number } => {
                transcript.lookups.push(number);
                Event::Known(KNOWN.contains(&number))
            }
            Action::Write => {
                assert!(!session.outgoing().is_empty());
                transcript.written.extend_from_slice(session.outgoing());
                transcript.writes += 1;
                Event::Written
            }
            Action::Shutdown => {
                transcript.shut_down = true;
                Event::ShutDown
            }
            Action::Close => {
                assert_eq!(session.stage(), Stage::Closed);
                transcript.phase = session.phase();
                transcript.protocol = session.protocol();
                return transcript;
            }
            Action::Abort { error } => {
                assert_eq!(session.stage(), Stage::Failed { error });
                assert!(session.outgoing().is_empty());
                transcript.outcome = Err(error);
                transcript.phase = session.phase();
                transcript.protocol = session.protocol();
                return transcript;
            }
        };
        if !matches!(action, Action::Write) {
            assert!(session.outgoing().is_empty());
        }
        action = session.step(event);
        assert_eq!(action, session.action());
    }
    panic!("the session did not come to an end");
}

fn converse(input: &[u8]) -> Transcript {
    converse_with(PEER, BRAND, input)
}

/// A handshake packet as a client sends it.
fn handshake(protocol: i32, address: &[u8], intent: u8) -> Vec<u8> {
    let mut body = vec![0x00];
    body.extend(encode(protocol));
    body.extend(encode(address.len() as i32));
    body.extend_from_slice(address);
    body.extend_from_slice(&[0x63, 0xDD]);
    body.push(intent);
    let mut packet = encode(body.len() as i32);
    packet.extend(body);
    packet
}

fn status_conversation(protocol: i32, token: [u8; 8]) -> Vec<u8> {
    let mut input = handshake(protocol, b"localhost", 1);
    input.extend_from_slice(&[0x01, 0x00]);
    input.extend_from_slice(&[0x09, 0x01]);
    input.extend_from_slice(&token);
    input
}

fn login_conversation(name: &[u8]) -> Vec<u8> {
    let mut input = handshake(767, b"localhost", 2);
    let mut body = vec![0x00];
    body.extend(encode(name.len() as i32));
    body.extend_from_slice(name);
    input.extend(encode(body.len() as i32));
    input.extend(body);
    input
}

/// Splits a packet with a single string in it into id and string.
fn parse_text_packet(bytes: &[u8]) -> (u8, String, usize) {
    let (length, prefix) = decode(bytes).unwrap();
    let length = length as usize;
    let body = &bytes[prefix..prefix + length];
    let id = body[0];
    let (text_length, text_prefix) = decode(&body[1..]).unwrap();
    let text = &body[1 + text_prefix..];
    assert_eq!(text.len(), text_length as usize);
    (id, String::from_utf8(text.to_vec()).unwrap(), prefix + length)
}

#[test]
fn a_new_session_asks_for_one_byte() {
    let session = Session::new(PEER, BRAND);
    assert_eq!(session.action(), Action::Read { count: 1 });
    assert_eq!(session.stage(), Stage::HandshakeLength);
    assert_eq!(session.phase(), Phase::Handshake);
    assert_eq!(session.protocol(), None);
    assert!(session.outgoing().is_empty());
    assert_eq!(session.peer(), PEER);
    assert_eq!(session.brand(), BRAND);
}

#[test]
fn handshake_walks_through_its_fields() {
    let mut session = Session::new(PEER, BRAND);
    assert_eq!(session.step(Event::Bytes(vec![0x10])), Action::Read { count: 1 });
    assert_eq!(session.stage(), Stage::HandshakeId);
    assert_eq!(session.step(Event::Bytes(vec![0x00])), Action::Read { count: 1 });
    assert_eq!(session.stage(), Stage::ProtocolNumber);
    assert_eq!(session.step(Event::Bytes(vec![0xFF])), Action::Read { count: 1 });
    assert_eq!(session.stage(), Stage::ProtocolNumber);
    assert_eq!(session.step(Event::Bytes(vec![0x05])), Action::Lookup { number: 767 });
    assert_eq!(session.stage(), Stage::ProtocolLookup { number: 767 });
    assert_eq!(session.protocol(), None);
    assert_eq!(session.step(Event::Known(true)), Action::Read { count: 1 });
    assert_eq!(session.stage(), Stage::AddressLength);
    assert_eq!(session.protocol(), Some(767));
    assert_eq!(session.step(Event::Bytes(vec![0x09])), Action::Read { count: 9 });
    assert_eq!(session.stage(), Stage::Address { length: 9 });
    assert_eq!(session.step(Event::Bytes(b"localhost".to_vec())), Action::Read { count: 2 });
    assert_eq!(session.stage(), Stage::Port);
    assert_eq!(session.step(Event::Bytes(vec![0x63, 0xDD])), Action::Read { count: 1 });
    assert_eq!(session.stage(), Stage::Intent);
    assert_eq!(session.phase(), Phase::Handshake);
    assert_eq!(session.step(Event::Bytes(vec![0x01])), Action::Read { count: 1 });
    assert_eq!(session.stage(), Stage::RequestLength);
    assert_eq!(session.phase(), Phase::Status);
}

#[test]
fn status_end_to_end() {
    let token = [0x01, 0x02, 0x03, 0x04, 0x05, 0x06, 0x07, 0x08];
    let input = status_conversation(767, token);
    let transcript = converse(&input);
    assert_eq!(transcript.outcome, Ok(()));
    assert_eq!(transcript.consumed, input.len());
    assert_eq!(transcript.lookups, vec![767]);
    assert_eq!(transcript.phase, Phase::Status);
    assert_eq!(transcript.protocol, Some(767));
    assert_eq!(transcript.writes, 2);
    assert!(!transcript.shut_down);

    let (id, text, used) = parse_text_packet(&transcript.written);
    assert_eq!(id, 0x00);
    let value: serde_json::Value = serde_json::from_str(&text).unwrap();
    assert_eq!(value["version"]["name"], serde_json::Value::from("Void"));
    assert_eq!(value["version"]["protocol"], serde_json::Value::from(767));
    assert_eq!(value["players"]["max"], serde_json::Value::from(0));
    assert_eq!(value["players"]["online"], serde_json::Value::from(0));
    assert_eq!(value["players"]["sample"], serde_json::Value::Array(Vec::new()));
    assert_eq!(
        &transcript.written[used..],
        &[0x09, 0x01, 0x01, 0x02, 0x03, 0x04, 0x05, 0x06, 0x07, 0x08]
    );
}

#[test]
fn status_response_has_the_exact_bytes() {
    let input = status_conversation(767, [0; 8]);
    let transcript = converse(&input);
    let text = "{\"players\":{\"max\":0,\"online\":0,\"sample\":[]},\"version\":{\"name\":\"Void\",\"protocol\":767}}";
    assert_eq!(text.len(), 85);
    let mut expected = vec![87, 0x00, 85];
    expected.extend_from_slice(text.as_bytes());
    expected.extend_from_slice(&[0x09, 0x01, 0, 0, 0, 0, 0, 0, 0, 0]);
    assert_eq!(transcript.written, expected);
}

#[test]
fn status_response_is_held_until_it_is_written() {
    let mut session = Session::new(PEER, BRAND);
    let input = handshake(767, b"localhost", 1);
    let mut action = session.action();
    let mut position = 0;
    while position < input.len() {
        action = match action {
            Action::Read { count } => {
                let bytes = input[position..position + count].to_vec();
                position += count;
                session.step(Event::Bytes(bytes))
            }
            Action::Lookup { .. } => session.step(Event::Known(true)),
            other => panic!("unexpected action {:?}", other),
        };
    }
    assert_eq!(action, Action::Read { count: 1 });
    assert_eq!(session.step(Event::Bytes(vec![0x01])), Action::Read { count: 1 });
    assert_eq!(session.step(Event::Bytes(vec![0x00])), Action::Write);
    assert_eq!(session.stage(), Stage::StatusReply);
    let (id, text, used) = parse_text_packet(session.outgoing());
    assert_eq!(id, 0);
    assert_eq!(used, session.outgoing().len());
    assert_eq!(text, looking_glass::json::status_json(BRAND, 767));
    assert_eq!(session.step(Event::Written), Action::Read { count: 1 });
    assert_eq!(session.stage(), Stage::PingLength);
    assert!(session.outgoing().is_empty());
}

#[test]
fn status_names_the_configured_brand() {
    let input = status_conversation(47, [0; 8]);
    let transcript = converse_with("198.51.100.4", "Looking \"Glass\"", &input);
    assert_eq!(transcript.outcome, Ok(()));
    let (id, text, _) = parse_text_packet(&transcript.written);
    assert_eq!(id, 0x00);
    let value: serde_json::Value = serde_json::from_str(&text).unwrap();
    assert_eq!(value["version"]["name"], serde_json::Value::from("Looking \"Glass\""));
    assert_eq!(value["version"]["protocol"], serde_json::Value::from(47));
}

#[test]
fn ping_is_echoed() {
    let token = [0x01, 0x02, 0x03, 0x04, 0x05, 0x06, 0x07, 0x08];
    let transcript = converse(&status_conversation(767, token));
    let pong = &transcript.written[transcript.written.len() - 10..];
    assert_eq!(pong, &[0x09, 0x01, 0x01, 0x02, 0x03, 0x04, 0x05, 0x06, 0x07, 0x08]);

    let token = [0xFF, 0x00, 0x80, 0x7F, 0xFE, 0x01, 0xAA, 0x55];
    let transcript = converse(&status_conversation(767, token));
    let pong = &transcript.written[transcript.written.len() - 10..];
    assert_eq!(pong, &[0x09, 0x01, 0xFF, 0x00, 0x80, 0x7F, 0xFE, 0x01, 0xAA, 0x55]);
}

#[test]
fn login_is_answered_with_the_peer_address() {
    let input = login_conversation(b"alice");
    let transcript = converse(&input);
    assert_eq!(transcript.outcome, Ok(()));
    assert_eq!(transcript.phase, Phase::Login);
    assert_eq!(transcript.writes, 1);
    assert!(transcript.shut_down);
    // the name itself is never read
    assert_eq!(transcript.consumed, input.len() - 5);

    let (id, text, used) = parse_text_packet(&transcript.written);
    assert_eq!(id, 0x00);
    assert_eq!(used, transcript.written.len());
    let value: serde_json::Value = serde_json::from_str(&text).unwrap();
    assert_eq!(value["text"], serde_json::Value::from("Your IP address is 203.0.113.7"));
    assert_eq!(value.as_object().unwrap().len(), 1);
}

#[test]
fn disconnect_has_the_exact_bytes() {
    let transcript = converse(&login_conversation(b"alice"));
    let text = "{\"text\":\"Your IP address is 203.0.113.7\"}";
    assert_eq!(text.len(), 41);
    let mut expected = vec![43, 0x00, 41];
    expected.extend_from_slice(text.as_bytes());
    assert_eq!(transcript.written, expected);
}

#[test]
fn write_side_is_shut_down_after_the_disconnect() {
    let mut session = Session::new(PEER, BRAND);
    let input = login_conversation(b"alice");
    let mut action = session.action();
    let mut position = 0;
    while let Action::Read { count } = action {
        let bytes = input[position..position + count].to_vec();
        position += count;
        action = session.step(Event::Bytes(bytes));
        if let Action::Lookup { .. } = action {
            action = session.step(Event::Known(true));
        }
    }
    assert_eq!(action, Action::Write);
    assert_eq!(session.stage(), Stage::DisconnectReply);
    assert_eq!(session.step(Event::Written), Action::Shutdown);
    assert_eq!(session.stage(), Stage::Closing);
    assert!(session.outgoing().is_empty());
    assert_eq!(session.step(Event::ShutDown), Action::Close);
    assert_eq!(session.stage(), Stage::Closed);
}

#[test]
fn login_frame_length_is_not_bounded() {
    let mut input = handshake(767, b"localhost", 2);
    input.extend(encode(2147483647));
    input.push(0x00);
    input.push(0x05);
    let transcript = converse(&input);
    assert_eq!(transcript.outcome, Ok(()));
    assert!(transcript.shut_down);
}

#[test]
fn oversized_handshake_is_rejected_before_its_payload() {
    let mut input = vec![0x88, 0x02];
    input.extend_from_slice(&[0u8; 264]);
    let transcript = converse(&input);
    assert_eq!(transcript.outcome, Err(ProtocolError::FrameTooLarge));
    assert_eq!(transcript.consumed, 2);
    assert!(transcript.written.is_empty());
    assert!(transcript.lookups.is_empty());
}

#[test]
fn largest_handshake_length_is_accepted() {
    let mut session = Session::new(PEER, BRAND);
    assert_eq!(session.step(Event::Bytes(vec![0x87])), Action::Read { count: 1 });
    assert_eq!(session.step(Event::Bytes(vec![0x02])), Action::Read { count: 1 });
    assert_eq!(session.stage(), Stage::HandshakeId);
}

#[test]
fn invalid_intent_aborts_without_a_response() {
    for intent in [0u8, 3, 4, 0x7F, 0xFF] {
        let mut input = handshake(767, b"localhost", intent);
        input.extend_from_slice(&[0x01, 0x00]);
        let transcript = converse(&input);
        assert_eq!(transcript.outcome, Err(ProtocolError::InvalidIntent));
        assert!(transcript.written.is_empty());
        assert_eq!(transcript.writes, 0);
        assert_eq!(transcript.phase, Phase::Handshake);
        assert_eq!(transcript.consumed, input.len() - 2);
    }
}

#[test]
fn username_bounds() {
    let transcript = converse(&login_conversation(b""));
    assert_eq!(transcript.outcome, Err(ProtocolError::UsernameLengthInvalid));
    assert!(transcript.written.is_empty());
    assert!(!transcript.shut_down);

    let transcript = converse(&login_conversation(b"seventeen_letters"));
    assert_eq!(transcript.outcome, Err(ProtocolError::UsernameLengthInvalid));
    assert!(transcript.written.is_empty());

    let transcript = converse(&login_conversation(b"a"));
    assert_eq!(transcript.outcome, Ok(()));
    assert!(!transcript.written.is_empty());

    let transcript = converse(&login_conversation(b"sixteen_letters_"));
    assert_eq!(transcript.outcome, Ok(()));
    assert!(!transcript.written.is_empty());
}

#[test]
fn negative_username_length_is_invalid() {
    let mut input = handshake(767, b"localhost", 2);
    input.extend_from_slice(&[0x06, 0x00]);
    input.extend(encode(-1));
    let transcript = converse(&input);
    assert_eq!(transcript.outcome, Err(ProtocolError::UsernameLengthInvalid));
}

#[test]
fn end_of_stream_is_a_transport_error() {
    let whole = status_conversation(767, [9; 8]);
    for cut in 0..whole.len() {
        let transcript = converse(&whole[..cut]);
        assert_eq!(transcript.outcome, Err(ProtocolError::TransportError), "cut at {}", cut);
    }
    let whole = login_conversation(b"alice");
    for cut in 0..whole.len() - 5 {
        let transcript = converse(&whole[..cut]);
        assert_eq!(transcript.outcome, Err(ProtocolError::TransportError), "cut at {}", cut);
    }
}

#[test]
fn overlong_varint_is_malformed() {
    let transcript = converse(&[0x80, 0x80, 0x80, 0x80, 0x80, 0x80, 0x00]);
    assert_eq!(transcript.outcome, Err(ProtocolError::MalformedVarint));
    assert_eq!(transcript.consumed, 5);

    let mut input = vec![0x10, 0x00];
    input.extend_from_slice(&[0xFF, 0xFF, 0xFF, 0xFF, 0xFF, 0x01]);
    let transcript = converse(&input);
    assert_eq!(transcript.outcome, Err(ProtocolError::MalformedVarint));
    assert_eq!(transcript.consumed, 7);
}

#[test]
fn zero_and_negative_lengths_are_invalid() {
    assert_eq!(converse(&[0x00]).outcome, Err(ProtocolError::InvalidValue));
    assert_eq!(
        converse(&[0xFF, 0xFF, 0xFF, 0xFF, 0x0F]).outcome,
        Err(ProtocolError::InvalidValue)
    );
    // protocol number zero
    assert_eq!(converse(&[0x10, 0x00, 0x00]).outcome, Err(ProtocolError::InvalidValue));
    // empty server address
    assert_eq!(
        converse(&[0x10, 0x00, 0xFF, 0x05, 0x00]).outcome,
        Err(ProtocolError::InvalidValue)
    );
    // status request of length zero
    let mut input = handshake(767, b"localhost", 1);
    input.push(0x00);
    assert_eq!(converse(&input).outcome, Err(ProtocolError::InvalidValue));
    // login start of length zero
    let mut input = handshake(767, b"localhost", 2);
    input.push(0x00);
    assert_eq!(converse(&input).outcome, Err(ProtocolError::InvalidValue));
}

#[test]
fn wrong_packet_ids_are_rejected() {
    assert_eq!(converse(&[0x10, 0x01]).outcome, Err(ProtocolError::UnexpectedPacketId));

    let mut input = handshake(767, b"localhost", 1);
    input.extend_from_slice(&[0x01, 0x01]);
    let transcript = converse(&input);
    assert_eq!(transcript.outcome, Err(ProtocolError::UnexpectedPacketId));
    assert!(transcript.written.is_empty());

    let mut input = handshake(767, b"localhost", 1);
    input.extend_from_slice(&[0x01, 0x00, 0x09, 0x00]);
    let transcript = converse(&input);
    assert_eq!(transcript.outcome, Err(ProtocolError::UnexpectedPacketId));
    assert_eq!(transcript.writes, 1);

    let mut input = handshake(767, b"localhost", 2);
    input.extend_from_slice(&[0x06, 0x02]);
    assert_eq!(converse(&input).outcome, Err(ProtocolError::UnexpectedPacketId));
}

#[test]
fn unknown_protocol_is_rejected() {
    let input = handshake(12345, b"localhost", 1);
    let transcript = converse(&input);
    assert_eq!(transcript.outcome, Err(ProtocolError::UnknownProtocolVersion));
    assert_eq!(transcript.lookups, vec![12345]);
    assert_eq!(transcript.protocol, None);
    // length, id and protocol number, nothing after them
    assert_eq!(transcript.consumed, 1 + 1 + 2);
    assert!(transcript.written.is_empty());
}

#[test]
fn long_server_address_is_rejected_before_it_is_read() {
    let mut input = vec![0x10, 0x00, 0xFF, 0x05];
    input.extend(encode(256));
    input.extend_from_slice(&[b'a'; 256]);
    let transcript = converse(&input);
    assert_eq!(transcript.outcome, Err(ProtocolError::FieldTooLarge));
    assert_eq!(transcript.consumed, 6);
}

#[test]
fn longest_server_address_is_skipped() {
    let address = [b'a'; 255];
    let mut input = vec![0x87, 0x02, 0x00, 0xFF, 0x05];
    input.extend(encode(255));
    input.extend_from_slice(&address);
    input.extend_from_slice(&[0x63, 0xDD, 0x01]);
    input.extend_from_slice(&[0x01, 0x00, 0x09, 0x01, 1, 2, 3, 4, 5, 6, 7, 8]);
    let transcript = converse(&input);
    assert_eq!(transcript.outcome, Ok(()));
    assert_eq!(transcript.consumed, input.len());
}

#[test]
fn wrong_fixed_lengths_are_rejected() {
    let mut input = handshake(767, b"localhost", 1);
    input.extend_from_slice(&[0x02, 0x00, 0x00]);
    let transcript = converse(&input);
    assert_eq!(transcript.outcome, Err(ProtocolError::UnexpectedPayload));
    assert!(transcript.written.is_empty());

    for length in [0x08u8, 0x0A, 0x01] {
        let mut input = handshake(767, b"localhost", 1);
        input.extend_from_slice(&[0x01, 0x00, length, 0x01]);
        input.extend_from_slice(&[0; 9]);
        let transcript = converse(&input);
        assert_eq!(transcript.outcome, Err(ProtocolError::UnexpectedPayload));
        assert_eq!(transcript.writes, 1);
    }
}

#[test]
fn a_report_that_answers_nothing_is_a_transport_error() {
    let events: [fn() -> Event; 4] = [
        || Event::Known(true),
        || Event::Written,
        || Event::ShutDown,
        || Event::TransportFailed,
    ];
    for event in events {
        let mut session = Session::new(PEER, BRAND);
        assert_eq!(
            session.step(event()),
            Action::Abort { error: ProtocolError::TransportError }
        );
        assert_eq!(session.stage(), Stage::Failed { error: ProtocolError::TransportError });
    }

    let mut session = Session::new(PEER, BRAND);
    session.step(Event::Bytes(vec![0x10]));
    session.step(Event::Bytes(vec![0x00]));
    session.step(Event::Bytes(vec![0x2F]));
    assert_eq!(session.action(), Action::Lookup { number: 47 });
    assert_eq!(
        session.step(Event::Bytes(vec![0x01])),
        Action::Abort { error: ProtocolError::TransportError }
    );
}

#[test]
fn a_short_or_long_read_is_a_transport_error() {
    for bytes in [vec![], vec![0x10, 0x00]] {
        let mut session = Session::new(PEER, BRAND);
        assert_eq!(
            session.step(Event::Bytes(bytes)),
            Action::Abort { error: ProtocolError::TransportError }
        );
    }
    let mut session = Session::new(PEER, BRAND);
    for byte in [0x10, 0x00, 0xFF, 0x05] {
        session.step(Event::Bytes(vec![byte]));
    }
    session.step(Event::Known(true));
    assert_eq!(session.step(Event::Bytes(vec![0x09])), Action::Read { count: 9 });
    assert_eq!(
        session.step(Event::Bytes(b"localhos".to_vec())),
        Action::Abort { error: ProtocolError::TransportError }
    );
}

#[test]
fn a_finished_session_stays_finished() {
    let mut session = Session::new(PEER, BRAND);
    let failed = Action::Abort { error: ProtocolError::InvalidValue };
    assert_eq!(session.step(Event::Bytes(vec![0x00])), failed);
    assert_eq!(session.step(Event::Bytes(vec![0x10])), failed);
    assert_eq!(session.step(Event::Known(true)), failed);
    assert_eq!(session.step(Event::Written), failed);
    assert_eq!(session.step(Event::ShutDown), failed);
    assert_eq!(session.step(Event::TransportFailed), failed);
    assert_eq!(session.stage(), Stage::Failed { error: ProtocolError::InvalidValue });
}

#[test]
fn no_conversation_takes_more_than_35_reports() {
    let inputs = [status_conversation(767, [1; 8]), login_conversation(b"alice")];
    for input in inputs {
        let mut session = Session::new(PEER, BRAND);
        let mut action = session.action();
        let mut position = 0;
        let mut reports = 0;
        loop {
            let event = match action {
                Action::Read { count } => {
                    let bytes = input[position..position + count].to_vec();
                    position += count;
                    Event::Bytes(bytes)
                }
                Action::Lookup { .. } => Event::Known(true),
                Action::Write => Event::Written,
                Action::Shutdown => Event::ShutDown,
                Action::Close | Action::Abort { .. } => break,
            };
            action = session.step(event);
            reports += 1;
        }
        assert_eq!(action, Action::Close);
        assert!(reports <= 35);
    }
}

#[test]
fn padded_varints_are_read_in_full() {
    // every varint written in five bytes: the longest conversation
    let pad = |value: u8| vec![0x80 | value, 0x80, 0x80, 0x80, 0x00];
    let mut input = pad(0x10);
    input.push(0x00);
    input.extend(pad(0x2F));
    input.extend(pad(0x01));
    input.extend_from_slice(&[b'h', 0x63, 0xDD, 0x01]);
    input.extend(pad(0x01));
    input.push(0x00);
    input.extend(pad(0x09));
    input.push(0x01);
    input.extend_from_slice(&[8, 7, 6, 5, 4, 3, 2, 1]);
    let transcript = converse(&input);
    assert_eq!(transcript.outcome, Ok(()));
    assert_eq!(transcript.protocol, Some(47));
    assert_eq!(
        &transcript.written[transcript.written.len() - 10..],
        &[0x09, 0x01, 8, 7, 6, 5, 4, 3, 2, 1]
    );
}
