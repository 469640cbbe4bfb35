//! What whole conversations come to: the rules of the protocol stated of the
//! bytes that a client sends and the bytes that it gets back.

use vstd::prelude::*;
use crate::conversation::{conversation, lemma_remainder_unfolds, remainder, TranscriptView};
use crate::error::ProtocolError;
use crate::conversation::{lemma_remainder_reads_a_byte, lemma_remainder_when_finished};
use crate::invariants::{
    lemma_initial_wf, lemma_settle_forgets_partial, lemma_step_in_varint, lemma_step_wf,
};
use crate::session::{
    disconnect, pong, status_response, Action, EventView, Phase, SessionState, Stage,
    ADDRESS_MAX_LENGTH, HANDSHAKE_MAX_LENGTH, INTENT_LOGIN, INTENT_STATUS, PACKET_ID_PING,
    PACKET_ID_ZERO, PING_REQUEST_LENGTH, PING_TOKEN_LENGTH, STATUS_REQUEST_LENGTH,
    USERNAME_MAX_LENGTH,
};
use crate::varint::{
    decoding, encoding, lemma_decoding_by_next_byte, lemma_encoding_len, lemma_leading,
    lemma_round_trip, lemma_value_push, Decoded, Partial,
};

verus! {

/// How a conversation goes on from a state in which a varint is being read,
/// the continuation bytes `read` taken already and `rest` still to come.
proof fn lemma_reads_rest_of_varint(
    state: SessionState,
    read: Seq<u8>,
    rest: Seq<u8>,
    known: Seq<i32>,
)
    requires
        state.wf(),
        state.expects_varint(),
        state.partial == Partial::after(read),
        read.len() <= 4,
        forall|j: int| 0 <= j < read.len() ==> read[j] >= 128,
    ensures
        match decoding(read + rest) {
            Decoded::Value { value, consumed } => {
                &&& read.len() < consumed <= read.len() + rest.len()
                &&& state.settle(value).wf()
                &&& remainder(state, rest, known) == remainder(
                    state.settle(value),
                    rest.skip(consumed - read.len()),
                    known,
                ).after_reading((consumed - read.len()) as nat)
            },
            Decoded::Malformed => remainder(state, rest, known) == TranscriptView::ended(
                Err(ProtocolError::MalformedVarint),
            ).after_reading((5 - read.len()) as nat),
            Decoded::Truncated => remainder(state, rest, known) == TranscriptView::ended(
                Err(ProtocolError::TransportError),
            ).after_reading(rest.len()),
        },
    decreases 5 - read.len(),
{
    lemma_decoding_by_next_byte(read, rest);
    if rest.len() > 0 {
        lemma_step_in_varint(state, rest[0]);
    } else {
        assert(state.pending() == (Action::Read { count: 1 })) by {
            lemma_step_in_varint(state, 0);
        }
    }
    lemma_remainder_reads_a_byte(state, rest, known);
    if rest.len() > 0 {
        let byte = rest[0];
        let next = state.step(EventView::Bytes(seq![byte]));
        let tail = rest.skip(1);
        if byte >= 128 && read.len() == 4 {
            lemma_remainder_when_finished(next, tail, known);
        } else if byte >= 128 {
            let more = read.push(byte);
            lemma_value_push(read, byte);
            lemma_reads_rest_of_varint(next, more, tail, known);
            if let Decoded::Value { value, consumed } = decoding(read + rest) {
                lemma_settle_forgets_partial(state, next.partial, value);
                assert(tail.skip(consumed - more.len()) =~= rest.skip(consumed - read.len()));
            }
        }
    }
}

/// A conversation that is about to read a varint goes on as the varint at
/// the start of the remaining input says: with its value settled, if it is
/// whole; to a `MalformedVarint` after five bytes, if it does not end within
/// them; to a transport failure, if the input ends first.
pub proof fn lemma_reads_varint(state: SessionState, input: Seq<u8>, known: Seq<i32>)
    requires
        state.wf(),
        state.expects_varint(),
        state.partial == Partial::empty(),
    ensures
        match decoding(input) {
            Decoded::Value { value, consumed } => {
                &&& 0 < consumed <= input.len()
                &&& state.settle(value).wf()
                &&& remainder(state, input, known) == remainder(
                    state.settle(value),
                    input.skip(consumed as int),
                    known,
                ).after_reading(consumed)
            },
            Decoded::Malformed => remainder(state, input, known) == TranscriptView::ended(
                Err(ProtocolError::MalformedVarint),
            ).after_reading(5),
            Decoded::Truncated => remainder(state, input, known) == TranscriptView::ended(
                Err(ProtocolError::TransportError),
            ).after_reading(input.len()),
        },
{
    assert(Seq::<u8>::empty() + input =~= input);
    lemma_reads_rest_of_varint(state, Seq::empty(), input, known);
}

/// A conversation that is about to read a varint and finds the encoding of
/// `value` goes on with that value settled and the encoding consumed.
pub proof fn lemma_reads_encoding(
    state: SessionState,
    value: i32,
    tail: Seq<u8>,
    known: Seq<i32>,
)
    requires
        state.wf(),
        state.expects_varint(),
        state.partial == Partial::empty(),
    ensures
        state.settle(value).wf(),
        remainder(state, encoding(value) + tail, known) == remainder(
            state.settle(value),
            tail,
            known,
        ).after_reading(encoding(value).len()),
{
    let input = encoding(value) + tail;
    lemma_round_trip(value, tail);
    lemma_reads_varint(state, input, known);
    assert(input.skip(encoding(value).len() as int) =~= tail);
}

/// A conversation that is about to read a field of fixed size and finds
/// `field` goes on with the field reported and consumed.
pub proof fn lemma_reads_field(
    state: SessionState,
    field: Seq<u8>,
    tail: Seq<u8>,
    known: Seq<i32>,
)
    requires
        state.wf(),
        state.pending() matches Action::Read { count } && count == field.len(),
    ensures
        state.step(EventView::Bytes(field)).wf(),
        remainder(state, field + tail, known) == remainder(
            state.step(EventView::Bytes(field)),
            tail,
            known,
        ).after_reading(field.len()),
{
    let input = field + tail;
    lemma_remainder_unfolds(state, input, known);
    lemma_step_wf(state, EventView::Bytes(field));
    assert(input.take(field.len() as int) =~= field);
    assert(input.skip(field.len() as int) =~= tail);
}

/// A handshake packet that declares more than 263 bytes ends the
/// conversation with `FrameTooLarge`: nothing but the length itself is read,
/// nothing is written.
pub proof fn lemma_oversized_handshake(
    peer: Seq<char>,
    brand: Seq<char>,
    known: Seq<i32>,
    input: Seq<u8>,
)
    requires
        decoding(input) matches Decoded::Value { value, .. } && value > HANDSHAKE_MAX_LENGTH,
    ensures
        conversation(peer, brand, known, input) == (TranscriptView {
            outcome: Err(ProtocolError::FrameTooLarge),
            written: Seq::empty(),
            consumed: decoding(input)->consumed,
            shut_down: false,
        }),
{
    let start = SessionState::initial(peer, brand);
    lemma_initial_wf(peer, brand);
    lemma_reads_varint(start, input, known);
    let failed = start.settle(decoding(input)->value);
    lemma_remainder_unfolds(failed, input.skip(decoding(input)->consumed as int), known);
}

/// A varint that does not end within five bytes ends the conversation with
/// `MalformedVarint` at its fifth byte, wherever in the conversation a
/// varint is expected and whatever follows.
pub proof fn lemma_overlong_varint(state: SessionState, input: Seq<u8>, known: Seq<i32>)
    requires
        state.wf(),
        state.expects_varint(),
        state.partial == Partial::empty(),
        input.len() >= 5,
        forall|j: int| 0 <= j < 5 ==> input[j] >= 128,
    ensures
        remainder(state, input, known) == (TranscriptView {
            outcome: Err(ProtocolError::MalformedVarint),
            written: Seq::empty(),
            consumed: 5,
            shut_down: false,
        }),
{
    lemma_leading(input, 5);
    lemma_reads_varint(state, input, known);
}

/// A conversation in which the session asks for something other than bytes
/// goes on with the answer.
pub proof fn lemma_answers(state: SessionState, input: Seq<u8>, known: Seq<i32>)
    requires
        state.wf(),
    ensures
        state.pending() matches Action::Lookup { number } ==> {
            &&& state.step(EventView::Known(known.contains(number))).wf()
            &&& remainder(state, input, known) == remainder(
                state.step(EventView::Known(known.contains(number))),
                input,
                known,
            )
        },
        state.pending() == Action::Write ==> {
            &&& state.step(EventView::Written).wf()
            &&& remainder(state, input, known) == remainder(
                state.step(EventView::Written),
                input,
                known,
            ).after_writing(state.outgoing)
        },
        state.pending() == Action::Shutdown ==> {
            &&& state.step(EventView::ShutDown).wf()
            &&& remainder(state, input, known) == remainder(
                state.step(EventView::ShutDown),
                input,
                known,
            ).after_shutdown()
        },
{
    lemma_remainder_unfolds(state, input, known);
}

/// The bytes of a handshake packet that declares `length` bytes and carries
/// `protocol`, `address`, `port` and `intent`.
pub open spec fn handshake_bytes(
    length: i32,
    protocol: i32,
    address: Seq<u8>,
    port: Seq<u8>,
    intent: u8,
) -> Seq<u8> {
    encoding(length) + seq![PACKET_ID_ZERO] + encoding(protocol) + encoding(address.len() as i32)
        + address + port + seq![intent]
}

/// The session that waits for the intent byte of a handshake in protocol
/// version `protocol`.
pub open spec fn at_intent(peer: Seq<char>, brand: Seq<char>, protocol: i32) -> SessionState {
    SessionState {
        protocol: Some(protocol),
        ..SessionState::initial(peer, brand).goto(Stage::Intent)
    }
}

/// The steps of a session through a handshake.
proof fn lemma_handshake_steps(
    peer: Seq<char>,
    brand: Seq<char>,
    length: i32,
    protocol: i32,
    address: Seq<u8>,
    port: Seq<u8>,
)
    requires
        1 <= length <= HANDSHAKE_MAX_LENGTH,
        1 <= protocol,
        1 <= address.len() <= ADDRESS_MAX_LENGTH,
        port.len() == 2,
    ensures
        ({
            let start = SessionState::initial(peer, brand);
            let at_id = start.goto(Stage::HandshakeId);
            let at_protocol = start.goto(Stage::ProtocolNumber);
            let at_lookup = start.goto(Stage::ProtocolLookup { number: protocol });
            let at_size = SessionState {
                protocol: Some(protocol),
                ..start.goto(Stage::AddressLength)
            };
            let at_address = at_size.goto(Stage::Address { length: address.len() as u8 });
            let at_port = at_size.goto(Stage::Port);
            &&& start.settle(length) == at_id
            &&& at_id.pending() == (Action::Read { count: 1 })
            &&& at_id.step(EventView::Bytes(seq![PACKET_ID_ZERO])) == at_protocol
            &&& at_protocol.expects_varint()
            &&& at_protocol.settle(protocol) == at_lookup
            &&& at_lookup.pending() == (Action::Lookup { number: protocol })
            &&& at_lookup.step(EventView::Known(true)) == at_size
            &&& at_lookup.step(EventView::Known(false)) == start.fail(
                ProtocolError::UnknownProtocolVersion,
            )
            &&& at_size.expects_varint()
            &&& at_size.settle(address.len() as i32) == at_address
            &&& at_address.pending() == (Action::Read { count: address.len() as usize })
            &&& at_address.step(EventView::Bytes(address)) == at_port
            &&& at_port.pending() == (Action::Read { count: 2 })
            &&& at_port.step(EventView::Bytes(port)) == at_intent(peer, brand, protocol)
            &&& at_intent(peer, brand, protocol).pending() == (Action::Read { count: 1 })
        }),
{
    reveal(SessionState::step);
    assert(seq![PACKET_ID_ZERO].len() == 1);
}

/// A handshake within the limits, in a protocol version that the version
/// table lists, is read to its intent byte and no further, and nothing is
/// written on the way.
pub proof fn lemma_handshake_is_read(
    peer: Seq<char>,
    brand: Seq<char>,
    known: Seq<i32>,
    length: i32,
    protocol: i32,
    address: Seq<u8>,
    port: Seq<u8>,
    intent: u8,
    tail: Seq<u8>,
)
    requires
        1 <= length <= HANDSHAKE_MAX_LENGTH,
        1 <= protocol,
        known.contains(protocol),
        1 <= address.len() <= ADDRESS_MAX_LENGTH,
        port.len() == 2,
    ensures
        at_intent(peer, brand, protocol).wf(),
        at_intent(peer, brand, protocol).step(EventView::Bytes(seq![intent])).wf(),
        conversation(
            peer,
            brand,
            known,
            handshake_bytes(length, protocol, address, port, intent) + tail,
        ) == remainder(
            at_intent(peer, brand, protocol).step(EventView::Bytes(seq![intent])),
            tail,
            known,
        ).after_reading(handshake_bytes(length, protocol, address, port, intent).len()),
{
    let start = SessionState::initial(peer, brand);
    let at_id = start.goto(Stage::HandshakeId);
    let at_protocol = start.goto(Stage::ProtocolNumber);
    let at_lookup = start.goto(Stage::ProtocolLookup { number: protocol });
    let at_size = SessionState { protocol: Some(protocol), ..start.goto(Stage::AddressLength) };
    let at_address = at_size.goto(Stage::Address { length: address.len() as u8 });
    let at_port = at_size.goto(Stage::Port);
    let last = at_intent(peer, brand, protocol);
    let size = address.len() as i32;

    let t6 = seq![intent] + tail;
    let t5 = port + t6;
    let t4 = address + t5;
    let t3 = encoding(size) + t4;
    let t2 = encoding(protocol) + t3;
    let t1 = seq![PACKET_ID_ZERO] + t2;
    let t0 = encoding(length) + t1;
    assert(t0 =~= handshake_bytes(length, protocol, address, port, intent) + tail);

    lemma_handshake_steps(peer, brand, length, protocol, address, port);
    lemma_initial_wf(peer, brand);
    lemma_reads_encoding(start, length, t1, known);
    lemma_reads_field(at_id, seq![PACKET_ID_ZERO], t2, known);
    lemma_reads_encoding(at_protocol, protocol, t3, known);
    lemma_answers(at_lookup, t3, known);
    lemma_reads_encoding(at_size, size, t4, known);
    lemma_reads_field(at_address, address, t5, known);
    lemma_reads_field(at_port, port, t6, known);
    lemma_reads_field(last, seq![intent], tail, known);
}

/// The state in which a session leaves the handshake for `phase`: nothing
/// written, the protocol number kept, the first packet of the phase awaited.
pub open spec fn after_handshake(
    peer: Seq<char>,
    brand: Seq<char>,
    protocol: i32,
    phase: Phase,
) -> SessionState {
    SessionState {
        phase,
        stage: if phase == Phase::Status {
            Stage::RequestLength
        } else {
            Stage::LoginLength
        },
        partial: Partial::empty(),
        protocol: Some(protocol),
        outgoing: Seq::empty(),
        peer,
        brand,
    }
}

/// What the intent byte does to a session that waits for it.
proof fn lemma_intent_step(peer: Seq<char>, brand: Seq<char>, protocol: i32, intent: u8)
    ensures
        at_intent(peer, brand, protocol).step(EventView::Bytes(seq![intent])) == if intent
            == INTENT_STATUS {
            after_handshake(peer, brand, protocol, Phase::Status)
        } else if intent == INTENT_LOGIN {
            after_handshake(peer, brand, protocol, Phase::Login)
        } else {
            at_intent(peer, brand, protocol).fail(ProtocolError::InvalidIntent)
        },
{
    reveal(SessionState::step);
    assert(seq![intent].len() == 1);
}

/// A handshake whose intent byte is neither 1 nor 2 ends the conversation
/// with `InvalidIntent`: the handshake is read to its last byte, and not a
/// byte is written.
pub proof fn lemma_invalid_intent(
    peer: Seq<char>,
    brand: Seq<char>,
    known: Seq<i32>,
    length: i32,
    protocol: i32,
    address: Seq<u8>,
    port: Seq<u8>,
    intent: u8,
    tail: Seq<u8>,
)
    requires
        1 <= length <= HANDSHAKE_MAX_LENGTH,
        1 <= protocol,
        known.contains(protocol),
        1 <= address.len() <= ADDRESS_MAX_LENGTH,
        port.len() == 2,
        intent != INTENT_STATUS,
        intent != INTENT_LOGIN,
    ensures
        conversation(
            peer,
            brand,
            known,
            handshake_bytes(length, protocol, address, port, intent) + tail,
        ) == (TranscriptView {
            outcome: Err(ProtocolError::InvalidIntent),
            written: Seq::empty(),
            consumed: handshake_bytes(length, protocol, address, port, intent).len(),
            shut_down: false,
        }),
{
    lemma_handshake_is_read(peer, brand, known, length, protocol, address, port, intent, tail);
    lemma_intent_step(peer, brand, protocol, intent);
    lemma_remainder_when_finished(
        at_intent(peer, brand, protocol).fail(ProtocolError::InvalidIntent),
        tail,
        known,
    );
}

/// A handshake in a protocol version that the version table does not list
/// ends the conversation with `UnknownProtocolVersion`: the address is not
/// read, and not a byte is written.
pub proof fn lemma_unknown_protocol(
    peer: Seq<char>,
    brand: Seq<char>,
    known: Seq<i32>,
    length: i32,
    protocol: i32,
    tail: Seq<u8>,
)
    requires
        1 <= length <= HANDSHAKE_MAX_LENGTH,
        1 <= protocol,
        !known.contains(protocol),
    ensures
        conversation(
            peer,
            brand,
            known,
            encoding(length) + seq![PACKET_ID_ZERO] + encoding(protocol) + tail,
        ) == (TranscriptView {
            outcome: Err(ProtocolError::UnknownProtocolVersion),
            written: Seq::empty(),
            consumed: encoding(length).len() + 1 + encoding(protocol).len(),
            shut_down: false,
        }),
{
    let start = SessionState::initial(peer, brand);
    let at_id = start.goto(Stage::HandshakeId);
    let at_protocol = start.goto(Stage::ProtocolNumber);
    let at_lookup = start.goto(Stage::ProtocolLookup { number: protocol });
    let t2 = encoding(protocol) + tail;
    let t1 = seq![PACKET_ID_ZERO] + t2;
    let t0 = encoding(length) + t1;
    assert(t0 =~= encoding(length) + seq![PACKET_ID_ZERO] + encoding(protocol) + tail);
    lemma_handshake_steps(peer, brand, length, protocol, seq![0u8], seq![0u8, 0u8]);
    lemma_initial_wf(peer, brand);
    lemma_reads_encoding(start, length, t1, known);
    lemma_reads_field(at_id, seq![PACKET_ID_ZERO], t2, known);
    lemma_reads_encoding(at_protocol, protocol, tail, known);
    lemma_answers(at_lookup, tail, known);
    lemma_remainder_when_finished(
        start.fail(ProtocolError::UnknownProtocolVersion),
        tail,
        known,
    );
}

/// The bytes of a status request followed by a ping with `token`.
pub open spec fn status_bytes(token: Seq<u8>) -> Seq<u8> {
    encoding(STATUS_REQUEST_LENGTH) + seq![PACKET_ID_ZERO] + encoding(PING_REQUEST_LENGTH)
        + seq![PACKET_ID_PING] + token
}

/// The steps of a session through the status phase.
proof fn lemma_status_steps(
    peer: Seq<char>,
    brand: Seq<char>,
    protocol: i32,
    token: Seq<u8>,
)
    requires
        token.len() == PING_TOKEN_LENGTH,
    ensures
        ({
            let start = after_handshake(peer, brand, protocol, Phase::Status);
            let at_id = start.goto(Stage::RequestId);
            let replying = start.reply(
                status_response(brand, protocol as int),
                Stage::StatusReply,
            );
            let at_size = start.goto(Stage::PingLength);
            let at_ping = start.goto(Stage::PingId);
            let at_token = start.goto(Stage::PingToken);
            let echoing = start.reply(pong(token), Stage::PongReply);
            &&& start.expects_varint()
            &&& start.partial == Partial::empty()
            &&& start.settle(STATUS_REQUEST_LENGTH) == at_id
            &&& at_id.pending() == (Action::Read { count: 1 })
            &&& at_id.step(EventView::Bytes(seq![PACKET_ID_ZERO])) == replying
            &&& status_response(brand, protocol as int) is Some ==> {
                &&& replying.pending() == Action::Write
                &&& replying.step(EventView::Written) == at_size
            }
            &&& at_size.expects_varint()
            &&& at_size.settle(PING_REQUEST_LENGTH) == at_ping
            &&& at_ping.pending() == (Action::Read { count: 1 })
            &&& at_ping.step(EventView::Bytes(seq![PACKET_ID_PING])) == at_token
            &&& at_token.pending() == (Action::Read { count: 8 })
            &&& at_token.step(EventView::Bytes(token)) == echoing
            &&& pong(token) == Some(seq![9u8, PACKET_ID_PING] + token)
            &&& echoing.pending() == Action::Write
            &&& echoing.step(EventView::Written) == start.goto(Stage::Closed)
        }),
{
    reveal(SessionState::step);
    reveal_with_fuel(crate::varint::groups_of, 2);
    assert(seq![PACKET_ID_ZERO].len() == 1);
    assert(seq![PACKET_ID_PING].len() == 1);
    assert(encoding(9) =~= seq![9u8]);
    assert(seq![9u8] + seq![PACKET_ID_PING] + token =~= seq![9u8, PACKET_ID_PING] + token);
}

/// In the status phase a status request is answered with the status document
/// for the server's name and the protocol number of the handshake, framed
/// under packet id 0, and the ping that follows with a pong of the same
/// token: length 9, id 1, the eight bytes as they came. Then the connection
/// is closed, without a shutdown; what the client sends after the ping is
/// not read. A status document too long to be framed ends the conversation
/// with `FrameTooLarge` before anything is written.
pub proof fn lemma_status_is_answered(
    peer: Seq<char>,
    brand: Seq<char>,
    known: Seq<i32>,
    protocol: i32,
    token: Seq<u8>,
    tail: Seq<u8>,
)
    requires
        1 <= protocol,
        token.len() == PING_TOKEN_LENGTH,
    ensures
        remainder(
            after_handshake(peer, brand, protocol, Phase::Status),
            status_bytes(token) + tail,
            known,
        ) == match status_response(brand, protocol as int) {
            Some(frame) => TranscriptView {
                outcome: Ok(()),
                written: frame + (seq![9u8, PACKET_ID_PING] + token),
                consumed: status_bytes(token).len(),
                shut_down: false,
            },
            None => TranscriptView {
                outcome: Err(ProtocolError::FrameTooLarge),
                written: Seq::empty(),
                consumed: 2,
                shut_down: false,
            },
        },
        status_bytes(token).len() == 12,
{
    let start = after_handshake(peer, brand, protocol, Phase::Status);
    let at_id = start.goto(Stage::RequestId);
    let replying = start.reply(status_response(brand, protocol as int), Stage::StatusReply);
    let at_size = start.goto(Stage::PingLength);
    let at_ping = start.goto(Stage::PingId);
    let at_token = start.goto(Stage::PingToken);
    let echoing = start.reply(pong(token), Stage::PongReply);
    let closed = start.goto(Stage::Closed);

    let t4 = token + tail;
    let t3 = seq![PACKET_ID_PING] + t4;
    let t2 = encoding(PING_REQUEST_LENGTH) + t3;
    let t1 = seq![PACKET_ID_ZERO] + t2;
    let t0 = encoding(STATUS_REQUEST_LENGTH) + t1;
    assert(t0 =~= status_bytes(token) + tail);
    lemma_encoding_len(STATUS_REQUEST_LENGTH);
    lemma_encoding_len(PING_REQUEST_LENGTH);

    lemma_status_steps(peer, brand, protocol, token);
    assert(start.wf());
    lemma_reads_encoding(start, STATUS_REQUEST_LENGTH, t1, known);
    lemma_reads_field(at_id, seq![PACKET_ID_ZERO], t2, known);
    match status_response(brand, protocol as int) {
        Some(frame) => {
            lemma_answers(replying, t2, known);
            lemma_reads_encoding(at_size, PING_REQUEST_LENGTH, t3, known);
            lemma_reads_field(at_ping, seq![PACKET_ID_PING], t4, known);
            lemma_reads_field(at_token, token, tail, known);
            lemma_answers(echoing, tail, known);
            lemma_remainder_when_finished(closed, tail, known);
            let pong_bytes = seq![9u8, PACKET_ID_PING] + token;
            assert(frame + (pong_bytes + Seq::<u8>::empty()) =~= frame + pong_bytes);
            assert(pong_bytes + Seq::<u8>::empty() =~= pong_bytes);
        },
        None => {
            lemma_remainder_when_finished(replying, t2, known);
        },
    }
}

/// The bytes of a login start packet that declares `length` bytes and a user
/// name of `name_length` bytes, without the name itself.
pub open spec fn login_bytes(length: i32, name_length: i32) -> Seq<u8> {
    encoding(length) + seq![PACKET_ID_ZERO] + encoding(name_length)
}

/// The steps of a session through the login phase.
proof fn lemma_login_steps(
    peer: Seq<char>,
    brand: Seq<char>,
    protocol: i32,
    length: i32,
    name_length: i32,
)
    requires
        1 <= length,
    ensures
        ({
            let start = after_handshake(peer, brand, protocol, Phase::Login);
            let at_id = start.goto(Stage::LoginId);
            let at_name = start.goto(Stage::UsernameLength);
            let replying = start.reply(disconnect(peer), Stage::DisconnectReply);
            let closing = start.goto(Stage::Closing);
            &&& start.expects_varint()
            &&& start.partial == Partial::empty()
            &&& start.settle(length) == at_id
            &&& at_id.pending() == (Action::Read { count: 1 })
            &&& at_id.step(EventView::Bytes(seq![PACKET_ID_ZERO])) == at_name
            &&& at_name.expects_varint()
            &&& 1 <= name_length <= USERNAME_MAX_LENGTH ==> at_name.settle(name_length)
                == replying
            &&& !(1 <= name_length <= USERNAME_MAX_LENGTH) ==> at_name.settle(name_length)
                == start.fail(ProtocolError::UsernameLengthInvalid)
            &&& disconnect(peer) is Some ==> {
                &&& replying.pending() == Action::Write
                &&& replying.step(EventView::Written) == closing
            }
            &&& closing.pending() == Action::Shutdown
            &&& closing.step(EventView::ShutDown) == start.goto(Stage::Closed)
        }),
{
    reveal(SessionState::step);
    assert(seq![PACKET_ID_ZERO].len() == 1);
}

/// In the login phase a login start packet with a user name of 1 to 16
/// bytes is answered with the disconnect document that tells the client its
/// address, framed under packet id 0; then the write side is shut down and
/// the connection closed. The declared length of the packet is not held to
/// any limit, and the name itself is never read. A name of any other length
/// ends the conversation with `UsernameLengthInvalid`, nothing written.
pub proof fn lemma_login_is_refused(
    peer: Seq<char>,
    brand: Seq<char>,
    known: Seq<i32>,
    protocol: i32,
    length: i32,
    name_length: i32,
    tail: Seq<u8>,
)
    requires
        1 <= protocol,
        1 <= length,
    ensures
        remainder(
            after_handshake(peer, brand, protocol, Phase::Login),
            login_bytes(length, name_length) + tail,
            known,
        ) == if !(1 <= name_length <= USERNAME_MAX_LENGTH) {
            TranscriptView {
                outcome: Err(ProtocolError::UsernameLengthInvalid),
                written: Seq::empty(),
                consumed: login_bytes(length, name_length).len(),
                shut_down: false,
            }
        } else {
            match disconnect(peer) {
                Some(frame) => TranscriptView {
                    outcome: Ok(()),
                    written: frame,
                    consumed: login_bytes(length, name_length).len(),
                    shut_down: true,
                },
                None => TranscriptView {
                    outcome: Err(ProtocolError::FrameTooLarge),
                    written: Seq::empty(),
                    consumed: login_bytes(length, name_length).len(),
                    shut_down: false,
                },
            }
        },
{
    let start = after_handshake(peer, brand, protocol, Phase::Login);
    let at_id = start.goto(Stage::LoginId);
    let at_name = start.goto(Stage::UsernameLength);
    let replying = start.reply(disconnect(peer), Stage::DisconnectReply);
    let closing = start.goto(Stage::Closing);
    let closed = start.goto(Stage::Closed);

    let t2 = encoding(name_length) + tail;
    let t1 = seq![PACKET_ID_ZERO] + t2;
    let t0 = encoding(length) + t1;
    assert(t0 =~= login_bytes(length, name_length) + tail);

    lemma_login_steps(peer, brand, protocol, length, name_length);
    assert(start.wf());
    lemma_reads_encoding(start, length, t1, known);
    lemma_reads_field(at_id, seq![PACKET_ID_ZERO], t2, known);
    lemma_reads_encoding(at_name, name_length, tail, known);
    if !(1 <= name_length <= USERNAME_MAX_LENGTH) {
        lemma_remainder_when_finished(
            start.fail(ProtocolError::UsernameLengthInvalid),
            tail,
            known,
        );
    } else {
        match disconnect(peer) {
            Some(frame) => {
                lemma_answers(replying, tail, known);
                lemma_answers(closing, tail, known);
                lemma_remainder_when_finished(closed, tail, known);
                assert(frame + Seq::<u8>::empty() =~= frame);
            },
            None => {
                lemma_remainder_when_finished(replying, tail, known);
            },
        }
    }
}

/// A whole status conversation: a handshake within the limits, in a protocol
/// version that the version table lists and with intent 1, a status request
/// and a ping. The client gets the status document for the server's name
/// and its own protocol number, and its ping back. Only a status document
/// too long to be framed makes a difference: then the conversation ends with
/// `FrameTooLarge` at the status request, nothing written.
pub proof fn lemma_status_conversation(
    peer: Seq<char>,
    brand: Seq<char>,
    known: Seq<i32>,
    length: i32,
    protocol: i32,
    address: Seq<u8>,
    port: Seq<u8>,
    token: Seq<u8>,
    tail: Seq<u8>,
)
    requires
        1 <= length <= HANDSHAKE_MAX_LENGTH,
        1 <= protocol,
        known.contains(protocol),
        1 <= address.len() <= ADDRESS_MAX_LENGTH,
        port.len() == 2,
        token.len() == PING_TOKEN_LENGTH,
    ensures
        conversation(
            peer,
            brand,
            known,
            handshake_bytes(length, protocol, address, port, INTENT_STATUS) + status_bytes(token)
                + tail,
        ) == match status_response(brand, protocol as int) {
            Some(frame) => TranscriptView {
                outcome: Ok(()),
                written: frame + (seq![9u8, PACKET_ID_PING] + token),
                consumed: handshake_bytes(length, protocol, address, port, INTENT_STATUS).len()
                    + status_bytes(token).len(),
                shut_down: false,
            },
            None => TranscriptView {
                outcome: Err(ProtocolError::FrameTooLarge),
                written: Seq::empty(),
                consumed: handshake_bytes(length, protocol, address, port, INTENT_STATUS).len()
                    + 2,
                shut_down: false,
            },
        },
{
    let head = handshake_bytes(length, protocol, address, port, INTENT_STATUS);
    assert(head + status_bytes(token) + tail =~= head + (status_bytes(token) + tail));
    lemma_handshake_is_read(
        peer,
        brand,
        known,
        length,
        protocol,
        address,
        port,
        INTENT_STATUS,
        status_bytes(token) + tail,
    );
    lemma_intent_step(peer, brand, protocol, INTENT_STATUS);
    lemma_status_is_answered(peer, brand, known, protocol, token, tail);
}

/// A whole login conversation: a handshake within the limits, in a protocol
/// version that the version table lists and with intent 2, and a login start
/// packet. With a user name of 1 to 16 bytes the client gets the disconnect
/// document with its own address, and the write side is shut down; only a
/// document too long to be framed ends the conversation with `FrameTooLarge`
/// instead. With a user name of no bytes, of more than 16, or of a negative
/// number of them, the conversation ends with `UsernameLengthInvalid` and
/// not a byte is written.
pub proof fn lemma_login_conversation(
    peer: Seq<char>,
    brand: Seq<char>,
    known: Seq<i32>,
    length: i32,
    protocol: i32,
    address: Seq<u8>,
    port: Seq<u8>,
    login_length: i32,
    name_length: i32,
    tail: Seq<u8>,
)
    requires
        1 <= length <= HANDSHAKE_MAX_LENGTH,
        1 <= protocol,
        known.contains(protocol),
        1 <= address.len() <= ADDRESS_MAX_LENGTH,
        port.len() == 2,
        1 <= login_length,
    ensures
        ({
            let whole = conversation(
                peer,
                brand,
                known,
                handshake_bytes(length, protocol, address, port, INTENT_LOGIN) + login_bytes(
                    login_length,
                    name_length,
                ) + tail,
            );
            &&& whole.consumed == handshake_bytes(
                length,
                protocol,
                address,
                port,
                INTENT_LOGIN,
            ).len() + login_bytes(login_length, name_length).len()
            &&& if !(1 <= name_length <= USERNAME_MAX_LENGTH) {
                &&& whole.outcome == Err::<(), ProtocolError>(
                    ProtocolError::UsernameLengthInvalid,
                )
                &&& whole.written == Seq::<u8>::empty()
                &&& !whole.shut_down
            } else {
                match disconnect(peer) {
                    Some(frame) => {
                        &&& whole.outcome == Ok::<(), ProtocolError>(())
                        &&& whole.written == frame
                        &&& whole.shut_down
                    },
                    None => {
                        &&& whole.outcome == Err::<(), ProtocolError>(
                            ProtocolError::FrameTooLarge,
                        )
                        &&& whole.written == Seq::<u8>::empty()
                        &&& !whole.shut_down
                    },
                }
            }
        }),
{
    let head = handshake_bytes(length, protocol, address, port, INTENT_LOGIN);
    let body = login_bytes(login_length, name_length);
    assert(head + body + tail =~= head + (body + tail));
    lemma_handshake_is_read(
        peer,
        brand,
        known,
        length,
        protocol,
        address,
        port,
        INTENT_LOGIN,
        body + tail,
    );
    lemma_intent_step(peer, brand, protocol, INTENT_LOGIN);
    lemma_login_is_refused(peer, brand, known, protocol, login_length, name_length, tail);
}

} // verus!
