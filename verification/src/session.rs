//! The conversation with one client, as a state machine without I/O.
//!
//! A [`Session`] tells its driver what to do next (read so many bytes, look a
//! protocol number up, write the bytes it holds ready, shut the write side
//! down, close) and is told what came of it. The driver owns the socket and the
//! version table; every decision is taken here.

use vstd::prelude::*;
use crate::error::ProtocolError;
use crate::frame::{framed, text_packet, write_packet, write_text_packet};
use crate::invariants::{lemma_initial_wf, lemma_step_wf};
use crate::json::{disconnect_json, disconnect_text, status_json, status_text};
use crate::varint::{Partial, Progress, VarintDecoder};

verus! {

/// The largest handshake packet: a five-byte protocol number, an address of
/// up to 255 bytes behind its length, a two-byte port and the intent byte,
/// with the packet id in front.
pub const HANDSHAKE_MAX_LENGTH: i32 = 263;

/// The longest server address that a handshake may carry.
pub const ADDRESS_MAX_LENGTH: i32 = 255;

/// The length of a status request: its id byte and nothing else.
pub const STATUS_REQUEST_LENGTH: i32 = 1;

/// The length of a ping request: its id byte and an eight-byte token.
pub const PING_REQUEST_LENGTH: i32 = 9;

/// The longest user name that a login may announce.
pub const USERNAME_MAX_LENGTH: i32 = 16;

/// The bytes of a ping token.
pub const PING_TOKEN_LENGTH: usize = 8;

/// The bytes of the port field of a handshake.
pub const PORT_LENGTH: usize = 2;

/// The id of the handshake, status request, status response, login start
/// and disconnect packets.
pub const PACKET_ID_ZERO: u8 = 0;

/// The id of the ping request and of the pong that answers it.
pub const PACKET_ID_PING: u8 = 1;

/// The intent byte that asks for the server's status.
pub const INTENT_STATUS: u8 = 1;

/// The intent byte that asks to log in.
pub const INTENT_LOGIN: u8 = 2;

/// The part of the protocol that a connection is in. A connection starts in
/// `Handshake` and leaves it once, for `Status` or for `Login`.
#[derive(Clone, Copy, Debug, PartialEq, Eq, Structural)]
pub enum Phase {
    Handshake,
    Status,
    Login,
}

/// What the session is waiting for.
#[derive(Clone, Copy, Debug, PartialEq, Eq, Structural)]
pub enum Stage {
    /// The length of the handshake packet.
    HandshakeLength,
    /// The id of the handshake packet.
    HandshakeId,
    /// The protocol number that the client speaks.
    ProtocolNumber,
    /// The version table's verdict on `number`.
    ProtocolLookup { number: i32 },
    /// The length of the server address.
    AddressLength,
    /// The server address, `length` bytes that are skipped.
    Address { length: u8 },
    /// The server port, two bytes that are skipped.
    Port,
    /// The intent byte.
    Intent,
    /// The length of the status request.
    RequestLength,
    /// The id of the status request.
    RequestId,
    /// The status response to be written.
    StatusReply,
    /// The length of the ping request.
    PingLength,
    /// The id of the ping request.
    PingId,
    /// The token of the ping request.
    PingToken,
    /// The pong to be written.
    PongReply,
    /// The length of the login start packet.
    LoginLength,
    /// The id of the login start packet.
    LoginId,
    /// The length of the user name.
    UsernameLength,
    /// The disconnect packet to be written.
    DisconnectReply,
    /// The write side to be shut down.
    Closing,
    /// The exchange is complete.
    Closed,
    /// The connection was given up.
    Failed { error: ProtocolError },
}

/// What the driver has to do next.
#[derive(Clone, Copy, Debug, PartialEq, Eq, Structural)]
pub enum Action {
    /// Read exactly `count` bytes and report them.
    Read { count: usize },
    /// Ask the version table whether it knows `number` and report the answer.
    Lookup { number: i32 },
    /// Write all of the session's outgoing bytes and report that it is done.
    Write,
    /// Shut the write side down and report that it is done.
    Shutdown,
    /// Close the connection: the exchange went through.
    Close,
    /// Close the connection: it failed with `error`. Nothing is sent.
    Abort { error: ProtocolError },
}

/// What the driver reports back.
#[derive(Debug)]
pub enum Event {
    /// The bytes that were read.
    Bytes(Vec<u8>),
    /// The version table's answer.
    Known(bool),
    /// The outgoing bytes reached the transport.
    Written,
    /// The write side is shut down.
    ShutDown,
    /// The transport failed or the stream ended.
    TransportFailed,
}

/// An event as contracts see it.
pub enum EventView {
    Bytes(Seq<u8>),
    Known(bool),
    Written,
    ShutDown,
    TransportFailed,
}

impl View for Event {
    type V = EventView;

    open spec fn view(&self) -> EventView {
        match self {
            Event::Bytes(bytes) => EventView::Bytes(bytes@),
            Event::Known(known) => EventView::Known(*known),
            Event::Written => EventView::Written,
            Event::ShutDown => EventView::ShutDown,
            Event::TransportFailed => EventView::TransportFailed,
        }
    }
}

/// A session as contracts see it.
pub struct SessionState {
    /// The part of the protocol that the connection is in.
    pub phase: Phase,
    /// What the session is waiting for.
    pub stage: Stage,
    /// The varint that is being read, if one is.
    pub partial: Partial,
    /// The protocol number of the handshake, once the version table has
    /// accepted it.
    pub protocol: Option<i32>,
    /// The bytes that wait to be written.
    pub outgoing: Seq<u8>,
    /// The client's IP address as text.
    pub peer: Seq<char>,
    /// The name under which the server presents itself.
    pub brand: Seq<char>,
}

/// The status response for a server called `brand` in protocol version
/// `protocol`, if it can be framed.
pub open spec fn status_response(brand: Seq<char>, protocol: int) -> Option<Seq<u8>> {
    text_packet(PACKET_ID_ZERO, status_text(brand, protocol))
}

/// The pong that answers a ping with `token`.
pub open spec fn pong(token: Seq<u8>) -> Option<Seq<u8>> {
    framed(PACKET_ID_PING, token)
}

/// The disconnect packet that tells the client at `peer` its address, if it
/// can be framed.
pub open spec fn disconnect(peer: Seq<char>) -> Option<Seq<u8>> {
    text_packet(PACKET_ID_ZERO, disconnect_text(peer))
}

/// The phase that a stage belongs to; a failed session may be in any.
pub open spec fn stage_in_phase(stage: Stage, phase: Phase) -> bool {
    match stage {
        Stage::HandshakeLength
        | Stage::HandshakeId
        | Stage::ProtocolNumber
        | Stage::ProtocolLookup { .. }
        | Stage::AddressLength
        | Stage::Address { .. }
        | Stage::Port
        | Stage::Intent => phase == Phase::Handshake,
        Stage::RequestLength
        | Stage::RequestId
        | Stage::StatusReply
        | Stage::PingLength
        | Stage::PingId
        | Stage::PingToken
        | Stage::PongReply => phase == Phase::Status,
        Stage::LoginLength
        | Stage::LoginId
        | Stage::UsernameLength
        | Stage::DisconnectReply
        | Stage::Closing => phase == Phase::Login,
        Stage::Closed => phase != Phase::Handshake,
        Stage::Failed { .. } => true,
    }
}

/// Whether the protocol number is settled at a stage: not before the version
/// table has accepted it, always after.
pub open spec fn protocol_fits_stage(stage: Stage, protocol: Option<i32>) -> bool {
    match stage {
        Stage::HandshakeLength | Stage::HandshakeId | Stage::ProtocolNumber => protocol is None,
        Stage::ProtocolLookup { number } => protocol is None && number > 0,
        Stage::Failed { .. } => protocol matches Some(number) ==> number > 0,
        _ => protocol matches Some(number) && number > 0,
    }
}

/// Whether the bytes held ready are the ones that the stage is about to
/// write; at every other stage nothing is held ready.
pub open spec fn outgoing_fits_stage(state: SessionState) -> bool {
    match state.stage {
        Stage::StatusReply => state.protocol matches Some(number) && status_response(
            state.brand,
            number as int,
        ) == Some(state.outgoing),
        Stage::PongReply => exists|token: Seq<u8>|
            token.len() == PING_TOKEN_LENGTH && #[trigger] pong(token) == Some(state.outgoing),
        Stage::DisconnectReply => disconnect(state.peer) == Some(state.outgoing),
        _ => state.outgoing.len() == 0,
    }
}

impl SessionState {
    /// A connection from `peer` to a server called `brand`, nothing read yet.
    pub open spec fn initial(peer: Seq<char>, brand: Seq<char>) -> SessionState {
        SessionState {
            phase: Phase::Handshake,
            stage: Stage::HandshakeLength,
            partial: Partial::empty(),
            protocol: None,
            outgoing: Seq::empty(),
            peer,
            brand,
        }
    }

    /// The states that a session can be in: a varint is under way only where
    /// one is expected, the stage belongs to the phase, the protocol number is
    /// there from the moment it is accepted, and bytes are held ready only to
    /// be written.
    pub open spec fn wf(self) -> bool {
        &&& self.partial.wf()
        &&& !self.expects_varint() ==> self.partial == Partial::empty()
        &&& stage_in_phase(self.stage, self.phase)
        &&& protocol_fits_stage(self.stage, self.protocol)
        &&& outgoing_fits_stage(self)
        &&& self.stage matches Stage::Address { length } ==> length >= 1
    }

    /// Whether the session is reading a varint.
    pub open spec fn expects_varint(self) -> bool {
        match self.stage {
            Stage::HandshakeLength
            | Stage::ProtocolNumber
            | Stage::AddressLength
            | Stage::RequestLength
            | Stage::PingLength
            | Stage::LoginLength
            | Stage::UsernameLength => true,
            _ => false,
        }
    }

    /// Whether the session is reading a field of one byte.
    pub open spec fn expects_byte(self) -> bool {
        match self.stage {
            Stage::HandshakeId | Stage::Intent | Stage::RequestId | Stage::PingId | Stage::LoginId => true,
            _ => false,
        }
    }

    /// Whether the exchange is over, one way or the other.
    pub open spec fn finished(self) -> bool {
        self.stage is Closed || self.stage is Failed
    }

    /// What the driver has to do in this state.
    pub open spec fn pending(self) -> Action {
        match self.stage {
            Stage::ProtocolLookup { number } => Action::Lookup { number },
            Stage::Address { length } => Action::Read { count: length as usize },
            Stage::Port => Action::Read { count: PORT_LENGTH },
            Stage::PingToken => Action::Read { count: PING_TOKEN_LENGTH },
            Stage::StatusReply | Stage::PongReply | Stage::DisconnectReply => Action::Write,
            Stage::Closing => Action::Shutdown,
            Stage::Closed => Action::Close,
            Stage::Failed { error } => Action::Abort { error },
            _ => Action::Read { count: 1 },
        }
    }

    /// The connection is given up.
    pub open spec fn fail(self, error: ProtocolError) -> SessionState {
        SessionState {
            stage: Stage::Failed { error },
            partial: Partial::empty(),
            outgoing: Seq::empty(),
            ..self
        }
    }

    /// The session moves on to `stage`, with nothing to write.
    pub open spec fn goto(self, stage: Stage) -> SessionState {
        SessionState { stage, partial: Partial::empty(), outgoing: Seq::empty(), ..self }
    }

    /// The session holds `frame` ready to be written at `stage`; a frame that
    /// cannot be built ends the connection.
    pub open spec fn reply(self, frame: Option<Seq<u8>>, stage: Stage) -> SessionState {
        match frame {
            Some(bytes) => SessionState {
                stage,
                partial: Partial::empty(),
                outgoing: bytes,
                ..self
            },
            None => self.fail(ProtocolError::FrameTooLarge),
        }
    }

    /// A varint was read in full and spells `value`.
    pub open spec fn settle(self, value: i32) -> SessionState {
        match self.stage {
            Stage::HandshakeLength => if value <= 0 {
                self.fail(ProtocolError::InvalidValue)
            } else if value > HANDSHAKE_MAX_LENGTH {
                self.fail(ProtocolError::FrameTooLarge)
            } else {
                self.goto(Stage::HandshakeId)
            },
            Stage::ProtocolNumber => if value <= 0 {
                self.fail(ProtocolError::InvalidValue)
            } else {
                self.goto(Stage::ProtocolLookup { number: value })
            },
            Stage::AddressLength => if value <= 0 {
                self.fail(ProtocolError::InvalidValue)
            } else if value > ADDRESS_MAX_LENGTH {
                self.fail(ProtocolError::FieldTooLarge)
            } else {
                self.goto(Stage::Address { length: value as u8 })
            },
            Stage::RequestLength => if value <= 0 {
                self.fail(ProtocolError::InvalidValue)
            } else if value != STATUS_REQUEST_LENGTH {
                self.fail(ProtocolError::UnexpectedPayload)
            } else {
                self.goto(Stage::RequestId)
            },
            Stage::PingLength => if value <= 0 {
                self.fail(ProtocolError::InvalidValue)
            } else if value != PING_REQUEST_LENGTH {
                self.fail(ProtocolError::UnexpectedPayload)
            } else {
                self.goto(Stage::PingId)
            },
            Stage::LoginLength => if value <= 0 {
                self.fail(ProtocolError::InvalidValue)
            } else {
                self.goto(Stage::LoginId)
            },
            Stage::UsernameLength => if value < 1 || value > USERNAME_MAX_LENGTH {
                self.fail(ProtocolError::UsernameLengthInvalid)
            } else {
                self.reply(disconnect(self.peer), Stage::DisconnectReply)
            },
            _ => self.fail(ProtocolError::TransportError),
        }
    }

    /// A field of one byte was read and holds `byte`. (A status request in
    /// a session without a protocol number is refused as an unknown version;
    /// no session gets there, since the handshake sets the number.)
    pub open spec fn take_byte(self, byte: u8) -> SessionState {
        match self.stage {
            Stage::HandshakeId => if byte == PACKET_ID_ZERO {
                self.goto(Stage::ProtocolNumber)
            } else {
                self.fail(ProtocolError::UnexpectedPacketId)
            },
            Stage::Intent => if byte == INTENT_STATUS {
                SessionState { phase: Phase::Status, ..self.goto(Stage::RequestLength) }
            } else if byte == INTENT_LOGIN {
                SessionState { phase: Phase::Login, ..self.goto(Stage::LoginLength) }
            } else {
                self.fail(ProtocolError::InvalidIntent)
            },
            Stage::RequestId => if byte != PACKET_ID_ZERO {
                self.fail(ProtocolError::UnexpectedPacketId)
            } else {
                match self.protocol {
                    Some(protocol) => self.reply(
                        status_response(self.brand, protocol as int),
                        Stage::StatusReply,
                    ),
                    None => self.fail(ProtocolError::UnknownProtocolVersion),
                }
            },
            Stage::PingId => if byte == PACKET_ID_PING {
                self.goto(Stage::PingToken)
            } else {
                self.fail(ProtocolError::UnexpectedPacketId)
            },
            Stage::LoginId => if byte == PACKET_ID_ZERO {
                self.goto(Stage::UsernameLength)
            } else {
                self.fail(ProtocolError::UnexpectedPacketId)
            },
            _ => self.fail(ProtocolError::TransportError),
        }
    }

    /// The driver read `bytes`. Anything but the number of bytes that was
    /// asked for counts as a failed read.
    pub open spec fn receive(self, bytes: Seq<u8>) -> SessionState {
        if !(self.pending() matches Action::Read { count } && bytes.len() == count) {
            self.fail(ProtocolError::TransportError)
        } else if self.expects_varint() {
            match self.partial.absorb(bytes[0]) {
                Progress::More(partial) => SessionState { partial, ..self },
                Progress::Done(value) => self.settle(value),
                Progress::Malformed => self.fail(ProtocolError::MalformedVarint),
            }
        } else if self.expects_byte() {
            self.take_byte(bytes[0])
        } else {
            match self.stage {
                Stage::Address { .. } => self.goto(Stage::Port),
                Stage::Port => self.goto(Stage::Intent),
                Stage::PingToken => self.reply(pong(bytes), Stage::PongReply),
                _ => self.fail(ProtocolError::TransportError),
            }
        }
    }

    /// The state after each of `events` in turn.
    pub open spec fn run(self, events: Seq<EventView>) -> SessionState
        decreases events.len(),
    {
        if events.len() == 0 {
            self
        } else {
            self.step(events[0]).run(events.drop_first())
        }
    }

    /// The state after `event`. A finished session stays as it is; an event
    /// that does not answer the pending action counts as a transport failure.
    ///
    /// The definition is kept from the prover until it is asked for with
    /// `reveal(SessionState::step)`: most proofs about conversations only
    /// need what the lemmas say of a step.
    #[verifier::opaque]
    pub open spec fn step(self, event: EventView) -> SessionState {
        if self.finished() {
            self
        } else {
            match event {
                EventView::TransportFailed => self.fail(ProtocolError::TransportError),
                EventView::Bytes(bytes) => self.receive(bytes),
                EventView::Known(known) => match self.stage {
                    Stage::ProtocolLookup { number } => if known {
                        SessionState { protocol: Some(number), ..self.goto(Stage::AddressLength) }
                    } else {
                        self.fail(ProtocolError::UnknownProtocolVersion)
                    },
                    _ => self.fail(ProtocolError::TransportError),
                },
                EventView::Written => match self.stage {
                    Stage::StatusReply => self.goto(Stage::PingLength),
                    Stage::PongReply => self.goto(Stage::Closed),
                    Stage::DisconnectReply => self.goto(Stage::Closing),
                    _ => self.fail(ProtocolError::TransportError),
                },
                EventView::ShutDown => match self.stage {
                    Stage::Closing => self.goto(Stage::Closed),
                    _ => self.fail(ProtocolError::TransportError),
                },
            }
        }
    }
}

/// The conversation with one client.
pub struct Session {
    phase: Phase,
    stage: Stage,
    decoder: VarintDecoder,
    protocol: Option<i32>,
    outgoing: Vec<u8>,
    peer: String,
    brand: String,
}

impl View for Session {
    type V = SessionState;

    closed spec fn view(&self) -> SessionState {
        SessionState {
            phase: self.phase,
            stage: self.stage,
            partial: self.decoder@,
            protocol: self.protocol,
            outgoing: self.outgoing@,
            peer: self.peer@,
            brand: self.brand@,
        }
    }
}

impl Session {
    /// A session for a client that connected from `peer`, the textual form of
    /// its IP address, to a server that calls itself `brand`.
    pub fn new(peer: &str, brand: &str) -> (session: Session)
        ensures
            session@ == SessionState::initial(peer@, brand@),
            session@.wf(),
    {
        proof {
            lemma_initial_wf(peer@, brand@);
        }
        Session {
            phase: Phase::Handshake,
            stage: Stage::HandshakeLength,
            decoder: VarintDecoder::new(),
            protocol: None,
            outgoing: Vec::new(),
            peer: String::from_str(peer),
            brand: String::from_str(brand),
        }
    }

    /// The part of the protocol that the connection is in.
    pub fn phase(&self) -> (phase: Phase)
        ensures
            phase == self@.phase,
    {
        self.phase
    }

    /// What the session is waiting for.
    pub fn stage(&self) -> (stage: Stage)
        ensures
            stage == self@.stage,
    {
        self.stage
    }

    /// The protocol number of the handshake, once it is accepted.
    pub fn protocol(&self) -> (protocol: Option<i32>)
        ensures
            protocol == self@.protocol,
    {
        self.protocol
    }

    /// The textual form of the client's IP address.
    pub fn peer(&self) -> (peer: &str)
        ensures
            peer@ == self@.peer,
    {
        self.peer.as_str()
    }

    /// The name under which the server presents itself.
    pub fn brand(&self) -> (brand: &str)
        ensures
            brand@ == self@.brand,
    {
        self.brand.as_str()
    }

    /// The bytes to write when the action is `Write`; empty otherwise.
    pub fn outgoing(&self) -> (bytes: &[u8])
        ensures
            bytes@ == self@.outgoing,
    {
        self.outgoing.as_slice()
    }

    /// What the driver has to do next. A read is never for more than 255
    /// bytes: a length is checked against its limit before it is asked for.
    pub fn action(&self) -> (action: Action)
        ensures
            action == self@.pending(),
            action matches Action::Read { count } ==> count <= ADDRESS_MAX_LENGTH,
            self@.wf() ==> (action matches Action::Read { count } ==> count >= 1),
    {
        match self.stage {
            Stage::ProtocolLookup { number } => Action::Lookup { number },
            Stage::Address { length } => Action::Read { count: length as usize },
            Stage::Port => Action::Read { count: PORT_LENGTH },
            Stage::PingToken => Action::Read { count: PING_TOKEN_LENGTH },
            Stage::StatusReply | Stage::PongReply | Stage::DisconnectReply => Action::Write,
            Stage::Closing => Action::Shutdown,
            Stage::Closed => Action::Close,
            Stage::Failed { error } => Action::Abort { error },
            _ => Action::Read { count: 1 },
        }
    }

    fn fail(&mut self, error: ProtocolError)
        ensures
            final(self)@ == old(self)@.fail(error),
    {
        self.stage = Stage::Failed { error };
        self.decoder = VarintDecoder::new();
        self.outgoing = Vec::new();
    }

    fn goto(&mut self, stage: Stage)
        ensures
            final(self)@ == old(self)@.goto(stage),
    {
        self.stage = stage;
        self.decoder = VarintDecoder::new();
        self.outgoing = Vec::new();
    }

    fn reply(&mut self, frame: Result<Vec<u8>, ProtocolError>, stage: Stage)
        requires
            frame matches Err(error) ==> error == ProtocolError::FrameTooLarge,
        ensures
            final(self)@ == old(self)@.reply(
                match frame {
                    Ok(bytes) => Some(bytes@),
                    Err(_) => None,
                },
                stage,
            ),
    {
        match frame {
            Ok(bytes) => {
                self.stage = stage;
                self.decoder = VarintDecoder::new();
                self.outgoing = bytes;
            },
            Err(error) => {
                self.fail(error);
            },
        }
    }

    fn settle(&mut self, value: i32)
        ensures
            final(self)@ == old(self)@.settle(value),
    {
        match self.stage {
            Stage::HandshakeLength => {
                if value <= 0 {
                    self.fail(ProtocolError::InvalidValue);
                } else if value > HANDSHAKE_MAX_LENGTH {
                    self.fail(ProtocolError::FrameTooLarge);
                } else {
                    self.goto(Stage::HandshakeId);
                }
            },
            Stage::ProtocolNumber => {
                if value <= 0 {
                    self.fail(ProtocolError::InvalidValue);
                } else {
                    self.goto(Stage::ProtocolLookup { number: value });
                }
            },
            Stage::AddressLength => {
                if value <= 0 {
                    self.fail(ProtocolError::InvalidValue);
                } else if value > ADDRESS_MAX_LENGTH {
                    self.fail(ProtocolError::FieldTooLarge);
                } else {
                    self.goto(Stage::Address { length: value as u8 });
                }
            },
            Stage::RequestLength => {
                if value <= 0 {
                    self.fail(ProtocolError::InvalidValue);
                } else if value != STATUS_REQUEST_LENGTH {
                    self.fail(ProtocolError::UnexpectedPayload);
                } else {
                    self.goto(Stage::RequestId);
                }
            },
            Stage::PingLength => {
                if value <= 0 {
                    self.fail(ProtocolError::InvalidValue);
                } else if value != PING_REQUEST_LENGTH {
                    self.fail(ProtocolError::UnexpectedPayload);
                } else {
                    self.goto(Stage::PingId);
                }
            },
            Stage::LoginLength => {
                if value <= 0 {
                    self.fail(ProtocolError::InvalidValue);
                } else {
                    self.goto(Stage::LoginId);
                }
            },
            Stage::UsernameLength => {
                if value < 1 || value > USERNAME_MAX_LENGTH {
                    self.fail(ProtocolError::UsernameLengthInvalid);
                } else {
                    let document = disconnect_json(self.peer.as_str());
                    let frame = write_text_packet(PACKET_ID_ZERO, document.as_str());
                    self.reply(frame, Stage::DisconnectReply);
                }
            },
            _ => {
                self.fail(ProtocolError::TransportError);
            },
        }
    }

    fn take_byte(&mut self, byte: u8)
        ensures
            final(self)@ == old(self)@.take_byte(byte),
    {
        match self.stage {
            Stage::HandshakeId => {
                if byte == PACKET_ID_ZERO {
                    self.goto(Stage::ProtocolNumber);
                } else {
                    self.fail(ProtocolError::UnexpectedPacketId);
                }
            },
            Stage::Intent => {
                if byte == INTENT_STATUS {
                    self.goto(Stage::RequestLength);
                    self.phase = Phase::Status;
                } else if byte == INTENT_LOGIN {
                    self.goto(Stage::LoginLength);
                    self.phase = Phase::Login;
                } else {
                    self.fail(ProtocolError::InvalidIntent);
                }
            },
            Stage::RequestId => {
                if byte != PACKET_ID_ZERO {
                    self.fail(ProtocolError::UnexpectedPacketId);
                } else {
                    match self.protocol {
                        Some(protocol) => {
                            let document = status_json(self.brand.as_str(), protocol);
                            let frame = write_text_packet(PACKET_ID_ZERO, document.as_str());
                            self.reply(frame, Stage::StatusReply);
                        },
                        None => {
                            self.fail(ProtocolError::UnknownProtocolVersion);
                        },
                    }
                }
            },
            Stage::PingId => {
                if byte == PACKET_ID_PING {
                    self.goto(Stage::PingToken);
                } else {
                    self.fail(ProtocolError::UnexpectedPacketId);
                }
            },
            Stage::LoginId => {
                if byte == PACKET_ID_ZERO {
                    self.goto(Stage::UsernameLength);
                } else {
                    self.fail(ProtocolError::UnexpectedPacketId);
                }
            },
            _ => {
                self.fail(ProtocolError::TransportError);
            },
        }
    }

    fn receive(&mut self, bytes: &[u8])
        ensures
            final(self)@ == old(self)@.receive(bytes@),
    {
        let wanted: usize = match self.action() {
            Action::Read { count } => count,
            _ => {
                self.fail(ProtocolError::TransportError);
                return ;
            },
        };
        if bytes.len() != wanted {
            self.fail(ProtocolError::TransportError);
            return ;
        }
        match self.stage {
            Stage::HandshakeLength
            | Stage::ProtocolNumber
            | Stage::AddressLength
            | Stage::RequestLength
            | Stage::PingLength
            | Stage::LoginLength
            | Stage::UsernameLength => {
                match self.decoder.push(bytes[0]) {
                    Ok(Some(value)) => {
                        self.settle(value);
                    },
                    Ok(None) => {},
                    Err(_) => {
                        self.fail(ProtocolError::MalformedVarint);
                    },
                }
            },
            Stage::HandshakeId | Stage::Intent | Stage::RequestId | Stage::PingId | Stage::LoginId => {
                self.take_byte(bytes[0]);
            },
            Stage::Address { .. } => {
                self.goto(Stage::Port);
            },
            Stage::Port => {
                self.goto(Stage::Intent);
            },
            Stage::PingToken => {
                let frame = write_packet(PACKET_ID_PING, bytes);
                self.reply(frame, Stage::PongReply);
            },
            _ => {
                self.fail(ProtocolError::TransportError);
            },
        }
    }

    /// Takes the driver's report on the pending action and says what to do
    /// next.
    pub fn step(&mut self, event: Event) -> (action: Action)
        ensures
            final(self)@ == old(self)@.step(event@),
            action == final(self)@.pending(),
            action matches Action::Read { count } ==> count <= ADDRESS_MAX_LENGTH,
            old(self)@.wf() ==> final(self)@.wf(),
    {
        proof {
            reveal(SessionState::step);
            if self@.wf() {
                lemma_step_wf(self@, event@);
            }
        }
        match self.stage {
            Stage::Closed | Stage::Failed { .. } => {},
            _ => {
                match event {
                    Event::TransportFailed => {
                        self.fail(ProtocolError::TransportError);
                    },
                    Event::Bytes(bytes) => {
                        self.receive(bytes.as_slice());
                    },
                    Event::Known(known) => {
                        match self.stage {
                            Stage::ProtocolLookup { number } => {
                                if known {
                                    self.goto(Stage::AddressLength);
                                    self.protocol = Some(number);
                                } else {
                                    self.fail(ProtocolError::UnknownProtocolVersion);
                                }
                            },
                            _ => {
                                self.fail(ProtocolError::TransportError);
                            },
                        }
                    },
                    Event::Written => {
                        match self.stage {
                            Stage::StatusReply => {
                                self.goto(Stage::PingLength);
                            },
                            Stage::PongReply => {
                                self.goto(Stage::Closed);
                            },
                            Stage::DisconnectReply => {
                                self.goto(Stage::Closing);
                            },
                            _ => {
                                self.fail(ProtocolError::TransportError);
                            },
                        }
                    },
                    Event::ShutDown => {
                        match self.stage {
                            Stage::Closing => {
                                self.goto(Stage::Closed);
                            },
                            _ => {
                                self.fail(ProtocolError::TransportError);
                            },
                        }
                    },
                }
            },
        }
        self.action()
    }
}

} // verus!
