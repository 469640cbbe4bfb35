//! What holds of every session, whatever the driver reports.

use vstd::prelude::*;
use crate::error::ProtocolError;
use crate::session::{
    outgoing_fits_stage, pong, Action, EventView, Phase, SessionState, Stage, ADDRESS_MAX_LENGTH,
    INTENT_LOGIN, INTENT_STATUS, PACKET_ID_PING, PING_TOKEN_LENGTH,
};
use crate::varint::{encoding, groups_of, lemma_absorb_wf, lemma_weights, Partial, Progress};

verus! {

/// A new session is in a state that a session can be in.
pub proof fn lemma_initial_wf(peer: Seq<char>, brand: Seq<char>)
    ensures
        SessionState::initial(peer, brand).wf(),
        SessionState::initial(peer, brand).pending() == (Action::Read { count: 1 }),
{
    lemma_weights();
}

/// Whatever the driver reports, the session stays in a state that a session
/// can be in, and goes on speaking for the same server to the same client.
pub proof fn lemma_step_wf(state: SessionState, event: EventView)
    requires
        state.wf(),
    ensures
        state.step(event).wf(),
        state.step(event).peer == state.peer,
        state.step(event).brand == state.brand,
{
    reveal(SessionState::step);
    lemma_weights();
    let next = state.step(event);
    if state.finished() {
    } else {
        match event {
            EventView::Bytes(bytes) => {
                if state.pending() matches Action::Read { count } && bytes.len() == count {
                    if state.expects_varint() {
                        lemma_absorb_wf(state.partial, bytes[0]);
                    } else if state.stage is PingToken {
                        if pong(bytes) is Some {
                            assert(bytes.len() == PING_TOKEN_LENGTH);
                            assert(outgoing_fits_stage(next));
                        }
                    }
                }
            },
            _ => {},
        }
    }
}

/// Running two lists of events one after the other is running their
/// concatenation.
pub proof fn lemma_run_concat(state: SessionState, first: Seq<EventView>, second: Seq<EventView>)
    ensures
        state.run(first + second) == state.run(first).run(second),
    decreases first.len(),
{
    if first.len() == 0 {
        assert(first + second =~= second);
    } else {
        assert((first + second).drop_first() =~= first.drop_first() + second);
        lemma_run_concat(state.step(first[0]), first.drop_first(), second);
    }
}

/// Every state that a new session can reach is one that a session can be in.
pub proof fn lemma_run_wf(state: SessionState, events: Seq<EventView>)
    requires
        state.wf(),
    ensures
        state.run(events).wf(),
        state.run(events).peer == state.peer,
        state.run(events).brand == state.brand,
    decreases events.len(),
{
    if events.len() > 0 {
        lemma_step_wf(state, events[0]);
        lemma_run_wf(state.step(events[0]), events.drop_first());
    }
}

/// The session never asks for more than 255 bytes at once, and never for
/// none: a length is checked against its limit before a buffer of that size
/// is asked for.
pub proof fn lemma_reads_are_bounded(state: SessionState)
    requires
        state.wf(),
    ensures
        state.pending() matches Action::Read { count } ==> 1 <= count <= ADDRESS_MAX_LENGTH,
{
}

/// During the handshake the session holds nothing ready and never asks for a
/// write.
pub proof fn lemma_handshake_is_silent(state: SessionState)
    requires
        state.wf(),
        state.phase == Phase::Handshake,
    ensures
        state.pending() !is Write,
        state.outgoing.len() == 0,
{
}

/// The phase changes once at most: a session leaves the handshake only by
/// reading an intent byte of 1, for the status phase, or of 2, for the login
/// phase, and a session in one of those two stays there.
pub proof fn lemma_phase_changes_once(state: SessionState, event: EventView)
    requires
        state.wf(),
    ensures
        state.phase != Phase::Handshake ==> state.step(event).phase == state.phase,
        state.step(event).phase != state.phase ==> state.stage == Stage::Intent && (event
            == EventView::Bytes(seq![INTENT_STATUS]) && state.step(event).phase == Phase::Status
            || event == EventView::Bytes(seq![INTENT_LOGIN]) && state.step(event).phase
            == Phase::Login),
{
    reveal(SessionState::step);
    if state.step(event).phase != state.phase {
        let bytes = event->Bytes_0;
        assert(bytes =~= seq![bytes[0]]);
    }
}

/// The protocol number is set once: when the version table accepts it. From
/// then on no event changes it.
pub proof fn lemma_protocol_is_set_once(state: SessionState, event: EventView)
    requires
        state.wf(),
    ensures
        state.protocol is Some ==> state.step(event).protocol == state.protocol,
        state.step(event).protocol != state.protocol ==> (state.stage matches Stage::ProtocolLookup {
            number,
        } && event == EventView::Known(true) && state.step(event).protocol == Some(number)),
{
    reveal(SessionState::step);
}

/// A finished session ignores whatever is reported to it.
pub proof fn lemma_finished_is_final(state: SessionState, events: Seq<EventView>)
    requires
        state.finished(),
    ensures
        state.run(events) == state,
    decreases events.len(),
{
    reveal(SessionState::step);
    if events.len() > 0 {
        lemma_finished_is_final(state, events.drop_first());
    }
}

/// A session that has left the handshake keeps its phase through any run.
pub proof fn lemma_run_keeps_phase(state: SessionState, events: Seq<EventView>)
    requires
        state.wf(),
        state.phase != Phase::Handshake,
    ensures
        state.run(events).phase == state.phase,
    decreases events.len(),
{
    if events.len() > 0 {
        lemma_phase_changes_once(state, events[0]);
        lemma_step_wf(state, events[0]);
        lemma_run_keeps_phase(state.step(events[0]), events.drop_first());
    }
}

/// A session that is still in the handshake after `events` was never asked
/// to write anything on the way there.
pub proof fn lemma_silent_while_in_handshake(
    peer: Seq<char>,
    brand: Seq<char>,
    events: Seq<EventView>,
    seen: int,
)
    requires
        0 <= seen <= events.len(),
        SessionState::initial(peer, brand).run(events).phase == Phase::Handshake,
    ensures
        SessionState::initial(peer, brand).run(events.take(seen)).pending() !is Write,
        SessionState::initial(peer, brand).run(events.take(seen)).outgoing.len() == 0,
{
    let start = SessionState::initial(peer, brand);
    let middle = start.run(events.take(seen));
    lemma_initial_wf(peer, brand);
    lemma_run_wf(start, events.take(seen));
    assert(events =~= events.take(seen) + events.skip(seen));
    lemma_run_concat(start, events.take(seen), events.skip(seen));
    if middle.phase != Phase::Handshake {
        lemma_run_keeps_phase(middle, events.skip(seen));
    }
}

/// What one byte does to a session that is reading a varint: the varint goes
/// on, or it is settled, or it is malformed.
pub proof fn lemma_step_in_varint(state: SessionState, byte: u8)
    requires
        state.expects_varint(),
    ensures
        state.step(EventView::Bytes(seq![byte])) == match state.partial.absorb(byte) {
            Progress::More(partial) => SessionState { partial, ..state },
            Progress::Done(value) => state.settle(value),
            Progress::Malformed => state.fail(ProtocolError::MalformedVarint),
        },
        state.pending() == (Action::Read { count: 1 }),
{
    reveal(SessionState::step);
    assert(seq![byte].len() == 1);
    assert(seq![byte][0] == byte);
}

/// What has been read of a varint makes no difference to what its value
/// comes to once it is settled.
pub proof fn lemma_settle_forgets_partial(state: SessionState, partial: Partial, value: i32)
    ensures
        (SessionState { partial, ..state }).settle(value) == state.settle(value),
{
}

/// An intent byte other than 1 and 2 ends the connection with
/// `InvalidIntent`, and not a byte was or will be written to the client.
pub proof fn lemma_invalid_intent_aborts(state: SessionState, intent: u8)
    requires
        state.wf(),
        state.stage == Stage::Intent,
        intent != INTENT_STATUS,
        intent != INTENT_LOGIN,
    ensures
        state.outgoing.len() == 0,
        state.step(EventView::Bytes(seq![intent])) == state.fail(ProtocolError::InvalidIntent),
        state.step(EventView::Bytes(seq![intent])).pending() == (Action::Abort {
            error: ProtocolError::InvalidIntent,
        }),
        state.step(EventView::Bytes(seq![intent])).outgoing.len() == 0,
        state.step(EventView::Bytes(seq![intent])).phase == Phase::Handshake,
{
    reveal(SessionState::step);
    assert(seq![intent].len() == 1);
}

/// The pong is the ping: length 9, id 1 and the eight bytes of the token as
/// they came.
pub proof fn lemma_pong_echoes_ping(state: SessionState, token: Seq<u8>)
    requires
        state.stage == Stage::PingToken,
        token.len() == PING_TOKEN_LENGTH,
    ensures
        state.step(EventView::Bytes(token)).stage == Stage::PongReply,
        state.step(EventView::Bytes(token)).pending() == Action::Write,
        state.step(EventView::Bytes(token)).outgoing == seq![9u8, PACKET_ID_PING] + token,
{
    reveal(SessionState::step);
    reveal_with_fuel(groups_of, 2);
    assert(encoding(9) =~= seq![9u8]);
    assert(seq![9u8] + seq![PACKET_ID_PING] + token =~= seq![9u8, PACKET_ID_PING] + token);
}

/// An upper bound on the number of events that a session takes from the
/// moment at which it has done with the field or action of `stage`.
pub open spec fn events_after(stage: Stage) -> nat {
    match stage {
        Stage::HandshakeLength => 30,
        Stage::HandshakeId => 30,
        Stage::ProtocolNumber => 24,
        Stage::ProtocolLookup { .. } => 24,
        Stage::AddressLength => 18,
        Stage::Address { .. } => 18,
        Stage::Port => 17,
        Stage::Intent => 16,
        Stage::RequestLength => 10,
        Stage::RequestId => 10,
        Stage::StatusReply => 9,
        Stage::PingLength => 3,
        Stage::PingId => 3,
        Stage::PingToken => 2,
        Stage::PongReply => 1,
        Stage::LoginLength => 8,
        Stage::LoginId => 8,
        Stage::UsernameLength => 2,
        Stage::DisconnectReply => 2,
        Stage::Closing => 1,
        Stage::Closed => 0,
        Stage::Failed { .. } => 0,
    }
}

/// An upper bound on the number of events that a session still takes before
/// it is finished: a varint takes five bytes at most.
pub open spec fn events_left(state: SessionState) -> nat {
    if state.expects_varint() {
        (5 - state.partial.count) as nat + events_after(state.stage)
    } else {
        events_after(state.stage)
    }
}

/// Every event brings an unfinished session closer to its end.
pub proof fn lemma_step_makes_progress(state: SessionState, event: EventView)
    requires
        state.wf(),
        !state.finished(),
    ensures
        events_left(state.step(event)) < events_left(state),
{
    reveal(SessionState::step);
    if let EventView::Bytes(bytes) = event {
        if state.expects_varint() {
            lemma_absorb_wf(state.partial, bytes[0]);
        }
    }
}

/// A connection is over after 35 events at most, whatever the client sends:
/// one exchange, and no way to keep the session reading.
pub proof fn lemma_session_ends(state: SessionState, events: Seq<EventView>)
    requires
        state.wf(),
        events.len() >= events_left(state),
    ensures
        state.run(events).finished(),
        events_left(SessionState::initial(state.peer, state.brand)) == 35,
    decreases events.len(),
{
    if state.finished() {
        lemma_finished_is_final(state, events);
    } else {
        lemma_step_makes_progress(state, events[0]);
        lemma_step_wf(state, events[0]);
        lemma_session_ends(state.step(events[0]), events.drop_first());
    }
}

} // verus!
