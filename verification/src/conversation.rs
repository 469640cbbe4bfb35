//! A whole conversation at once: the client's bytes in, the responder's
//! bytes out. This is the session driven over a buffer in place of a socket,
//! with the version table given as a list.

use vstd::prelude::*;
use crate::error::ProtocolError;
use crate::frame::append;
use crate::invariants::{events_left, lemma_step_makes_progress, lemma_step_wf};
use crate::session::{Action, Event, EventView, Session, SessionState, Stage};

verus! {

/// What a conversation came to.
#[derive(Debug, PartialEq, Eq)]
pub struct Transcript {
    /// How the connection ended: closed in good order, or given up.
    pub outcome: Result<(), ProtocolError>,
    /// Every byte that was written to the client, in order.
    pub written: Vec<u8>,
    /// How many bytes of the client's input were read.
    pub consumed: usize,
    /// Whether the write side was shut down before the connection was closed.
    pub shut_down: bool,
}

/// A transcript as contracts see it.
pub struct TranscriptView {
    pub outcome: Result<(), ProtocolError>,
    pub written: Seq<u8>,
    pub consumed: nat,
    pub shut_down: bool,
}

impl View for Transcript {
    type V = TranscriptView;

    open spec fn view(&self) -> TranscriptView {
        TranscriptView {
            outcome: self.outcome,
            written: self.written@,
            consumed: self.consumed as nat,
            shut_down: self.shut_down,
        }
    }
}

impl TranscriptView {
    /// A conversation that ends here and now.
    pub open spec fn ended(outcome: Result<(), ProtocolError>) -> TranscriptView {
        TranscriptView { outcome, written: Seq::empty(), consumed: 0, shut_down: false }
    }

    /// This transcript after `count` bytes were read first.
    pub open spec fn after_reading(self, count: nat) -> TranscriptView {
        TranscriptView { consumed: count + self.consumed, ..self }
    }

    /// This transcript after `bytes` were written first.
    pub open spec fn after_writing(self, bytes: Seq<u8>) -> TranscriptView {
        TranscriptView { written: bytes + self.written, ..self }
    }

    /// This transcript as the end of a conversation in which `written` was
    /// written and `consumed` bytes were read before, and the write side was
    /// shut down or not.
    pub open spec fn after(self, written: Seq<u8>, consumed: nat, shut_down: bool) -> TranscriptView {
        TranscriptView {
            outcome: self.outcome,
            written: written + self.written,
            consumed: consumed + self.consumed,
            shut_down: shut_down || self.shut_down,
        }
    }

    /// This transcript after the write side was shut down first.
    pub open spec fn after_shutdown(self) -> TranscriptView {
        TranscriptView { shut_down: true, ..self }
    }
}

/// What becomes of a session in `state` when the client's remaining bytes
/// are `input` and the version table lists `known`: each action is performed
/// and reported until the session closes or gives up. A read that finds too
/// few bytes left takes them all and is a transport failure.
pub open spec fn remainder(state: SessionState, input: Seq<u8>, known: Seq<i32>) -> TranscriptView
    decreases events_left(state),
    when state.wf()
    via remainder_terminates
{
    match state.pending() {
        Action::Close => TranscriptView::ended(Ok(())),
        Action::Abort { error } => TranscriptView::ended(Err(error)),
        Action::Read { count } => if count <= input.len() {
            remainder(
                state.step(EventView::Bytes(input.take(count as int))),
                input.skip(count as int),
                known,
            ).after_reading(count as nat)
        } else {
            TranscriptView::ended(Err(ProtocolError::TransportError)).after_reading(input.len())
        },
        Action::Lookup { number } => remainder(
            state.step(EventView::Known(known.contains(number))),
            input,
            known,
        ),
        Action::Write => remainder(state.step(EventView::Written), input, known).after_writing(
            state.outgoing,
        ),
        Action::Shutdown => remainder(
            state.step(EventView::ShutDown),
            input,
            known,
        ).after_shutdown(),
    }
}

/// Why `remainder` comes to an end: every event leaves fewer to come.
#[via_fn]
proof fn remainder_terminates(state: SessionState, input: Seq<u8>, known: Seq<i32>) {
    if !state.finished() {
        lemma_next_event_makes_progress(state, input, known);
    }
}

/// The event that a conversation goes on with.
pub open spec fn next_event(state: SessionState, input: Seq<u8>, known: Seq<i32>) -> EventView {
    match state.pending() {
        Action::Read { count } => if count <= input.len() {
            EventView::Bytes(input.take(count as int))
        } else {
            EventView::TransportFailed
        },
        Action::Lookup { number } => EventView::Known(known.contains(number)),
        Action::Write => EventView::Written,
        _ => EventView::ShutDown,
    }
}

/// Each event of a conversation brings the session closer to its end and
/// leaves it in a state that a session can be in.
proof fn lemma_next_event_makes_progress(state: SessionState, input: Seq<u8>, known: Seq<i32>)
    requires
        state.wf(),
        !state.finished(),
    ensures
        events_left(state.step(next_event(state, input, known))) < events_left(state),
        state.step(next_event(state, input, known)).wf(),
{
    lemma_step_makes_progress(state, next_event(state, input, known));
    lemma_step_wf(state, next_event(state, input, known));
}

/// The conversation with a client at `peer` that sends `input` to a server
/// called `brand` whose version table lists `known`.
pub open spec fn conversation(
    peer: Seq<char>,
    brand: Seq<char>,
    known: Seq<i32>,
    input: Seq<u8>,
) -> TranscriptView {
    remainder(SessionState::initial(peer, brand), input, known)
}

/// Whether `number` is among `known`.
fn lists(known: &[i32], number: i32) -> (found: bool)
    ensures
        found == known@.contains(number),
{
    let mut index: usize = 0;
    while index < known.len()
        invariant
            index <= known@.len(),
            forall|j: int| 0 <= j < index ==> known@[j] != number,
        decreases known.len() - index,
    {
        if known[index] == number {
            return true;
        }
        index += 1;
    }
    false
}

/// A copy of `count` bytes of `input` from `start` on.
fn copy_of(input: &[u8], start: usize, count: usize) -> (bytes: Vec<u8>)
    requires
        start + count <= input@.len(),
    ensures
        bytes@ == input@.skip(start as int).take(count as int),
{
    let mut bytes: Vec<u8> = Vec::new();
    let mut index: usize = 0;
    while index < count
        invariant
            index <= count,
            start + count <= input.len(),
            bytes@ == input@.skip(start as int).take(index as int),
        decreases count - index,
    {
        bytes.push(input[start + index]);
        index += 1;
        assert(bytes@ =~= input@.skip(start as int).take(index as int));
    }
    bytes
}

/// A conversation goes on as the session's next action and its outcome say.
pub proof fn lemma_remainder_unfolds(state: SessionState, input: Seq<u8>, known: Seq<i32>)
    requires
        state.wf(),
    ensures
        remainder(state, input, known) == match state.pending() {
            Action::Close => TranscriptView::ended(Ok(())),
            Action::Abort { error } => TranscriptView::ended(Err(error)),
            Action::Read { count } => if count <= input.len() {
                remainder(
                    state.step(EventView::Bytes(input.take(count as int))),
                    input.skip(count as int),
                    known,
                ).after_reading(count as nat)
            } else {
                TranscriptView::ended(Err(ProtocolError::TransportError)).after_reading(
                    input.len(),
                )
            },
            Action::Lookup { number } => remainder(
                state.step(EventView::Known(known.contains(number))),
                input,
                known,
            ),
            Action::Write => remainder(
                state.step(EventView::Written),
                input,
                known,
            ).after_writing(state.outgoing),
            Action::Shutdown => remainder(
                state.step(EventView::ShutDown),
                input,
                known,
            ).after_shutdown(),
        },
        !state.finished() ==> state.step(next_event(state, input, known)).wf(),
{
    if !state.finished() {
        lemma_next_event_makes_progress(state, input, known);
    }
}

/// A finished session has nothing more to say.
pub proof fn lemma_remainder_when_finished(state: SessionState, input: Seq<u8>, known: Seq<i32>)
    requires
        state.wf(),
        state.finished(),
    ensures
        state.stage == Stage::Closed ==> remainder(state, input, known) == TranscriptView::ended(
            Ok(()),
        ),
        state.stage matches Stage::Failed { error } ==> remainder(state, input, known)
            == TranscriptView::ended(Err(error)),
{
    lemma_remainder_unfolds(state, input, known);
}

/// A session that asks for one byte takes the next one, if there is one, and
/// fails with the transport if there is none.
pub proof fn lemma_remainder_reads_a_byte(state: SessionState, input: Seq<u8>, known: Seq<i32>)
    requires
        state.wf(),
        state.pending() == (Action::Read { count: 1 }),
    ensures
        input.len() == 0 ==> remainder(state, input, known) == TranscriptView::ended(
            Err(ProtocolError::TransportError),
        ),
        input.len() > 0 ==> state.step(EventView::Bytes(seq![input[0]])).wf() && remainder(
            state,
            input,
            known,
        ) == remainder(
            state.step(EventView::Bytes(seq![input[0]])),
            input.skip(1),
            known,
        ).after_reading(1),
{
    lemma_remainder_unfolds(state, input, known);
    if input.len() > 0 {
        assert(input.take(1) =~= seq![input[0]]);
    }
}

/// Reading, writing and shutting down add up along a conversation.
proof fn lemma_after_adds_up(
    end: TranscriptView,
    written: Seq<u8>,
    consumed: nat,
    shut_down: bool,
    more: Seq<u8>,
    count: nat,
)
    ensures
        end.after_reading(count).after(written, consumed, shut_down) == end.after(
            written,
            consumed + count,
            shut_down,
        ),
        end.after_writing(more).after(written, consumed, shut_down) == end.after(
            written + more,
            consumed,
            shut_down,
        ),
        end.after_shutdown().after(written, consumed, shut_down) == end.after(
            written,
            consumed,
            true,
        ),
{
    assert(written + (more + end.written) =~= (written + more) + end.written);
}

/// How the events of a conversation carry what was read, written and shut
/// down so far over to what is still to come.
proof fn lemma_conversation_goes_on(
    state: SessionState,
    input: Seq<u8>,
    known: Seq<i32>,
    consumed: nat,
    written: Seq<u8>,
    shut_down: bool,
)
    requires
        state.wf(),
        consumed <= input.len(),
    ensures
        match state.pending() {
            Action::Close => remainder(state, input.skip(consumed as int), known).after(
                written,
                consumed,
                shut_down,
            ) == (TranscriptView { outcome: Ok(()), written, consumed, shut_down }),
            Action::Abort { error } => remainder(state, input.skip(consumed as int), known).after(
                written,
                consumed,
                shut_down,
            ) == (TranscriptView { outcome: Err(error), written, consumed, shut_down }),
            Action::Read { count } => if consumed + count <= input.len() {
                remainder(state, input.skip(consumed as int), known).after(
                    written,
                    consumed,
                    shut_down,
                ) == remainder(
                    state.step(EventView::Bytes(input.skip(consumed as int).take(count as int))),
                    input.skip(consumed + count),
                    known,
                ).after(written, consumed + count as nat, shut_down)
            } else {
                remainder(state, input.skip(consumed as int), known).after(
                    written,
                    consumed,
                    shut_down,
                ) == (TranscriptView {
                    outcome: Err(ProtocolError::TransportError),
                    written,
                    consumed: input.len(),
                    shut_down,
                })
            },
            Action::Lookup { number } => remainder(state, input.skip(consumed as int), known).after(
                written,
                consumed,
                shut_down,
            ) == remainder(
                state.step(EventView::Known(known.contains(number))),
                input.skip(consumed as int),
                known,
            ).after(written, consumed, shut_down),
            Action::Write => remainder(state, input.skip(consumed as int), known).after(
                written,
                consumed,
                shut_down,
            ) == remainder(
                state.step(EventView::Written),
                input.skip(consumed as int),
                known,
            ).after(written + state.outgoing, consumed, shut_down),
            Action::Shutdown => remainder(state, input.skip(consumed as int), known).after(
                written,
                consumed,
                shut_down,
            ) == remainder(
                state.step(EventView::ShutDown),
                input.skip(consumed as int),
                known,
            ).after(written, consumed, true),
        },
{
    let rest = input.skip(consumed as int);
    lemma_remainder_unfolds(state, rest, known);
    assert(written + Seq::<u8>::empty() =~= written);
    match state.pending() {
        Action::Read { count } => {
            if consumed + count <= input.len() {
                let end = remainder(
                    state.step(EventView::Bytes(rest.take(count as int))),
                    rest.skip(count as int),
                    known,
                );
                assert(rest.skip(count as int) =~= input.skip(consumed + count));
                lemma_after_adds_up(end, written, consumed, shut_down, Seq::empty(), count as nat);
            }
        },
        Action::Write => {
            let end = remainder(state.step(EventView::Written), rest, known);
            lemma_after_adds_up(end, written, consumed, shut_down, state.outgoing, 0);
        },
        Action::Shutdown => {
            let end = remainder(state.step(EventView::ShutDown), rest, known);
            lemma_after_adds_up(end, written, consumed, shut_down, Seq::empty(), 0);
        },
        _ => {},
    }
}

/// Holds the whole conversation with one client: reads `input` as the
/// session asks for it, answers its look-ups from `known`, and collects what
/// it writes, until the session closes or gives up.
pub fn handle_packets(peer: &str, brand: &str, known: &[i32], input: &[u8]) -> (transcript:
    Transcript)
    ensures
        transcript@ == conversation(peer@, brand@, known@, input@),
{
    let mut session = Session::new(peer, brand);
    let mut action = session.action();
    let mut written: Vec<u8> = Vec::new();
    let mut consumed: usize = 0;
    let mut shut_down = false;
    proof {
        let whole = conversation(peer@, brand@, known@, input@);
        assert(input@.skip(0) =~= input@);
        assert(Seq::<u8>::empty() + whole.written =~= whole.written);
    }
    loop
        invariant
            session@.wf(),
            action == session@.pending(),
            consumed <= input.len(),
            conversation(peer@, brand@, known@, input@) == remainder(
                session@,
                input@.skip(consumed as int),
                known@,
            ).after(written@, consumed as nat, shut_down),
        decreases events_left(session@),
    {
        proof {
            lemma_conversation_goes_on(
                session@,
                input@,
                known@,
                consumed as nat,
                written@,
                shut_down,
            );
            if !session@.finished() {
                lemma_next_event_makes_progress(
                    session@,
                    input@.skip(consumed as int),
                    known@,
                );
            }
        }
        let event = match action {
            Action::Close => {
                return Transcript { outcome: Ok(()), written, consumed, shut_down };
            },
            Action::Abort { error } => {
                return Transcript { outcome: Err(error), written, consumed, shut_down };
            },
            Action::Read { count } => {
                if count > input.len() - consumed {
                    return Transcript {
                        outcome: Err(ProtocolError::TransportError),
                        written,
                        consumed: input.len(),
                        shut_down,
                    };
                }
                let bytes = copy_of(input, consumed, count);
                consumed += count;
                Event::Bytes(bytes)
            },
            Action::Lookup { number } => Event::Known(lists(known, number)),
            Action::Write => {
                append(&mut written, session.outgoing());
                Event::Written
            },
            Action::Shutdown => {
                shut_down = true;
                Event::ShutDown
            },
        };
        action = session.step(event);
    }
}

} // verus!
