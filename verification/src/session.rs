//! One child process as the library sees it: the framer for its output and
//! what is known of its end.

use crate::delivery::{deliver, delivered_in_order, CallbackError};
use crate::framer::LineFramer;
use crate::framing::{lines_of, rest_of, unbroken};
use crate::reading::{chunk_of, chunk_text, ReadOutcome};
use crate::status::TerminationDescriptor;
use vstd::prelude::*;

verus! {

/// What a session knows, as mathematical values.
pub struct SessionState {
    /// The characters received behind the last line feed.
    pub pending: Seq<char>,
    /// How the child ended, once that has been seen.
    pub ending: Option<TerminationDescriptor>,
    /// Whether a read has reached the end of the child's output.
    pub stream_ended: bool,
}

/// The state after a read attempt gave `outcome`.
pub open spec fn received(state: SessionState, outcome: ReadOutcome) -> SessionState {
    SessionState {
        pending: rest_of(state.pending + chunk_of(outcome)),
        ending: state.ending,
        stream_ended: state.stream_ended || outcome is Finished,
    }
}

/// The lines that a read attempt with `outcome` completes.
pub open spec fn lines_received(state: SessionState, outcome: ReadOutcome) -> Seq<Seq<char>> {
    lines_of(state.pending + chunk_of(outcome))
}

/// The state after a status query found `polled`: an ending that was
/// recorded before stays, whatever the query found.
pub open spec fn settled(state: SessionState, polled: Option<TerminationDescriptor>) -> SessionState {
    SessionState {
        pending: state.pending,
        ending: if state.ending is Some {
            state.ending
        } else {
            polled
        },
        stream_ended: state.stream_ended,
    }
}

/// True while the pipe may still hold something: until the child is known
/// to have ended and a read has reached the end of its output.
pub open spec fn pipe_in_use(state: SessionState) -> bool {
    !(state.ending is Some && state.stream_ended)
}

/// The texts of `lines`.
pub open spec fn texts_of(lines: Seq<String>) -> Seq<Seq<char>> {
    Seq::new(lines.len(), |i: int| lines[i]@)
}

/// One thing that happens to a session.
pub enum Event {
    /// A read attempt gave this outcome.
    Read(ReadOutcome),
    /// A status query found this.
    Poll(Option<TerminationDescriptor>),
}

/// The state after `events` happened one after the other.
pub open spec fn state_after(state: SessionState, events: Seq<Event>) -> SessionState
    decreases events.len(),
{
    if events.len() == 0 {
        state
    } else {
        let before = state_after(state, events.drop_last());
        match events.last() {
            Event::Read(outcome) => received(before, outcome),
            Event::Poll(polled) => settled(before, polled),
        }
    }
}

/// The framer of one child's output together with what is known of the
/// child's end.
pub struct Session {
    framer: LineFramer,
    ending: Option<TerminationDescriptor>,
    stream_ended: bool,
}

impl View for Session {
    type V = SessionState;

    closed spec fn view(&self) -> SessionState {
        SessionState {
            pending: self.framer@,
            ending: self.ending,
            stream_ended: self.stream_ended,
        }
    }
}

impl Session {
    /// The session of a child that has just been started: nothing received,
    /// nothing known of its end.
    pub fn new() -> (session: Session)
        ensures
            session@ == (SessionState {
                pending: Seq::empty(),
                ending: None,
                stream_ended: false,
            }),
    {
        Session { framer: LineFramer::new(), ending: None, stream_ended: false }
    }

    /// The characters received behind the last line feed.
    pub fn pending(&self) -> (text: &str)
        ensures
            text@ == self@.pending,
    {
        self.framer.pending()
    }

    /// How the child ended, if that has been seen.
    pub fn ending(&self) -> (ending: Option<TerminationDescriptor>)
        ensures
            ending == self@.ending,
    {
        self.ending
    }

    /// Whether the pipe is still to be read.
    pub fn wants_read(&self) -> (wanted: bool)
        ensures
            wanted == pipe_in_use(self@),
    {
        !(self.ending.is_some() && self.stream_ended)
    }

    /// Takes in what a read attempt gave, and hands each line that this
    /// completes to `callback`, in order. Stops at the first line that the
    /// callback refuses; what was taken in stays taken in.
    pub fn receive<E, F: Fn(String) -> Result<(), E>>(
        &mut self,
        outcome: ReadOutcome,
        callback: &F,
    ) -> (delivery: Result<(), CallbackError<E>>)
        requires
            forall|line: String| call_requires(callback, (line,)),
        ensures
            final(self)@ == received(old(self)@, outcome),
            unbroken(final(self)@.pending),
            exists|lines: Seq<String>|
                texts_of(lines) == lines_received(old(self)@, outcome) && #[trigger] delivered_in_order(
                    callback,
                    lines,
                    delivery,
                ),
            lines_received(old(self)@, outcome).len() == 0 ==> delivery is Ok,
    {
        let finished = match &outcome {
            ReadOutcome::Finished(_) => true,
            ReadOutcome::Interrupted(_) => false,
        };
        let text = chunk_text(outcome);
        let lines = self.framer.feed(text.as_str());
        if finished {
            self.stream_ended = true;
        }
        let delivery = deliver(&lines, callback);
        proof {
            assert(texts_of(lines@) =~= lines.deep_view());
            assert(delivered_in_order(callback, lines@, delivery));
        }
        delivery
    }

    /// Records what a status query found and returns how the child ended,
    /// or `None` while it is still running. Once an ending has been
    /// returned, every later call returns that ending.
    pub fn settle(&mut self, polled: Option<TerminationDescriptor>) -> (ending: Option<
        TerminationDescriptor,
    >)
        ensures
            final(self)@ == settled(old(self)@, polled),
            ending == final(self)@.ending,
    {
        if self.ending.is_none() {
            self.ending = polled;
        }
        self.ending
    }
}

/// An ending that has been recorded outlasts whatever happens afterwards.
pub proof fn lemma_ending_is_final(state: SessionState, events: Seq<Event>)
    requires
        state.ending is Some,
    ensures
        state_after(state, events).ending == state.ending,
    decreases events.len(),
{
    if events.len() > 0 {
        lemma_ending_is_final(state, events.drop_last());
    }
}

/// A status query that follows one that found an ending finds the same
/// ending, whatever the operating system says the second time.
pub proof fn lemma_settle_is_idempotent(
    state: SessionState,
    first: Option<TerminationDescriptor>,
    second: Option<TerminationDescriptor>,
)
    ensures
        settled(state, first).ending is Some ==> settled(settled(state, first), second) == settled(
            state,
            first,
        ),
{
}

} // verus!
