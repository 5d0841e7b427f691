//! The orchestrator's decisions. The caller runs the loop: it waits for the
//! next message from the origin or from any sink, reports it as an `Event`,
//! performs the `Action` it gets back, and reports the outcome.
use vstd::prelude::*;

use crate::error::SessionError;
use crate::message::{Message, MessageView};

verus! {

/// What happened since the last step.
#[derive(Debug)]
pub enum Event {
    /// The origin produced a canonical message.
    FromSource(Message),
    /// The origin's message stream ended.
    SourceEnded,
    /// A sink produced a canonical message.
    FromSink(Message),
    /// The broadcast of the last origin message to every sink finished.
    Broadcasted { all_delivered: bool },
    /// The forward of the last sink message to the origin finished.
    Forwarded { delivered: bool },
}

/// What the caller does next.
#[derive(Debug)]
pub enum Action {
    /// Broadcast the message to every sink, concurrently, and wait for all.
    Broadcast(Message),
    /// Send the message to the origin.
    Forward(Message),
    /// Wait for the next message.
    Continue,
    /// End the session with this error.
    Halt(SessionError),
}

pub enum EventView {
    FromSource(MessageView),
    SourceEnded,
    FromSink(MessageView),
    Broadcasted { all_delivered: bool },
    Forwarded { delivered: bool },
}

pub enum ActionView {
    Broadcast(MessageView),
    Forward(MessageView),
    Continue,
    Halt(SessionError),
}

impl View for Event {
    type V = EventView;

    open spec fn view(&self) -> EventView {
        match self {
            Event::FromSource(m) => EventView::FromSource(m@),
            Event::SourceEnded => EventView::SourceEnded,
            Event::FromSink(m) => EventView::FromSink(m@),
            Event::Broadcasted { all_delivered } => EventView::Broadcasted {
                all_delivered: *all_delivered,
            },
            Event::Forwarded { delivered } => EventView::Forwarded { delivered: *delivered },
        }
    }
}

impl View for Action {
    type V = ActionView;

    open spec fn view(&self) -> ActionView {
        match self {
            Action::Broadcast(m) => ActionView::Broadcast(m@),
            Action::Forward(m) => ActionView::Forward(m@),
            Action::Continue => ActionView::Continue,
            Action::Halt(e) => ActionView::Halt(*e),
        }
    }
}

/// One step of the bridging loop, from whether (and why) the session has
/// ended: origin messages go to every sink, sink messages to the origin;
/// the end of the origin's stream, a failed forward or a failed broadcast
/// ends the session, and an ended session only halts.
pub open spec fn core_step(ended: Option<SessionError>, e: EventView) -> (
    Option<SessionError>,
    ActionView,
) {
    match ended {
        Some(err) => (Some(err), ActionView::Halt(err)),
        None => match e {
            EventView::FromSource(m) => (None, ActionView::Broadcast(m)),
            EventView::FromSink(m) => (None, ActionView::Forward(m)),
            EventView::SourceEnded => (
                Some(SessionError::SourceClosed),
                ActionView::Halt(SessionError::SourceClosed),
            ),
            EventView::Broadcasted { all_delivered } => if all_delivered {
                (None, ActionView::Continue)
            } else {
                (Some(SessionError::BroadcastFailed), ActionView::Halt(SessionError::BroadcastFailed))
            },
            EventView::Forwarded { delivered } => if delivered {
                (None, ActionView::Continue)
            } else {
                (Some(SessionError::ForwardFailed), ActionView::Halt(SessionError::ForwardFailed))
            },
        },
    }
}

/// The orchestrator's state: whether the session has ended, and why.
pub struct BouncerCore {
    ended: Option<SessionError>,
}

impl View for BouncerCore {
    type V = Option<SessionError>;

    closed spec fn view(&self) -> Option<SessionError> {
        self.ended
    }
}

impl BouncerCore {
    pub fn new() -> (r: Self)
        ensures
            r@ is None,
    {
        BouncerCore { ended: None }
    }

    pub fn ended(&self) -> (r: Option<SessionError>)
        ensures
            r == self@,
    {
        self.ended
    }

    /// Takes one step (see `core_step`).
    pub fn step(&mut self, event: Event) -> (a: Action)
        ensures
            (final(self)@, a@) == core_step(old(self)@, event@),
    {
        if let Some(err) = self.ended {
            return Action::Halt(err);
        }
        let (next, action) = match event {
            Event::FromSource(m) => (None, Action::Broadcast(m)),
            Event::FromSink(m) => (None, Action::Forward(m)),
            Event::SourceEnded => (
                Some(SessionError::SourceClosed),
                Action::Halt(SessionError::SourceClosed),
            ),
            Event::Broadcasted { all_delivered } => if all_delivered {
                (None, Action::Continue)
            } else {
                (Some(SessionError::BroadcastFailed), Action::Halt(SessionError::BroadcastFailed))
            },
            Event::Forwarded { delivered } => if delivered {
                (None, Action::Continue)
            } else {
                (Some(SessionError::ForwardFailed), Action::Halt(SessionError::ForwardFailed))
            },
        };
        self.ended = next;
        action
    }
}

/// Losing the origin is fatal: whatever the state, the end of the origin's
/// stream halts the loop with an error, and once the session has ended
/// every later event only halts it again with the same error, so no sink
/// is served any more.
pub proof fn lemma_source_loss_is_fatal(ended: Option<SessionError>)
    ensures
        ({
            let (after, action) = core_step(ended, EventView::SourceEnded);
            &&& after is Some
            &&& action == ActionView::Halt(after->0)
            &&& forall|e: EventView| #[trigger]
                core_step(after, e) == (after, ActionView::Halt(after->0))
        }),
{
}

} // verus!
