//! The decisions of one client session.
//!
//! A session is opened with the message that announces the stream, which is
//! the first thing its client is sent. After that it turns each event on its
//! connection into the one action that answers it: a frame that arrives is
//! forwarded, anything that the client says is passed over, and the first sign
//! that the connection or the feed is gone closes the session for good.

use vstd::prelude::*;
use crate::config::{AnalyzerConfig, ConfigMessage};
use crate::frame::SpectrumFrame;

verus! {

/// Something that happened on a session's connection or feed.
#[derive(Debug)]
pub enum SessionEvent {
    /// A frame arrived for this session.
    Frame(SpectrumFrame),
    /// The client sent something.
    ClientData,
    /// The connection was closed, or reading from it failed.
    ClientGone,
    /// The last send did not go through.
    SendFailed,
    /// No frame will arrive any more.
    FeedClosed,
}

/// What a session is to do next.
#[derive(Debug)]
pub enum SessionAction {
    /// Send this frame to the client as one binary message.
    Send(SpectrumFrame),
    /// Nothing to do: keep waiting.
    Wait,
    /// Release the subscription and drop the connection.
    Close,
}

/// An event, with a frame taken by its bytes.
pub enum EventView {
    Frame(Seq<u8>),
    ClientData,
    ClientGone,
    SendFailed,
    FeedClosed,
}

/// An action, with a frame taken by its bytes.
pub enum ActionView {
    Send(Seq<u8>),
    Wait,
    Close,
}

impl View for SessionEvent {
    type V = EventView;

    open spec fn view(&self) -> EventView {
        match *self {
            SessionEvent::Frame(frame) => EventView::Frame(frame@),
            SessionEvent::ClientData => EventView::ClientData,
            SessionEvent::ClientGone => EventView::ClientGone,
            SessionEvent::SendFailed => EventView::SendFailed,
            SessionEvent::FeedClosed => EventView::FeedClosed,
        }
    }
}

impl View for SessionAction {
    type V = ActionView;

    open spec fn view(&self) -> ActionView {
        match *self {
            SessionAction::Send(frame) => ActionView::Send(frame@),
            SessionAction::Wait => ActionView::Wait,
            SessionAction::Close => ActionView::Close,
        }
    }
}

/// Whether `event` ends a session.
pub open spec fn ends_session(event: EventView) -> bool {
    event is ClientGone || event is SendFailed || event is FeedClosed
}

/// The action that answers `event` in a session that is open (`open`) or
/// closed.
pub open spec fn spec_action(open: bool, event: EventView) -> ActionView {
    if !open {
        ActionView::Close
    } else {
        match event {
            EventView::Frame(bytes) => ActionView::Send(bytes),
            EventView::ClientData => ActionView::Wait,
            _ => ActionView::Close,
        }
    }
}

/// Whether a session that was open (`open`) or closed is open after `event`.
pub open spec fn spec_open_after(open: bool, event: EventView) -> bool {
    open && !ends_session(event)
}

/// Whether a session that starts open (`open`) or closed is open after all of
/// `events`.
pub open spec fn open_after_all(open: bool, events: Seq<EventView>) -> bool
    decreases events.len(),
{
    if events.len() == 0 {
        open
    } else {
        spec_open_after(open_after_all(open, events.drop_last()), events.last())
    }
}

/// The actions that answer `events`, one for one, in a session that starts
/// open (`open`) or closed.
pub open spec fn actions_for(open: bool, events: Seq<EventView>) -> Seq<ActionView>
    decreases events.len(),
{
    if events.len() == 0 {
        Seq::empty()
    } else {
        actions_for(open, events.drop_last()).push(
            spec_action(open_after_all(open, events.drop_last()), events.last()),
        )
    }
}

/// One client session.
#[derive(Debug)]
pub struct Session {
    open: bool,
}

impl Session {
    /// Whether the session is still open.
    pub closed spec fn spec_is_open(&self) -> bool {
        self.open
    }

    /// Opens a session for a client that has just connected. Returns it with
    /// the message that the client is sent before anything else.
    pub fn open(config: &AnalyzerConfig) -> (r: (Session, ConfigMessage))
        ensures
            r.0.spec_is_open(),
            r.1.kind@ == "config"@,
            r.1.mode@ == "fft"@,
            r.1.bins == config.band_count,
            r.1.fps == config.frames_per_second,
    {
        (Session { open: true }, ConfigMessage::announce(config))
    }

    /// Whether the session is still open.
    pub fn is_open(&self) -> (open: bool)
        ensures
            open == self.spec_is_open(),
    {
        self.open
    }

    /// Takes in `event` and says what to do about it.
    pub fn on_event(&mut self, event: SessionEvent) -> (action: SessionAction)
        ensures
            action@ == spec_action(old(self).spec_is_open(), event@),
            final(self).spec_is_open() == spec_open_after(old(self).spec_is_open(), event@),
    {
        if !self.open {
            return SessionAction::Close;
        }
        match event {
            SessionEvent::Frame(frame) => SessionAction::Send(frame),
            SessionEvent::ClientData => SessionAction::Wait,
            SessionEvent::ClientGone | SessionEvent::SendFailed | SessionEvent::FeedClosed => {
                self.open = false;
                SessionAction::Close
            },
        }
    }
}

/// A closed session stays closed and sends nothing: whatever happens, its
/// answer is to close.
pub proof fn lemma_closed_is_final(events: Seq<EventView>)
    ensures
        !open_after_all(false, events),
        actions_for(false, events).len() == events.len(),
        forall|k: int|
            0 <= k < events.len() ==> (#[trigger] actions_for(false, events)[k]) is Close,
    decreases events.len(),
{
    if events.len() > 0 {
        lemma_closed_is_final(events.drop_last());
    }
}

/// While nothing ends the session, every event is answered in place: each
/// frame is forwarded as it came, in the order of arrival, and what the client
/// sends is passed over.
pub proof fn lemma_open_session_forwards(events: Seq<EventView>)
    requires
        forall|k: int| 0 <= k < events.len() ==> !ends_session(#[trigger] events[k]),
    ensures
        open_after_all(true, events),
        actions_for(true, events).len() == events.len(),
        forall|k: int|
            0 <= k < events.len() ==> (#[trigger] actions_for(true, events)[k]) == (
            match events[k] {
                EventView::Frame(bytes) => ActionView::Send(bytes),
                _ => ActionView::Wait,
            }),
    decreases events.len(),
{
    if events.len() > 0 {
        let earlier = events.drop_last();
        assert forall|k: int| 0 <= k < earlier.len() implies !ends_session(
            #[trigger] earlier[k],
        ) by {
            assert(earlier[k] == events[k]);
        }
        lemma_open_session_forwards(earlier);
        assert(!ends_session(events[events.len() - 1]));
        assert forall|k: int| 0 <= k < events.len() implies (#[trigger] actions_for(
            true,
            events,
        )[k]) == (match events[k] {
            EventView::Frame(bytes) => ActionView::Send(bytes),
            _ => ActionView::Wait,
        }) by {
            if k < events.len() - 1 {
                assert(actions_for(true, events)[k] == actions_for(true, earlier)[k]);
                assert(earlier[k] == events[k]);
            }
        }
    }
}

/// Once an event has ended the session, nothing is sent any more.
pub proof fn lemma_nothing_sent_after_end(events: Seq<EventView>, end: int)
    requires
        0 <= end < events.len(),
        ends_session(events[end]),
    ensures
        !open_after_all(true, events),
        forall|k: int|
            end <= k < events.len() ==> (#[trigger] actions_for(true, events)[k]) is Close,
        actions_for(true, events).len() == events.len(),
    decreases events.len(),
{
    let earlier = events.drop_last();
    lemma_actions_len(true, events);
    if end < events.len() - 1 {
        assert(earlier[end] == events[end]);
        lemma_nothing_sent_after_end(earlier, end);
        assert forall|k: int| end <= k < events.len() implies (#[trigger] actions_for(
            true,
            events,
        )[k]) is Close by {
            if k < events.len() - 1 {
                assert(actions_for(true, events)[k] == actions_for(true, earlier)[k]);
            }
        }
    } else {
        lemma_actions_len(true, earlier);
    }
}

/// Every event gets one action.
pub proof fn lemma_actions_len(open: bool, events: Seq<EventView>)
    ensures
        actions_for(open, events).len() == events.len(),
    decreases events.len(),
{
    if events.len() > 0 {
        lemma_actions_len(open, events.drop_last());
    }
}

} // verus!
