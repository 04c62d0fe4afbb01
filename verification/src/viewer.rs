//! One connected browser: what to send it, in which order, and when to let it go.
//!
//! [`Viewer`] decides; whoever drives it performs each action and reports what came
//! of it.

use vstd::prelude::*;

verus! {

/// What a viewer waits for.
#[derive(Clone, Copy, Debug, PartialEq, Eq, Structural)]
pub enum ViewerStep {
    /// The subscription to updates.
    Subscribing,
    /// The text of the snapshot.
    Replaying,
    /// The outcome of a send.
    Sending,
    /// The next update or message.
    Streaming,
    /// Nothing: the browser was let go.
    Closed,
}

/// Something that happened to a browser's connection.
#[derive(Debug)]
pub enum ViewerEvent {
    /// The connection gets every update from here on.
    Subscribed,
    /// The current state was turned into text, or could not be.
    Snapshot(Option<String>),
    /// An update was turned into text, or could not be.
    Update(Option<String>),
    /// Sending a text went through, or failed.
    Sent(bool),
    /// The browser fell behind, and updates were skipped.
    Lagged,
    /// There will be no more updates.
    UpdatesEnded,
    /// The browser sent a message, or, if not, its end of the connection is gone.
    Incoming(bool),
}

/// What to do next.
#[derive(Debug)]
pub enum ViewerAction {
    /// Subscribe to updates.
    Subscribe,
    /// Take a snapshot of the current state, so that a late browser sees history
    /// immediately.
    Replay,
    /// Send the text.
    Send(String),
    /// Wait for the next update or message.
    Wait,
    /// Let the browser go.
    Close,
}

/// Whether the event ends the connection. A text that cannot be made and updates
/// that were skipped do not: later updates are still worth sending.
pub open spec fn ends_connection(event: ViewerEvent) -> bool {
    match event {
        ViewerEvent::Sent(through) => !through,
        ViewerEvent::Incoming(message) => !message,
        ViewerEvent::UpdatesEnded => true,
        _ => false,
    }
}

/// The text that the event brings, if any.
pub open spec fn text_in(event: ViewerEvent) -> Option<String> {
    match event {
        ViewerEvent::Snapshot(text) => text,
        ViewerEvent::Update(text) => text,
        _ => None,
    }
}

impl ViewerStep {
    /// Whether the event can be what came of the last action.
    pub open spec fn awaits(self, event: ViewerEvent) -> bool {
        match self {
            ViewerStep::Subscribing => event is Subscribed,
            ViewerStep::Replaying => event is Snapshot,
            ViewerStep::Sending => event is Sent,
            ViewerStep::Streaming => event is Update || event is Lagged || event is UpdatesEnded
                || event is Incoming,
            ViewerStep::Closed => false,
        }
    }

    /// The step after the event, and what to do next: whatever text there is is
    /// sent.
    pub open spec fn after(self, event: ViewerEvent) -> (ViewerStep, ViewerAction) {
        if ends_connection(event) {
            (ViewerStep::Closed, ViewerAction::Close)
        } else if event is Subscribed {
            (ViewerStep::Replaying, ViewerAction::Replay)
        } else {
            match text_in(event) {
                Some(text) => (ViewerStep::Sending, ViewerAction::Send(text)),
                None => (ViewerStep::Streaming, ViewerAction::Wait),
            }
        }
    }

    /// The step after a run of events.
    pub open spec fn after_all(self, events: Seq<ViewerEvent>) -> ViewerStep
        decreases events.len(),
    {
        if events.len() == 0 {
            self
        } else {
            self.after_all(events.drop_last()).after(events.last()).0
        }
    }

    /// Whether each event of the run is one that the viewer then waits for.
    pub open spec fn can_run(self, events: Seq<ViewerEvent>) -> bool
        decreases events.len(),
    {
        events.len() == 0 || (self.can_run(events.drop_last()) && self.after_all(
            events.drop_last(),
        ).awaits(events.last()))
    }
}

/// A browser's messages come in order: the viewer is subscribed before the snapshot
/// is taken, the snapshot is sent before any update, and neither happens twice.
pub proof fn snapshot_comes_between(events: Seq<ViewerEvent>)
    requires
        ViewerStep::Subscribing.can_run(events),
    ensures
        events.len() == 1 ==> ViewerStep::Subscribing.after_all(events) is Replaying,
        forall|i: int|
            0 <= i < events.len() ==> {
                &&& (#[trigger] events[i] is Subscribed <==> i == 0)
                &&& (events[i] is Snapshot <==> i == 1)
                &&& (events[i] is Update ==> i > 1)
            },
        events.len() > 1 ==> !(ViewerStep::Subscribing.after_all(events) is Subscribing)
            && !(ViewerStep::Subscribing.after_all(events) is Replaying),
        events.len() > 2 && events[1]->Snapshot_0 is Some ==> events[2] is Sent,
    decreases events.len(),
{
    reveal_with_fuel(ViewerStep::after_all, 3);
    reveal_with_fuel(ViewerStep::can_run, 3);
    if events.len() > 0 {
        let front = events.drop_last();
        snapshot_comes_between(front);
        assert(forall|i: int| 0 <= i < front.len() ==> front[i] == events[i]);
        assert(events.last() == events[events.len() - 1]);
        if events.len() == 3 {
            assert(front.last() == events[1]);
        }
    }
}

/// A browser is let go only where a send failed, its end is gone or there are no
/// more updates: lag and texts that cannot be made leave it connected.
pub proof fn only_ends_close(step: ViewerStep, event: ViewerEvent)
    requires
        step.awaits(event),
    ensures
        step.after(event).1 is Close <==> ends_connection(event),
        step.after(event).0 is Closed <==> ends_connection(event),
{
}

/// A browser is sent every text there is, as it is, and nothing else: the snapshot's
/// once it is subscribed, then each update's.
pub proof fn every_text_is_sent(text: String)
    ensures
        ViewerStep::Subscribing.awaits(ViewerEvent::Subscribed),
        ViewerStep::Subscribing.after(ViewerEvent::Subscribed) == (
            ViewerStep::Replaying,
            ViewerAction::Replay,
        ),
        ViewerStep::Replaying.awaits(ViewerEvent::Snapshot(Some(text))),
        ViewerStep::Replaying.after(ViewerEvent::Snapshot(Some(text))) == (
            ViewerStep::Sending,
            ViewerAction::Send(text),
        ),
        ViewerStep::Streaming.awaits(ViewerEvent::Update(Some(text))),
        ViewerStep::Streaming.after(ViewerEvent::Update(Some(text))) == (
            ViewerStep::Sending,
            ViewerAction::Send(text),
        ),
{
}

/// After a send that went through, and after anything that brings no text and ends
/// nothing, the viewer waits for the next update: it stays connected.
pub proof fn a_viewer_waits_on(step: ViewerStep, event: ViewerEvent)
    requires
        event == ViewerEvent::Sent(true) || event == ViewerEvent::Incoming(true) || event
            == ViewerEvent::Lagged || event == ViewerEvent::Update(None) || event
            == ViewerEvent::Snapshot(None),
    ensures
        step.after(event) == (ViewerStep::Streaming, ViewerAction::Wait),
        event is Sent ==> ViewerStep::Sending.awaits(event),
        event is Snapshot ==> ViewerStep::Replaying.awaits(event),
        !(event is Sent) && !(event is Snapshot) ==> ViewerStep::Streaming.awaits(event),
{
}

/// A failed send, the end of the browser's connection and the end of the updates each
/// let the browser go, for good.
pub proof fn ends_are_final(step: ViewerStep, event: ViewerEvent, later: ViewerEvent)
    requires
        event == ViewerEvent::Sent(false) || event == ViewerEvent::Incoming(false) || event
            == ViewerEvent::UpdatesEnded,
    ensures
        step.after(event) == (ViewerStep::Closed, ViewerAction::Close),
        !step.after(event).0.awaits(later),
        event is Sent ==> ViewerStep::Sending.awaits(event),
        !(event is Sent) ==> ViewerStep::Streaming.awaits(event),
{
}

/// One connected browser.
#[derive(Debug)]
pub struct Viewer {
    step: ViewerStep,
}

impl View for Viewer {
    type V = ViewerStep;

    closed spec fn view(&self) -> ViewerStep {
        self.step
    }
}

impl Viewer {
    /// A browser that has just connected, and what to do first.
    pub fn open() -> (opened: (Viewer, ViewerAction))
        ensures
            opened.0@ == ViewerStep::Subscribing,
            opened.1 == ViewerAction::Subscribe,
    {
        (Viewer { step: ViewerStep::Subscribing }, ViewerAction::Subscribe)
    }

    /// Takes note of what came of the last action, and says what to do next.
    pub fn next(&mut self, event: ViewerEvent) -> (action: ViewerAction)
        requires
            old(self)@.awaits(event),
        ensures
            (final(self)@, action) == old(self)@.after(event),
    {
        match event {
            ViewerEvent::Subscribed => {
                self.step = ViewerStep::Replaying;
                ViewerAction::Replay
            },
            ViewerEvent::Snapshot(Some(text)) | ViewerEvent::Update(Some(text)) => {
                self.step = ViewerStep::Sending;
                ViewerAction::Send(text)
            },
            ViewerEvent::Sent(false) | ViewerEvent::Incoming(false) | ViewerEvent::UpdatesEnded => {
                self.step = ViewerStep::Closed;
                ViewerAction::Close
            },
            _ => {
                self.step = ViewerStep::Streaming;
                ViewerAction::Wait
            },
        }
    }
}

} // verus!
