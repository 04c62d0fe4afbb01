//! One connected tap: its frames go into the dashboard's state, and its end
//! marks its agent as gone.

use vstd::prelude::*;

use crate::parse::parse_frame;
use crate::state::{AppState, Broadcast, BroadcastView, StateView};
use crate::wire::{copy_text, EventKind, EventView, FrameView, WireFrame};

verus! {

impl StateView {
    /// What is known once the events of a frame have been taken in, in order.
    pub open spec fn with_events(
        self,
        label: Seq<char>,
        ts_ms: u64,
        events: Seq<(Option<Seq<char>>, EventView)>,
    ) -> StateView
        decreases events.len(),
    {
        if events.len() == 0 {
            self
        } else {
            self.with_events(label, ts_ms, events.drop_last()).ingested(
                label,
                ts_ms,
                events.last().0,
                events.last().1,
            )
        }
    }

    /// What to broadcast for the events of a frame: for each the event, then its
    /// agent.
    pub open spec fn news_of(
        self,
        label: Seq<char>,
        ts_ms: u64,
        events: Seq<(Option<Seq<char>>, EventView)>,
    ) -> Seq<BroadcastView>
        decreases events.len(),
    {
        if events.len() == 0 {
            Seq::empty()
        } else {
            let before = self.with_events(label, ts_ms, events.drop_last());
            let (session_id, event) = events.last();
            self.news_of(label, ts_ms, events.drop_last()) + seq![
                BroadcastView::Event(before.ui_event(label, ts_ms, session_id, event)),
                BroadcastView::Agent(
                    before.ingested(label, ts_ms, session_id, event).agents[label],
                ),
            ]
        }
    }
}

impl StateView {
    /// What is known once a frame has been taken in.
    pub open spec fn with_frame(self, frame: FrameView) -> StateView {
        self.with_events(frame.label, frame.ts_ms, crate::parse::line_events(frame.line))
    }

    /// What to broadcast for a frame.
    pub open spec fn news_of_frame(self, frame: FrameView) -> Seq<BroadcastView> {
        self.news_of(frame.label, frame.ts_ms, crate::parse::line_events(frame.line))
    }

    /// What to broadcast for a line: nothing for one that could not be read.
    pub open spec fn news_of_line(self, line: Option<FrameView>) -> Seq<BroadcastView> {
        match line {
            Some(frame) => self.news_of_frame(frame),
            None => Seq::empty(),
        }
    }
}

/// A connected tap and the dashboard's state, as a value.
#[verifier::ext_equal]
pub struct TapView {
    /// The tap's label, once it has one.
    pub label: Option<Seq<char>>,
    pub state: StateView,
}

impl TapView {
    /// The tap and the state after a line: as they were for one that could not be
    /// read.
    pub open spec fn after_line(self, line: Option<FrameView>) -> TapView {
        match line {
            Some(frame) => TapView {
                label: label_after(self.label, frame.label),
                state: self.state.with_frame(frame),
            },
            None => self,
        }
    }

    /// The tap and the state after a run of lines.
    pub open spec fn after_lines(self, lines: Seq<Option<FrameView>>) -> TapView
        decreases lines.len(),
    {
        if lines.len() == 0 {
            self
        } else {
            self.after_lines(lines.drop_last()).after_line(lines.last())
        }
    }

    /// What is broadcast over a run of lines.
    pub open spec fn news_of_lines(self, lines: Seq<Option<FrameView>>) -> Seq<BroadcastView>
        decreases lines.len(),
    {
        if lines.len() == 0 {
            Seq::empty()
        } else {
            self.news_of_lines(lines.drop_last()) + self.after_lines(
                lines.drop_last(),
            ).state.news_of_line(lines.last())
        }
    }
}

/// The lines that could be read.
pub open spec fn readable(lines: Seq<Option<FrameView>>) -> Seq<Option<FrameView>>
    decreases lines.len(),
{
    if lines.len() == 0 {
        Seq::empty()
    } else if lines.last() is Some {
        readable(lines.drop_last()).push(lines.last())
    } else {
        readable(lines.drop_last())
    }
}

/// A connected tap, known by the label of its first frame.
#[derive(Debug)]
pub struct TapSession {
    label: Option<String>,
}

impl View for TapSession {
    type V = Option<Seq<char>>;

    closed spec fn view(&self) -> Option<Seq<char>> {
        self.label.deep_view()
    }
}

/// The label of a tap after a frame: that of its first frame.
pub open spec fn label_after(label: Option<Seq<char>>, frame_label: Seq<char>) -> Option<
    Seq<char>,
> {
    if label is None {
        Some(frame_label)
    } else {
        label
    }
}

impl TapSession {
    /// A tap that has sent nothing.
    pub fn new() -> (session: Self)
        ensures
            session@ is None,
    {
        TapSession { label: None }
    }

    /// Takes in a frame that was read as the given events, and says what to
    /// broadcast.
    pub fn on_events(
        &mut self,
        state: &mut AppState,
        frame: &WireFrame,
        events: Vec<(Option<String>, EventKind)>,
    ) -> (news: Vec<Broadcast>)
        requires
            old(state).wf(),
        ensures
            final(self)@ == label_after(old(self)@, frame@.label),
            final(state).wf(),
            final(state)@ == old(state)@.with_events(
                frame@.label,
                frame@.ts_ms,
                events.deep_view(),
            ),
            news.deep_view() == old(state)@.news_of(
                frame@.label,
                frame@.ts_ms,
                events.deep_view(),
            ),
    {
        if self.label.is_none() {
            self.label = Some(frame.label.clone());
        }
        let ghost start = state@;
        let ghost all = events.deep_view();
        let mut news: Vec<Broadcast> = Vec::new();
        let mut i: usize = 0;
        assert(all.take(0) =~= Seq::empty());
        assert(news.deep_view() =~= Seq::empty());
        while i < events.len()
            invariant
                i <= events@.len(),
                all == events.deep_view(),
                state.wf(),
                state@ == start.with_events(frame@.label, frame@.ts_ms, all.take(i as int)),
                news.deep_view() == start.news_of(frame@.label, frame@.ts_ms, all.take(i as int)),
            decreases events@.len() - i,
        {
            let ghost told = news.deep_view();
            proof {
                assert(all.take(i + 1).drop_last() =~= all.take(i as int));
            }
            let mut more: Vec<Broadcast> = state.ingest(
                frame.label.as_str(),
                frame.ts_ms,
                copy_text(&events[i].0),
                events[i].1.clone(),
            );
            let ghost added = more.deep_view();
            news.append(&mut more);
            assert(news.deep_view() =~= told + added);
            i = i + 1;
        }
        assert(all.take(i as int) =~= all);
        news
    }

    /// Takes in a frame, and says what to broadcast.
    pub fn on_frame(&mut self, state: &mut AppState, frame: &WireFrame) -> (news: Vec<Broadcast>)
        requires
            old(state).wf(),
        ensures
            final(state).wf(),
            final(self)@ == label_after(old(self)@, frame@.label),
            final(state)@ == old(state)@.with_frame(frame@),
            news.deep_view() == old(state)@.news_of_frame(frame@),
    {
        let events: Vec<(Option<String>, EventKind)> = parse_frame(frame);
        self.on_events(state, frame, events)
    }

    /// Takes in a line that was read as the given frame, or as none where it could
    /// not be read: such a line is skipped, and the session goes on.
    pub fn on_line(&mut self, state: &mut AppState, frame: Option<WireFrame>) -> (news: Vec<
        Broadcast,
    >)
        requires
            old(state).wf(),
        ensures
            final(state).wf(),
            (TapView { label: final(self)@, state: final(state)@ }) == (TapView {
                label: old(self)@,
                state: old(state)@,
            }).after_line(frame.deep_view()),
            news.deep_view() == old(state)@.news_of_line(frame.deep_view()),
    {
        match frame {
            Some(read) => self.on_frame(state, &read),
            None => {
                let news: Vec<Broadcast> = Vec::new();
                assert(news.deep_view() =~= Seq::empty());
                news
            },
        }
    }

    /// Takes note of the tap's end: its agent, if it has sent any frame, is gone.
    pub fn on_close(&self, state: &mut AppState) -> (news: Option<Broadcast>)
        requires
            old(state).wf(),
        ensures
            final(state).wf(),
            match self@ {
                Some(label) => {
                    &&& final(state)@ == old(state)@.disconnected(label)
                    &&& news.deep_view() == (if old(state)@.agents.contains_key(label) {
                        Some(BroadcastView::Agent(final(state)@.agents[label]))
                    } else {
                        None
                    })
                },
                None => final(state)@ == old(state)@ && news is None,
            },
    {
        match &self.label {
            Some(label) => state.mark_disconnected(label.as_str()),
            None => None,
        }
    }
}

} // verus!
