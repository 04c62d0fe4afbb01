//! The values that travel: mirrored lines, events, and per-agent state.

use vstd::prelude::*;

verus! {

/// Which way a frame was travelling.
#[derive(Clone, Copy, Debug, PartialEq, Eq, Structural)]
pub enum Direction {
    /// Client to agent: requests and notifications from the editor/harness.
    ToAgent,
    /// Agent to client: responses and `session/update` notifications.
    ToClient,
}

/// One mirrored JSON-RPC line, as sent from the wrapper to the dashboard.
#[derive(Debug)]
pub struct WireFrame {
    /// Human label for the tapped process (agent name, unit, or cwd basename).
    pub label: String,
    pub dir: Direction,
    /// Milliseconds since the Unix epoch.
    pub ts_ms: u64,
    /// The raw JSON-RPC line, unmodified.
    pub line: String,
}

/// What a [`WireFrame`] says.
#[verifier::ext_equal]
pub struct FrameView {
    pub label: Seq<char>,
    pub dir: Direction,
    pub ts_ms: u64,
    pub line: Seq<char>,
}

impl View for WireFrame {
    type V = FrameView;

    open spec fn view(&self) -> FrameView {
        FrameView {
            label: self.label@,
            dir: self.dir,
            ts_ms: self.ts_ms,
            line: self.line@,
        }
    }
}

impl DeepView for WireFrame {
    type V = FrameView;

    open spec fn deep_view(&self) -> FrameView {
        self@
    }
}

impl Clone for WireFrame {
    fn clone(&self) -> (copy: Self)
        ensures
            copy@ == self@,
    {
        WireFrame {
            label: self.label.clone(),
            dir: self.dir,
            ts_ms: self.ts_ms,
            line: self.line.clone(),
        }
    }
}

/// A parsed, UI-facing event.
#[derive(Debug)]
pub enum EventKind {
    SessionCreated { session_id: String },
    TurnStarted { text: String },
    Thought { text: String },
    Message { text: String },
    ToolCall { tool_id: String, title: String, tool_kind: String, status: String },
    ToolUpdate { tool_id: String, status: String },
    Plan { entries: usize },
    TurnEnded { stop_reason: String },
    Error { message: String },
}

/// What an [`EventKind`] says.
#[verifier::ext_equal]
pub enum EventView {
    SessionCreated { session_id: Seq<char> },
    TurnStarted { text: Seq<char> },
    Thought { text: Seq<char> },
    Message { text: Seq<char> },
    ToolCall { tool_id: Seq<char>, title: Seq<char>, tool_kind: Seq<char>, status: Seq<char> },
    ToolUpdate { tool_id: Seq<char>, status: Seq<char> },
    Plan { entries: nat },
    TurnEnded { stop_reason: Seq<char> },
    Error { message: Seq<char> },
}

impl View for EventKind {
    type V = EventView;

    open spec fn view(&self) -> EventView {
        match *self {
            EventKind::SessionCreated { session_id } => EventView::SessionCreated {
                session_id: session_id@,
            },
            EventKind::TurnStarted { text } => EventView::TurnStarted { text: text@ },
            EventKind::Thought { text } => EventView::Thought { text: text@ },
            EventKind::Message { text } => EventView::Message { text: text@ },
            EventKind::ToolCall { tool_id, title, tool_kind, status } => EventView::ToolCall {
                tool_id: tool_id@,
                title: title@,
                tool_kind: tool_kind@,
                status: status@,
            },
            EventKind::ToolUpdate { tool_id, status } => EventView::ToolUpdate {
                tool_id: tool_id@,
                status: status@,
            },
            EventKind::Plan { entries } => EventView::Plan { entries: entries as nat },
            EventKind::TurnEnded { stop_reason } => EventView::TurnEnded {
                stop_reason: stop_reason@,
            },
            EventKind::Error { message } => EventView::Error { message: message@ },
        }
    }
}

impl DeepView for EventKind {
    type V = EventView;

    open spec fn deep_view(&self) -> EventView {
        self@
    }
}

impl Clone for EventKind {
    fn clone(&self) -> (copy: Self)
        ensures
            copy@ == self@,
    {
        match self {
            EventKind::SessionCreated { session_id } => EventKind::SessionCreated {
                session_id: session_id.clone(),
            },
            EventKind::TurnStarted { text } => EventKind::TurnStarted { text: text.clone() },
            EventKind::Thought { text } => EventKind::Thought { text: text.clone() },
            EventKind::Message { text } => EventKind::Message { text: text.clone() },
            EventKind::ToolCall { tool_id, title, tool_kind, status } => EventKind::ToolCall {
                tool_id: tool_id.clone(),
                title: title.clone(),
                tool_kind: tool_kind.clone(),
                status: status.clone(),
            },
            EventKind::ToolUpdate { tool_id, status } => EventKind::ToolUpdate {
                tool_id: tool_id.clone(),
                status: status.clone(),
            },
            EventKind::Plan { entries } => EventKind::Plan { entries: *entries },
            EventKind::TurnEnded { stop_reason } => EventKind::TurnEnded {
                stop_reason: stop_reason.clone(),
            },
            EventKind::Error { message } => EventKind::Error { message: message.clone() },
        }
    }
}

/// An event as broadcast to browsers.
#[derive(Debug)]
pub struct UiEvent {
    pub seq: u64,
    pub label: String,
    pub ts_ms: u64,
    pub session_id: Option<String>,
    pub event: EventKind,
}

/// What a [`UiEvent`] says.
#[verifier::ext_equal]
pub struct UiEventView {
    pub seq: u64,
    pub label: Seq<char>,
    pub ts_ms: u64,
    pub session_id: Option<Seq<char>>,
    pub event: EventView,
}

impl View for UiEvent {
    type V = UiEventView;

    open spec fn view(&self) -> UiEventView {
        UiEventView {
            seq: self.seq,
            label: self.label@,
            ts_ms: self.ts_ms,
            session_id: self.session_id.deep_view(),
            event: self.event@,
        }
    }
}

impl DeepView for UiEvent {
    type V = UiEventView;

    open spec fn deep_view(&self) -> UiEventView {
        self@
    }
}

impl Clone for UiEvent {
    fn clone(&self) -> (copy: Self)
        ensures
            copy@ == self@,
    {
        UiEvent {
            seq: self.seq,
            label: self.label.clone(),
            ts_ms: self.ts_ms,
            session_id: copy_text(&self.session_id),
            event: self.event.clone(),
        }
    }
}

/// Per-agent state shown in the sidebar.
#[derive(Debug)]
pub struct AgentSnapshot {
    pub label: String,
    pub connected: bool,
    pub session_id: Option<String>,
    /// Set while a turn is in flight.
    pub turn_started_ms: Option<u64>,
    pub last_activity_ms: Option<u64>,
    pub turns: u64,
    pub tool_calls: u64,
}

/// What an [`AgentSnapshot`] says.
#[verifier::ext_equal]
pub struct AgentView {
    pub label: Seq<char>,
    pub connected: bool,
    pub session_id: Option<Seq<char>>,
    pub turn_started_ms: Option<u64>,
    pub last_activity_ms: Option<u64>,
    pub turns: u64,
    pub tool_calls: u64,
}

impl View for AgentSnapshot {
    type V = AgentView;

    open spec fn view(&self) -> AgentView {
        AgentView {
            label: self.label@,
            connected: self.connected,
            session_id: self.session_id.deep_view(),
            turn_started_ms: self.turn_started_ms,
            last_activity_ms: self.last_activity_ms,
            turns: self.turns,
            tool_calls: self.tool_calls,
        }
    }
}

impl DeepView for AgentSnapshot {
    type V = AgentView;

    open spec fn deep_view(&self) -> AgentView {
        self@
    }
}

impl Clone for AgentSnapshot {
    fn clone(&self) -> (copy: Self)
        ensures
            copy@ == self@,
    {
        AgentSnapshot {
            label: self.label.clone(),
            connected: self.connected,
            session_id: copy_text(&self.session_id),
            turn_started_ms: self.turn_started_ms,
            last_activity_ms: self.last_activity_ms,
            turns: self.turns,
            tool_calls: self.tool_calls,
        }
    }
}

impl Default for AgentSnapshot {
    /// An agent of which nothing is known: no label, not connected, nothing counted.
    fn default() -> (agent: Self)
        ensures
            agent@ == (AgentView {
                label: Seq::empty(),
                connected: false,
                session_id: None,
                turn_started_ms: None,
                last_activity_ms: None,
                turns: 0,
                tool_calls: 0,
            }),
    {
        AgentSnapshot {
            label: String::new(),
            connected: false,
            session_id: None,
            turn_started_ms: None,
            last_activity_ms: None,
            turns: 0,
            tool_calls: 0,
        }
    }
}

/// A frame says its label, direction, time and line.
pub proof fn frames_say_all_they_hold(frame: WireFrame)
    ensures
        frame@.label == frame.label@,
        frame@.dir == frame.dir,
        frame@.ts_ms == frame.ts_ms,
        frame@.line == frame.line@,
        frame.deep_view() == frame@,
{
}

/// An event says which kind it is and all that it holds.
pub proof fn events_say_all_they_hold(event: EventKind)
    ensures
        event.deep_view() == event@,
        match event {
            EventKind::SessionCreated { session_id } => event@ is SessionCreated
                && event@->SessionCreated_session_id == session_id@,
            EventKind::TurnStarted { text } => event@ is TurnStarted && event@->TurnStarted_text
                == text@,
            EventKind::Thought { text } => event@ is Thought && event@->Thought_text == text@,
            EventKind::Message { text } => event@ is Message && event@->Message_text == text@,
            EventKind::ToolCall { tool_id, title, tool_kind, status } => {
                &&& event@ is ToolCall
                &&& event@->ToolCall_tool_id == tool_id@
                &&& event@->ToolCall_title == title@
                &&& event@->ToolCall_tool_kind == tool_kind@
                &&& event@->ToolCall_status == status@
            },
            EventKind::ToolUpdate { tool_id, status } => {
                &&& event@ is ToolUpdate
                &&& event@->ToolUpdate_tool_id == tool_id@
                &&& event@->ToolUpdate_status == status@
            },
            EventKind::Plan { entries } => event@ is Plan && event@->Plan_entries == entries,
            EventKind::TurnEnded { stop_reason } => event@ is TurnEnded
                && event@->TurnEnded_stop_reason == stop_reason@,
            EventKind::Error { message } => event@ is Error && event@->Error_message == message@,
        },
{
}

/// A broadcast event says its number, label, time, session and event.
pub proof fn ui_events_say_all_they_hold(ui: UiEvent)
    ensures
        ui@.seq == ui.seq,
        ui@.label == ui.label@,
        ui@.ts_ms == ui.ts_ms,
        ui.session_id is None <==> ui@.session_id is None,
        ui.session_id matches Some(id) ==> ui@.session_id == Some(id@),
        ui@.event == ui.event@,
        ui.deep_view() == ui@,
{
}

/// An agent says everything that is known of it.
pub proof fn agents_say_all_they_hold(agent: AgentSnapshot)
    ensures
        agent@.label == agent.label@,
        agent@.connected == agent.connected,
        agent.session_id is None <==> agent@.session_id is None,
        agent.session_id matches Some(id) ==> agent@.session_id == Some(id@),
        agent@.turn_started_ms == agent.turn_started_ms,
        agent@.last_activity_ms == agent.last_activity_ms,
        agent@.turns == agent.turns,
        agent@.tool_calls == agent.tool_calls,
        agent.deep_view() == agent@,
{
}

/// A copy of an optional text.
pub(crate) fn copy_text(text: &Option<String>) -> (copy: Option<String>)
    ensures
        copy.deep_view() == text.deep_view(),
{
    match text {
        Some(s) => Some(s.clone()),
        None => None,
    }
}

} // verus!
