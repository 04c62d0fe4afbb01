use acp_tap::{
    AgentSnapshot, AppState, Broadcast, Direction, EventKind, TapSession, UiEvent, Viewer,
    ViewerAction, ViewerEvent, WireFrame,
};

fn thought(text: &str) -> EventKind {
    EventKind::Thought { text: text.to_string() }
}

fn started() -> EventKind {
    EventKind::TurnStarted { text: "go".to_string() }
}

fn ended() -> EventKind {
    EventKind::TurnEnded { stop_reason: "end_turn".to_string() }
}

fn tool_call() -> EventKind {
    EventKind::ToolCall {
        tool_id: "t".to_string(),
        title: "bash".to_string(),
        tool_kind: "execute".to_string(),
        status: "pending".to_string(),
    }
}

fn agent(state: &AppState, label: &str) -> AgentSnapshot {
    for a in state.agents() {
        if a.label == label {
            return a;
        }
    }
    panic!("no such agent")
}

fn history(state: &AppState) -> Vec<(u64, String)> {
    let mut out = Vec::new();
    for e in state.snapshot().events {
        out.push((e.seq, e.label));
    }
    out
}

#[test]
fn a_new_state_is_empty() {
    let state = AppState::new(3);
    let snapshot = state.snapshot();
    assert_eq!(snapshot.kind, "snapshot");
    assert!(snapshot.agents.is_empty());
    assert!(snapshot.events.is_empty());
}

#[test]
fn an_unknown_agent_has_no_history() {
    let blank = AgentSnapshot::default();
    assert_eq!(blank.label, "");
    assert!(!blank.connected);
    assert!(blank.session_id.is_none() && blank.turn_started_ms.is_none());
    assert!(blank.last_activity_ms.is_none());
    assert_eq!((blank.turns, blank.tool_calls), (0, 0));
}

#[test]
fn ingest_tells_the_event_then_the_agent() {
    let mut state = AppState::new(3);
    let news = state.ingest("a", 40, Some("s1".to_string()), started());
    assert_eq!(news.len(), 2);
    match &news[0] {
        Broadcast::Event(UiEvent { seq, label, ts_ms, session_id, event }) => {
            assert_eq!((*seq, label.as_str(), *ts_ms), (1, "a", 40));
            assert_eq!(session_id.as_deref(), Some("s1"));
            assert!(matches!(event, EventKind::TurnStarted { text } if text == "go"));
        }
        Broadcast::Agent(_) => panic!("the event comes first"),
    }
    match &news[1] {
        Broadcast::Agent(a) => {
            assert_eq!(a.label, "a");
            assert!(a.connected);
            assert_eq!(a.session_id.as_deref(), Some("s1"));
            assert_eq!(a.turn_started_ms, Some(40));
            assert_eq!(a.last_activity_ms, Some(40));
            assert_eq!((a.turns, a.tool_calls), (1, 0));
        }
        Broadcast::Event(_) => panic!("the agent comes second"),
    }
    assert!(matches!(news[1].clone(), Broadcast::Agent(a) if a.turns == 1));
}

#[test]
fn turns_and_tool_calls_are_counted() {
    let mut state = AppState::new(10);
    state.ingest("a", 1, None, started());
    state.ingest("a", 2, None, tool_call());
    state.ingest("b", 3, None, tool_call());
    state.ingest("a", 4, None, tool_call());
    assert_eq!(agent(&state, "a").turn_started_ms, Some(1));
    state.ingest("a", 5, None, ended());
    state.ingest("a", 6, None, started());
    let a = agent(&state, "a");
    assert_eq!((a.turns, a.tool_calls), (2, 2));
    assert_eq!((a.turn_started_ms, a.last_activity_ms), (Some(6), Some(6)));
    let b = agent(&state, "b");
    assert_eq!((b.turns, b.tool_calls), (0, 1));
    assert_eq!(b.turn_started_ms, None);
    assert_eq!(state.agents().len(), 2);
}

#[test]
fn an_ended_turn_is_over() {
    let mut state = AppState::new(10);
    state.ingest("a", 1, None, started());
    state.ingest("a", 2, None, ended());
    state.ingest("a", 3, None, thought("x"));
    assert_eq!(agent(&state, "a").turn_started_ms, None);
}

#[test]
fn sessions_stick() {
    let mut state = AppState::new(10);
    let created = EventKind::SessionCreated { session_id: "s2".to_string() };
    state.ingest("a", 1, Some("s1".to_string()), created);
    assert_eq!(agent(&state, "a").session_id.as_deref(), Some("s2"));
    state.ingest("a", 2, None, thought("x"));
    assert_eq!(agent(&state, "a").session_id.as_deref(), Some("s2"));
    state.ingest("a", 3, Some("s3".to_string()), thought("x"));
    assert_eq!(agent(&state, "a").session_id.as_deref(), Some("s3"));
}

#[test]
fn history_is_kept_per_agent() {
    let mut state = AppState::new(2);
    state.ingest("a", 1, None, thought("1"));
    state.ingest("b", 2, None, thought("2"));
    state.ingest("a", 3, None, thought("3"));
    state.ingest("a", 4, None, thought("4"));
    let expected = vec![(2, "b".to_string()), (3, "a".to_string()), (4, "a".to_string())];
    assert_eq!(history(&state), expected);
    state.ingest("a", 5, None, thought("5"));
    let expected = vec![(2, "b".to_string()), (4, "a".to_string()), (5, "a".to_string())];
    assert_eq!(history(&state), expected);
}

#[test]
fn a_cap_of_zero_retains_nothing() {
    let mut state = AppState::new(0);
    let news = state.ingest("a", 1, None, thought("1"));
    assert_eq!(news.len(), 2);
    assert!(history(&state).is_empty());
    assert_eq!(state.agents().len(), 1);
}

#[test]
fn a_lost_tap_ends_the_turn() {
    let mut state = AppState::new(5);
    state.ingest("a", 1, Some("s".to_string()), started());
    state.ingest("b", 2, None, started());
    let news = state.mark_disconnected("a");
    assert!(matches!(news, Some(Broadcast::Agent(a)) if !a.connected && a.turns == 1));
    let a = agent(&state, "a");
    assert!(!a.connected);
    assert_eq!(a.turn_started_ms, None);
    assert_eq!(a.last_activity_ms, Some(1));
    assert_eq!(a.session_id.as_deref(), Some("s"));
    assert!(agent(&state, "b").connected);
    assert_eq!(history(&state).len(), 2);

    assert!(state.mark_disconnected("a").is_some());
    assert!(state.mark_disconnected("nobody").is_none());
    assert_eq!(state.agents().len(), 2);

    state.ingest("a", 3, None, thought("back"));
    assert!(agent(&state, "a").connected);
    assert_eq!(agent(&state, "a").turns, 1);
}

fn wire(label: &str, line: &str) -> WireFrame {
    WireFrame {
        label: label.to_string(),
        dir: Direction::ToAgent,
        ts_ms: 77,
        line: line.to_string(),
    }
}

#[test]
fn a_tap_lives_and_goes() {
    let mut state = AppState::new(5);
    let mut tap = TapSession::new();
    assert!(tap.on_close(&mut state).is_none());

    let prompt = r#"{"method":"session/prompt","params":{"prompt":[{"text":"hi"}]}}"#;
    let news = tap.on_frame(&mut state, &wire("a", prompt));
    assert_eq!(news.len(), 2);
    assert_eq!(agent(&state, "a").turn_started_ms, Some(77));

    let news = tap.on_frame(&mut state, &wire("a", "garbage"));
    assert!(news.is_empty());

    let news = tap.on_frame(&mut state, &wire("b", prompt));
    assert_eq!(news.len(), 2);

    let news = tap.on_close(&mut state);
    assert!(matches!(news, Some(Broadcast::Agent(a)) if a.label == "a" && !a.connected));
    assert!(agent(&state, "b").connected);
}

#[test]
fn the_first_frame_names_the_tap_even_without_events() {
    let mut state = AppState::new(5);
    let mut tap = TapSession::new();
    assert!(tap.on_frame(&mut state, &wire("a", "garbage")).is_empty());
    assert!(state.agents().is_empty());
    assert!(tap.on_close(&mut state).is_none());
}

#[test]
fn several_events_of_a_frame_go_in_order() {
    let mut state = AppState::new(5);
    let mut tap = TapSession::new();
    let events = vec![(None, started()), (Some("s".to_string()), tool_call())];
    let news = tap.on_events(&mut state, &wire("a", ""), events);
    assert_eq!(news.len(), 4);
    assert!(matches!(&news[0], Broadcast::Event(e) if e.seq == 1));
    assert!(matches!(&news[1], Broadcast::Agent(a) if a.turns == 1 && a.tool_calls == 0));
    assert!(matches!(&news[2], Broadcast::Event(e) if e.seq == 2));
    assert!(matches!(&news[3], Broadcast::Agent(a) if a.turns == 1 && a.tool_calls == 1));
}

#[test]
fn news_keep_a_browser_current() {
    let mut state = AppState::new(5);
    let mut tap = TapSession::new();
    let prompt = r#"{"method":"session/prompt"}"#;
    let news = tap.on_frame(&mut state, &wire("a", prompt));
    let told = match &news[1] {
        Broadcast::Agent(a) => format!("{:?}", a),
        Broadcast::Event(_) => panic!("the agent comes second"),
    };
    assert_eq!(told, format!("{:?}", agent(&state, "a")));
}

#[test]
fn unreadable_lines_are_skipped() {
    let mut state = AppState::new(5);
    let mut tap = TapSession::new();
    assert!(tap.on_line(&mut state, None).is_empty());
    assert!(tap.on_close(&mut state).is_none());

    let prompt = r#"{"method":"session/prompt"}"#;
    let news = tap.on_line(&mut state, Some(wire("a", prompt)));
    assert_eq!(news.len(), 2);
    assert!(tap.on_line(&mut state, None).is_empty());
    assert_eq!(agent(&state, "a").turns, 1);
    assert!(tap.on_close(&mut state).is_some());
}

/// A viewer whose snapshot could not be encoded and that now waits for updates.
fn streaming() -> Viewer {
    let (mut viewer, first) = Viewer::open();
    assert!(matches!(first, ViewerAction::Subscribe));
    assert!(matches!(viewer.next(ViewerEvent::Subscribed), ViewerAction::Replay));
    assert!(matches!(viewer.next(ViewerEvent::Snapshot(None)), ViewerAction::Wait));
    viewer
}

#[test]
fn browsers_get_the_snapshot_then_updates() {
    let (mut viewer, first) = Viewer::open();
    assert!(matches!(first, ViewerAction::Subscribe));
    assert!(matches!(viewer.next(ViewerEvent::Subscribed), ViewerAction::Replay));
    let action = viewer.next(ViewerEvent::Snapshot(Some("{}".to_string())));
    assert!(matches!(action, ViewerAction::Send(text) if text == "{}"));
    assert!(matches!(viewer.next(ViewerEvent::Sent(true)), ViewerAction::Wait));
    let action = viewer.next(ViewerEvent::Update(Some("[]".to_string())));
    assert!(matches!(action, ViewerAction::Send(text) if text == "[]"));
    assert!(matches!(viewer.next(ViewerEvent::Sent(false)), ViewerAction::Close));
}

#[test]
fn browsers_survive_lag_and_unencodable_updates() {
    let mut viewer = streaming();
    assert!(matches!(viewer.next(ViewerEvent::Lagged), ViewerAction::Wait));
    assert!(matches!(viewer.next(ViewerEvent::Update(None)), ViewerAction::Wait));
    assert!(matches!(viewer.next(ViewerEvent::Incoming(true)), ViewerAction::Wait));
    assert!(matches!(viewer.next(ViewerEvent::Incoming(false)), ViewerAction::Close));
    assert!(matches!(streaming().next(ViewerEvent::UpdatesEnded), ViewerAction::Close));
}

#[test]
fn a_browser_that_subscribes_first_misses_nothing() {
    let mut state = AppState::new(5);
    let mut news = Vec::new();
    news.extend(state.ingest("a", 1, None, started()));
    let subscribed = news.len();
    news.extend(state.ingest("a", 2, None, ended()));
    let snapshot = state.snapshot();
    news.extend(state.ingest("b", 3, None, thought("x")));

    let mut seqs = Vec::new();
    for e in snapshot.events {
        seqs.push(e.seq);
    }
    assert_eq!(seqs, vec![1, 2]);
    let mut told = Vec::new();
    for item in &news[subscribed..] {
        if let Broadcast::Event(e) = item {
            told.push(e.seq);
        }
    }
    assert_eq!(told, vec![2, 3]);
}

#[test]
fn later_labels_and_unreadable_lines_change_nothing_of_the_tap() {
    let prompt = r#"{"method":"session/prompt"}"#;
    let mut noisy = AppState::new(5);
    let mut clean = AppState::new(5);
    let mut noisy_tap = TapSession::new();
    let mut clean_tap = TapSession::new();
    for label in ["a", "b", "a"] {
        assert!(noisy_tap.on_line(&mut noisy, None).is_empty());
        let heard = noisy_tap.on_line(&mut noisy, Some(wire(label, prompt)));
        let expected = clean_tap.on_line(&mut clean, Some(wire(label, prompt)));
        assert_eq!(format!("{:?}", heard), format!("{:?}", expected));
    }
    assert_eq!(format!("{:?}", noisy.snapshot()), format!("{:?}", clean.snapshot()));
    let gone = noisy_tap.on_close(&mut noisy);
    assert!(matches!(gone, Some(Broadcast::Agent(a)) if a.label == "a" && a.turns == 2));
}

#[test]
fn events_are_numbered_from_one() {
    let mut state = AppState::new(9);
    for expected in 1..6 {
        let news = state.ingest("a", 1, None, thought("x"));
        assert!(matches!(&news[0], Broadcast::Event(e) if e.seq == expected));
    }
}
