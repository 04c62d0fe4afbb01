use acp_tap::{parse_frame, parse_json, read_message, Direction, EventKind, Json, WireFrame};

fn frame(line: &str) -> WireFrame {
    WireFrame {
        label: "test".into(),
        dir: Direction::ToClient,
        ts_ms: 0,
        line: line.into(),
    }
}

fn text(s: &str) -> Json {
    Json::Text(s.to_string())
}

fn object(members: Vec<(&str, Json)>) -> Json {
    let mut out = Vec::new();
    for (name, value) in members {
        out.push((name.to_string(), value));
    }
    Json::Object(out)
}

fn update(members: Vec<(&str, Json)>) -> Json {
    object(vec![
        ("method", text("session/update")),
        ("params", object(vec![("sessionId", text("s9")), ("update", object(members))])),
    ])
}

#[test]
fn ignores_malformed_lines() {
    assert!(parse_frame(&frame("not json")).is_empty());
    assert!(parse_frame(&frame("")).is_empty());
    assert!(parse_frame(&frame("{}")).is_empty());
}

#[test]
fn parses_thought_and_message_chunks() {
    let l = r#"{"jsonrpc":"2.0","method":"session/update","params":{"sessionId":"s1","update":{"sessionUpdate":"agent_thought_chunk","content":{"type":"text","text":"hmm"}}}}"#;
    let out = parse_frame(&frame(l));
    assert_eq!(out.len(), 1);
    assert_eq!(out[0].0.as_deref(), Some("s1"));
    assert!(matches!(&out[0].1, EventKind::Thought { text } if text == "hmm"));
}

#[test]
fn parses_tool_calls() {
    let l = r#"{"jsonrpc":"2.0","method":"session/update","params":{"sessionId":"s1","update":{"sessionUpdate":"tool_call","toolCallId":"t1","title":"bash","kind":"execute","status":"pending"}}}"#;
    let out = parse_frame(&frame(l));
    assert!(
        matches!(&out[0].1, EventKind::ToolCall { tool_id, title, .. } if tool_id == "t1" && title == "bash")
    );
}

#[test]
fn parses_turn_end_and_errors() {
    let out = parse_frame(&frame(
        r#"{"jsonrpc":"2.0","id":3,"result":{"stopReason":"end_turn"}}"#,
    ));
    assert!(
        matches!(&out[0].1, EventKind::TurnEnded { stop_reason } if stop_reason == "end_turn")
    );

    let out = parse_frame(&frame(
        r#"{"jsonrpc":"2.0","id":3,"error":{"code":-32601,"message":"Method not found"}}"#,
    ));
    assert!(matches!(&out[0].1, EventKind::Error { message } if message == "Method not found"));
}

#[test]
fn extracts_prompt_text() {
    let l = r#"{"jsonrpc":"2.0","id":1,"method":"session/prompt","params":{"sessionId":"s1","prompt":[{"type":"text","text":"hello"},{"type":"text","text":"world"}]}}"#;
    let out = parse_frame(&frame(l));
    assert!(matches!(&out[0].1, EventKind::TurnStarted { text } if text == "hello world"));
}

#[test]
fn message_chunks_carry_their_text() {
    let out = read_message(&update(vec![
        ("sessionUpdate", text("agent_message_chunk")),
        ("content", object(vec![("text", text("done"))])),
    ]));
    assert_eq!(out.len(), 1);
    assert_eq!(out[0].0.as_deref(), Some("s9"));
    assert!(matches!(&out[0].1, EventKind::Message { text } if text == "done"));

    let out = read_message(&update(vec![("sessionUpdate", text("agent_message_chunk"))]));
    assert!(matches!(&out[0].1, EventKind::Message { text } if text.is_empty()));
}

#[test]
fn tool_calls_have_defaults() {
    let out = read_message(&update(vec![("sessionUpdate", text("tool_call"))]));
    assert!(
        matches!(&out[0].1, EventKind::ToolCall { tool_id, title, tool_kind, status }
            if tool_id.is_empty() && title.is_empty() && tool_kind == "other" && status == "pending")
    );

    let out = read_message(&update(vec![
        ("sessionUpdate", text("tool_call_update")),
        ("toolCallId", text("t1")),
    ]));
    assert!(
        matches!(&out[0].1, EventKind::ToolUpdate { tool_id, status } if tool_id == "t1" && status.is_empty())
    );
}

#[test]
fn plans_are_counted() {
    let entries = Json::Array(vec![Json::Null, Json::Number, Json::Bool(true)]);
    let out = read_message(&update(vec![("sessionUpdate", text("plan")), ("entries", entries)]));
    assert!(matches!(&out[0].1, EventKind::Plan { entries } if *entries == 3));

    let out = read_message(&update(vec![("sessionUpdate", text("plan")), ("entries", text("x"))]));
    assert!(matches!(&out[0].1, EventKind::Plan { entries } if *entries == 0));
}

#[test]
fn unknown_kinds_yield_nothing() {
    assert!(read_message(&update(vec![("sessionUpdate", text("weather"))])).is_empty());
    assert!(read_message(&update(vec![])).is_empty());
    assert!(read_message(&object(vec![("method", text("session/cancel"))])).is_empty());
    assert!(read_message(&object(vec![("method", text("session/update"))])).is_empty());
    assert!(read_message(&Json::Null).is_empty());
    assert!(read_message(&Json::Array(vec![])).is_empty());
}

#[test]
fn unknown_methods_hide_errors() {
    let v = object(vec![("method", text("fs/read")), ("error", object(vec![]))]);
    assert!(read_message(&v).is_empty());
}

#[test]
fn a_method_that_is_no_text_is_no_method() {
    let v = object(vec![("method", Json::Number), ("error", Json::Null)]);
    let out = read_message(&v);
    assert_eq!(out.len(), 1);
    assert!(out[0].0.is_none());
    assert!(matches!(&out[0].1, EventKind::Error { message } if message == "unknown error"));
}

#[test]
fn errors_win_over_results() {
    let v = object(vec![
        ("result", object(vec![("stopReason", text("end_turn"))])),
        ("error", object(vec![("message", text("boom"))])),
    ]);
    let out = read_message(&v);
    assert_eq!(out.len(), 1);
    assert!(matches!(&out[0].1, EventKind::Error { message } if message == "boom"));
}

#[test]
fn new_sessions_are_announced() {
    let out = parse_frame(&frame(r#"{"id":1,"result":{"sessionId":"s7"}}"#));
    assert_eq!(out.len(), 1);
    assert_eq!(out[0].0.as_deref(), Some("s7"));
    assert!(matches!(&out[0].1, EventKind::SessionCreated { session_id } if session_id == "s7"));

    let out = parse_frame(&frame(r#"{"result":{"sessionId":"s7","stopReason":"cancelled"}}"#));
    assert!(out[0].0.is_none());
    assert!(matches!(&out[0].1, EventKind::TurnEnded { stop_reason } if stop_reason == "cancelled"));
}

#[test]
fn prompts_without_text_start_turns_too() {
    let out = read_message(&object(vec![("method", text("session/prompt"))]));
    assert_eq!(out.len(), 1);
    assert!(out[0].0.is_none());
    assert!(matches!(&out[0].1, EventKind::TurnStarted { text } if text.is_empty()));

    let blocks = Json::Array(vec![
        object(vec![("text", text(""))]),
        object(vec![("uri", text("file:///x"))]),
        object(vec![("text", text("b"))]),
    ]);
    let v = object(vec![
        ("method", text("session/prompt")),
        ("params", object(vec![("prompt", blocks)])),
    ]);
    let out = read_message(&v);
    assert!(matches!(&out[0].1, EventKind::TurnStarted { text } if text == " b"));
}

#[test]
fn long_prompts_are_cut() {
    let v = object(vec![
        ("method", text("session/prompt")),
        (
            "params",
            object(vec![(
                "prompt",
                Json::Array(vec![object(vec![("text", text(&"é".repeat(2500)))])]),
            )]),
        ),
    ]);
    let out = read_message(&v);
    let expected = format!("{}…", "é".repeat(2000));
    assert!(matches!(&out[0].1, EventKind::TurnStarted { text } if *text == expected));
}

#[test]
fn later_members_count() {
    let v = object(vec![("a", text("first")), ("a", text("second")), ("b", Json::Null)]);
    assert_eq!(v.get("a").unwrap().as_text().unwrap(), "second");
    assert!(v.get("c").is_none());
    assert!(text("a").get("a").is_none());

    let parsed = parse_json(r#"{"a":"first","b":null,"a":"second"}"#).unwrap();
    assert_eq!(parsed.get("a").unwrap().as_text().unwrap(), "second");
}

#[test]
fn json_text_is_read_level_by_level() {
    let v = parse_json(r#" {"a":[1,true,null,"x",{"b":[]}],"c":"é\n"} "#).unwrap();
    let items = v.get("a").unwrap().as_array().unwrap();
    assert_eq!(items.len(), 5);
    assert!(matches!(items[0], Json::Number));
    assert!(matches!(items[1], Json::Bool(true)));
    assert!(matches!(items[2], Json::Null));
    assert_eq!(items[3].as_text().unwrap(), "x");
    assert_eq!(items[4].get("b").unwrap().as_array().unwrap().len(), 0);
    assert_eq!(v.get("c").unwrap().as_text().unwrap(), "é\n");
    assert!(v.as_text().is_none());
    assert!(v.as_array().is_none());

    assert!(parse_json("{").is_none());
    assert!(parse_json("1 2").is_none());
}
