//! Reading a mirrored line as events.

use vstd::prelude::*;

use crate::json::{parse_json, Json, JsonView};
use crate::text::{reads, truncate};
use crate::wire::{EventKind, EventView, WireFrame};

verus! {

/// Characters of a prompt that a `TurnStarted` event keeps.
pub const PROMPT_BUDGET: usize = 2000;

/// The text of the member of that name.
pub open spec fn text_at(v: JsonView, name: Seq<char>) -> Option<Seq<char>> {
    match v.get(name) {
        Some(m) => m.as_text(),
        None => None,
    }
}

/// The text of the member of that name, or `default` where there is none.
pub open spec fn text_or(v: JsonView, name: Seq<char>, default: Seq<char>) -> Seq<char> {
    match text_at(v, name) {
        Some(s) => s,
        None => default,
    }
}

/// The session that the message's parameters name.
pub open spec fn session_of(v: JsonView) -> Option<Seq<char>> {
    match v.get("params"@) {
        Some(params) => text_at(params, "sessionId"@),
        None => None,
    }
}

/// The events in a response, that is a message without a method: an error, else
/// the end of a turn, else a new session.
pub open spec fn response_events(v: JsonView) -> Seq<(Option<Seq<char>>, EventView)> {
    match v.get("error"@) {
        Some(err) => seq![
            (
                None,
                EventView::Error { message: text_or(err, "message"@, "unknown error"@) },
            ),
        ],
        None => match v.get("result"@) {
            Some(result) => match text_at(result, "stopReason"@) {
                Some(stop) => seq![(None, EventView::TurnEnded { stop_reason: stop })],
                None => match text_at(result, "sessionId"@) {
                    Some(sid) => seq![(Some(sid), EventView::SessionCreated { session_id: sid })],
                    None => Seq::empty(),
                },
            },
            None => Seq::empty(),
        },
    }
}

/// The texts of those blocks that have one, in order.
pub open spec fn block_texts(blocks: Seq<JsonView>) -> Seq<Seq<char>>
    decreases blocks.len(),
{
    if blocks.len() == 0 {
        Seq::empty()
    } else {
        let before = block_texts(blocks.drop_last());
        match text_at(blocks.last(), "text"@) {
            Some(s) => before.push(s),
            None => before,
        }
    }
}

/// The text of a prompt: its blocks' texts with a space between any two.
pub open spec fn prompt_text(v: JsonView) -> Seq<char> {
    match v.get("params"@) {
        Some(params) => match params.get("prompt"@) {
            Some(prompt) => match prompt.as_array() {
                Some(blocks) => crate::text::joined(block_texts(blocks), " "@),
                None => Seq::empty(),
            },
            None => Seq::empty(),
        },
        None => Seq::empty(),
    }
}

/// The text of an update's content.
pub open spec fn content_text(update: JsonView) -> Seq<char> {
    match update.get("content"@) {
        Some(content) => text_or(content, "text"@, ""@),
        None => ""@,
    }
}

/// The number of entries of an update's plan.
pub open spec fn plan_size(update: JsonView) -> nat {
    match update.get("entries"@) {
        Some(entries) => match entries.as_array() {
            Some(items) => items.len(),
            None => 0,
        },
        None => 0,
    }
}

/// The event that a session update stands for, if its kind is known.
pub open spec fn update_event(update: JsonView) -> Option<EventView> {
    let kind = text_or(update, "sessionUpdate"@, ""@);
    if kind == "agent_thought_chunk"@ {
        Some(EventView::Thought { text: content_text(update) })
    } else if kind == "agent_message_chunk"@ {
        Some(EventView::Message { text: content_text(update) })
    } else if kind == "tool_call"@ {
        Some(
            EventView::ToolCall {
                tool_id: text_or(update, "toolCallId"@, ""@),
                title: text_or(update, "title"@, ""@),
                tool_kind: text_or(update, "kind"@, "other"@),
                status: text_or(update, "status"@, "pending"@),
            },
        )
    } else if kind == "tool_call_update"@ {
        Some(
            EventView::ToolUpdate {
                tool_id: text_or(update, "toolCallId"@, ""@),
                status: text_or(update, "status"@, ""@),
            },
        )
    } else if kind == "plan"@ {
        Some(EventView::Plan { entries: plan_size(update) })
    } else {
        None
    }
}

/// The events in a session update.
pub open spec fn update_events(v: JsonView) -> Seq<(Option<Seq<char>>, EventView)> {
    match v.get("params"@) {
        Some(params) => match params.get("update"@) {
            Some(update) => match update_event(update) {
                Some(event) => seq![(session_of(v), event)],
                None => Seq::empty(),
            },
            None => Seq::empty(),
        },
        None => Seq::empty(),
    }
}

/// The events in a message, each with the session it names.
pub open spec fn message_events(v: JsonView) -> Seq<(Option<Seq<char>>, EventView)> {
    match text_at(v, "method"@) {
        None => response_events(v),
        Some(method) => if method == "session/prompt"@ {
            seq![
                (
                    session_of(v),
                    EventView::TurnStarted {
                        text: crate::text::truncated(prompt_text(v), PROMPT_BUDGET as nat),
                    },
                ),
            ]
        } else if method == "session/update"@ {
            update_events(v)
        } else {
            Seq::empty()
        },
    }
}

/// The events in a line: none where it is no JSON text.
pub open spec fn line_events(line: Seq<char>) -> Seq<(Option<Seq<char>>, EventView)> {
    match crate::json::json_text(line) {
        Some(v) => message_events(v),
        None => Seq::empty(),
    }
}

/// A line yields at most one event.
pub proof fn at_most_one_event(line: Seq<char>)
    ensures
        line_events(line).len() <= 1,
{
}

/// Whether the line is a JSON text that writes down an object.
pub open spec fn writes_an_object(line: Seq<char>) -> bool {
    match crate::json::json_text(line) {
        Some(v) => v is Object,
        None => false,
    }
}

/// A line that is no JSON text yields nothing, and neither does one that writes
/// down anything but an object.
pub proof fn malformed_lines_yield_nothing(line: Seq<char>)
    requires
        !writes_an_object(line),
    ensures
        line_events(line) == Seq::<(Option<Seq<char>>, EventView)>::empty(),
{
}

/// A message with a method that is not known yields nothing, whatever else it
/// holds.
pub proof fn unknown_methods_yield_nothing(v: JsonView)
    requires
        text_at(v, "method"@) is Some,
        text_at(v, "method"@) != Some("session/prompt"@),
        text_at(v, "method"@) != Some("session/update"@),
    ensures
        message_events(v) == Seq::<(Option<Seq<char>>, EventView)>::empty(),
{
}

/// The kinds of session update that are known.
pub open spec fn known_update(kind: Seq<char>) -> bool {
    ||| kind == "agent_thought_chunk"@
    ||| kind == "agent_message_chunk"@
    ||| kind == "tool_call"@
    ||| kind == "tool_call_update"@
    ||| kind == "plan"@
}

/// A session update yields an event if and only if its kind is known.
pub proof fn only_known_updates_yield_events(update: JsonView)
    ensures
        update_event(update) is Some <==> known_update(text_or(update, "sessionUpdate"@, ""@)),
{
}

/// Only a prompt starts a turn, always, and the text that is kept of it is no
/// longer than the budget and an ellipsis.
pub proof fn prompts_start_turns(v: JsonView)
    ensures
        text_at(v, "method"@) == Some("session/prompt"@) <==> (exists|i: int|
            0 <= i < message_events(v).len() && (#[trigger] message_events(v)[i]).1 is TurnStarted),
        forall|i: int|
            0 <= i < message_events(v).len() && (#[trigger] message_events(v)[i]).1 is TurnStarted
                ==> message_events(v)[i].1->TurnStarted_text.len() <= PROMPT_BUDGET + 1,
{
    if text_at(v, "method"@) == Some("session/prompt"@) {
        assert(message_events(v)[0].1 is TurnStarted);
    }
}

/// A response that holds an error reports it and nothing else; any other can only
/// end a turn or create a session.
pub proof fn errors_come_first(v: JsonView)
    requires
        text_at(v, "method"@) is None,
    ensures
        v.get("error"@) is Some ==> message_events(v).len() == 1 && message_events(v)[0].1 is Error,
        v.get("error"@) is None ==> forall|i: int|
            0 <= i < message_events(v).len() ==> ((#[trigger] message_events(v)[i]).1 is TurnEnded
                || message_events(v)[i].1 is SessionCreated),
{
}

/// The text of the member of that name.
fn find_text<'a>(v: &'a Json, name: &str) -> (found: Option<&'a String>)
    ensures
        match found {
            Some(s) => text_at(v@, name@) == Some(s@),
            None => text_at(v@, name@) is None,
        },
{
    match v.get(name) {
        Some(m) => m.as_text(),
        None => None,
    }
}

/// The text of the member of that name, or `default` where there is none.
fn find_text_or(v: &Json, name: &str, default: &str) -> (found: String)
    ensures
        found@ == text_or(v@, name@, default@),
{
    match find_text(v, name) {
        Some(s) => s.clone(),
        None => default.to_string(),
    }
}

/// The session that the message's parameters name.
fn find_session(v: &Json) -> (found: Option<String>)
    ensures
        found.deep_view() == session_of(v@),
{
    match v.get("params") {
        Some(params) => match find_text(params, "sessionId") {
            Some(s) => Some(s.clone()),
            None => None,
        },
        None => None,
    }
}

fn read_response(v: &Json) -> (events: Vec<(Option<String>, EventKind)>)
    ensures
        events.deep_view() == response_events(v@),
{
    let mut events: Vec<(Option<String>, EventKind)> = Vec::new();
    if let Some(err) = v.get("error") {
        let message: String = find_text_or(err, "message", "unknown error");
        events.push((None, EventKind::Error { message }));
    } else if let Some(result) = v.get("result") {
        if let Some(stop) = find_text(result, "stopReason") {
            events.push((None, EventKind::TurnEnded { stop_reason: stop.clone() }));
        } else if let Some(sid) = find_text(result, "sessionId") {
            events.push(
                (Some(sid.clone()), EventKind::SessionCreated { session_id: sid.clone() }),
            );
        }
    }
    assert(events.deep_view() =~= response_events(v@));
    events
}

/// The blocks' texts with a space between any two.
fn join_blocks(blocks: &Vec<Json>) -> (text: String)
    ensures
        text@ == crate::text::joined(block_texts(blocks@.map_values(|b: Json| b@)), " "@),
{
    let ghost all = blocks@.map_values(|b: Json| b@);
    let mut text: String = String::new();
    let mut first: bool = true;
    let mut i: usize = 0;
    assert(all.take(0) =~= Seq::empty());
    while i < blocks.len()
        invariant
            i <= blocks@.len(),
            all == blocks@.map_values(|b: Json| b@),
            first == (block_texts(all.take(i as int)).len() == 0),
            text@ == crate::text::joined(block_texts(all.take(i as int)), " "@),
        decreases blocks@.len() - i,
    {
        proof {
            assert(all.take(i + 1).drop_last() =~= all.take(i as int));
            assert(all.take(i + 1).last() == blocks@[i as int]@);
        }
        let ghost before = block_texts(all.take(i as int));
        if let Some(s) = find_text(&blocks[i], "text") {
            proof {
                assert(before.push(s@).drop_last() =~= before);
            }
            if first {
                assert(text@ =~= Seq::empty());
                text.append(s.as_str());
                assert(text@ =~= s@);
            } else {
                text.append(" ");
                text.append(s.as_str());
            }
            first = false;
        }
        i = i + 1;
    }
    assert(all.take(i as int) =~= all);
    text
}

fn read_prompt(v: &Json) -> (text: String)
    ensures
        text@ == prompt_text(v@),
{
    if let Some(params) = v.get("params") {
        if let Some(prompt) = params.get("prompt") {
            if let Some(blocks) = prompt.as_array() {
                assert(blocks@.map_values(|b: Json| b@) =~= prompt@.as_array()->0);
                return join_blocks(blocks);
            }
        }
    }
    String::new()
}

fn read_content(update: &Json) -> (text: String)
    ensures
        text@ == content_text(update@),
{
    match update.get("content") {
        Some(content) => find_text_or(content, "text", ""),
        None => "".to_string(),
    }
}

fn read_plan_size(update: &Json) -> (entries: usize)
    ensures
        entries == plan_size(update@),
{
    if let Some(entries) = update.get("entries") {
        if let Some(items) = entries.as_array() {
            return items.len();
        }
    }
    0
}

fn read_update(update: &Json) -> (event: Option<EventKind>)
    ensures
        event.deep_view() == update_event(update@),
{
    let kind: String = find_text_or(update, "sessionUpdate", "");
    if reads(&kind, "agent_thought_chunk") {
        Some(EventKind::Thought { text: read_content(update) })
    } else if reads(&kind, "agent_message_chunk") {
        Some(EventKind::Message { text: read_content(update) })
    } else if reads(&kind, "tool_call") {
        Some(
            EventKind::ToolCall {
                tool_id: find_text_or(update, "toolCallId", ""),
                title: find_text_or(update, "title", ""),
                tool_kind: find_text_or(update, "kind", "other"),
                status: find_text_or(update, "status", "pending"),
            },
        )
    } else if reads(&kind, "tool_call_update") {
        Some(
            EventKind::ToolUpdate {
                tool_id: find_text_or(update, "toolCallId", ""),
                status: find_text_or(update, "status", ""),
            },
        )
    } else if reads(&kind, "plan") {
        Some(EventKind::Plan { entries: read_plan_size(update) })
    } else {
        None
    }
}

/// The events in a message, each with the session it names.
///
/// Unknown methods and messages of no interest yield nothing rather than an
/// error: the dashboard must survive protocol drift.
pub fn read_message(v: &Json) -> (events: Vec<(Option<String>, EventKind)>)
    ensures
        events.deep_view() == message_events(v@),
{
    let mut events: Vec<(Option<String>, EventKind)> = Vec::new();
    match find_text(v, "method") {
        None => {
            return read_response(v);
        },
        Some(method) => {
            if reads(method, "session/prompt") {
                let prompt: String = read_prompt(v);
                let text: String = truncate(prompt.as_str(), PROMPT_BUDGET);
                events.push((find_session(v), EventKind::TurnStarted { text }));
            } else if reads(method, "session/update") {
                if let Some(params) = v.get("params") {
                    if let Some(update) = params.get("update") {
                        if let Some(event) = read_update(update) {
                            events.push((find_session(v), event));
                        }
                    }
                }
            }
        },
    }
    assert(events.deep_view() =~= message_events(v@));
    events
}

/// Parse one mirrored line into zero or more UI events.
///
/// Unknown methods and malformed lines yield nothing rather than erroring: the
/// dashboard must survive protocol drift and partial frames.
pub fn parse_frame(frame: &WireFrame) -> (events: Vec<(Option<String>, EventKind)>)
    ensures
        events.deep_view() == line_events(frame@.line),
{
    match parse_json(frame.line.as_str()) {
        Some(v) => read_message(&v),
        None => {
            let events: Vec<(Option<String>, EventKind)> = Vec::new();
            assert(events.deep_view() =~= Seq::empty());
            events
        },
    }
}

} // verus!
