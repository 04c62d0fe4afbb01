//! What the protocol's messages mean, member by member.

use vstd::prelude::*;

use crate::json::JsonView;
use crate::wire::EventView;

verus! {

/// The object has the text under the name.
pub open spec fn says(v: JsonView, name: Seq<char>, text: Seq<char>) -> bool {
    v.get(name) == Some(JsonView::Text(text))
}

/// The value has no text under the name.
pub open spec fn is_silent(v: JsonView, name: Seq<char>) -> bool {
    forall|text: Seq<char>| !says(v, name, text)
}

/// The text under the name, or the given one where there is none.
pub open spec fn says_or(
    v: JsonView,
    name: Seq<char>,
    default: Seq<char>,
    text: Seq<char>,
) -> bool {
    says(v, name, text) || (is_silent(v, name) && text == default)
}

/// The session that the parameters name, if they name one.
pub open spec fn in_session(params: JsonView, session: Option<Seq<char>>) -> bool {
    match session {
        Some(id) => says(params, "sessionId"@, id),
        None => is_silent(params, "sessionId"@),
    }
}

/// The message is a session update of that kind, in that session.
pub open spec fn is_update(
    v: JsonView,
    params: JsonView,
    session: Option<Seq<char>>,
    update: JsonView,
    kind: Seq<char>,
) -> bool {
    &&& says(v, "method"@, "session/update"@)
    &&& v.get("params"@) == Some(params)
    &&& in_session(params, session)
    &&& params.get("update"@) == Some(update)
    &&& says(update, "sessionUpdate"@, kind)
}

/// The text in an update's content, empty where there is none.
pub open spec fn content_says(update: JsonView, text: Seq<char>) -> bool {
    match update.get("content"@) {
        Some(content) => says_or(content, "text"@, Seq::empty(), text),
        None => text == Seq::<char>::empty(),
    }
}

proof fn lemma_silent(v: JsonView, name: Seq<char>)
    requires
        is_silent(v, name),
    ensures
        crate::parse::text_at(v, name) is None,
{
    if let Some(JsonView::Text(text)) = v.get(name) {
        assert(says(v, name, text));
    }
}

proof fn lemma_says_or(v: JsonView, name: Seq<char>, default: Seq<char>, text: Seq<char>)
    requires
        says_or(v, name, default, text),
    ensures
        crate::parse::text_or(v, name, default) == text,
{
    if is_silent(v, name) {
        lemma_silent(v, name);
    }
}

proof fn lemma_words()
    ensures
        ""@ == Seq::<char>::empty(),
        " "@ == seq![' '],
        "session/prompt"@ != "session/update"@,
        "agent_thought_chunk"@ != "agent_message_chunk"@,
        "agent_thought_chunk"@.len() == 19,
        "agent_message_chunk"@.len() == 19,
        "tool_call"@.len() == 9,
        "tool_call_update"@.len() == 16,
        "plan"@.len() == 4,
{
    reveal_strlit("");
    reveal_strlit(" ");
    reveal_strlit("session/prompt");
    reveal_strlit("session/update");
    reveal_strlit("agent_thought_chunk");
    reveal_strlit("agent_message_chunk");
    reveal_strlit("tool_call");
    reveal_strlit("tool_call_update");
    reveal_strlit("plan");
    assert(""@ =~= Seq::empty());
    assert(" "@ =~= seq![' ']);
    assert("session/prompt"@[8] != "session/update"@[8]);
    assert("agent_thought_chunk"@[6] != "agent_message_chunk"@[6]);
}

proof fn lemma_update(
    v: JsonView,
    params: JsonView,
    session: Option<Seq<char>>,
    update: JsonView,
    kind: Seq<char>,
)
    requires
        is_update(v, params, session, update, kind),
    ensures
        crate::parse::text_or(update, "sessionUpdate"@, ""@) == kind,
        crate::parse::message_events(v) == (match crate::parse::update_event(update) {
            Some(event) => seq![(session, event)],
            None => Seq::empty(),
        }),
{
    lemma_words();
    if session is None {
        lemma_silent(params, "sessionId"@);
    }
}

/// A line that writes down a message says what the message says; one that writes down
/// nothing says nothing.
pub proof fn lines_say_what_their_messages_say(line: Seq<char>)
    ensures
        match crate::json::json_text(line) {
            Some(v) => crate::parse::line_events(line) == crate::parse::message_events(v),
            None => crate::parse::line_events(line).len() == 0,
        },
{
}

/// A thought chunk is read as the thought in its content, in the session that the
/// message names.
pub proof fn thought_chunks_are_thoughts(
    v: JsonView,
    params: JsonView,
    session: Option<Seq<char>>,
    update: JsonView,
    text: Seq<char>,
)
    requires
        is_update(v, params, session, update, "agent_thought_chunk"@),
        content_says(update, text),
    ensures
        crate::parse::message_events(v) == seq![(session, EventView::Thought { text })],
{
    lemma_words();
    lemma_update(v, params, session, update, "agent_thought_chunk"@);
    if let Some(content) = update.get("content"@) {
        lemma_says_or(content, "text"@, ""@, text);
    }
}

/// A message chunk is read as the message in its content, in the session that the
/// message names.
pub proof fn message_chunks_are_messages(
    v: JsonView,
    params: JsonView,
    session: Option<Seq<char>>,
    update: JsonView,
    text: Seq<char>,
)
    requires
        is_update(v, params, session, update, "agent_message_chunk"@),
        content_says(update, text),
    ensures
        crate::parse::message_events(v) == seq![(session, EventView::Message { text })],
{
    lemma_words();
    lemma_update(v, params, session, update, "agent_message_chunk"@);
    if let Some(content) = update.get("content"@) {
        lemma_says_or(content, "text"@, ""@, text);
    }
}

/// Each field of a tool call is the text of the protocol's member for it, where there
/// is one.
pub proof fn tool_calls_say_their_members(
    v: JsonView,
    params: JsonView,
    session: Option<Seq<char>>,
    update: JsonView,
    tool_id: Seq<char>,
    title: Seq<char>,
    tool_kind: Seq<char>,
    status: Seq<char>,
)
    requires
        is_update(v, params, session, update, "tool_call"@),
        says_or(update, "toolCallId"@, Seq::empty(), tool_id),
        says_or(update, "title"@, Seq::empty(), title),
        says_or(update, "kind"@, "other"@, tool_kind),
        says_or(update, "status"@, "pending"@, status),
    ensures
        crate::parse::message_events(v) == seq![
            (session, EventView::ToolCall { tool_id, title, tool_kind, status }),
        ],
{
    lemma_words();
    lemma_update(v, params, session, update, "tool_call"@);
    lemma_says_or(update, "toolCallId"@, ""@, tool_id);
    lemma_says_or(update, "title"@, ""@, title);
    lemma_says_or(update, "kind"@, "other"@, tool_kind);
    lemma_says_or(update, "status"@, "pending"@, status);
}

/// Each field of a tool update is the text of the protocol's member for it, where
/// there is one.
pub proof fn tool_updates_say_their_members(
    v: JsonView,
    params: JsonView,
    session: Option<Seq<char>>,
    update: JsonView,
    tool_id: Seq<char>,
    status: Seq<char>,
)
    requires
        is_update(v, params, session, update, "tool_call_update"@),
        says_or(update, "toolCallId"@, Seq::empty(), tool_id),
        says_or(update, "status"@, Seq::empty(), status),
    ensures
        crate::parse::message_events(v) == seq![(session, EventView::ToolUpdate { tool_id, status })],
{
    lemma_words();
    lemma_update(v, params, session, update, "tool_call_update"@);
    lemma_says_or(update, "toolCallId"@, ""@, tool_id);
    lemma_says_or(update, "status"@, ""@, status);
}

/// A plan is read as the number of its entries, zero where it lists none.
pub proof fn plans_count_their_entries(
    v: JsonView,
    params: JsonView,
    session: Option<Seq<char>>,
    update: JsonView,
    entries: nat,
)
    requires
        is_update(v, params, session, update, "plan"@),
        match update.get("entries"@) {
            Some(JsonView::Array(items)) => entries == items.len(),
            _ => entries == 0,
        },
    ensures
        crate::parse::message_events(v) == seq![(session, EventView::Plan { entries })],
{
    lemma_words();
    lemma_update(v, params, session, update, "plan"@);
}

/// A session update of any other kind, or of none, says nothing.
pub proof fn other_updates_say_nothing(v: JsonView)
    requires
        says(v, "method"@, "session/update"@),
        forall|params: JsonView, session: Option<Seq<char>>, update: JsonView, kind: Seq<char>|
            #[trigger] is_update(v, params, session, update, kind) ==> {
                &&& kind != "agent_thought_chunk"@
                &&& kind != "agent_message_chunk"@
                &&& kind != "tool_call"@
                &&& kind != "tool_call_update"@
                &&& kind != "plan"@
            },
    ensures
        crate::parse::message_events(v).len() == 0,
{
    lemma_words();
    if let Some(params) = v.get("params"@) {
        if let Some(update) = params.get("update"@) {
            if is_silent(update, "sessionUpdate"@) {
                lemma_silent(update, "sessionUpdate"@);
            } else {
                let kind = choose|kind: Seq<char>| says(update, "sessionUpdate"@, kind);
                let session = crate::parse::text_at(params, "sessionId"@);
                if session is None {
                    assert(is_silent(params, "sessionId"@));
                }
                assert(is_update(v, params, session, update, kind));
            }
        }
    }
}

/// A prompt starts a turn in the session that the message names, with the text of its
/// blocks: all of it up to two thousand characters, else the first two thousand and an
/// ellipsis.
pub proof fn prompts_say_their_blocks(
    v: JsonView,
    params: JsonView,
    session: Option<Seq<char>>,
    blocks: Seq<JsonView>,
)
    requires
        says(v, "method"@, "session/prompt"@),
        v.get("params"@) == Some(params),
        in_session(params, session),
        params.get("prompt"@) == Some(JsonView::Array(blocks)),
    ensures
        crate::parse::message_events(v).len() == 1,
        crate::parse::message_events(v)[0].0 == session,
        crate::parse::message_events(v)[0].1 is TurnStarted,
        ({
            let whole = crate::text::joined(crate::parse::block_texts(blocks), seq![' ']);
            let text = crate::parse::message_events(v)[0].1->TurnStarted_text;
            &&& whole.len() <= 2000 ==> text == whole
            &&& whole.len() > 2000 ==> {
                &&& text.len() == 2001
                &&& text.take(2000) == whole.take(2000)
                &&& text[2000] == '…'
            }
        }),
{
    lemma_words();
    if session is None {
        lemma_silent(params, "sessionId"@);
    }
    let whole = crate::text::joined(crate::parse::block_texts(blocks), seq![' ']);
    if whole.len() > 2000 {
        assert(whole.take(2000).push('…').take(2000) =~= whole.take(2000));
    }
}

/// A prompt without blocks starts a turn too, with no text, in the session that the
/// message names.
pub proof fn prompts_without_blocks_start_turns(v: JsonView, session: Option<Seq<char>>)
    requires
        says(v, "method"@, "session/prompt"@),
        match v.get("params"@) {
            Some(params) => in_session(params, session) && !(params.get("prompt"@) matches Some(
                prompt,
            ) && prompt is Array),
            None => session is None,
        },
    ensures
        crate::parse::message_events(v) == seq![(session, EventView::TurnStarted { text: Seq::empty() })],
{
    lemma_words();
    if let Some(params) = v.get("params"@) {
        if session is None {
            lemma_silent(params, "sessionId"@);
        }
    }
}

/// The texts of blocks: those of a first part, then those of the rest; a single block
/// gives its text, if it has one.
pub proof fn blocks_give_their_texts(a: Seq<JsonView>, b: Seq<JsonView>, block: JsonView)
    ensures
        crate::parse::block_texts(a + b) == crate::parse::block_texts(a)
            + crate::parse::block_texts(b),
        forall|text: Seq<char>| #[trigger]
            says(block, "text"@, text) ==> crate::parse::block_texts(seq![block]) == seq![text],
        is_silent(block, "text"@) ==> crate::parse::block_texts(seq![block]).len() == 0,
        crate::parse::block_texts(Seq::empty()).len() == 0,
    decreases b.len(),
{
    assert(seq![block].drop_last() =~= Seq::empty());
    assert(crate::parse::block_texts(Seq::empty()) =~= Seq::empty());
    if is_silent(block, "text"@) {
        lemma_silent(block, "text"@);
    }
    assert forall|text: Seq<char>| #[trigger] says(block, "text"@, text) implies crate::parse::block_texts(
        seq![block],
    ) == seq![text] by {
        assert(crate::parse::block_texts(seq![block]) =~= seq![text]);
    }
    if b.len() == 0 {
        assert(a + b =~= a);
        assert(crate::parse::block_texts(a) + crate::parse::block_texts(b) =~= crate::parse::block_texts(a));
    } else {
        blocks_give_their_texts(a, b.drop_last(), block);
        assert((a + b).drop_last() =~= a + b.drop_last());
        assert((a + b).last() == b.last());
        assert(crate::parse::block_texts(a + b) =~= crate::parse::block_texts(a) + crate::parse::block_texts(b));
    }
}

/// A response with an error reports the error's message, outside any session, whatever
/// else it holds.
pub proof fn error_responses_say_their_message(v: JsonView, err: JsonView, message: Seq<char>)
    requires
        is_silent(v, "method"@),
        v.get("error"@) == Some(err),
        says_or(err, "message"@, "unknown error"@, message),
    ensures
        crate::parse::message_events(v) == seq![(None::<Seq<char>>, EventView::Error { message })],
{
    lemma_silent(v, "method"@);
    lemma_says_or(err, "message"@, "unknown error"@, message);
}

/// A response whose result has a stop reason ends a turn for that reason.
pub proof fn stop_reasons_end_turns(v: JsonView, result: JsonView, stop_reason: Seq<char>)
    requires
        is_silent(v, "method"@),
        v.get("error"@) is None,
        v.get("result"@) == Some(result),
        says(result, "stopReason"@, stop_reason),
    ensures
        crate::parse::message_events(v) == seq![(None::<Seq<char>>, EventView::TurnEnded { stop_reason })],
{
    lemma_silent(v, "method"@);
}

/// A response whose result has a session but no stop reason announces that session, in
/// that session.
pub proof fn result_sessions_are_new_sessions(v: JsonView, result: JsonView, session_id: Seq<char>)
    requires
        is_silent(v, "method"@),
        v.get("error"@) is None,
        v.get("result"@) == Some(result),
        is_silent(result, "stopReason"@),
        says(result, "sessionId"@, session_id),
    ensures
        crate::parse::message_events(v) == seq![(Some(session_id), EventView::SessionCreated { session_id })],
{
    lemma_silent(v, "method"@);
    lemma_silent(result, "stopReason"@);
}

/// Any other response says nothing.
pub proof fn other_responses_say_nothing(v: JsonView)
    requires
        is_silent(v, "method"@),
        v.get("error"@) is None,
        match v.get("result"@) {
            Some(result) => is_silent(result, "stopReason"@) && is_silent(result, "sessionId"@),
            None => true,
        },
    ensures
        crate::parse::message_events(v).len() == 0,
{
    lemma_silent(v, "method"@);
    if let Some(result) = v.get("result"@) {
        lemma_silent(result, "stopReason"@);
        lemma_silent(result, "sessionId"@);
    }
}

/// A message with any other method says nothing.
pub proof fn other_methods_say_nothing(v: JsonView, method: Seq<char>)
    requires
        says(v, "method"@, method),
        method != "session/prompt"@,
        method != "session/update"@,
    ensures
        crate::parse::message_events(v).len() == 0,
{
}

/// Whatever a message with a method says, it says of the session that its parameters
/// name, and of none only where they name none.
pub proof fn events_come_with_their_session(
    v: JsonView,
    method: Seq<char>,
    session: Option<Seq<char>>,
    i: int,
)
    requires
        says(v, "method"@, method),
        match v.get("params"@) {
            Some(params) => in_session(params, session),
            None => session is None,
        },
        0 <= i < crate::parse::message_events(v).len(),
    ensures
        crate::parse::message_events(v)[i].0 == session,
{
    if let Some(params) = v.get("params"@) {
        if session is None {
            lemma_silent(params, "sessionId"@);
        }
    }
}

} // verus!
