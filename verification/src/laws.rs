//! What holds of the dashboard's state over any number of events.

use vstd::prelude::*;

use crate::session::TapView;
use crate::state::{BroadcastView, StateView};
use crate::wire::{AgentView, EventView, FrameView, UiEventView};

verus! {

/// One event on its way into the state.
#[verifier::ext_equal]
pub struct Arrival {
    pub label: Seq<char>,
    pub ts_ms: u64,
    pub session_id: Option<Seq<char>>,
    pub event: EventView,
}

impl StateView {
    /// What is known once the event has been taken in.
    pub open spec fn after(self, a: Arrival) -> StateView {
        self.ingested(a.label, a.ts_ms, a.session_id, a.event)
    }

    /// What is known once the events have been taken in, in order.
    pub open spec fn after_all(self, arrivals: Seq<Arrival>) -> StateView
        decreases arrivals.len(),
    {
        if arrivals.len() == 0 {
            self
        } else {
            self.after_all(arrivals.drop_last()).after(arrivals.last())
        }
    }

    /// Sequence numbers rise through the history, and the next one is higher still.
    pub open spec fn numbered(self) -> bool {
        &&& forall|i: int, j: int|
            0 <= i < j < self.history.len() ==> (#[trigger] self.history[i]).seq < (
            #[trigger] self.history[j]).seq
        &&& forall|i: int|
            0 <= i < self.history.len() ==> (#[trigger] self.history[i]).seq < self.seq
    }

    /// The events of one agent among the arrivals, as they are broadcast.
    pub open spec fn broadcast_for(self, arrivals: Seq<Arrival>, label: Seq<char>) -> Seq<
        UiEventView,
    >
        decreases arrivals.len(),
    {
        if arrivals.len() == 0 {
            Seq::empty()
        } else {
            let before = self.broadcast_for(arrivals.drop_last(), label);
            let a = arrivals.last();
            if a.label == label {
                before.push(
                    self.after_all(arrivals.drop_last()).ui_event(
                        a.label,
                        a.ts_ms,
                        a.session_id,
                        a.event,
                    ),
                )
            } else {
                before
            }
        }
    }
}

/// The last `n` items, or all where there are fewer.
pub open spec fn last_of(items: Seq<UiEventView>, n: nat) -> Seq<UiEventView> {
    if items.len() > n {
        items.skip(items.len() - n)
    } else {
        items
    }
}

/// How many turns of the agent start among the arrivals.
pub open spec fn turns_among(arrivals: Seq<Arrival>, label: Seq<char>) -> nat
    decreases arrivals.len(),
{
    if arrivals.len() == 0 {
        0
    } else {
        turns_among(arrivals.drop_last(), label) + if arrivals.last().label == label
            && arrivals.last().event is TurnStarted {
            1nat
        } else {
            0nat
        }
    }
}

/// How many tool calls of the agent occur among the arrivals.
pub open spec fn tool_calls_among(arrivals: Seq<Arrival>, label: Seq<char>) -> nat
    decreases arrivals.len(),
{
    if arrivals.len() == 0 {
        0
    } else {
        tool_calls_among(arrivals.drop_last(), label) + if arrivals.last().label == label
            && arrivals.last().event is ToolCall {
            1nat
        } else {
            0nat
        }
    }
}

/// Every run of events keeps the state valid: at no time does an agent have more
/// events retained than the cap allows.
pub proof fn history_stays_bounded(state: StateView, arrivals: Seq<Arrival>)
    requires
        state.valid(),
    ensures
        state.after_all(arrivals).valid(),
        state.after_all(arrivals).history_cap == state.history_cap,
    decreases arrivals.len(),
{
    if arrivals.len() > 0 {
        let front = arrivals.drop_last();
        let a = arrivals.last();
        history_stays_bounded(state, front);
        crate::state::ingested_stays_valid(
            state.after_all(front),
            a.label,
            a.ts_ms,
            a.session_id,
            a.event,
        );
    }
}

/// The history falls into the agent's events and the rest, which keeps the events
/// of every other agent.
proof fn lemma_split_by_label(history: Seq<UiEventView>, label: Seq<char>, other: Seq<char>)
    ensures
        ({
            let rest = history.filter(|e: UiEventView| e.label != label);
            &&& history.len() == rest.len() + crate::state::events_of(history, label).len()
            &&& other != label ==> crate::state::events_of(rest, other) == crate::state::events_of(
                history,
                other,
            )
            &&& forall|i: int| 0 <= i < rest.len() ==> (#[trigger] rest[i]).label != label
            &&& forall|i: int| 0 <= i < rest.len() ==> history.contains(#[trigger] rest[i])
        }),
    decreases history.len(),
{
    reveal(Seq::filter);
    let rest = history.filter(|e: UiEventView| e.label != label);
    if history.len() > 0 {
        let front = history.drop_last();
        let shorter = front.filter(|e: UiEventView| e.label != label);
        lemma_split_by_label(front, label, other);
        assert forall|i: int| 0 <= i < rest.len() implies history.contains(#[trigger] rest[i]) by {
            if i < shorter.len() {
                assert(front.contains(shorter[i]));
                let j = choose|j: int| 0 <= j < front.len() && front[j] == shorter[i];
                assert(history[j] == rest[i]);
            } else {
                assert(history[history.len() - 1] == rest[i]);
            }
        }
        if history.last().label != label {
            assert(rest.drop_last() =~= shorter);
            assert(rest.last() == history.last());
        }
    }
}

proof fn lemma_total(history: Seq<UiEventView>, labels: Set<Seq<char>>, cap: nat)
    requires
        labels.finite(),
        forall|i: int| 0 <= i < history.len() ==> labels.contains((#[trigger] history[i]).label),
        forall|label: Seq<char>| #[trigger] crate::state::events_of(history, label).len() <= cap,
    ensures
        history.len() <= cap * labels.len(),
    decreases labels.len(),
{
    if labels.len() == 0 {
        if history.len() > 0 {
            assert(labels.contains(history[0].label));
        }
        assert(cap * labels.len() == 0) by (nonlinear_arith)
            requires
                labels.len() == 0,
        ;
    } else {
        let label = labels.choose();
        let fewer = labels.remove(label);
        let rest = history.filter(|e: UiEventView| e.label != label);
        lemma_split_by_label(history, label, label);
        assert forall|i: int| 0 <= i < rest.len() implies fewer.contains(
            (#[trigger] rest[i]).label,
        ) by {
            assert(history.contains(rest[i]));
            let j = choose|j: int| 0 <= j < history.len() && history[j] == rest[i];
            assert(labels.contains(history[j].label));
        }
        assert forall|l: Seq<char>| #[trigger] crate::state::events_of(rest, l).len() <= cap by {
            lemma_split_by_label(history, label, l);
            if l == label {
                if crate::state::events_of(rest, l).len() > 0 {
                    let i = crate::state::lemma_oldest_exists(rest, l);
                    assert(rest[i].label != label);
                }
            } else {
                assert(crate::state::events_of(history, l).len() <= cap);
            }
        }
        lemma_total(rest, fewer, cap);
        assert(crate::state::events_of(history, label).len() <= cap);
        assert(cap * labels.len() == cap * fewer.len() + cap) by (nonlinear_arith)
            requires
                labels.len() == fewer.len() + 1,
        ;
    }
}

/// The history is bounded: it never holds more than the cap for each known agent.
pub proof fn history_is_bounded(state: StateView)
    requires
        state.valid(),
    ensures
        state.history.len() <= state.history_cap * state.agents.dom().len(),
{
    lemma_total(state.history, state.agents.dom(), state.history_cap);
}

/// After any run of events the history holds, of each agent, the last events that
/// were retained or broadcast for it, up to the cap.
pub proof fn history_keeps_the_last(state: StateView, arrivals: Seq<Arrival>, label: Seq<char>)
    requires
        state.valid(),
    ensures
        crate::state::events_of(state.after_all(arrivals).history, label) == last_of(
            crate::state::events_of(state.history, label) + state.broadcast_for(arrivals, label),
            state.history_cap,
        ),
    decreases arrivals.len(),
{
    let own = crate::state::events_of(state.history, label);
    if arrivals.len() == 0 {
        assert(own + state.broadcast_for(arrivals, label) =~= own);
    } else {
        let front = arrivals.drop_last();
        let a = arrivals.last();
        let before = state.after_all(front);
        let event = before.ui_event(a.label, a.ts_ms, a.session_id, a.event);
        history_stays_bounded(state, front);
        history_keeps_the_last(state, front, label);
        assert(crate::state::events_of(before.history, a.label).len() <= before.history_cap);
        crate::state::recorded_per_agent(before.history, event, before.history_cap, label);
        if a.label == label {
            let earlier = own + state.broadcast_for(front, label);
            assert(own + state.broadcast_for(arrivals, label) =~= earlier.push(event));
            let kept = last_of(earlier, state.history_cap).push(event);
            if kept.len() > state.history_cap {
                assert(kept.drop_first() =~= last_of(earlier.push(event), state.history_cap));
            } else {
                assert(kept =~= last_of(earlier.push(event), state.history_cap));
            }
        }
    }
}

/// Where anything is retained at all, the newest event is the last in the history.
pub proof fn newest_event_comes_last(state: StateView, a: Arrival)
    requires
        state.valid(),
        state.history_cap > 0,
    ensures
        state.after(a).history.len() > 0,
        state.after(a).history.last() == state.ui_event(a.label, a.ts_ms, a.session_id, a.event),
{
    let event = state.ui_event(a.label, a.ts_ms, a.session_id, a.event);
    let all = state.history.push(event);
    if crate::state::events_of(all, a.label).len() > state.history_cap {
        assert(crate::state::events_of(state.history, a.label).len() > 0) by {
            reveal(Seq::filter);
            assert(all.drop_last() =~= state.history);
        }
        let i = crate::state::lemma_oldest_exists(state.history, a.label);
        assert(crate::state::is_oldest(all, a.label, i)) by {
            assert(forall|j: int| 0 <= j < i ==> all[j] == state.history[j]);
        }
        crate::state::lemma_oldest_unique(all, a.label, i);
    }
}

/// Events of one agent leave every other agent, and the events retained of it, as
/// they were.
pub proof fn other_agents_are_untouched(state: StateView, a: Arrival, other: Seq<char>)
    requires
        state.valid(),
        other != a.label,
    ensures
        state.after(a).agents.contains_key(other) == state.agents.contains_key(other),
        state.after(a).agent_or_new(other) == state.agent_or_new(other),
        crate::state::events_of(state.after(a).history, other) == crate::state::events_of(
            state.history,
            other,
        ),
{
    let event = state.ui_event(a.label, a.ts_ms, a.session_id, a.event);
    assert(crate::state::events_of(state.history, a.label).len() <= state.history_cap);
    crate::state::recorded_per_agent(state.history, event, state.history_cap, other);
}

/// Events get consecutive numbers in the order in which they are taken in: the
/// `i`-th gets the number that was next at first, and `i`.
pub proof fn numbers_are_consecutive(state: StateView, arrivals: Seq<Arrival>, i: int)
    requires
        state.seq + arrivals.len() <= u64::MAX,
        0 <= i < arrivals.len(),
    ensures
        state.after_all(arrivals.take(i)).ui_event(
            arrivals[i].label,
            arrivals[i].ts_ms,
            arrivals[i].session_id,
            arrivals[i].event,
        ).seq == state.seq + i,
        state.after_all(arrivals).seq == state.seq + arrivals.len(),
{
    lemma_next_number(state, arrivals.take(i));
    lemma_next_number(state, arrivals);
}

proof fn lemma_next_number(state: StateView, arrivals: Seq<Arrival>)
    requires
        state.seq + arrivals.len() <= u64::MAX,
    ensures
        state.after_all(arrivals).seq == state.seq + arrivals.len(),
    decreases arrivals.len(),
{
    if arrivals.len() > 0 {
        lemma_next_number(state, arrivals.drop_last());
    }
}

/// The history stays in the order of the events' numbers.
pub proof fn events_are_numbered(state: StateView, arrivals: Seq<Arrival>)
    requires
        state.valid(),
        state.numbered(),
        state.seq + arrivals.len() <= u64::MAX,
    ensures
        state.after_all(arrivals).seq == state.seq + arrivals.len(),
        state.after_all(arrivals).numbered(),
    decreases arrivals.len(),
{
    if arrivals.len() > 0 {
        let front = arrivals.drop_last();
        let a = arrivals.last();
        events_are_numbered(state, front);
        let before = state.after_all(front);
        let event = before.ui_event(a.label, a.ts_ms, a.session_id, a.event);
        let all = before.history.push(event);
        if crate::state::events_of(all, a.label).len() > before.history_cap {
            let i = crate::state::lemma_oldest_exists(all, a.label);
            crate::state::lemma_oldest_unique(all, a.label, i);
            let after = state.after_all(arrivals);
            assert(after.history == all.remove(i));
            assert forall|p: int| 0 <= p < after.history.len() implies (
            #[trigger] after.history[p]).seq < after.seq by {
                assert(after.history[p] == if p < i {
                    all[p]
                } else {
                    all[p + 1]
                });
            }
            assert forall|p: int, q: int| 0 <= p < q < after.history.len() implies (
            #[trigger] after.history[p]).seq < (#[trigger] after.history[q]).seq by {
                assert(after.history[p] == if p < i {
                    all[p]
                } else {
                    all[p + 1]
                });
                assert(after.history[q] == if q < i {
                    all[q]
                } else {
                    all[q + 1]
                });
            }
        }
    }
}

/// The counters count: an agent's turns and tool calls grow by exactly those among
/// its events, modulo 2^64.
pub proof fn counters_count(state: StateView, arrivals: Seq<Arrival>, label: Seq<char>)
    ensures
        state.after_all(arrivals).agent_or_new(label).turns == (state.agent_or_new(label).turns
            + turns_among(arrivals, label)) % 0x1_0000_0000_0000_0000,
        state.after_all(arrivals).agent_or_new(label).tool_calls == (state.agent_or_new(
            label,
        ).tool_calls + tool_calls_among(arrivals, label)) % 0x1_0000_0000_0000_0000,
    decreases arrivals.len(),
{
    if arrivals.len() > 0 {
        counters_count(state, arrivals.drop_last(), label);
    }
}

/// A turn is in flight from its start until its end: once one has started, the
/// agent shows its start through any events but the agent's next turn start or end.
pub proof fn turn_stays_in_flight(state: StateView, arrivals: Seq<Arrival>)
    requires
        arrivals.len() > 0,
        arrivals[0].event is TurnStarted,
        forall|i: int|
            1 <= i < arrivals.len() && (#[trigger] arrivals[i]).label == arrivals[0].label
                ==> !(arrivals[i].event is TurnStarted || arrivals[i].event is TurnEnded),
    ensures
        state.after_all(arrivals).agents.contains_key(arrivals[0].label),
        state.after_all(arrivals).agents[arrivals[0].label].turn_started_ms == Some(
            arrivals[0].ts_ms,
        ),
    decreases arrivals.len(),
{
    let front = arrivals.drop_last();
    if front.len() > 0 {
        assert(forall|i: int| 0 <= i < front.len() ==> front[i] == arrivals[i]);
        turn_stays_in_flight(state, front);
        assert(arrivals.last() == arrivals[arrivals.len() - 1]);
    } else {
        assert(state.after_all(front) == state);
        assert(arrivals.last() == arrivals[0]);
    }
}

/// No turn is in flight after a turn's end, until the agent's next turn starts.
pub proof fn ended_turn_stays_ended(state: StateView, arrivals: Seq<Arrival>)
    requires
        arrivals.len() > 0,
        arrivals[0].event is TurnEnded,
        forall|i: int|
            1 <= i < arrivals.len() && (#[trigger] arrivals[i]).label == arrivals[0].label
                ==> !(arrivals[i].event is TurnStarted),
    ensures
        state.after_all(arrivals).agents.contains_key(arrivals[0].label),
        state.after_all(arrivals).agents[arrivals[0].label].turn_started_ms is None,
    decreases arrivals.len(),
{
    let front = arrivals.drop_last();
    if front.len() > 0 {
        assert(forall|i: int| 0 <= i < front.len() ==> front[i] == arrivals[i]);
        ended_turn_stays_ended(state, front);
        assert(arrivals.last() == arrivals[arrivals.len() - 1]);
    } else {
        assert(state.after_all(front) == state);
        assert(arrivals.last() == arrivals[0]);
    }
}

/// An event shows its agent as known under its label, connected and active at the
/// event's time, whatever was known of it before.
pub proof fn events_show_activity(state: StateView, a: Arrival)
    requires
        state.valid(),
    ensures
        state.after(a).agents.contains_key(a.label),
        state.after(a).agents[a.label].label == a.label,
        state.after(a).agents[a.label].connected,
        state.after(a).agents[a.label].last_activity_ms == Some(a.ts_ms),
{
}

/// An event that names no session leaves the agent in the session it was in.
pub proof fn session_is_kept(state: StateView, a: Arrival)
    requires
        a.session_id is None,
        !(a.event is SessionCreated),
    ensures
        state.after(a).agents[a.label].session_id == state.agent_or_new(a.label).session_id,
{
}

/// Losing a tap touches its own agent alone, which is then neither connected nor in
/// a turn but keeps its counters, its session and its history; numbering goes on as
/// before.
pub proof fn disconnecting_touches_one_agent(state: StateView, label: Seq<char>, other: Seq<char>)
    ensures
        state.disconnected(label).history == state.history,
        state.disconnected(label).history_cap == state.history_cap,
        state.disconnected(label).seq == state.seq,
        state.disconnected(label).agents.dom() =~= state.agents.dom(),
        other != label && state.agents.contains_key(other) ==> state.disconnected(
            label,
        ).agents[other] == state.agents[other],
        state.agents.contains_key(label) ==> state.disconnected(label).agents[label] == (
        AgentView { connected: false, turn_started_ms: None, ..state.agents[label] }),
{
}

/// Losing a tap twice is losing it once, and losing one that was never seen is
/// nothing.
pub proof fn disconnecting_is_idempotent(state: StateView, label: Seq<char>)
    ensures
        state.disconnected(label).disconnected(label) == state.disconnected(label),
        !state.agents.contains_key(label) ==> state.disconnected(label) == state,
{
    assert(state.disconnected(label).disconnected(label).agents =~= state.disconnected(
        label,
    ).agents);
}

/// An agent's next event connects it again, with its counters where they were.
pub proof fn next_event_reconnects(state: StateView, a: Arrival)
    requires
        state.agents.contains_key(a.label),
    ensures
        state.disconnected(a.label).after(a).agents[a.label].connected,
        state.disconnected(a.label).after(a).agents[a.label].turns == state.after(
            a,
        ).agents[a.label].turns,
        state.disconnected(a.label).after(a).agents[a.label].tool_calls == state.after(
            a,
        ).agents[a.label].tool_calls,
{
}

/// The agents as a browser knows them that starts from `agents` and is told the news.
pub open spec fn seen_agents(
    agents: Map<Seq<char>, AgentView>,
    news: Seq<BroadcastView>,
) -> Map<Seq<char>, AgentView>
    decreases news.len(),
{
    if news.len() == 0 {
        agents
    } else {
        let before = seen_agents(agents, news.drop_last());
        match news.last() {
            BroadcastView::Agent(agent) => before.insert(agent.label, agent),
            BroadcastView::Event(_) => before,
        }
    }
}

proof fn lemma_seen_add(
    agents: Map<Seq<char>, AgentView>,
    a: Seq<BroadcastView>,
    b: Seq<BroadcastView>,
)
    ensures
        seen_agents(agents, a + b) == seen_agents(seen_agents(agents, a), b),
    decreases b.len(),
{
    if b.len() == 0 {
        assert(a + b =~= a);
    } else {
        lemma_seen_add(agents, a, b.drop_last());
        assert((a + b).drop_last() =~= a + b.drop_last());
        assert((a + b).last() == b.last());
    }
}

/// A browser that has the current agents and is told the news of a frame has the
/// current agents again.
pub proof fn news_keep_browsers_current(
    state: StateView,
    label: Seq<char>,
    ts_ms: u64,
    events: Seq<(Option<Seq<char>>, EventView)>,
)
    requires
        state.valid(),
    ensures
        seen_agents(state.agents, state.news_of(label, ts_ms, events)) == state.with_events(
            label,
            ts_ms,
            events,
        ).agents,
        state.with_events(label, ts_ms, events).valid(),
    decreases events.len(),
{
    if events.len() > 0 {
        let front = events.drop_last();
        let (session_id, event) = events.last();
        news_keep_browsers_current(state, label, ts_ms, front);
        let before = state.with_events(label, ts_ms, front);
        let after = before.ingested(label, ts_ms, session_id, event);
        crate::state::ingested_stays_valid(before, label, ts_ms, session_id, event);
        let more = seq![
            BroadcastView::Event(before.ui_event(label, ts_ms, session_id, event)),
            BroadcastView::Agent(after.agents[label]),
        ];
        lemma_seen_add(state.agents, state.news_of(label, ts_ms, front), more);
        assert(after.agents.contains_key(label));
        reveal_with_fuel(seen_agents, 3);
        assert(more.drop_last().drop_last() =~= Seq::empty());
    }
}

/// The same holds of the news that a tap is gone.
pub proof fn disconnects_keep_browsers_current(state: StateView, label: Seq<char>)
    requires
        state.valid(),
        state.agents.contains_key(label),
    ensures
        seen_agents(
            state.agents,
            seq![BroadcastView::Agent(state.disconnected(label).agents[label])],
        ) == state.disconnected(label).agents,
{
    let news = seq![BroadcastView::Agent(state.disconnected(label).agents[label])];
    reveal_with_fuel(seen_agents, 2);
    assert(news.drop_last() =~= Seq::empty());
}

proof fn lemma_seen_overlays(agents: Map<Seq<char>, AgentView>, news: Seq<BroadcastView>)
    ensures
        seen_agents(agents, news) == agents.union_prefer_right(seen_agents(Map::empty(), news)),
    decreases news.len(),
{
    if news.len() > 0 {
        lemma_seen_overlays(agents, news.drop_last());
    }
    assert(seen_agents(agents, news) =~= agents.union_prefer_right(
        seen_agents(Map::empty(), news),
    ));
}

/// A browser that subscribes first and takes the snapshot afterwards misses no
/// agent: whatever was told between the two, it is then told again, and once it has
/// been told everything it has the current agents.
pub proof fn subscribing_first_misses_no_agent(
    agents: Map<Seq<char>, AgentView>,
    news: Seq<BroadcastView>,
    subscribed: int,
    snapshot: int,
)
    requires
        0 <= subscribed <= snapshot <= news.len(),
    ensures
        seen_agents(seen_agents(agents, news.take(snapshot)), news.skip(subscribed))
            == seen_agents(agents, news),
{
    let before = news.take(subscribed);
    let between = news.subrange(subscribed, snapshot);
    let after = news.skip(snapshot);
    assert(news.take(snapshot) =~= before + between);
    assert(news.skip(subscribed) =~= between + after);
    assert(news =~= before + between + after);
    let held = seen_agents(agents, before + between);
    lemma_seen_add(agents, before, between);
    lemma_seen_add(agents, before + between, after);
    lemma_seen_add(held, between, after);
    lemma_seen_overlays(seen_agents(agents, before), between);
    lemma_seen_overlays(held, between);
    assert(seen_agents(held, between) =~= held);
}

proof fn lemma_broadcast_add(
    state: StateView,
    a: Seq<Arrival>,
    b: Seq<Arrival>,
    label: Seq<char>,
)
    ensures
        state.after_all(a + b) == state.after_all(a).after_all(b),
        state.broadcast_for(a + b, label) == state.broadcast_for(a, label) + state.after_all(
            a,
        ).broadcast_for(b, label),
    decreases b.len(),
{
    if b.len() == 0 {
        assert(a + b =~= a);
    } else {
        lemma_broadcast_add(state, a, b.drop_last(), label);
        assert((a + b).drop_last() =~= a + b.drop_last());
        assert((a + b).last() == b.last());
    }
}

/// A browser that subscribes first and takes the snapshot afterwards misses no
/// event: each event that the dashboard retains in the end was in the snapshot or is
/// told to the browser.
#[verifier::spinoff_prover]
pub proof fn subscribing_first_misses_no_event(
    state: StateView,
    arrivals: Seq<Arrival>,
    subscribed: int,
    snapshot: int,
    label: Seq<char>,
    event: UiEventView,
)
    requires
        state.valid(),
        0 <= subscribed <= snapshot <= arrivals.len(),
        crate::state::events_of(state.after_all(arrivals).history, label).contains(event),
    ensures
        crate::state::events_of(
            state.after_all(arrivals.take(snapshot)).history,
            label,
        ).contains(event) || state.after_all(arrivals.take(subscribed)).broadcast_for(
            arrivals.skip(subscribed),
            label,
        ).contains(event),
{
    let own = crate::state::events_of(state.history, label);
    let cap = state.history_cap;
    let first = arrivals.take(snapshot);
    let then = arrivals.skip(snapshot);
    let all = own + state.broadcast_for(arrivals, label);
    let early = own + state.broadcast_for(first, label);
    history_keeps_the_last(state, arrivals, label);
    history_keeps_the_last(state, first, label);
    assert(arrivals =~= first + then);
    lemma_broadcast_add(state, first, then, label);
    let late = state.after_all(first).broadcast_for(then, label);
    assert(all =~= early + late);
    let kept = last_of(all, cap);
    assert(kept == crate::state::events_of(state.after_all(arrivals).history, label));
    assert(kept.contains(event));
    let k = choose|k: int| 0 <= k < kept.len() && kept[k] == event;
    let j = if all.len() > cap {
        k + all.len() - cap
    } else {
        k
    };
    assert(all[j] == event);
    if j < early.len() {
        let held = last_of(early, cap);
        if early.len() > cap {
            assert(held[j - (early.len() - cap)] == event);
        } else {
            assert(held[j] == event);
        }
        assert(held.contains(event));
        assert(held == crate::state::events_of(state.after_all(first).history, label));
    } else {
        assert(late[j - early.len()] == event);
        let before = arrivals.take(subscribed);
        let between = arrivals.subrange(subscribed, snapshot);
        assert(first =~= before + between);
        assert(arrivals.skip(subscribed) =~= between + then);
        lemma_broadcast_add(state, before, between, label);
        lemma_broadcast_add(state.after_all(before), between, then, label);
        let told = state.after_all(before).broadcast_for(between, label);
        assert(state.after_all(before).after_all(between) == state.after_all(first));
        assert((told + late)[told.len() + j - early.len()] == event);
        assert((told + late).contains(event));
    }
}

/// Lines that cannot be read make no difference to a tap, to the state or to what is
/// broadcast, wherever among a run of lines they stand.
pub proof fn unreadable_lines_make_no_difference(tap: TapView, lines: Seq<Option<FrameView>>)
    ensures
        tap.after_lines(lines) == tap.after_lines(crate::session::readable(lines)),
        tap.news_of_lines(lines) == tap.news_of_lines(crate::session::readable(lines)),
    decreases lines.len(),
{
    if lines.len() > 0 {
        let front = lines.drop_last();
        unreadable_lines_make_no_difference(tap, front);
        if lines.last() is Some {
            assert(crate::session::readable(front).push(lines.last()).drop_last() =~= crate::session::readable(front));
        } else {
            assert(tap.news_of_lines(lines) =~= tap.news_of_lines(front));
        }
    }
}

/// A tap keeps the label it has.
pub proof fn a_tap_keeps_its_label(tap: TapView, lines: Seq<Option<FrameView>>)
    requires
        tap.label is Some,
    ensures
        tap.after_lines(lines).label == tap.label,
    decreases lines.len(),
{
    if lines.len() > 0 {
        a_tap_keeps_its_label(tap, lines.drop_last());
    }
}

/// A tap goes by the label of the first frame that could be read, whatever labels
/// later frames carry.
pub proof fn the_first_frame_names_the_tap(tap: TapView, lines: Seq<Option<FrameView>>, first: int)
    requires
        tap.label is None,
        0 <= first < lines.len(),
        lines[first] is Some,
        forall|i: int| 0 <= i < first ==> #[trigger] lines[i] is None,
    ensures
        tap.after_lines(lines).label == Some(lines[first]->0.label),
    decreases lines.len(),
{
    let front = lines.drop_last();
    if first < front.len() {
        assert(forall|i: int| 0 <= i < front.len() ==> front[i] == lines[i]);
        the_first_frame_names_the_tap(tap, front, first);
    } else {
        lemma_still_unnamed(tap, front);
        assert(lines.last() == lines[first]);
    }
}

proof fn lemma_still_unnamed(tap: TapView, lines: Seq<Option<FrameView>>)
    requires
        tap.label is None,
        forall|i: int| 0 <= i < lines.len() ==> #[trigger] lines[i] is None,
    ensures
        tap.after_lines(lines) == tap,
    decreases lines.len(),
{
    if lines.len() > 0 {
        let front = lines.drop_last();
        assert(forall|i: int| 0 <= i < front.len() ==> front[i] == lines[i]);
        lemma_still_unnamed(tap, front);
        assert(lines[lines.len() - 1] is None);
    }
}

/// What is broadcast and retained of an event is what arrived, whatever was known of
/// its agent: its label, its time, its session and the event itself, under the next
/// number.
pub proof fn events_say_what_arrived(state: StateView, a: Arrival)
    requires
        state.valid(),
    ensures
        ({
            let arrived = UiEventView {
                seq: state.seq,
                label: a.label,
                ts_ms: a.ts_ms,
                session_id: a.session_id,
                event: a.event,
            };
            &&& state.ui_event(a.label, a.ts_ms, a.session_id, a.event) == arrived
            &&& state.news_of(a.label, a.ts_ms, seq![(a.session_id, a.event)]) == seq![
                BroadcastView::Event(arrived),
                BroadcastView::Agent(state.after(a).agents[a.label]),
            ]
            &&& state.history_cap > 0 ==> {
                &&& state.after(a).history.len() > 0
                &&& state.after(a).history.last() == arrived
            }
        }),
{
    if state.history_cap > 0 {
        newest_event_comes_last(state, a);
    }
    lemma_one_event(state, a.label, a.ts_ms, (a.session_id, a.event));
}

proof fn lemma_one_event(
    state: StateView,
    label: Seq<char>,
    ts_ms: u64,
    event: (Option<Seq<char>>, EventView),
)
    ensures
        state.with_events(label, ts_ms, seq![event]) == state.ingested(
            label,
            ts_ms,
            event.0,
            event.1,
        ),
        state.news_of(label, ts_ms, seq![event]) == seq![
            BroadcastView::Event(state.ui_event(label, ts_ms, event.0, event.1)),
            BroadcastView::Agent(state.ingested(label, ts_ms, event.0, event.1).agents[label]),
        ],
{
    reveal_with_fuel(StateView::with_events, 2);
    reveal_with_fuel(StateView::news_of, 2);
    assert(seq![event].drop_last() =~= Seq::empty());
    assert(state.news_of(label, ts_ms, seq![event]) =~= seq![
        BroadcastView::Event(state.ui_event(label, ts_ms, event.0, event.1)),
        BroadcastView::Agent(state.ingested(label, ts_ms, event.0, event.1).agents[label]),
    ]);
}

/// What an event does to its agent, which is known from then on: it shows the agent
/// connected and active at the event's time; a new session, or else the event's own,
/// becomes the agent's, which otherwise stays; a turn starts, ends or stays; and only
/// turns started and tool calls are counted.
pub proof fn events_count_for_their_agent(state: StateView, a: Arrival)
    ensures
        ({
            let known = state.agents.contains_key(a.label);
            let was = state.agents[a.label];
            let now = state.after(a).agents[a.label];
            &&& state.after(a).agents.contains_key(a.label)
            &&& now.label == (if known {
                was.label
            } else {
                a.label
            })
            &&& now.connected
            &&& now.last_activity_ms == Some(a.ts_ms)
            &&& a.event matches EventView::SessionCreated { session_id } ==> now.session_id == Some(
                session_id,
            )
            &&& !(a.event is SessionCreated) && a.session_id is Some ==> now.session_id
                == a.session_id
            &&& !(a.event is SessionCreated) && a.session_id is None ==> now.session_id == (
            if known {
                was.session_id
            } else {
                None
            })
            &&& a.event is TurnStarted ==> now.turn_started_ms == Some(a.ts_ms)
            &&& a.event is TurnEnded ==> now.turn_started_ms is None
            &&& !(a.event is TurnStarted) && !(a.event is TurnEnded) ==> now.turn_started_ms == (
            if known {
                was.turn_started_ms
            } else {
                None
            })
            &&& now.turns == ((if known {
                was.turns as int
            } else {
                0
            }) + (if a.event is TurnStarted {
                1int
            } else {
                0int
            })) % 0x1_0000_0000_0000_0000
            &&& now.tool_calls == ((if known {
                was.tool_calls as int
            } else {
                0
            }) + (if a.event is ToolCall {
                1int
            } else {
                0int
            })) % 0x1_0000_0000_0000_0000
        }),
{
}

/// Taking in an event uses up one number, and leaves the cap and every other agent as
/// they were.
pub proof fn events_leave_the_rest_alone(state: StateView, a: Arrival, other: Seq<char>)
    requires
        other != a.label,
    ensures
        state.after(a).seq == (state.seq + 1) % 0x1_0000_0000_0000_0000,
        state.after(a).history_cap == state.history_cap,
        state.after(a).agents.contains_key(other) <==> state.agents.contains_key(other),
        state.agents.contains_key(other) ==> state.after(a).agents[other] == state.agents[other],
{
}

/// An agent's retained events are those in the history that carry its label, in the
/// history's order.
pub proof fn events_go_by_their_label(
    a: Seq<UiEventView>,
    b: Seq<UiEventView>,
    event: UiEventView,
    label: Seq<char>,
)
    ensures
        crate::state::events_of(a + b, label) == crate::state::events_of(a, label)
            + crate::state::events_of(b, label),
        event.label == label ==> crate::state::events_of(seq![event], label) == seq![event],
        event.label != label ==> crate::state::events_of(seq![event], label).len() == 0,
        crate::state::events_of(Seq::empty(), label).len() == 0,
{
    Seq::filter_distributes_over_add(a, b, |e: UiEventView| e.label == label);
    reveal(Seq::filter);
    reveal_with_fuel(Seq::filter, 2);
    assert(seq![event].drop_last() =~= Seq::empty());
    if event.label == label {
        assert(crate::state::events_of(seq![event], label) =~= seq![event]);
    }
}

/// A new event goes to the end of the history. As long as its agent has fewer events
/// retained than the cap allows nothing leaves; else the first of that agent's events
/// does, and only that one.
pub proof fn a_full_history_loses_the_agents_first_event(state: StateView, a: Arrival)
    requires
        state.valid(),
    ensures
        ({
            let arrived = UiEventView {
                seq: state.seq,
                label: a.label,
                ts_ms: a.ts_ms,
                session_id: a.session_id,
                event: a.event,
            };
            let own = crate::state::events_of(state.history, a.label).len();
            let all = state.history.push(arrived);
            &&& own < state.history_cap ==> state.after(a).history == all
            &&& own >= state.history_cap ==> exists|i: int|
                {
                    &&& 0 <= i < all.len()
                    &&& (#[trigger] all[i]).label == a.label
                    &&& forall|j: int| 0 <= j < i ==> (#[trigger] all[j]).label != a.label
                    &&& state.after(a).history == all.remove(i)
                }
        }),
{
    let event = state.ui_event(a.label, a.ts_ms, a.session_id, a.event);
    let all = state.history.push(event);
    assert(all.drop_last() =~= state.history);
    assert(crate::state::events_of(all, a.label).len() == crate::state::events_of(
        state.history,
        a.label,
    ).len() + 1) by {
        reveal(Seq::filter);
    }
    if crate::state::events_of(all, a.label).len() > state.history_cap {
        let i = crate::state::lemma_oldest_exists(all, a.label);
        crate::state::lemma_oldest_unique(all, a.label, i);
        assert(all[i].label == a.label);
    }
}

/// A list of agents, each with a label of its own, tells of a label exactly what the
/// agent with that label is.
pub proof fn listed_agents_are_known_by_label(agents: Seq<AgentView>, i: int, label: Seq<char>)
    requires
        crate::state::distinct_labels(agents),
        0 <= i < agents.len(),
    ensures
        crate::state::agent_map(agents).contains_key(agents[i].label),
        crate::state::agent_map(agents)[agents[i].label] == agents[i],
        crate::state::agent_map(agents).contains_key(label) <==> exists|k: int|
            0 <= k < agents.len() && (#[trigger] agents[k]).label == label,
        forall|k: int|
            0 <= k < agents.len() && k != i ==> (#[trigger] agents[k]).label != agents[i].label,
{
    let own = agents[i].label;
    let k = crate::state::slot_of(agents, own);
    assert(crate::state::has_label(agents, own));
    assert(agents[k].label == own);
    if k < i {
        assert(agents[k].label != agents[i].label);
    } else if i < k {
        assert(agents[i].label != agents[k].label);
    }
}

/// A frame counts for what its line says, whichever way it travelled: where the line
/// reads as one event, taking in the frame is taking in that event, at the frame's label
/// and time, and the news are that event and its agent.
pub proof fn a_frame_takes_in_its_event(
    state: StateView,
    frame: FrameView,
    session_id: Option<Seq<char>>,
    event: EventView,
)
    requires
        crate::parse::line_events(frame.line) == seq![(session_id, event)],
    ensures
        state.with_frame(frame) == state.ingested(frame.label, frame.ts_ms, session_id, event),
        state.news_of_frame(frame) == seq![
            BroadcastView::Event(
                UiEventView {
                    seq: state.seq,
                    label: frame.label,
                    ts_ms: frame.ts_ms,
                    session_id,
                    event,
                },
            ),
            BroadcastView::Agent(state.with_frame(frame).agents[frame.label]),
        ],
{
    lemma_one_event(state, frame.label, frame.ts_ms, (session_id, event));
}

/// A frame whose line says nothing changes nothing, and is no news.
pub proof fn a_silent_frame_changes_nothing(state: StateView, frame: FrameView)
    requires
        crate::parse::line_events(frame.line).len() == 0,
    ensures
        state.with_frame(frame) == state,
        state.news_of_frame(frame).len() == 0,
{
}

/// Which way a frame travelled plays no part: two frames that differ in nothing else
/// have the same effect and make the same news.
pub proof fn direction_plays_no_part(tap: TapView, a: FrameView, b: FrameView)
    requires
        a.label == b.label,
        a.ts_ms == b.ts_ms,
        a.line == b.line,
    ensures
        tap.state.with_frame(a) == tap.state.with_frame(b),
        tap.state.news_of_frame(a) == tap.state.news_of_frame(b),
        tap.after_line(Some(a)) == tap.after_line(Some(b)),
        tap.state.news_of_line(Some(a)) == tap.state.news_of_line(Some(b)),
{
}

/// Every event of a frame is taken in, in order: those of a first part, then those of
/// the rest, each with its own news.
pub proof fn events_are_taken_in_one_by_one(
    state: StateView,
    label: Seq<char>,
    ts_ms: u64,
    a: Seq<(Option<Seq<char>>, EventView)>,
    b: Seq<(Option<Seq<char>>, EventView)>,
    event: (Option<Seq<char>>, EventView),
)
    ensures
        state.with_events(label, ts_ms, Seq::empty()) == state,
        state.news_of(label, ts_ms, Seq::empty()).len() == 0,
        state.with_events(label, ts_ms, seq![event]) == state.ingested(
            label,
            ts_ms,
            event.0,
            event.1,
        ),
        state.with_events(label, ts_ms, a + b) == state.with_events(label, ts_ms, a).with_events(
            label,
            ts_ms,
            b,
        ),
        state.news_of(label, ts_ms, a + b) == state.news_of(label, ts_ms, a) + state.with_events(
            label,
            ts_ms,
            a,
        ).news_of(label, ts_ms, b),
    decreases b.len(),
{
    lemma_one_event(state, label, ts_ms, event);
    if b.len() == 0 {
        assert(a + b =~= a);
    } else {
        events_are_taken_in_one_by_one(state, label, ts_ms, a, b.drop_last(), event);
        assert((a + b).drop_last() =~= a + b.drop_last());
        assert((a + b).last() == b.last());
    }
}

/// A line that was read is taken in as its frame and names a tap that has no name yet;
/// one that could not be read leaves everything as it was.
pub proof fn lines_are_taken_in_as_their_frame(tap: TapView, frame: FrameView)
    ensures
        tap.after_line(Some(frame)).state == tap.state.with_frame(frame),
        tap.state.news_of_line(Some(frame)) == tap.state.news_of_frame(frame),
        tap.label is None ==> tap.after_line(Some(frame)).label == Some(frame.label),
        tap.label is Some ==> tap.after_line(Some(frame)).label == tap.label,
        tap.after_line(None) == tap,
        tap.state.news_of_line(None).len() == 0,
{
}

} // verus!
