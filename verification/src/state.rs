//! What the dashboard knows: the agents it has seen, and their recent events.

use std::collections::VecDeque;
use vstd::prelude::*;

use crate::text::reads;
use crate::wire::{copy_text, AgentSnapshot, AgentView, EventKind, EventView, UiEvent, UiEventView};

verus! {

/// What the dashboard knows, as a value.
#[verifier::ext_equal]
pub struct StateView {
    /// Every agent seen so far, by label.
    pub agents: Map<Seq<char>, AgentView>,
    /// Retained events, oldest first.
    pub history: Seq<UiEventView>,
    /// Number of events retained per agent.
    pub history_cap: nat,
    /// Sequence number of the next event.
    pub seq: u64,
}

/// Whether some agent in the list has the label.
pub open spec fn has_label(agents: Seq<AgentView>, label: Seq<char>) -> bool {
    exists|i: int| 0 <= i < agents.len() && (#[trigger] agents[i]).label == label
}

/// Where the agent with the label stands in the list.
pub open spec fn slot_of(agents: Seq<AgentView>, label: Seq<char>) -> int {
    choose|i: int| 0 <= i < agents.len() && (#[trigger] agents[i]).label == label
}

/// No two agents in the list share a label.
pub open spec fn distinct_labels(agents: Seq<AgentView>) -> bool {
    forall|i: int, j: int|
        0 <= i < j < agents.len() ==> (#[trigger] agents[i]).label != (#[trigger] agents[j]).label
}

/// The agents in the list, by label.
pub open spec fn agent_map(agents: Seq<AgentView>) -> Map<Seq<char>, AgentView> {
    Map::new(|label: Seq<char>| has_label(agents, label), |label: Seq<char>|
        agents[slot_of(agents, label)])
}

/// The retained events of one agent, oldest first.
pub open spec fn events_of(history: Seq<UiEventView>, label: Seq<char>) -> Seq<UiEventView> {
    history.filter(|e: UiEventView| e.label == label)
}

/// Whether `i` is the place of the oldest event of the agent.
pub open spec fn is_oldest(history: Seq<UiEventView>, label: Seq<char>, i: int) -> bool {
    &&& 0 <= i < history.len()
    &&& history[i].label == label
    &&& forall|j: int| 0 <= j < i ==> (#[trigger] history[j]).label != label
}

/// The history without the agent's oldest event.
pub open spec fn without_oldest(history: Seq<UiEventView>, label: Seq<char>) -> Seq<UiEventView> {
    history.remove(choose|i: int| is_oldest(history, label, i))
}

/// The history once the event has joined it: its agent's oldest event leaves
/// where the agent would otherwise have more than `cap` of them.
pub open spec fn recorded(history: Seq<UiEventView>, event: UiEventView, cap: nat) -> Seq<
    UiEventView,
> {
    let all = history.push(event);
    if events_of(all, event.label).len() > cap {
        without_oldest(all, event.label)
    } else {
        all
    }
}

/// An agent at its first event, before the event counts.
pub open spec fn new_agent(label: Seq<char>) -> AgentView {
    AgentView {
        label,
        connected: true,
        session_id: None,
        turn_started_ms: None,
        last_activity_ms: None,
        turns: 0,
        tool_calls: 0,
    }
}

/// The count after this one. Counts are taken modulo 2^64.
pub open spec fn one_more(count: u64) -> u64 {
    if count == u64::MAX {
        0
    } else {
        (count + 1) as u64
    }
}

/// The agent once the event counts.
pub open spec fn agent_after(
    agent: AgentView,
    ts_ms: u64,
    session_id: Option<Seq<char>>,
    event: EventView,
) -> AgentView {
    AgentView {
        label: agent.label,
        connected: true,
        session_id: match event {
            EventView::SessionCreated { session_id: created } => Some(created),
            _ => if session_id is Some {
                session_id
            } else {
                agent.session_id
            },
        },
        turn_started_ms: match event {
            EventView::TurnStarted { .. } => Some(ts_ms),
            EventView::TurnEnded { .. } => None,
            _ => agent.turn_started_ms,
        },
        last_activity_ms: Some(ts_ms),
        turns: if event is TurnStarted {
            one_more(agent.turns)
        } else {
            agent.turns
        },
        tool_calls: if event is ToolCall {
            one_more(agent.tool_calls)
        } else {
            agent.tool_calls
        },
    }
}

/// The agent once its tap is gone.
pub open spec fn agent_gone(agent: AgentView) -> AgentView {
    AgentView { connected: false, turn_started_ms: None, ..agent }
}

impl StateView {
    /// The agent with the label, or a new one.
    pub open spec fn agent_or_new(self, label: Seq<char>) -> AgentView {
        if self.agents.contains_key(label) {
            self.agents[label]
        } else {
            new_agent(label)
        }
    }

    /// The event as it will be broadcast and retained.
    pub open spec fn ui_event(
        self,
        label: Seq<char>,
        ts_ms: u64,
        session_id: Option<Seq<char>>,
        event: EventView,
    ) -> UiEventView {
        UiEventView { seq: self.seq, label, ts_ms, session_id, event }
    }

    /// What is known once the event has been taken in.
    pub open spec fn ingested(
        self,
        label: Seq<char>,
        ts_ms: u64,
        session_id: Option<Seq<char>>,
        event: EventView,
    ) -> StateView {
        StateView {
            agents: self.agents.insert(
                label,
                agent_after(self.agent_or_new(label), ts_ms, session_id, event),
            ),
            history: recorded(
                self.history,
                self.ui_event(label, ts_ms, session_id, event),
                self.history_cap,
            ),
            history_cap: self.history_cap,
            seq: one_more(self.seq),
        }
    }

    /// What is known once the agent's tap is gone.
    pub open spec fn disconnected(self, label: Seq<char>) -> StateView {
        if self.agents.contains_key(label) {
            StateView {
                agents: self.agents.insert(label, agent_gone(self.agents[label])),
                ..self
            }
        } else {
            self
        }
    }

    /// Every agent stands under its own label, every retained event is one of a
    /// known agent, and no agent has more events retained than the cap allows.
    pub open spec fn valid(self) -> bool {
        &&& self.agents.dom().finite()
        &&& forall|i: int|
            0 <= i < self.history.len() ==> self.agents.contains_key(
                (#[trigger] self.history[i]).label,
            )
        &&& forall|label: Seq<char>| #[trigger]
            self.agents.contains_key(label) ==> self.agents[label].label == label
        &&& forall|label: Seq<char>| #[trigger]
            events_of(self.history, label).len() <= self.history_cap
    }
}

proof fn lemma_slot(agents: Seq<AgentView>, i: int)
    requires
        distinct_labels(agents),
        0 <= i < agents.len(),
    ensures
        has_label(agents, agents[i].label),
        slot_of(agents, agents[i].label) == i,
{
    let j = slot_of(agents, agents[i].label);
    assert(0 <= j < agents.len() && agents[j].label == agents[i].label);
    if j < i {
        assert(agents[j].label != agents[i].label);
    } else if i < j {
        assert(agents[i].label != agents[j].label);
    }
}

proof fn lemma_update(agents: Seq<AgentView>, i: int, agent: AgentView)
    requires
        distinct_labels(agents),
        0 <= i < agents.len(),
        agent.label == agents[i].label,
    ensures
        distinct_labels(agents.update(i, agent)),
        agent_map(agents.update(i, agent)) == agent_map(agents).insert(agent.label, agent),
{
    let after = agents.update(i, agent);
    assert(distinct_labels(after));
    lemma_slot(after, i);
    assert forall|label: Seq<char>| has_label(after, label) == #[trigger] agent_map(
        agents,
    ).insert(agent.label, agent).contains_key(label) by {
        if has_label(after, label) {
            let j = slot_of(after, label);
            assert(agents[j].label == label);
        }
        if has_label(agents, label) {
            let j = slot_of(agents, label);
            assert(after[j].label == label);
        }
    }
    assert forall|label: Seq<char>| has_label(after, label) && label != agent.label implies after[slot_of(
        after,
        label,
    )] == agents[slot_of(agents, label)] by {
        let j = slot_of(after, label);
        assert(after[j].label == label);
        lemma_slot(agents, j);
    }
    assert(agent_map(after) =~= agent_map(agents).insert(agent.label, agent));
}

proof fn lemma_push(agents: Seq<AgentView>, agent: AgentView)
    requires
        distinct_labels(agents),
        !has_label(agents, agent.label),
    ensures
        distinct_labels(agents.push(agent)),
        agent_map(agents.push(agent)) == agent_map(agents).insert(agent.label, agent),
{
    let after = agents.push(agent);
    assert(distinct_labels(after));
    lemma_slot(after, agents.len() as int);
    assert forall|label: Seq<char>| has_label(after, label) == #[trigger] agent_map(
        agents,
    ).insert(agent.label, agent).contains_key(label) by {
        if has_label(after, label) {
            let j = slot_of(after, label);
            if j < agents.len() {
                assert(agents[j].label == label);
            }
        }
        if has_label(agents, label) {
            let j = slot_of(agents, label);
            assert(after[j].label == label);
        }
    }
    assert forall|label: Seq<char>| has_label(after, label) && label != agent.label implies after[slot_of(
        after,
        label,
    )] == agents[slot_of(agents, label)] by {
        let j = slot_of(after, label);
        assert(after[j].label == label);
        lemma_slot(agents, j);
    }
    assert(agent_map(after) =~= agent_map(agents).insert(agent.label, agent));
}

pub(crate) proof fn lemma_oldest_unique(history: Seq<UiEventView>, label: Seq<char>, i: int)
    requires
        is_oldest(history, label, i),
    ensures
        without_oldest(history, label) == history.remove(i),
{
    let j = choose|j: int| is_oldest(history, label, j);
    assert(is_oldest(history, label, j));
    if i < j {
        assert(history[i].label != label);
    } else if j < i {
        assert(history[j].label != label);
    }
}

/// An event of the agent is found in the history as long as one is retained.
pub(crate) proof fn lemma_oldest_exists(history: Seq<UiEventView>, label: Seq<char>) -> (i: int)
    requires
        events_of(history, label).len() > 0,
    ensures
        is_oldest(history, label, i),
    decreases history.len(),
{
    reveal(Seq::filter);
    let front = history.drop_last();
    if events_of(front, label).len() > 0 {
        let i = lemma_oldest_exists(front, label);
        assert(forall|j: int| 0 <= j < i ==> history[j] == front[j]);
        i
    } else {
        let i = history.len() - 1;
        assert forall|j: int| 0 <= j < i implies (#[trigger] history[j]).label != label by {
            if history[j].label == label {
                front.lemma_filter_contains(|e: UiEventView| e.label == label, j);
            }
        }
        i
    }
}

/// Retention, agent by agent: of the event's own agent the last `cap` events
/// stay, the new one the last of them, and every other agent keeps what it had.
pub proof fn recorded_per_agent(
    history: Seq<UiEventView>,
    event: UiEventView,
    cap: nat,
    label: Seq<char>,
)
    requires
        events_of(history, event.label).len() <= cap,
    ensures
        label == event.label ==> events_of(recorded(history, event, cap), label) == ({
            let own = events_of(history, label).push(event);
            if own.len() > cap {
                own.drop_first()
            } else {
                own
            }
        }),
        label != event.label ==> events_of(recorded(history, event, cap), label) == events_of(
            history,
            label,
        ),
{
    reveal(Seq::filter);
    let pred = |e: UiEventView| e.label == label;
    let all = history.push(event);
    assert(all.drop_last() =~= history);
    if events_of(all, event.label).len() > cap {
        let i = lemma_oldest_exists(all, event.label);
        lemma_oldest_unique(all, event.label, i);
        let head = all.take(i);
        let mid = seq![all[i]];
        let tail = all.skip(i + 1);
        assert(all =~= head + mid + tail);
        assert(all.remove(i) =~= head + tail);
        Seq::filter_distributes_over_add(head + mid, tail, pred);
        Seq::filter_distributes_over_add(head, mid, pred);
        Seq::filter_distributes_over_add(head, tail, pred);
        assert(mid.drop_last() =~= Seq::empty());
        assert(Seq::<UiEventView>::empty().filter(pred) =~= Seq::empty());
        if label == event.label {
            if head.filter(pred).len() > 0 {
                let j = lemma_oldest_exists(head, label);
                assert(all[j].label != event.label);
            }
            assert(mid.filter(pred) =~= mid);
            assert(all.filter(pred) =~= mid + tail.filter(pred));
            assert(all.filter(pred).drop_first() =~= tail.filter(pred));
            assert(all.remove(i).filter(pred) =~= tail.filter(pred));
        } else {
            assert(mid.filter(pred) =~= Seq::empty());
            assert(all.remove(i).filter(pred) =~= all.filter(pred));
        }
    }
}

/// Taking in an event keeps the state valid: in particular no agent ever has
/// more events retained than the cap allows.
pub proof fn ingested_stays_valid(
    state: StateView,
    label: Seq<char>,
    ts_ms: u64,
    session_id: Option<Seq<char>>,
    event: EventView,
)
    requires
        state.valid(),
    ensures
        state.ingested(label, ts_ms, session_id, event).valid(),
{
    let ui = state.ui_event(label, ts_ms, session_id, event);
    let after = state.ingested(label, ts_ms, session_id, event);
    let all = state.history.push(ui);
    assert(forall|i: int|
        0 <= i < all.len() ==> after.agents.contains_key((#[trigger] all[i]).label));
    if events_of(all, label).len() > state.history_cap {
        let oldest = lemma_oldest_exists(all, label);
        lemma_oldest_unique(all, label, oldest);
        assert forall|i: int| 0 <= i < after.history.len() implies after.agents.contains_key(
            (#[trigger] after.history[i]).label,
        ) by {
            assert(after.history[i] == if i < oldest {
                all[i]
            } else {
                all[i + 1]
            });
        }
    }
    assert forall|l: Seq<char>| #[trigger]
        events_of(after.history, l).len() <= after.history_cap by {
        recorded_per_agent(state.history, ui, state.history_cap, l);
        assert(events_of(state.history, l).len() <= state.history_cap);
    }
}

/// Losing a tap keeps the state valid.
pub proof fn disconnected_stays_valid(state: StateView, label: Seq<char>)
    requires
        state.valid(),
    ensures
        state.disconnected(label).valid(),
{
}

/// Something to tell every browser.
#[derive(Debug)]
pub enum Broadcast {
    Event(UiEvent),
    Agent(AgentSnapshot),
}

/// What a [`Broadcast`] says.
#[verifier::ext_equal]
pub enum BroadcastView {
    Event(UiEventView),
    Agent(AgentView),
}

impl View for Broadcast {
    type V = BroadcastView;

    open spec fn view(&self) -> BroadcastView {
        match *self {
            Broadcast::Event(event) => BroadcastView::Event(event@),
            Broadcast::Agent(agent) => BroadcastView::Agent(agent@),
        }
    }
}

impl DeepView for Broadcast {
    type V = BroadcastView;

    open spec fn deep_view(&self) -> BroadcastView {
        self@
    }
}

impl Clone for Broadcast {
    fn clone(&self) -> (copy: Self)
        ensures
            copy@ == self@,
    {
        match self {
            Broadcast::Event(event) => Broadcast::Event(event.clone()),
            Broadcast::Agent(agent) => Broadcast::Agent(agent.clone()),
        }
    }
}

/// A broadcast says all of its event or of its agent.
pub proof fn broadcasts_say_all_they_hold(news: Broadcast)
    ensures
        news matches Broadcast::Event(event) ==> news@ is Event && news@->Event_0 == event@,
        news matches Broadcast::Agent(agent) ==> news@ is Agent && news@->Agent_0 == agent@,
        news.deep_view() == news@,
{
}

/// Everything the dashboard knows, for a browser that has just connected.
#[derive(Debug)]
pub struct Snapshot {
    pub kind: &'static str,
    pub agents: Vec<AgentSnapshot>,
    pub events: Vec<UiEvent>,
}

/// The dashboard's state.
pub struct AppState {
    agents: Vec<AgentSnapshot>,
    history: VecDeque<UiEvent>,
    history_cap: usize,
    seq: u64,
}

impl View for AppState {
    type V = StateView;

    closed spec fn view(&self) -> StateView {
        StateView {
            agents: agent_map(self.agents.deep_view()),
            history: self.history@.map_values(|e: UiEvent| e@),
            history_cap: self.history_cap as nat,
            seq: self.seq,
        }
    }
}

impl AppState {
    /// Holds of every state that `new` made and the methods changed.
    pub closed spec fn wf(&self) -> bool {
        &&& distinct_labels(self.agents.deep_view())
        &&& self@.valid()
    }

    /// What is known to a well-formed state is valid.
    pub proof fn wf_is_valid(&self)
        requires
            self.wf(),
        ensures
            self@.valid(),
    {
    }

    /// A dashboard that has seen nothing, to retain `history_cap` events per agent.
    pub fn new(history_cap: usize) -> (state: Self)
        ensures
            state.wf(),
            state@ == (StateView {
                agents: Map::empty(),
                history: Seq::empty(),
                history_cap: history_cap as nat,
                seq: 1,
            }),
    {
        let state: AppState = AppState {
            agents: Vec::new(),
            history: VecDeque::new(),
            history_cap,
            seq: 1,
        };
        proof {
            assert(state@.agents =~= Map::empty());
            assert(state@.history =~= Seq::empty());
            reveal(Seq::filter);
        }
        state
    }

    /// The place of the agent with the label.
    fn find(&self, label: &str) -> (found: Option<usize>)
        ensures
            match found {
                Some(i) => i < self.agents@.len() && self.agents@[i as int].label@ == label@,
                None => !has_label(self.agents.deep_view(), label@),
            },
    {
        let mut i: usize = 0;
        while i < self.agents.len()
            invariant
                i <= self.agents@.len(),
                forall|k: int| 0 <= k < i ==> (#[trigger] self.agents@[k]).label@ != label@,
            decreases self.agents@.len() - i,
        {
            if reads(&self.agents[i].label, label) {
                return Some(i);
            }
            i = i + 1;
        }
        None
    }

    /// Appends an event to the history, and drops its agent's oldest one where
    /// the agent now has too many.
    fn record(&mut self, event: UiEvent)
        ensures
            final(self)@ == (StateView {
                history: recorded(old(self)@.history, event@, old(self)@.history_cap),
                ..old(self)@
            }),
            final(self).agents == old(self).agents,
    {
        let label: String = event.label.clone();
        let ghost before = self@.history;
        self.history.push_back(event);
        let ghost all = before.push(event@);
        assert(self.history@.map_values(|e: UiEvent| e@) =~= all);
        let mut count: usize = 0;
        let mut oldest: usize = 0;
        let mut i: usize = 0;
        proof {
            reveal(Seq::filter);
            assert(all.take(0) =~= Seq::empty());
        }
        while i < self.history.len()
            invariant
                i <= self.history@.len(),
                count <= i,
                all == self.history@.map_values(|e: UiEvent| e@),
                count == events_of(all.take(i as int), label@).len(),
                count == 0 ==> forall|j: int| 0 <= j < i ==> (#[trigger] all[j]).label != label@,
                count > 0 ==> is_oldest(all, label@, oldest as int),
            decreases self.history@.len() - i,
        {
            proof {
                reveal(Seq::filter);
                assert(all.take(i + 1).drop_last() =~= all.take(i as int));
                assert(all.take(i + 1).last() == self.history@[i as int]@);
            }
            if reads(&self.history[i].label, label.as_str()) {
                if count == 0 {
                    oldest = i;
                }
                count = count + 1;
            }
            i = i + 1;
        }
        assert(all.take(i as int) =~= all);
        if count > self.history_cap {
            proof {
                lemma_oldest_unique(all, label@, oldest as int);
            }
            let _ = self.history.remove(oldest);
            assert(self.history@.map_values(|e: UiEvent| e@) =~= all.remove(oldest as int));
        }
    }

    /// Fold one parsed event into agent state, and say what to broadcast: the
    /// event, then its agent.
    pub fn ingest(
        &mut self,
        label: &str,
        ts_ms: u64,
        session_id: Option<String>,
        event: EventKind,
    ) -> (news: Vec<Broadcast>)
        requires
            old(self).wf(),
        ensures
            final(self).wf(),
            final(self)@ == old(self)@.ingested(label@, ts_ms, session_id.deep_view(), event@),
            news.deep_view() == seq![
                BroadcastView::Event(
                    old(self)@.ui_event(label@, ts_ms, session_id.deep_view(), event@),
                ),
                BroadcastView::Agent(final(self)@.agents[label@]),
            ],
    {
        let ghost before = self@;
        let ghost listed = self.agents.deep_view();
        let found: Option<usize> = self.find(label);
        let mut agent: AgentSnapshot = match found {
            Some(i) => {
                proof {
                    lemma_slot(listed, i as int);
                }
                self.agents[i].clone()
            },
            None => {
                let mut fresh: AgentSnapshot = AgentSnapshot::default();
                fresh.label = label.to_string();
                fresh.connected = true;
                fresh
            },
        };
        assert(agent@ == before.agent_or_new(label@));

        agent.connected = true;
        agent.last_activity_ms = Some(ts_ms);
        if session_id.is_some() {
            agent.session_id = copy_text(&session_id);
        }
        match &event {
            EventKind::TurnStarted { .. } => {
                agent.turn_started_ms = Some(ts_ms);
                agent.turns = agent.turns.wrapping_add(1);
            },
            EventKind::TurnEnded { .. } => {
                agent.turn_started_ms = None;
            },
            EventKind::ToolCall { .. } => {
                agent.tool_calls = agent.tool_calls.wrapping_add(1);
            },
            EventKind::SessionCreated { session_id: created } => {
                agent.session_id = Some(created.clone());
            },
            _ => {},
        }
        assert(agent@ == agent_after(
            before.agent_or_new(label@),
            ts_ms,
            session_id.deep_view(),
            event@,
        ));

        let snapshot: AgentSnapshot = agent.clone();
        match found {
            Some(i) => {
                self.agents.set(i, agent);
                proof {
                    lemma_update(listed, i as int, agent@);
                    assert(self.agents.deep_view() =~= listed.update(i as int, agent@));
                }
            },
            None => {
                self.agents.push(agent);
                proof {
                    lemma_push(listed, agent@);
                    assert(self.agents.deep_view() =~= listed.push(agent@));
                }
            },
        }
        assert(self@.agents =~= before.agents.insert(label@, agent@));

        let ui: UiEvent = UiEvent {
            seq: self.seq,
            label: label.to_string(),
            ts_ms,
            session_id,
            event,
        };
        self.seq = self.seq.wrapping_add(1);
        let mut news: Vec<Broadcast> = Vec::new();
        news.push(Broadcast::Event(ui.clone()));
        self.record(ui);
        news.push(Broadcast::Agent(snapshot));
        proof {
            ingested_stays_valid(before, label@, ts_ms, session_id.deep_view(), event@);
            assert(news.deep_view() =~= seq![
                BroadcastView::Event(ui@),
                BroadcastView::Agent(agent@),
            ]);
        }
        news
    }

    /// Marks the agent's tap as gone, ending any turn in flight, and says what
    /// to broadcast; `None` for a label that was never seen.
    pub fn mark_disconnected(&mut self, label: &str) -> (news: Option<Broadcast>)
        requires
            old(self).wf(),
        ensures
            final(self).wf(),
            final(self)@ == old(self)@.disconnected(label@),
            news.deep_view() == (if old(self)@.agents.contains_key(label@) {
                Some(BroadcastView::Agent(final(self)@.agents[label@]))
            } else {
                None
            }),
    {
        let ghost before = self@;
        let ghost listed = self.agents.deep_view();
        match self.find(label) {
            Some(i) => {
                proof {
                    lemma_slot(listed, i as int);
                }
                let mut agent: AgentSnapshot = self.agents[i].clone();
                agent.connected = false;
                agent.turn_started_ms = None;
                let snapshot: AgentSnapshot = agent.clone();
                self.agents.set(i, agent);
                proof {
                    lemma_update(listed, i as int, agent@);
                    assert(self.agents.deep_view() =~= listed.update(i as int, agent@));
                    assert(agent@ == agent_gone(before.agents[label@]));
                    assert(self@.agents =~= before.agents.insert(label@, agent@));
                    disconnected_stays_valid(before, label@);
                }
                Some(Broadcast::Agent(snapshot))
            },
            None => None,
        }
    }

    /// Every agent seen so far, each once. The order carries no meaning.
    pub fn agents(&self) -> (agents: Vec<AgentSnapshot>)
        requires
            self.wf(),
        ensures
            distinct_labels(agents.deep_view()),
            agent_map(agents.deep_view()) == self@.agents,
    {
        let mut agents: Vec<AgentSnapshot> = Vec::new();
        let mut i: usize = 0;
        while i < self.agents.len()
            invariant
                i <= self.agents@.len(),
                agents@.len() == i,
                forall|k: int| 0 <= k < i ==> (#[trigger] agents@[k])@ == self.agents@[k]@,
            decreases self.agents@.len() - i,
        {
            agents.push(self.agents[i].clone());
            i = i + 1;
        }
        assert(agents.deep_view() =~= self.agents.deep_view());
        agents
    }

    /// Current state, so that a late browser sees history immediately.
    pub fn snapshot(&self) -> (snapshot: Snapshot)
        requires
            self.wf(),
        ensures
            snapshot.kind@ == "snapshot"@,
            distinct_labels(snapshot.agents.deep_view()),
            agent_map(snapshot.agents.deep_view()) == self@.agents,
            snapshot.events.deep_view() == self@.history,
    {
        let mut events: Vec<UiEvent> = Vec::new();
        let mut i: usize = 0;
        while i < self.history.len()
            invariant
                i <= self.history@.len(),
                events@.len() == i,
                forall|k: int| 0 <= k < i ==> (#[trigger] events@[k])@ == self.history@[k]@,
            decreases self.history@.len() - i,
        {
            events.push(self.history[i].clone());
            i = i + 1;
        }
        assert(events.deep_view() =~= self@.history);
        Snapshot { kind: "snapshot", agents: self.agents(), events }
    }
}

} // verus!
