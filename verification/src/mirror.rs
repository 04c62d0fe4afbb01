//! Shipping mirrored frames to the dashboard, reconnecting with backoff.
//!
//! [`Mirror`] decides; whoever drives it performs each action and reports what
//! came of it. Every failure ends in dropping the frame and trying again later.

use vstd::prelude::*;

use crate::pump::NEWLINE;

verus! {

/// Bounded mirror queue. Full queue means the dashboard is not keeping up, and
/// dropping telemetry is always preferable to stalling the agent.
pub const MIRROR_QUEUE: usize = 1024;

/// Pause after the first failed connect, in milliseconds.
pub const FIRST_BACKOFF_MS: u64 = 250;

/// The longest pause, in milliseconds.
pub const MAX_BACKOFF_MS: u64 = 10_000;

/// Writes tried for one frame. A dashboard restart kills the existing
/// connection, and the failing write is typically the first frame of a new turn:
/// dropping it would silently lose the prompt that started the turn.
pub const WRITE_ATTEMPTS: u8 = 2;

/// What the mirror waits for.
#[derive(Clone, Copy, Debug, PartialEq, Eq, Structural)]
pub enum MirrorStep {
    /// The next frame.
    Idle,
    /// The outcome of a connect.
    Connecting,
    /// The outcome of a write.
    Writing,
    /// The end of a pause.
    Pausing,
}

/// What came of the last action.
#[derive(Debug)]
pub enum MirrorEvent {
    /// A frame has arrived, and this is how it is encoded.
    FrameReady(Vec<u8>),
    /// A frame has arrived that cannot be encoded.
    FrameUnreadable,
    Connected,
    ConnectFailed,
    Written,
    WriteFailed,
    Paused,
}

/// What a [`MirrorEvent`] says.
#[verifier::ext_equal]
pub enum MirrorEventView {
    FrameReady(Seq<u8>),
    FrameUnreadable,
    Connected,
    ConnectFailed,
    Written,
    WriteFailed,
    Paused,
}

impl View for MirrorEvent {
    type V = MirrorEventView;

    open spec fn view(&self) -> MirrorEventView {
        match *self {
            MirrorEvent::FrameReady(encoded) => MirrorEventView::FrameReady(encoded@),
            MirrorEvent::FrameUnreadable => MirrorEventView::FrameUnreadable,
            MirrorEvent::Connected => MirrorEventView::Connected,
            MirrorEvent::ConnectFailed => MirrorEventView::ConnectFailed,
            MirrorEvent::Written => MirrorEventView::Written,
            MirrorEvent::WriteFailed => MirrorEventView::WriteFailed,
            MirrorEvent::Paused => MirrorEventView::Paused,
        }
    }
}

/// What to do next.
#[derive(Debug)]
pub enum MirrorAction {
    /// Be done with the frame, written or not, and take the next one.
    NextFrame,
    /// Open a connection.
    Connect,
    /// Write these bytes to the connection.
    Write(Vec<u8>),
    /// Wait that many milliseconds.
    Pause(u64),
}

/// What a [`MirrorAction`] says.
#[verifier::ext_equal]
pub enum MirrorActionView {
    NextFrame,
    Connect,
    Write(Seq<u8>),
    Pause(u64),
}

impl View for MirrorAction {
    type V = MirrorActionView;

    open spec fn view(&self) -> MirrorActionView {
        match *self {
            MirrorAction::NextFrame => MirrorActionView::NextFrame,
            MirrorAction::Connect => MirrorActionView::Connect,
            MirrorAction::Write(bytes) => MirrorActionView::Write(bytes@),
            MirrorAction::Pause(ms) => MirrorActionView::Pause(ms),
        }
    }
}

/// Events and actions say all they hold: the bytes of a frame, the bytes to write, the
/// length of a pause.
pub proof fn steps_say_all_they_hold(event: MirrorEvent, action: MirrorAction)
    ensures
        event matches MirrorEvent::FrameReady(encoded) ==> event@ is FrameReady
            && event@->FrameReady_0 == encoded@,
        event is FrameUnreadable <==> event@ is FrameUnreadable,
        event is Connected <==> event@ is Connected,
        event is ConnectFailed <==> event@ is ConnectFailed,
        event is Written <==> event@ is Written,
        event is WriteFailed <==> event@ is WriteFailed,
        event is Paused <==> event@ is Paused,
        action matches MirrorAction::Write(bytes) ==> action@ is Write && action@->Write_0
            == bytes@,
        action matches MirrorAction::Pause(ms) ==> action@ is Pause && action@->Pause_0 == ms,
        action is NextFrame <==> action@ is NextFrame,
        action is Connect <==> action@ is Connect,
{
}

/// Where a mirror stands: whether there is a connection, how long the next
/// pause is, and how far the current frame has come.
#[verifier::ext_equal]
pub struct MirrorView {
    pub connected: bool,
    pub backoff_ms: u64,
    pub step: MirrorStep,
    /// Writes of the current frame that have failed.
    pub failures: u8,
    /// The current frame as it goes over the wire.
    pub payload: Seq<u8>,
}

/// Bytes as they go over the wire: terminated by a newline.
pub open spec fn on_the_wire(encoded: Seq<u8>) -> Seq<u8> {
    encoded.push(NEWLINE)
}

/// The pause after the next failed connect, given the one just made.
pub open spec fn doubled(backoff_ms: u64) -> u64 {
    if 2 * backoff_ms <= MAX_BACKOFF_MS {
        (2 * backoff_ms) as u64
    } else {
        MAX_BACKOFF_MS
    }
}

/// Whether the bytes are one line: a newline at the end and nowhere else.
pub open spec fn single_line(bytes: Seq<u8>) -> bool {
    &&& bytes.len() > 0
    &&& bytes.last() == NEWLINE
    &&& crate::pump::newline_free(bytes.drop_last())
}

proof fn lemma_single_line(encoded: Seq<u8>)
    requires
        crate::pump::newline_free(encoded),
    ensures
        single_line(on_the_wire(encoded)),
{
    assert(on_the_wire(encoded).drop_last() =~= encoded);
}

impl MirrorView {
    /// The pause is within its limits; while a frame is under way it is one line, a
    /// connection exists where it is written to and only there, and it has writes
    /// left.
    pub open spec fn wf(self) -> bool {
        &&& FIRST_BACKOFF_MS <= self.backoff_ms <= MAX_BACKOFF_MS
        &&& !(self.step is Idle) ==> single_line(self.payload)
        &&& match self.step {
            MirrorStep::Idle => true,
            MirrorStep::Writing => self.connected && self.failures < WRITE_ATTEMPTS,
            MirrorStep::Connecting => !self.connected && self.failures < WRITE_ATTEMPTS,
            MirrorStep::Pausing => !self.connected && self.failures < WRITE_ATTEMPTS,
        }
    }

    /// Whether the event can be what came of the last action.
    pub open spec fn awaits(self, event: MirrorEventView) -> bool {
        match self.step {
            MirrorStep::Idle => event is FrameReady || event is FrameUnreadable,
            MirrorStep::Connecting => event is Connected || event is ConnectFailed,
            MirrorStep::Writing => event is Written || event is WriteFailed,
            MirrorStep::Pausing => event is Paused,
        }
    }

    /// The mirror after the event, and what to do next. A frame whose encoding is more
    /// than one line is dropped: it would be read as something else.
    pub open spec fn after(self, event: MirrorEventView) -> (MirrorView, MirrorActionView) {
        match event {
            MirrorEventView::FrameReady(encoded) => {
                let payload = on_the_wire(encoded);
                if !crate::pump::newline_free(encoded) {
                    (MirrorView { step: MirrorStep::Idle, ..self }, MirrorActionView::NextFrame)
                } else if self.connected {
                    (
                        MirrorView { step: MirrorStep::Writing, failures: 0, payload, ..self },
                        MirrorActionView::Write(payload),
                    )
                } else {
                    (
                        MirrorView { step: MirrorStep::Connecting, failures: 0, payload, ..self },
                        MirrorActionView::Connect,
                    )
                }
            },
            MirrorEventView::Connected => (
                MirrorView {
                    connected: true,
                    backoff_ms: FIRST_BACKOFF_MS,
                    step: MirrorStep::Writing,
                    ..self
                },
                MirrorActionView::Write(self.payload),
            ),
            MirrorEventView::ConnectFailed => (
                MirrorView { step: MirrorStep::Pausing, ..self },
                MirrorActionView::Pause(self.backoff_ms),
            ),
            MirrorEventView::Paused => (
                MirrorView { backoff_ms: doubled(self.backoff_ms), step: MirrorStep::Idle, ..self },
                MirrorActionView::NextFrame,
            ),
            MirrorEventView::WriteFailed => if self.failures + 1 < WRITE_ATTEMPTS {
                (
                    MirrorView {
                        connected: false,
                        step: MirrorStep::Connecting,
                        failures: (self.failures + 1) as u8,
                        ..self
                    },
                    MirrorActionView::Connect,
                )
            } else {
                (
                    MirrorView { connected: false, step: MirrorStep::Idle, ..self },
                    MirrorActionView::NextFrame,
                )
            },
            MirrorEventView::Written | MirrorEventView::FrameUnreadable => (
                MirrorView { step: MirrorStep::Idle, ..self },
                MirrorActionView::NextFrame,
            ),
        }
    }

    /// How many more outcomes the current frame can take.
    pub open spec fn outcomes_left(self) -> nat {
        match self.step {
            MirrorStep::Idle => 0,
            MirrorStep::Pausing => 1,
            MirrorStep::Writing => (2 * (WRITE_ATTEMPTS - self.failures) - 1) as nat,
            MirrorStep::Connecting => (2 * (WRITE_ATTEMPTS - self.failures)) as nat,
        }
    }

    /// The mirror after a frame for which every connect fails.
    pub open spec fn after_absent_dashboard(self, encoded: Seq<u8>) -> MirrorView {
        self.after(MirrorEventView::FrameReady(encoded)).0.after(
            MirrorEventView::ConnectFailed,
        ).0.after(MirrorEventView::Paused).0
    }

    /// The mirror after these frames, for all of which every connect fails.
    pub open spec fn after_absence(self, frames: Seq<Seq<u8>>) -> MirrorView
        decreases frames.len(),
    {
        if frames.len() == 0 {
            self
        } else {
            self.after_absence(frames.drop_last()).after_absent_dashboard(frames.last())
        }
    }

    /// The mirror after a run of events.
    pub open spec fn after_all(self, events: Seq<MirrorEventView>) -> MirrorView
        decreases events.len(),
    {
        if events.len() == 0 {
            self
        } else {
            self.after_all(events.drop_last()).after(events.last()).0
        }
    }

    /// Whether each event of the run is one that the mirror then waits for.
    pub open spec fn can_run(self, events: Seq<MirrorEventView>) -> bool
        decreases events.len(),
    {
        events.len() == 0 || (self.can_run(events.drop_last()) && self.after_all(
            events.drop_last(),
        ).awaits(events.last()))
    }
}

/// How often the run makes the mirror connect.
pub open spec fn connects(mirror: MirrorView, events: Seq<MirrorEventView>) -> nat
    decreases events.len(),
{
    if events.len() == 0 {
        0
    } else {
        connects(mirror, events.drop_last()) + if mirror.after_all(events.drop_last()).after(
            events.last(),
        ).1 is Connect {
            1nat
        } else {
            0nat
        }
    }
}

/// How often the run makes the mirror pause.
pub open spec fn pauses(mirror: MirrorView, events: Seq<MirrorEventView>) -> nat
    decreases events.len(),
{
    if events.len() == 0 {
        0
    } else {
        pauses(mirror, events.drop_last()) + if mirror.after_all(events.drop_last()).after(
            events.last(),
        ).1 is Pause {
            1nat
        } else {
            0nat
        }
    }
}

/// How often the run makes the mirror write.
pub open spec fn writes(mirror: MirrorView, events: Seq<MirrorEventView>) -> nat
    decreases events.len(),
{
    if events.len() == 0 {
        0
    } else {
        writes(mirror, events.drop_last()) + if mirror.after_all(events.drop_last()).after(
            events.last(),
        ).1 is Write {
            1nat
        } else {
            0nat
        }
    }
}

/// Whether the run starts with a frame's arrival and stays with that frame: the
/// mirror is idle before it and, if at all, at its end.
pub open spec fn within_a_frame(mirror: MirrorView, events: Seq<MirrorEventView>) -> bool {
    &&& mirror.step is Idle
    &&& mirror.can_run(events)
    &&& forall|i: int|
        1 <= i < events.len() ==> !(mirror.after_all(#[trigger] events.take(i)).step is Idle)
}

/// Every event the mirror waits for leaves it well formed: the pause stays
/// between its first value and its limit in every state.
pub proof fn backoff_stays_bounded(mirror: MirrorView, events: Seq<MirrorEventView>)
    requires
        mirror.wf(),
        mirror.can_run(events),
    ensures
        mirror.after_all(events).wf(),
        FIRST_BACKOFF_MS <= mirror.after_all(events).backoff_ms <= MAX_BACKOFF_MS,
    decreases events.len(),
{
    if events.len() > 0 {
        backoff_stays_bounded(mirror, events.drop_last());
        if let MirrorEventView::FrameReady(encoded) = events.last() {
            if crate::pump::newline_free(encoded) {
                lemma_single_line(encoded);
            }
        }
    }
}

/// Each outcome brings the current frame nearer to its end, so that no frame
/// holds up the ones behind it for more than five outcomes.
pub proof fn frame_comes_to_an_end(mirror: MirrorView, event: MirrorEventView)
    requires
        mirror.wf(),
        mirror.awaits(event),
    ensures
        mirror.step is Idle ==> mirror.after(event).0.outcomes_left() <= 4,
        !(mirror.step is Idle) ==> mirror.after(event).0.outcomes_left() < mirror.outcomes_left(),
        (mirror.after(event).0.step is Idle) == (mirror.after(event).1 is NextFrame),
{
}

/// Between two frames the mirror writes a frame's payload at most twice.
pub proof fn at_most_two_writes(mirror: MirrorView, events: Seq<MirrorEventView>)
    requires
        mirror.wf(),
        within_a_frame(mirror, events),
    ensures
        writes(mirror, events) <= WRITE_ATTEMPTS,
{
    if events.len() > 0 {
        lemma_budget(mirror, events);
    }
}

/// Between two frames the mirror connects at most twice.
pub proof fn at_most_two_connects(mirror: MirrorView, events: Seq<MirrorEventView>)
    requires
        mirror.wf(),
        within_a_frame(mirror, events),
    ensures
        connects(mirror, events) <= WRITE_ATTEMPTS,
{
    if events.len() > 0 {
        lemma_budget(mirror, events);
    }
}

/// Between two frames the mirror pauses at most once.
pub proof fn at_most_one_pause(mirror: MirrorView, events: Seq<MirrorEventView>)
    requires
        mirror.wf(),
        within_a_frame(mirror, events),
    ensures
        pauses(mirror, events) <= 1,
{
    if events.len() > 0 {
        lemma_budget(mirror, events);
    }
}

/// No pause is longer than the limit, nor shorter than the first one.
pub proof fn pauses_are_bounded(mirror: MirrorView, event: MirrorEventView)
    requires
        mirror.wf(),
        mirror.awaits(event),
    ensures
        mirror.after(event).1 matches MirrorActionView::Pause(ms) ==> FIRST_BACKOFF_MS <= ms
            <= MAX_BACKOFF_MS,
{
}

/// What was done so far within a frame, and what can still be done for it, come to
/// no more than the limits.
proof fn lemma_budget(mirror: MirrorView, events: Seq<MirrorEventView>)
    requires
        mirror.wf(),
        within_a_frame(mirror, events),
        events.len() > 0,
    ensures
        ({
            let later = mirror.after_all(events);
            let left = WRITE_ATTEMPTS - later.failures;
            &&& later.wf()
            &&& match later.step {
                MirrorStep::Idle | MirrorStep::Pausing => {
                    &&& writes(mirror, events) <= WRITE_ATTEMPTS
                    &&& connects(mirror, events) <= WRITE_ATTEMPTS
                    &&& pauses(mirror, events) <= 1
                },
                MirrorStep::Writing => {
                    &&& writes(mirror, events) + left - 1 <= WRITE_ATTEMPTS
                    &&& connects(mirror, events) + left - 1 <= WRITE_ATTEMPTS
                    &&& pauses(mirror, events) == 0
                },
                MirrorStep::Connecting => {
                    &&& writes(mirror, events) + left <= WRITE_ATTEMPTS
                    &&& connects(mirror, events) + left - 1 <= WRITE_ATTEMPTS
                    &&& pauses(mirror, events) == 0
                },
            }
        }),
    decreases events.len(),
{
    let front = events.drop_last();
    backoff_stays_bounded(mirror, events);
    if front.len() > 0 {
        assert forall|i: int| 1 <= i < front.len() implies !(mirror.after_all(
            #[trigger] front.take(i),
        ).step is Idle) by {
            assert(front.take(i) =~= events.take(i));
        }
        lemma_budget(mirror, front);
        assert(events.take(front.len() as int) =~= front);
    } else {
        reveal_with_fuel(writes, 2);
        reveal_with_fuel(connects, 2);
        reveal_with_fuel(pauses, 2);
        reveal_with_fuel(MirrorView::after_all, 2);
        reveal_with_fuel(MirrorView::can_run, 2);
    }
}

/// A stale connection costs no frame: where the write fails on the connection at
/// hand, the mirror reconnects and writes the same frame once more.
pub proof fn stale_connection_is_retried(mirror: MirrorView, encoded: Seq<u8>)
    requires
        mirror.wf(),
        mirror.step is Idle,
        mirror.connected,
        crate::pump::newline_free(encoded),
    ensures
        ({
            let (writing, first) = mirror.after(MirrorEventView::FrameReady(encoded));
            let (reconnecting, second) = writing.after(MirrorEventView::WriteFailed);
            let (rewriting, third) = reconnecting.after(MirrorEventView::Connected);
            let (done, fourth) = rewriting.after(MirrorEventView::Written);
            &&& first == MirrorActionView::Write(on_the_wire(encoded))
            &&& second is Connect
            &&& third == first
            &&& fourth is NextFrame
            &&& done.connected && done.backoff_ms == FIRST_BACKOFF_MS
        }),
{
}

/// The frames that arrive in a run of events, as they go over the wire.
pub open spec fn arrived(events: Seq<MirrorEventView>) -> Seq<Seq<u8>>
    decreases events.len(),
{
    if events.len() == 0 {
        Seq::empty()
    } else {
        let before = arrived(events.drop_last());
        match events.last() {
            MirrorEventView::FrameReady(encoded) => before.push(on_the_wire(encoded)),
            _ => before,
        }
    }
}

/// The frames that a run of events delivers: one for each write that went through.
pub open spec fn delivered(mirror: MirrorView, events: Seq<MirrorEventView>) -> Seq<Seq<u8>>
    decreases events.len(),
{
    if events.len() == 0 {
        Seq::empty()
    } else {
        let before = delivered(mirror, events.drop_last());
        if events.last() is Written {
            before.push(mirror.after_all(events.drop_last()).payload)
        } else {
            before
        }
    }
}

/// Whether `some` are among `all`, in order and each at most once.
pub open spec fn subsequence(some: Seq<Seq<u8>>, all: Seq<Seq<u8>>) -> bool
    decreases all.len(),
{
    if some.len() == 0 {
        true
    } else if all.len() == 0 {
        false
    } else {
        ||| subsequence(some, all.drop_last())
        ||| (some.last() == all.last() && subsequence(some.drop_last(), all.drop_last()))
    }
}

/// Each write carries the frame that arrived last, whole and on one line: the newline
/// at its end is the only one.
pub proof fn writes_carry_the_current_frame(
    mirror: MirrorView,
    events: Seq<MirrorEventView>,
    event: MirrorEventView,
)
    requires
        mirror.wf(),
        mirror.step is Idle,
        mirror.can_run(events.push(event)),
    ensures
        mirror.after_all(events).after(event).1 matches MirrorActionView::Write(bytes) ==> {
            &&& arrived(events.push(event)).len() > 0
            &&& bytes == arrived(events.push(event)).last()
            &&& single_line(bytes)
        },
{
    assert(events.push(event).drop_last() =~= events);
    backoff_stays_bounded(mirror, events);
    lemma_delivered(mirror, events);
    if let MirrorEventView::FrameReady(encoded) = event {
        if crate::pump::newline_free(encoded) {
            lemma_single_line(encoded);
        }
    }
}

/// Within a frame a write goes through at most once, and that ends the frame.
pub proof fn written_ends_the_frame(mirror: MirrorView, events: Seq<MirrorEventView>, i: int)
    requires
        mirror.wf(),
        within_a_frame(mirror, events),
        0 <= i < events.len(),
        events[i] is Written,
    ensures
        i == events.len() - 1,
{
    if i < events.len() - 1 {
        let upto = events.take(i + 1);
        assert(upto.last() == events[i]);
        assert(mirror.after_all(upto).step is Idle);
    }
}

/// Frames are delivered in the order in which they arrive and each at most once;
/// those not delivered were dropped.
pub proof fn delivered_frames_are_a_subsequence(
    mirror: MirrorView,
    events: Seq<MirrorEventView>,
)
    requires
        mirror.wf(),
        mirror.step is Idle,
        mirror.can_run(events),
    ensures
        subsequence(delivered(mirror, events), arrived(events)),
{
    lemma_delivered(mirror, events);
}

proof fn lemma_delivered(mirror: MirrorView, events: Seq<MirrorEventView>)
    requires
        mirror.wf(),
        mirror.step is Idle,
        mirror.can_run(events),
    ensures
        subsequence(delivered(mirror, events), arrived(events)),
        !(mirror.after_all(events).step is Idle) ==> {
            &&& arrived(events).len() > 0
            &&& mirror.after_all(events).payload == arrived(events).last()
            &&& subsequence(delivered(mirror, events), arrived(events).drop_last())
        },
    decreases events.len(),
{
    if events.len() > 0 {
        let front = events.drop_last();
        lemma_delivered(mirror, front);
        let told = delivered(mirror, front);
        let all = arrived(front);
        match events.last() {
            MirrorEventView::FrameReady(encoded) => {
                assert(all.push(on_the_wire(encoded)).drop_last() =~= all);
            },
            MirrorEventView::Written => {
                assert(told.push(all.last()).drop_last() =~= told);
            },
            _ => {},
        }
    }
}

/// The frames one after another.
pub open spec fn in_a_row(frames: Seq<Seq<u8>>) -> Seq<u8>
    decreases frames.len(),
{
    if frames.len() == 0 {
        Seq::empty()
    } else {
        in_a_row(frames.drop_last()) + frames.last()
    }
}

/// What the mirror writes can be read back: frames written one after another split
/// into lines that are the frames' encodings, in order, with nothing left over.
pub proof fn written_frames_are_read_back(encoded: Seq<Seq<u8>>)
    requires
        forall|i: int| 0 <= i < encoded.len() ==> crate::pump::newline_free(#[trigger] encoded[i]),
    ensures
        crate::pump::lines_of(in_a_row(encoded.map_values(|e: Seq<u8>| on_the_wire(e)))) == encoded,
        crate::pump::rest_of(in_a_row(encoded.map_values(|e: Seq<u8>| on_the_wire(e)))) == Seq::<
            u8,
        >::empty(),
    decreases encoded.len(),
{
    let frames = encoded.map_values(|e: Seq<u8>| on_the_wire(e));
    if encoded.len() > 0 {
        let front = encoded.drop_last();
        assert(forall|i: int| 0 <= i < front.len() ==> front[i] == encoded[i]);
        assert(crate::pump::newline_free(encoded[encoded.len() - 1]));
        written_frames_are_read_back(front);
        assert(frames.drop_last() =~= front.map_values(|e: Seq<u8>| on_the_wire(e)));
        crate::pump::cutting_keeps_lines(in_a_row(frames.drop_last()), frames.last());
        assert(Seq::<u8>::empty() + frames.last() =~= frames.last());
        crate::pump::framing_gives_back_the_payload(encoded.last());
        assert(front + seq![encoded.last()] =~= encoded);
    }
}

/// 2 to the power `n`.
pub open spec fn power_of_two(n: nat) -> nat
    decreases n,
{
    if n == 0 {
        1
    } else {
        2 * power_of_two((n - 1) as nat)
    }
}

/// While the dashboard is absent the pause doubles with each frame until it
/// reaches its limit.
pub proof fn backoff_doubles(mirror: MirrorView, frames: Seq<Seq<u8>>)
    requires
        mirror.wf(),
        mirror.step is Idle,
        !mirror.connected,
        mirror.backoff_ms == FIRST_BACKOFF_MS,
        forall|i: int| 0 <= i < frames.len() ==> crate::pump::newline_free(#[trigger] frames[i]),
    ensures
        ({
            let later = mirror.after_absence(frames);
            &&& later.wf()
            &&& later.step is Idle
            &&& !later.connected
            &&& later.backoff_ms as int == (if FIRST_BACKOFF_MS * power_of_two(frames.len())
                <= MAX_BACKOFF_MS {
                FIRST_BACKOFF_MS * power_of_two(frames.len())
            } else {
                MAX_BACKOFF_MS as int
            })
        }),
    decreases frames.len(),
{
    if frames.len() > 0 {
        let front = frames.drop_last();
        assert(forall|i: int| 0 <= i < front.len() ==> front[i] == frames[i]);
        backoff_doubles(mirror, front);
        assert(crate::pump::newline_free(frames[frames.len() - 1]));
    }
}

/// A connection that comes about resets the pause to its first value.
pub proof fn connecting_resets_backoff(mirror: MirrorView)
    requires
        mirror.wf(),
        mirror.awaits(MirrorEventView::Connected),
    ensures
        mirror.after(MirrorEventView::Connected).0.backoff_ms == FIRST_BACKOFF_MS,
        mirror.after(MirrorEventView::Connected).1 is Write,
{
}

/// No frame is dropped untried: where there is no connection the mirror opens one for
/// any frame on one line, however long; once connected it writes that frame, and once
/// the write went through that frame has been delivered.
pub proof fn no_frame_is_dropped_untried(mirror: MirrorView, encoded: Seq<u8>)
    requires
        mirror.step is Idle,
        !mirror.connected,
        forall|i: int| 0 <= i < encoded.len() ==> encoded[i] != 10,
    ensures
        ({
            let ready = MirrorEventView::FrameReady(encoded);
            let connected = MirrorEventView::Connected;
            let written = MirrorEventView::Written;
            let (connecting, first) = mirror.after(ready);
            let (writing, second) = connecting.after(connected);
            let (done, third) = writing.after(written);
            &&& mirror.can_run(seq![ready, connected, written])
            &&& first is Connect
            &&& second == MirrorActionView::Write(encoded + seq![10u8])
            &&& third is NextFrame
            &&& done.step is Idle
            &&& done.connected
            &&& delivered(mirror, seq![ready, connected, written]) == seq![encoded + seq![10u8]]
        }),
{
    let ready = MirrorEventView::FrameReady(encoded);
    let connected = MirrorEventView::Connected;
    let written = MirrorEventView::Written;
    reveal_with_fuel(delivered, 4);
    reveal_with_fuel(MirrorView::after_all, 4);
    reveal_with_fuel(MirrorView::can_run, 4);
    assert(seq![ready, connected, written].drop_last() =~= seq![ready, connected]);
    assert(seq![ready, connected].drop_last() =~= seq![ready]);
    assert(seq![ready].drop_last() =~= Seq::empty());
    assert(on_the_wire(encoded) =~= encoded + seq![10u8]);
}

/// An open connection is used as it is: any frame on one line, however long, is
/// written at once, and the connection is kept for the next one.
pub proof fn open_connections_are_used(mirror: MirrorView, encoded: Seq<u8>)
    requires
        mirror.step is Idle,
        mirror.connected,
        forall|i: int| 0 <= i < encoded.len() ==> encoded[i] != 10,
    ensures
        ({
            let (writing, first) = mirror.after(MirrorEventView::FrameReady(encoded));
            let (done, second) = writing.after(MirrorEventView::Written);
            &&& mirror.awaits(MirrorEventView::FrameReady(encoded))
            &&& first == MirrorActionView::Write(encoded + seq![10u8])
            &&& writing.payload == encoded + seq![10u8]
            &&& writing.awaits(MirrorEventView::Written)
            &&& second is NextFrame
            &&& done.step is Idle
            &&& done.connected
            &&& done.backoff_ms == mirror.backoff_ms
        }),
{
    assert(on_the_wire(encoded) =~= encoded + seq![10u8]);
}

/// A frame that cannot be encoded, or not on one line, is passed over: nothing is
/// opened or written for it, and the mirror stands as it did.
pub proof fn unsendable_frames_are_passed_over(mirror: MirrorView, event: MirrorEventView)
    requires
        mirror.step is Idle,
        match event {
            MirrorEventView::FrameUnreadable => true,
            MirrorEventView::FrameReady(encoded) => exists|i: int|
                0 <= i < encoded.len() && encoded[i] == 10,
            _ => false,
        },
    ensures
        mirror.awaits(event),
        mirror.after(event) == (mirror, MirrorActionView::NextFrame),
{
}

/// A connect that fails gives the frame up after a pause: as long as the pause at hand,
/// the next one twice as long, but ten seconds at most.
pub proof fn failed_connects_pause(mirror: MirrorView)
    requires
        mirror.step is Connecting,
        !mirror.connected,
    ensures
        ({
            let (pausing, first) = mirror.after(MirrorEventView::ConnectFailed);
            let (done, second) = pausing.after(MirrorEventView::Paused);
            &&& mirror.awaits(MirrorEventView::ConnectFailed)
            &&& first == MirrorActionView::Pause(mirror.backoff_ms)
            &&& pausing.awaits(MirrorEventView::Paused)
            &&& second is NextFrame
            &&& done.step is Idle
            &&& !done.connected
            &&& done.backoff_ms <= 10_000
            &&& done.backoff_ms as int == 2 * mirror.backoff_ms || (done.backoff_ms == 10_000
                && 2 * mirror.backoff_ms > 10_000)
        }),
{
}

/// A connection that comes about is written to at once, and the next pause is a
/// quarter of a second again.
pub proof fn connects_are_written_to(mirror: MirrorView)
    requires
        mirror.step is Connecting,
    ensures
        mirror.awaits(MirrorEventView::Connected),
        mirror.after(MirrorEventView::Connected).1 == MirrorActionView::Write(mirror.payload),
        mirror.after(MirrorEventView::Connected).0 == (MirrorView {
            connected: true,
            backoff_ms: 250,
            step: MirrorStep::Writing,
            ..mirror
        }),
{
}

/// A write that fails is made good once, on a new connection, with the same bytes; a
/// second failure gives the frame up. Either way the connection is gone.
pub proof fn failed_writes_are_retried_once(mirror: MirrorView, encoded: Seq<u8>)
    requires
        mirror.step is Idle,
        mirror.connected,
        forall|i: int| 0 <= i < encoded.len() ==> encoded[i] != 10,
    ensures
        ({
            let (writing, first) = mirror.after(MirrorEventView::FrameReady(encoded));
            let (reconnecting, second) = writing.after(MirrorEventView::WriteFailed);
            let (rewriting, third) = reconnecting.after(MirrorEventView::Connected);
            let (done, fourth) = rewriting.after(MirrorEventView::WriteFailed);
            &&& first == MirrorActionView::Write(encoded + seq![10u8])
            &&& writing.awaits(MirrorEventView::WriteFailed)
            &&& second is Connect
            &&& !reconnecting.connected
            &&& reconnecting.awaits(MirrorEventView::Connected)
            &&& third == first
            &&& rewriting.awaits(MirrorEventView::WriteFailed)
            &&& fourth is NextFrame
            &&& done.step is Idle
            &&& !done.connected
        }),
{
    assert(on_the_wire(encoded) =~= encoded + seq![10u8]);
}

/// The frames on one line that arrive in a run of events, each with its newline.
pub open spec fn sendable(events: Seq<MirrorEventView>) -> Seq<Seq<u8>>
    decreases events.len(),
{
    if events.len() == 0 {
        Seq::empty()
    } else {
        let before = sendable(events.drop_last());
        match events.last() {
            MirrorEventView::FrameReady(encoded) => if forall|i: int|
                0 <= i < encoded.len() ==> encoded[i] != 10 {
                before.push(encoded + seq![10u8])
            } else {
                before
            },
            _ => before,
        }
    }
}

/// Where every connect and every write goes through, every frame on one line that
/// arrived is delivered, in order, and nothing else is.
pub proof fn every_frame_is_delivered(mirror: MirrorView, events: Seq<MirrorEventView>)
    requires
        mirror.step is Idle,
        mirror.can_run(events),
        mirror.after_all(events).step is Idle,
        forall|i: int| 0 <= i < events.len() ==> !(#[trigger] events[i] is ConnectFailed),
        forall|i: int| 0 <= i < events.len() ==> !(#[trigger] events[i] is WriteFailed),
    ensures
        delivered(mirror, events) == sendable(events),
{
    lemma_sendable(mirror, events);
}

proof fn lemma_sendable(mirror: MirrorView, events: Seq<MirrorEventView>)
    requires
        mirror.step is Idle,
        mirror.can_run(events),
        forall|i: int| 0 <= i < events.len() ==> !(#[trigger] events[i] is ConnectFailed),
        forall|i: int| 0 <= i < events.len() ==> !(#[trigger] events[i] is WriteFailed),
    ensures
        ({
            let later = mirror.after_all(events);
            &&& !(later.step is Pausing)
            &&& later.step is Idle ==> delivered(mirror, events) == sendable(events)
            &&& !(later.step is Idle) ==> delivered(mirror, events).push(later.payload) == sendable(
                events,
            )
        }),
    decreases events.len(),
{
    if events.len() > 0 {
        let front = events.drop_last();
        assert(forall|i: int| 0 <= i < front.len() ==> front[i] == events[i]);
        assert(events.last() == events[events.len() - 1]);
        lemma_sendable(mirror, front);
        if let MirrorEventView::FrameReady(encoded) = events.last() {
            assert(on_the_wire(encoded) =~= encoded + seq![10u8]);
        }
    }
}

/// How many writes fail in a run of events.
pub open spec fn failed_writes(events: Seq<MirrorEventView>) -> nat
    decreases events.len(),
{
    if events.len() == 0 {
        0
    } else {
        failed_writes(events.drop_last()) + if events.last() is WriteFailed {
            1nat
        } else {
            0nat
        }
    }
}

/// A frame on one line comes to one of three ends: it is delivered, or a connect failed
/// and the pause after it is over, or two writes failed.
pub proof fn frames_end_for_a_reason(mirror: MirrorView, events: Seq<MirrorEventView>)
    requires
        mirror.wf(),
        within_a_frame(mirror, events),
        events.len() > 0,
        events[0] matches MirrorEventView::FrameReady(encoded) && forall|i: int|
            0 <= i < encoded.len() ==> encoded[i] != 10,
        mirror.after_all(events).step is Idle,
    ensures
        ({
            let last = events[events.len() - 1];
            ||| last is Written
            ||| last is Paused
            ||| last is WriteFailed && failed_writes(events) == 2
        }),
{
    let front = events.drop_last();
    reveal_with_fuel(MirrorView::after_all, 2);
    assert(front.len() > 0) by {
        if front.len() == 0 {
            assert(events.last() == events[0]);
        }
    }
    assert forall|i: int| 1 <= i < front.len() implies !(mirror.after_all(
        #[trigger] front.take(i),
    ).step is Idle) by {
        assert(front.take(i) =~= events.take(i));
    }
    assert(events.take(front.len() as int) =~= front);
    backoff_stays_bounded(mirror, front);
    lemma_failures(mirror, front);
}

proof fn lemma_failures(mirror: MirrorView, events: Seq<MirrorEventView>)
    requires
        mirror.wf(),
        within_a_frame(mirror, events),
        events.len() > 0,
        !(mirror.after_all(events).step is Idle),
    ensures
        failed_writes(events) == mirror.after_all(events).failures,
    decreases events.len(),
{
    let front = events.drop_last();
    if front.len() > 0 {
        assert forall|i: int| 1 <= i < front.len() implies !(mirror.after_all(
            #[trigger] front.take(i),
        ).step is Idle) by {
            assert(front.take(i) =~= events.take(i));
        }
        assert(events.take(front.len() as int) =~= front);
        backoff_stays_bounded(mirror, front);
        lemma_failures(mirror, front);
    } else {
        reveal_with_fuel(failed_writes, 2);
        reveal_with_fuel(MirrorView::after_all, 2);
        reveal_with_fuel(MirrorView::can_run, 2);
    }
}

/// The mirror.
#[derive(Debug)]
pub struct Mirror {
    connected: bool,
    backoff_ms: u64,
    step: MirrorStep,
    failures: u8,
    payload: Vec<u8>,
}

impl View for Mirror {
    type V = MirrorView;

    closed spec fn view(&self) -> MirrorView {
        MirrorView {
            connected: self.connected,
            backoff_ms: self.backoff_ms,
            step: self.step,
            failures: self.failures,
            payload: self.payload@,
        }
    }
}

impl Mirror {
    /// A mirror without a connection that has seen no frame.
    pub fn new() -> (mirror: Self)
        ensures
            mirror@.wf(),
            mirror@ == (MirrorView {
                connected: false,
                backoff_ms: FIRST_BACKOFF_MS,
                step: MirrorStep::Idle,
                failures: 0,
                payload: Seq::empty(),
            }),
    {
        Mirror {
            connected: false,
            backoff_ms: FIRST_BACKOFF_MS,
            step: MirrorStep::Idle,
            failures: 0,
            payload: Vec::new(),
        }
    }

    /// Whether there is a connection to keep.
    pub fn connected(&self) -> (connected: bool)
        ensures
            connected == self@.connected,
    {
        self.connected
    }

    /// The current frame, to be written.
    fn write(&self) -> (action: MirrorAction)
        ensures
            action@ == MirrorActionView::Write(self@.payload),
    {
        let bytes: Vec<u8> = self.payload.clone();
        assert(bytes@ =~= self.payload@);
        MirrorAction::Write(bytes)
    }

    /// Takes note of what came of the last action, and says what to do next.
    pub fn next(&mut self, event: MirrorEvent) -> (action: MirrorAction)
        requires
            old(self)@.wf(),
            old(self)@.awaits(event@),
        ensures
            final(self)@.wf(),
            (final(self)@, action@) == old(self)@.after(event@),
    {
        match event {
            MirrorEvent::FrameReady(encoded) => {
                if has_newline(&encoded) {
                    return MirrorAction::NextFrame;
                }
                proof {
                    lemma_single_line(encoded@);
                }
                self.failures = 0;
                self.payload = terminated(encoded);
                if self.connected {
                    self.step = MirrorStep::Writing;
                    self.write()
                } else {
                    self.step = MirrorStep::Connecting;
                    MirrorAction::Connect
                }
            },
            MirrorEvent::Connected => {
                self.connected = true;
                self.backoff_ms = FIRST_BACKOFF_MS;
                self.step = MirrorStep::Writing;
                self.write()
            },
            MirrorEvent::ConnectFailed => {
                self.step = MirrorStep::Pausing;
                MirrorAction::Pause(self.backoff_ms)
            },
            MirrorEvent::Paused => {
                let twice: u64 = self.backoff_ms * 2;
                self.backoff_ms = if twice <= MAX_BACKOFF_MS {
                    twice
                } else {
                    MAX_BACKOFF_MS
                };
                self.step = MirrorStep::Idle;
                MirrorAction::NextFrame
            },
            MirrorEvent::WriteFailed => {
                self.connected = false;
                if self.failures + 1 < WRITE_ATTEMPTS {
                    self.failures = self.failures + 1;
                    self.step = MirrorStep::Connecting;
                    MirrorAction::Connect
                } else {
                    self.step = MirrorStep::Idle;
                    MirrorAction::NextFrame
                }
            },
            MirrorEvent::Written | MirrorEvent::FrameUnreadable => {
                self.step = MirrorStep::Idle;
                MirrorAction::NextFrame
            },
        }
    }
}

/// Whether a newline occurs among the bytes.
fn has_newline(bytes: &Vec<u8>) -> (found: bool)
    ensures
        found == !crate::pump::newline_free(bytes@),
{
    let mut i: usize = 0;
    while i < bytes.len()
        invariant
            i <= bytes@.len(),
            forall|k: int| 0 <= k < i ==> bytes@[k] != NEWLINE,
        decreases bytes@.len() - i,
    {
        if bytes[i] == NEWLINE {
            return true;
        }
        i = i + 1;
    }
    false
}

/// A mirrored payload as it goes over the wire: terminated by a newline.
pub fn terminated(payload: Vec<u8>) -> (wire: Vec<u8>)
    ensures
        wire@ == on_the_wire(payload@),
{
    let mut wire: Vec<u8> = payload;
    wire.push(NEWLINE);
    wire
}

} // verus!
