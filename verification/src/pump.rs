//! Forwarding one direction of the agent's stdio, and the lines to mirror.
//!
//! [`Pump`] decides; whoever drives it reads, writes and reports. What is
//! forwarded is exactly what was read, whatever the bytes say: lines are only
//! looked for on the side.

use vstd::prelude::*;

use crate::wire::{Direction, FrameView, WireFrame};

verus! {

/// The byte that ends a line.
pub const NEWLINE: u8 = 10;

/// The byte that may stand before the newline.
pub const CARRIAGE_RETURN: u8 = 13;

/// What follows the last newline.
pub open spec fn rest_of(stream: Seq<u8>) -> Seq<u8>
    decreases stream.len(),
{
    if stream.len() == 0 || stream.last() == NEWLINE {
        Seq::empty()
    } else {
        rest_of(stream.drop_last()).push(stream.last())
    }
}

/// A line without the carriage return that may stand before its newline.
pub open spec fn stripped(line: Seq<u8>) -> Seq<u8> {
    if line.len() > 0 && line.last() == CARRIAGE_RETURN {
        line.drop_last()
    } else {
        line
    }
}

/// The complete lines, in order, each without its newline.
pub open spec fn lines_of(stream: Seq<u8>) -> Seq<Seq<u8>>
    decreases stream.len(),
{
    if stream.len() == 0 {
        Seq::empty()
    } else if stream.last() == NEWLINE {
        lines_of(stream.drop_last()).push(rest_of(stream.drop_last()))
    } else {
        lines_of(stream.drop_last())
    }
}

/// The text of a line, where its bytes are UTF-8.
pub open spec fn text_of(line: Seq<u8>) -> Option<Seq<char>> {
    if vstd::utf8::valid_utf8(line) {
        Some(vstd::utf8::decode_utf8(line))
    } else {
        None
    }
}

/// The texts of those lines that have one, in order.
pub open spec fn texts_of(lines: Seq<Seq<u8>>) -> Seq<Seq<char>>
    decreases lines.len(),
{
    if lines.len() == 0 {
        Seq::empty()
    } else {
        let before = texts_of(lines.drop_last());
        match text_of(stripped(lines.last())) {
            Some(text) => before.push(text),
            None => before,
        }
    }
}

/// What came of the last action.
#[derive(Debug)]
pub enum PumpEvent {
    /// Bytes were read.
    Received(Vec<u8>),
    /// The stream has ended.
    Ended,
    /// Reading failed.
    ReceiveFailed,
    /// The bytes last handed out were written.
    Forwarded,
    /// Writing them failed, after that many of them were written.
    ForwardFailed(usize),
}

/// What to do next.
#[derive(Debug)]
pub enum PumpAction {
    /// Read more bytes.
    Receive,
    /// Write these bytes.
    Forward(Vec<u8>),
    /// Be done with this direction.
    Stop,
}

/// What a [`PumpEvent`] says.
#[verifier::ext_equal]
pub enum PumpEventView {
    Received(Seq<u8>),
    Ended,
    ReceiveFailed,
    Forwarded,
    ForwardFailed(nat),
}

impl View for PumpEvent {
    type V = PumpEventView;

    open spec fn view(&self) -> PumpEventView {
        match *self {
            PumpEvent::Received(chunk) => PumpEventView::Received(chunk@),
            PumpEvent::Ended => PumpEventView::Ended,
            PumpEvent::ReceiveFailed => PumpEventView::ReceiveFailed,
            PumpEvent::Forwarded => PumpEventView::Forwarded,
            PumpEvent::ForwardFailed(written) => PumpEventView::ForwardFailed(written as nat),
        }
    }
}

/// What a [`PumpAction`] says.
#[verifier::ext_equal]
pub enum PumpActionView {
    Receive,
    Forward(Seq<u8>),
    Stop,
}

impl View for PumpAction {
    type V = PumpActionView;

    open spec fn view(&self) -> PumpActionView {
        match *self {
            PumpAction::Receive => PumpActionView::Receive,
            PumpAction::Forward(chunk) => PumpActionView::Forward(chunk@),
            PumpAction::Stop => PumpActionView::Stop,
        }
    }
}

/// Events and actions say all they hold: the bytes read, the bytes to write, and how
/// many were written before a failure.
pub proof fn steps_say_all_they_hold(event: PumpEvent, action: PumpAction)
    ensures
        event matches PumpEvent::Received(chunk) ==> event@ is Received && event@->Received_0
            == chunk@,
        event matches PumpEvent::ForwardFailed(n) ==> event@ is ForwardFailed
            && event@->ForwardFailed_0 == n,
        event is Ended <==> event@ is Ended,
        event is ReceiveFailed <==> event@ is ReceiveFailed,
        event is Forwarded <==> event@ is Forwarded,
        action matches PumpAction::Forward(chunk) ==> action@ is Forward && action@->Forward_0
            == chunk@,
        action is Receive <==> action@ is Receive,
        action is Stop <==> action@ is Stop,
{
}

/// A pump's memory as a value.
#[verifier::ext_equal]
pub struct PumpView {
    /// The label that this pump's frames carry.
    pub label: Seq<char>,
    /// The direction that this pump's frames carry.
    pub dir: Direction,
    /// The line that is written but not complete yet.
    pub partial: Seq<u8>,
    /// The bytes handed out whose writing is not settled, if any.
    pub out: Option<Seq<u8>>,
}

/// Whether no newline occurs among the bytes.
pub open spec fn newline_free(bytes: Seq<u8>) -> bool {
    forall|i: int| 0 <= i < bytes.len() ==> bytes[i] != NEWLINE
}

proof fn lemma_rest_newline_free(stream: Seq<u8>)
    ensures
        newline_free(rest_of(stream)),
    decreases stream.len(),
{
    if stream.len() > 0 && stream.last() != NEWLINE {
        lemma_rest_newline_free(stream.drop_last());
    }
}

proof fn lemma_newline_free(bytes: Seq<u8>)
    requires
        newline_free(bytes),
    ensures
        rest_of(bytes) == bytes,
        lines_of(bytes) == Seq::<Seq<u8>>::empty(),
    decreases bytes.len(),
{
    if bytes.len() > 0 {
        lemma_newline_free(bytes.drop_last());
        assert(bytes.drop_last().push(bytes.last()) =~= bytes);
    } else {
        assert(bytes =~= Seq::empty());
    }
}

impl PumpView {
    /// The incomplete line holds no newline.
    pub open spec fn valid(self) -> bool {
        newline_free(self.partial)
    }

    /// Whether the event can be what came of the last action.
    pub open spec fn awaits(self, event: PumpEventView) -> bool {
        match event {
            PumpEventView::Forwarded => self.out is Some,
            PumpEventView::ForwardFailed(written) => self.out is Some && written
                <= self.out->0.len(),
            _ => self.out is None,
        }
    }

    /// The memory once the bytes have been written.
    pub open spec fn with_written(self, bytes: Seq<u8>) -> PumpView {
        PumpView { partial: rest_of(self.partial + bytes), out: None, ..self }
    }

    /// The texts of the lines that the written bytes complete.
    pub open spec fn completed_by(self, bytes: Seq<u8>) -> Seq<Seq<char>> {
        texts_of(lines_of(self.partial + bytes))
    }

    /// The memory after the event, what to do next, and the texts to mirror.
    pub open spec fn after(self, event: PumpEventView) -> (
        PumpView,
        PumpActionView,
        Seq<Seq<char>>,
    ) {
        match event {
            PumpEventView::Received(chunk) => (
                PumpView { out: Some(chunk), ..self },
                PumpActionView::Forward(chunk),
                Seq::empty(),
            ),
            PumpEventView::Forwarded => (
                self.with_written(self.out->0),
                PumpActionView::Receive,
                self.completed_by(self.out->0),
            ),
            PumpEventView::ForwardFailed(written) => (
                self.with_written(self.out->0.take(written as int)),
                PumpActionView::Stop,
                self.completed_by(self.out->0.take(written as int)),
            ),
            PumpEventView::Ended => (
                PumpView { partial: Seq::empty(), ..self },
                PumpActionView::Stop,
                match text_of(self.partial) {
                    Some(text) => if self.partial.len() > 0 {
                        seq![text]
                    } else {
                        Seq::empty()
                    },
                    None => Seq::empty(),
                },
            ),
            PumpEventView::ReceiveFailed => (self, PumpActionView::Stop, Seq::empty()),
        }
    }
}

/// All bytes read in a run of events.
pub open spec fn received(events: Seq<PumpEventView>) -> Seq<u8>
    decreases events.len(),
{
    if events.len() == 0 {
        Seq::empty()
    } else {
        received(events.drop_last()) + match events.last() {
            PumpEventView::Received(chunk) => chunk,
            _ => Seq::empty(),
        }
    }
}

impl PumpView {
    /// The memory after a run of events.
    pub open spec fn after_all(self, events: Seq<PumpEventView>) -> PumpView
        decreases events.len(),
    {
        if events.len() == 0 {
            self
        } else {
            self.after_all(events.drop_last()).after(events.last()).0
        }
    }

    /// Whether each event of the run is one that the pump then waits for.
    pub open spec fn can_run(self, events: Seq<PumpEventView>) -> bool
        decreases events.len(),
    {
        events.len() == 0 || (self.can_run(events.drop_last()) && self.after_all(
            events.drop_last(),
        ).awaits(events.last()))
    }

    /// All bytes handed out for writing in a run of events.
    pub open spec fn forwarded(self, events: Seq<PumpEventView>) -> Seq<u8>
        decreases events.len(),
    {
        if events.len() == 0 {
            Seq::empty()
        } else {
            self.forwarded(events.drop_last()) + match self.after_all(events.drop_last()).after(
                events.last(),
            ).1 {
                PumpActionView::Forward(chunk) => chunk,
                _ => Seq::empty(),
            }
        }
    }

    /// All bytes reported as written in a run of events.
    pub open spec fn written(self, events: Seq<PumpEventView>) -> Seq<u8>
        decreases events.len(),
    {
        if events.len() == 0 {
            Seq::empty()
        } else {
            let before = self.after_all(events.drop_last());
            self.written(events.drop_last()) + match events.last() {
                PumpEventView::Forwarded => before.out->0,
                PumpEventView::ForwardFailed(n) => before.out->0.take(n as int),
                _ => Seq::empty(),
            }
        }
    }

    /// All texts handed out for mirroring in a run of events.
    pub open spec fn mirrored(self, events: Seq<PumpEventView>) -> Seq<Seq<char>>
        decreases events.len(),
    {
        if events.len() == 0 {
            Seq::empty()
        } else {
            self.mirrored(events.drop_last()) + self.after_all(events.drop_last()).after(
                events.last(),
            ).2
        }
    }
}

/// Forwarding is byte-for-byte: in any run, what is handed out for writing is
/// exactly what was read, in order.
pub proof fn forwarding_is_transparent(pump: PumpView, events: Seq<PumpEventView>)
    ensures
        pump.forwarded(events) == received(events),
    decreases events.len(),
{
    if events.len() > 0 {
        forwarding_is_transparent(pump, events.drop_last());
    }
}

/// Where a stream is cut makes no difference to its lines.
pub proof fn cutting_keeps_lines(a: Seq<u8>, b: Seq<u8>)
    ensures
        lines_of(a + b) == lines_of(a) + lines_of(rest_of(a) + b),
        rest_of(a + b) == rest_of(rest_of(a) + b),
    decreases b.len(),
{
    if b.len() == 0 {
        assert(a + b =~= a);
        assert(rest_of(a) + b =~= rest_of(a));
        lemma_rest_newline_free(a);
        lemma_newline_free(rest_of(a));
    } else {
        cutting_keeps_lines(a, b.drop_last());
        assert((a + b).drop_last() =~= a + b.drop_last());
        assert((rest_of(a) + b).drop_last() =~= rest_of(a) + b.drop_last());
        assert((a + b).last() == b.last());
        assert((rest_of(a) + b).last() == b.last());
    }
}

proof fn lemma_texts_add(a: Seq<Seq<u8>>, b: Seq<Seq<u8>>)
    ensures
        texts_of(a + b) == texts_of(a) + texts_of(b),
    decreases b.len(),
{
    if b.len() == 0 {
        assert(a + b =~= a);
    } else {
        lemma_texts_add(a, b.drop_last());
        assert((a + b).drop_last() =~= a + b.drop_last());
        assert((a + b).last() == b.last());
    }
}

/// As long as no write fails, what was read has been written, but for the bytes
/// that are out.
pub proof fn everything_read_is_written(pump: PumpView, events: Seq<PumpEventView>)
    requires
        pump.out is None,
        pump.can_run(events),
        forall|i: int| 0 <= i < events.len() ==> !(#[trigger] events[i] is ForwardFailed),
    ensures
        received(events) == pump.written(events) + (match pump.after_all(events).out {
            Some(chunk) => chunk,
            None => Seq::empty(),
        }),
    decreases events.len(),
{
    if events.len() > 0 {
        let front = events.drop_last();
        assert(forall|i: int| 0 <= i < front.len() ==> front[i] == events[i]);
        everything_read_is_written(pump, front);
        assert(!(events[events.len() - 1] is ForwardFailed));
    }
}

/// Each complete line is mirrored once it has been written, and nothing else is:
/// however the stream was cut into reads, and even where a write fails midway, the
/// texts mirrored are those of the complete lines written.
pub proof fn every_line_is_mirrored(pump: PumpView, events: Seq<PumpEventView>)
    requires
        pump.partial == Seq::<u8>::empty(),
        pump.out is None,
        pump.can_run(events),
        forall|i: int| 0 <= i < events.len() ==> !(#[trigger] events[i] is Ended),
    ensures
        pump.after_all(events).partial == rest_of(pump.written(events)),
        pump.mirrored(events) == texts_of(lines_of(pump.written(events))),
    decreases events.len(),
{
    if events.len() > 0 {
        let front = events.drop_last();
        assert(forall|i: int| 0 <= i < front.len() ==> front[i] == events[i]);
        every_line_is_mirrored(pump, front);
        assert(!(events[events.len() - 1] is Ended));
        let before = pump.after_all(front);
        match events.last() {
            PumpEventView::Forwarded => {
                lemma_written_more(pump.written(front), before.out->0);
            },
            PumpEventView::ForwardFailed(n) => {
                lemma_written_more(pump.written(front), before.out->0.take(n as int));
            },
            _ => {
                assert(pump.written(events) =~= pump.written(front));
                assert(pump.mirrored(events) =~= pump.mirrored(front));
            },
        }
    }
}

proof fn lemma_written_more(written: Seq<u8>, more: Seq<u8>)
    ensures
        rest_of(written + more) == rest_of(rest_of(written) + more),
        texts_of(lines_of(written + more)) == texts_of(lines_of(written)) + texts_of(
            lines_of(rest_of(written) + more),
        ),
{
    cutting_keeps_lines(written, more);
    lemma_texts_add(lines_of(written), lines_of(rest_of(written) + more));
}

/// At the end of the stream a last line without a newline is mirrored too.
pub proof fn the_last_line_is_mirrored(pump: PumpView, events: Seq<PumpEventView>)
    requires
        pump.partial == Seq::<u8>::empty(),
        pump.out is None,
        pump.can_run(events),
        events.len() > 0,
        events.last() is Ended,
        forall|i: int| 0 <= i < events.len() - 1 ==> !(#[trigger] events[i] is Ended),
    ensures
        ({
            let written = pump.written(events);
            pump.mirrored(events) == texts_of(lines_of(written)) + match text_of(rest_of(written)) {
                Some(text) => if rest_of(written).len() > 0 {
                    seq![text]
                } else {
                    Seq::empty()
                },
                None => Seq::empty(),
            }
        }),
{
    let front = events.drop_last();
    assert(forall|i: int| 0 <= i < front.len() ==> front[i] == events[i]);
    every_line_is_mirrored(pump, front);
    assert(pump.written(events) =~= pump.written(front));
}

/// The lines put back together, each with its newline.
pub open spec fn rejoined(lines: Seq<Seq<u8>>) -> Seq<u8>
    decreases lines.len(),
{
    if lines.len() == 0 {
        Seq::empty()
    } else {
        rejoined(lines.drop_last()) + lines.last().push(NEWLINE)
    }
}

/// Splitting loses nothing: the complete lines and what follows them make up the
/// stream again.
pub proof fn splitting_loses_nothing(stream: Seq<u8>)
    ensures
        rejoined(lines_of(stream)) + rest_of(stream) == stream,
    decreases stream.len(),
{
    if stream.len() > 0 {
        let front = stream.drop_last();
        splitting_loses_nothing(front);
        assert(front.push(stream.last()) =~= stream);
        if stream.last() == NEWLINE {
            let lines = lines_of(front);
            assert(lines.push(rest_of(front)).drop_last() =~= lines);
        }
    }
}

/// A payload without a newline comes back as one line from the bytes that go over
/// the wire for it.
pub proof fn framing_gives_back_the_payload(payload: Seq<u8>)
    requires
        newline_free(payload),
    ensures
        lines_of(payload.push(NEWLINE)) == seq![payload],
        rest_of(payload.push(NEWLINE)) == Seq::<u8>::empty(),
{
    lemma_newline_free(payload);
    assert(payload.push(NEWLINE).drop_last() =~= payload);
}

/// Neither a line nor what follows the last one holds a newline.
pub proof fn lines_hold_no_newline(stream: Seq<u8>)
    ensures
        forall|i: int, j: int|
            0 <= i < lines_of(stream).len() && 0 <= j < lines_of(stream)[i].len()
                ==> #[trigger] lines_of(stream)[i][j] != 10,
        forall|j: int| 0 <= j < rest_of(stream).len() ==> #[trigger] rest_of(stream)[j] != 10,
    decreases stream.len(),
{
    lemma_rest_newline_free(stream);
    if stream.len() > 0 {
        let front = stream.drop_last();
        lines_hold_no_newline(front);
        assert forall|i: int, j: int|
            0 <= i < lines_of(stream).len() && 0 <= j < lines_of(stream)[i].len() implies #[trigger] lines_of(
            stream,
        )[i][j] != 10 by {
            if i < lines_of(front).len() {
                assert(lines_of(stream)[i] == lines_of(front)[i]);
                assert(lines_of(front)[i][j] != 10);
            } else {
                assert(lines_of(stream)[i] == rest_of(front));
                assert(rest_of(front)[j] != 10);
            }
        }
    }
}

/// Every newline ends a line: a stream has as many lines as newlines.
pub proof fn every_newline_ends_a_line(stream: Seq<u8>, byte: u8)
    ensures
        lines_of(stream.push(byte)).len() == lines_of(stream).len() + (if byte == 10 {
            1int
        } else {
            0int
        }),
        byte == 10 ==> lines_of(stream.push(byte)) == lines_of(stream).push(rest_of(stream)),
        byte != 10 ==> rest_of(stream.push(byte)) == rest_of(stream).push(byte),
{
    assert(stream.push(byte).drop_last() =~= stream);
}

/// A line that encodes a text is mirrored as that text, with or without one carriage
/// return before its newline.
pub proof fn lines_are_mirrored_as_their_text(text: Seq<char>)
    ensures
        ({
            let line = vstd::utf8::encode_utf8(text);
            &&& texts_of(seq![line + seq![13u8]]) == seq![text]
            &&& !(line.len() > 0 && line.last() == 13) ==> texts_of(seq![line]) == seq![text]
        }),
{
    let line = vstd::utf8::encode_utf8(text);
    vstd::utf8::encode_utf8_valid_utf8(text);
    vstd::utf8::encode_utf8_decode_utf8(text);
    assert((line + seq![13u8]).drop_last() =~= line);
    reveal_with_fuel(texts_of, 2);
    assert(seq![line].drop_last() =~= Seq::empty());
    assert(seq![line + seq![13u8]].drop_last() =~= Seq::empty());
    assert(Seq::<Seq<char>>::empty().push(text) =~= seq![text]);
}

/// What is mirrored of a line is a text that encodes the line, but for a carriage
/// return at its end; a line for which there is no such text is not mirrored.
pub proof fn mirrored_texts_encode_their_line(line: Seq<u8>)
    ensures
        ({
            let bare = if line.len() > 0 && line.last() == 13 {
                line.drop_last()
            } else {
                line
            };
            let texts = texts_of(seq![line]);
            &&& texts.len() <= 1
            &&& texts.len() == 1 ==> vstd::utf8::encode_utf8(texts[0]) == bare
            &&& texts.len() == 0 ==> forall|text: Seq<char>|
                #[trigger] vstd::utf8::encode_utf8(text) != bare
        }),
{
    let bare = stripped(line);
    reveal_with_fuel(texts_of, 2);
    assert(seq![line].drop_last() =~= Seq::empty());
    if vstd::utf8::valid_utf8(bare) {
        vstd::utf8::decode_utf8_encode_utf8(bare);
    } else {
        assert forall|text: Seq<char>| #[trigger] vstd::utf8::encode_utf8(text) != bare by {
            vstd::utf8::encode_utf8_valid_utf8(text);
        }
    }
}

/// What follows the last newline reads as the text that it encodes, and as nothing
/// where there is none.
pub proof fn bytes_read_as_the_text_they_encode(bytes: Seq<u8>)
    ensures
        match text_of(bytes) {
            Some(text) => vstd::utf8::encode_utf8(text) == bytes,
            None => forall|text: Seq<char>| #[trigger] vstd::utf8::encode_utf8(text) != bytes,
        },
{
    if vstd::utf8::valid_utf8(bytes) {
        vstd::utf8::decode_utf8_encode_utf8(bytes);
    } else {
        assert forall|text: Seq<char>| #[trigger] vstd::utf8::encode_utf8(text) != bytes by {
            vstd::utf8::encode_utf8_valid_utf8(text);
        }
    }
}

/// Lines are read one by one: those of a first part, then those of the rest.
pub proof fn lines_are_read_one_by_one(a: Seq<Seq<u8>>, b: Seq<Seq<u8>>)
    ensures
        texts_of(a + b) == texts_of(a) + texts_of(b),
{
    lemma_texts_add(a, b);
}

/// Bytes read are handed out at once, whatever they are, and nothing is mirrored before
/// they are written.
pub proof fn reads_are_forwarded_at_once(pump: PumpView, chunk: Seq<u8>, written: nat)
    requires
        pump.out is None,
    ensures
        ({
            let (forwarding, action, texts) = pump.after(PumpEventView::Received(chunk));
            &&& pump.awaits(PumpEventView::Received(chunk))
            &&& action == PumpActionView::Forward(chunk)
            &&& texts.len() == 0
            &&& forwarding == (PumpView { out: Some(chunk), ..pump })
            &&& forwarding.awaits(PumpEventView::Forwarded)
            &&& written <= chunk.len() ==> forwarding.awaits(PumpEventView::ForwardFailed(written))
        }),
{
}

/// The pump reads on after every write that went through, stops where one failed, and
/// stops where there is nothing more to read. A read that failed mirrors nothing.
pub proof fn the_pump_stops_at_ends_and_failures(pump: PumpView, event: PumpEventView)
    requires
        pump.awaits(event),
    ensures
        event is Forwarded ==> pump.after(event).1 is Receive && pump.after(event).0.out is None,
        event is ForwardFailed || event is Ended || event is ReceiveFailed ==> pump.after(
            event,
        ).1 is Stop,
        event is ReceiveFailed ==> pump.after(event).2.len() == 0,
        pump.out is None ==> pump.awaits(PumpEventView::Ended) && pump.awaits(
            PumpEventView::ReceiveFailed,
        ),
{
}

/// Whatever happens, a pump's frames carry the label and the direction that it was
/// made with.
pub proof fn a_pump_keeps_label_and_direction(pump: PumpView, events: Seq<PumpEventView>)
    ensures
        pump.after_all(events).label == pump.label,
        pump.after_all(events).dir == pump.dir,
    decreases events.len(),
{
    if events.len() > 0 {
        a_pump_keeps_label_and_direction(pump, events.drop_last());
    }
}

/// One direction of the agent's stdio.
#[derive(Debug)]
pub struct Pump {
    label: String,
    dir: Direction,
    partial: Vec<u8>,
    out: Option<Vec<u8>>,
}

impl View for Pump {
    type V = PumpView;

    closed spec fn view(&self) -> PumpView {
        PumpView {
            label: self.label@,
            dir: self.dir,
            partial: self.partial@,
            out: match self.out {
                Some(chunk) => Some(chunk@),
                None => None,
            },
        }
    }
}

/// `String::from_utf8`: the text that the bytes encode, where they are UTF-8.
#[verifier::external_body]
fn decode(bytes: Vec<u8>) -> (text: Option<String>)
    ensures
        text.deep_view() == text_of(bytes@),
{
    String::from_utf8(bytes).ok()
}

impl Pump {
    /// A pump that has read nothing.
    pub fn new(label: &str, dir: Direction) -> (pump: Self)
        ensures
            pump@.valid(),
            pump@ == (PumpView { label: label@, dir, partial: Seq::empty(), out: None }),
    {
        Pump { label: label.to_string(), dir, partial: Vec::new(), out: None }
    }

    /// Looks for lines in the first `written` bytes, which follow the incomplete
    /// line.
    fn split(&mut self, chunk: &Vec<u8>, written: usize) -> (texts: Vec<String>)
        requires
            newline_free(old(self).partial@),
            written <= chunk@.len(),
        ensures
            final(self).label == old(self).label,
            final(self).dir == old(self).dir,
            final(self).out == old(self).out,
            newline_free(final(self).partial@),
            final(self).partial@ == rest_of(old(self).partial@ + chunk@.take(written as int)),
            texts.deep_view() == texts_of(
                lines_of(old(self).partial@ + chunk@.take(written as int)),
            ),
    {
        let ghost start = self.partial@;
        let mut texts: Vec<String> = Vec::new();
        let mut i: usize = 0;
        proof {
            lemma_newline_free(start);
            lemma_rest_newline_free(start + chunk@.take(written as int));
            assert(start + chunk@.take(0) =~= start);
            assert(texts.deep_view() =~= Seq::empty());
        }
        while i < written
            invariant
                i <= written <= chunk@.len(),
                self.label == old(self).label,
                self.dir == old(self).dir,
                self.out == old(self).out,
                self.partial@ == rest_of(start + chunk@.take(i as int)),
                texts.deep_view() == texts_of(lines_of(start + chunk@.take(i as int))),
            decreases written - i,
        {
            let ghost before = start + chunk@.take(i as int);
            proof {
                assert((start + chunk@.take(i + 1)).drop_last() =~= before);
                assert((start + chunk@.take(i + 1)).last() == chunk@[i as int]);
            }
            let ghost found = texts.deep_view();
            if chunk[i] == NEWLINE {
                let mut line: Vec<u8> = Vec::new();
                line.append(&mut self.partial);
                self.partial = Vec::new();
                if line.len() > 0 && line[line.len() - 1] == CARRIAGE_RETURN {
                    let _ = line.pop();
                }
                proof {
                    let lines = lines_of(before);
                    assert(lines.push(rest_of(before)).drop_last() =~= lines);
                    assert(line@ =~= stripped(rest_of(before)));
                }
                if let Some(text) = decode(line) {
                    texts.push(text);
                    assert(texts.deep_view() =~= found.push(text@));
                }
            } else {
                self.partial.push(chunk[i]);
            }
            i = i + 1;
        }
        texts
    }

    /// Takes note of what came of the last action, and says what to do next and
    /// which texts to mirror.
    pub fn next(&mut self, event: PumpEvent) -> (step: (PumpAction, Vec<String>))
        requires
            old(self)@.valid(),
            old(self)@.awaits(event@),
        ensures
            final(self)@.valid(),
            (final(self)@, step.0@, step.1.deep_view()) == old(self)@.after(event@),
    {
        match event {
            PumpEvent::Received(chunk) => {
                let copy: Vec<u8> = chunk.clone();
                assert(copy@ =~= chunk@);
                self.out = Some(copy);
                (PumpAction::Forward(chunk), Vec::new())
            },
            PumpEvent::Forwarded => {
                let mut texts: Vec<String> = Vec::new();
                if let Some(chunk) = self.out.take() {
                    assert(chunk@.take(chunk@.len() as int) =~= chunk@);
                    texts = self.split(&chunk, chunk.len());
                }
                (PumpAction::Receive, texts)
            },
            PumpEvent::ForwardFailed(written) => {
                let mut texts: Vec<String> = Vec::new();
                if let Some(chunk) = self.out.take() {
                    texts = self.split(&chunk, written);
                }
                (PumpAction::Stop, texts)
            },
            PumpEvent::Ended => {
                let mut line: Vec<u8> = Vec::new();
                line.append(&mut self.partial);
                self.partial = Vec::new();
                let mut texts: Vec<String> = Vec::new();
                if line.len() > 0 {
                    if let Some(text) = decode(line) {
                        texts.push(text);
                    }
                }
                (PumpAction::Stop, texts)
            },
            PumpEvent::ReceiveFailed => (PumpAction::Stop, Vec::new()),
        }
    }

    /// The frame that mirrors a line of this direction.
    pub fn frame(&self, ts_ms: u64, line: String) -> (frame: WireFrame)
        ensures
            frame@ == (FrameView {
                label: self@.label,
                dir: self@.dir,
                ts_ms,
                line: line@,
            }),
    {
        WireFrame { label: self.label.clone(), dir: self.dir, ts_ms, line }
    }
}

} // verus!
