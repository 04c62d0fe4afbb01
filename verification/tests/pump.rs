use acp_tap::{terminated, Direction, Pump, PumpAction, PumpEvent};

/// Feeds a chunk and reports it written: what was handed out, and the lines.
fn feed(pump: &mut Pump, chunk: &[u8]) -> (Vec<u8>, Vec<String>) {
    let (action, early) = pump.next(PumpEvent::Received(chunk.to_vec()));
    assert!(early.is_empty());
    let forwarded = match action {
        PumpAction::Forward(bytes) => bytes,
        _ => panic!("nothing to forward"),
    };
    let (action, lines) = pump.next(PumpEvent::Forwarded);
    assert!(matches!(action, PumpAction::Receive));
    (forwarded, lines)
}

#[test]
fn bytes_pass_through_unchanged() {
    let stream: &[u8] = b"{\"a\":1}\r\n\xff\xfe\n\nno newline";
    for size in 1..stream.len() + 1 {
        let mut pump = Pump::new("x", Direction::ToAgent);
        let mut out = Vec::new();
        let mut lines = Vec::new();
        for chunk in stream.chunks(size) {
            let (bytes, found) = feed(&mut pump, chunk);
            out.extend(bytes);
            lines.extend(found);
        }
        assert_eq!(out, stream);
        assert_eq!(lines, vec!["{\"a\":1}".to_string(), String::new()]);
        let (action, rest) = pump.next(PumpEvent::Ended);
        assert!(matches!(action, PumpAction::Stop));
        assert_eq!(rest, vec!["no newline".to_string()]);
    }
}

#[test]
fn only_one_carriage_return_goes() {
    let mut pump = Pump::new("x", Direction::ToAgent);
    let (_, lines) = feed(&mut pump, b"a\r\r\n\r\nb\rc\n");
    assert_eq!(lines, vec!["a\r".to_string(), String::new(), "b\rc".to_string()]);
}

#[test]
fn characters_may_be_cut_across_reads() {
    let mut pump = Pump::new("x", Direction::ToClient);
    let (_, lines) = feed(&mut pump, &[0xc3]);
    assert!(lines.is_empty());
    let (_, lines) = feed(&mut pump, &[0xa9, 10, 0xe2]);
    assert_eq!(lines, vec!["é".to_string()]);
    let (_, rest) = pump.next(PumpEvent::Ended);
    assert!(rest.is_empty());
}

#[test]
fn only_written_lines_are_mirrored() {
    let stream = b"one\r\ntwo\nthree\n";
    for (written, expected) in [
        (0, vec![]),
        (4, vec![]),
        (5, vec!["one"]),
        (8, vec!["one"]),
        (9, vec!["one", "two"]),
        (14, vec!["one", "two"]),
        (15, vec!["one", "two", "three"]),
    ] {
        let mut pump = Pump::new("x", Direction::ToClient);
        let (_, early) = pump.next(PumpEvent::Received(stream.to_vec()));
        assert!(early.is_empty());
        let (action, lines) = pump.next(PumpEvent::ForwardFailed(written));
        assert!(matches!(action, PumpAction::Stop));
        assert_eq!(lines, expected);
    }
}

#[test]
fn a_failed_read_stops_the_pump() {
    let mut pump = Pump::new("x", Direction::ToClient);
    let (_, lines) = feed(&mut pump, b"part");
    assert!(lines.is_empty());
    let (action, lines) = pump.next(PumpEvent::ReceiveFailed);
    assert!(matches!(action, PumpAction::Stop));
    assert!(lines.is_empty());
}

#[test]
fn frames_carry_label_and_direction() {
    let pump = Pump::new("editor", Direction::ToAgent);
    let frame = pump.frame(17, "{}".to_string());
    assert_eq!(frame.label, "editor");
    assert_eq!(frame.dir, Direction::ToAgent);
    assert_eq!(frame.ts_ms, 17);
    assert_eq!(frame.line, "{}");
    assert_eq!(frame.clone().line, "{}");
}

#[test]
fn payloads_come_back_from_the_wire() {
    let mut pump = Pump::new("x", Direction::ToClient);
    let (_, lines) = feed(&mut pump, &terminated(b"{\"label\":\"x\"}".to_vec()));
    assert_eq!(lines, vec!["{\"label\":\"x\"}".to_string()]);
}

#[test]
fn frames_written_in_a_row_are_read_back() {
    let mut wire = Vec::new();
    for encoded in ["{\"a\":1}", "", "{\"b\":2}"] {
        wire.extend(terminated(encoded.as_bytes().to_vec()));
    }
    let mut pump = Pump::new("x", Direction::ToClient);
    let (_, lines) = feed(&mut pump, &wire);
    assert_eq!(lines, vec!["{\"a\":1}", "", "{\"b\":2}"]);
    let (_, rest) = pump.next(PumpEvent::Ended);
    assert!(rest.is_empty());
}
