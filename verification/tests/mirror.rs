use acp_tap::{terminated, Mirror, MirrorAction, MirrorEvent, MIRROR_QUEUE};

fn ready(text: &str) -> MirrorEvent {
    MirrorEvent::FrameReady(text.as_bytes().to_vec())
}

/// The bytes that the action writes, as text.
fn bytes(action: MirrorAction) -> String {
    match action {
        MirrorAction::Write(bytes) => String::from_utf8(bytes).unwrap(),
        other => panic!("no write: {:?}", other),
    }
}

#[test]
fn absent_dashboard_is_backed_off_from() {
    let mut mirror = Mirror::new();
    for expected in [250, 500, 1000, 2000, 4000, 8000, 10_000, 10_000] {
        assert!(matches!(mirror.next(ready("x")), MirrorAction::Connect));
        let pause = mirror.next(MirrorEvent::ConnectFailed);
        assert!(matches!(pause, MirrorAction::Pause(ms) if ms == expected));
        assert!(matches!(mirror.next(MirrorEvent::Paused), MirrorAction::NextFrame));
        assert!(!mirror.connected());
    }
    assert!(matches!(mirror.next(ready("y")), MirrorAction::Connect));
    assert_eq!(bytes(mirror.next(MirrorEvent::Connected)), "y\n");
    assert!(matches!(mirror.next(MirrorEvent::Written), MirrorAction::NextFrame));
    assert!(mirror.connected());

    mirror.next(ready("z"));
    mirror.next(MirrorEvent::WriteFailed);
    let pause = mirror.next(MirrorEvent::ConnectFailed);
    assert!(matches!(pause, MirrorAction::Pause(250)));
}

#[test]
fn stale_connection_loses_no_frame() {
    let mut mirror = Mirror::new();
    mirror.next(ready("first"));
    mirror.next(MirrorEvent::Connected);
    mirror.next(MirrorEvent::Written);

    assert_eq!(bytes(mirror.next(ready("second"))), "second\n");
    assert!(matches!(mirror.next(MirrorEvent::WriteFailed), MirrorAction::Connect));
    assert_eq!(bytes(mirror.next(MirrorEvent::Connected)), "second\n");
    assert!(matches!(mirror.next(MirrorEvent::Written), MirrorAction::NextFrame));
    assert!(mirror.connected());
}

#[test]
fn a_frame_is_written_twice_at_most() {
    let mut mirror = Mirror::new();
    assert!(matches!(mirror.next(ready("x")), MirrorAction::Connect));
    assert_eq!(bytes(mirror.next(MirrorEvent::Connected)), "x\n");
    assert!(matches!(mirror.next(MirrorEvent::WriteFailed), MirrorAction::Connect));
    assert_eq!(bytes(mirror.next(MirrorEvent::Connected)), "x\n");
    assert!(matches!(mirror.next(MirrorEvent::WriteFailed), MirrorAction::NextFrame));
    assert!(!mirror.connected());

    assert!(matches!(mirror.next(ready("y")), MirrorAction::Connect));
    assert_eq!(bytes(mirror.next(MirrorEvent::Connected)), "y\n");
}

#[test]
fn reconnect_that_fails_drops_the_frame() {
    let mut mirror = Mirror::new();
    mirror.next(ready("x"));
    mirror.next(MirrorEvent::Connected);
    mirror.next(MirrorEvent::WriteFailed);
    let pause = mirror.next(MirrorEvent::ConnectFailed);
    assert!(matches!(pause, MirrorAction::Pause(250)));
    assert!(matches!(mirror.next(MirrorEvent::Paused), MirrorAction::NextFrame));

    mirror.next(ready("y"));
    let pause = mirror.next(MirrorEvent::ConnectFailed);
    assert!(matches!(pause, MirrorAction::Pause(500)));
}

#[test]
fn unreadable_frames_are_skipped() {
    let mut mirror = Mirror::new();
    assert!(matches!(mirror.next(MirrorEvent::FrameUnreadable), MirrorAction::NextFrame));
    assert!(matches!(mirror.next(ready("two\nlines")), MirrorAction::NextFrame));
    assert!(matches!(mirror.next(ready("x")), MirrorAction::Connect));
    assert_eq!(bytes(mirror.next(MirrorEvent::Connected)), "x\n");
}

#[test]
fn frames_are_delivered_in_order_and_once() {
    let mut mirror = Mirror::new();
    let mut delivered = Vec::new();
    let mut writes = 0;
    for name in ["a", "b", "c", "d"] {
        let mut event = ready(name);
        let mut current = Vec::new();
        loop {
            event = match mirror.next(event) {
                MirrorAction::NextFrame => break,
                MirrorAction::Connect => MirrorEvent::Connected,
                MirrorAction::Pause(_) => MirrorEvent::Paused,
                MirrorAction::Write(bytes) => {
                    current = bytes;
                    writes += 1;
                    // Frame "a" is retried, frame "b" is lost.
                    if writes == 2 || writes > 4 {
                        delivered.push(String::from_utf8(current.clone()).unwrap());
                        MirrorEvent::Written
                    } else {
                        MirrorEvent::WriteFailed
                    }
                }
            };
        }
        assert_eq!(current, format!("{}\n", name).into_bytes());
    }
    assert_eq!(delivered, vec!["a\n", "c\n", "d\n"]);
}

#[test]
fn a_frame_takes_two_connects_and_one_pause_at_most() {
    let mut mirror = Mirror::new();
    let mut connects = 0;
    let mut pauses = 0;
    let mut event = ready("x");
    loop {
        event = match mirror.next(event) {
            MirrorAction::NextFrame => break,
            MirrorAction::Write(_) => MirrorEvent::WriteFailed,
            MirrorAction::Connect => {
                connects += 1;
                if connects == 1 {
                    MirrorEvent::Connected
                } else {
                    MirrorEvent::ConnectFailed
                }
            }
            MirrorAction::Pause(ms) => {
                assert_eq!(ms, 250);
                pauses += 1;
                MirrorEvent::Paused
            }
        };
    }
    assert_eq!((connects, pauses), (2, 1));
}

#[test]
fn payloads_end_in_a_newline() {
    assert_eq!(terminated(vec![123, 125]), vec![123, 125, 10]);
    assert_eq!(terminated(vec![]), vec![10]);
    assert_eq!(MIRROR_QUEUE, 1024);
}
