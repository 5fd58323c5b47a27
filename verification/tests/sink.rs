//! Passing events on to a consumer on the same machine.

use openmeetnote::sink::{
    after_write, hello, next_backoff, normalize_url, reply, CommandQueue, Exit, FrameAction,
    Inbound, Link, LinkAction, LinkEvent, SinkHandle, WriteOutcome, BACKOFF_MAX_MS, BACKOFF_MIN_MS,
    CAP, CMD_QUEUE, STABLE_AFTER_MS,
};

#[test]
fn test_try_send_full_channel_drops_and_counts() {
    let mut handle = SinkHandle::default();
    handle.set_url(Some("ws://127.0.0.1:1".to_owned()));

    for i in 0..CAP {
        handle.try_send(format!("{i}"));
    }
    assert_eq!(handle.dropped(), 0, "容量以內不該丟");

    for _ in 0..5 {
        handle.try_send("overflow".to_owned());
    }
    assert_eq!(handle.dropped(), 5, "滿了之後每一筆都要記數");

    assert_eq!(handle.take().unwrap(), "0");
}

#[test]
fn test_try_send_disabled_is_noop() {
    let mut handle = SinkHandle::default();
    for _ in 0..(CAP * 2) {
        handle.try_send("x".to_owned());
    }
    assert!(!handle.enabled());
    assert_eq!(handle.dropped(), 0);
    assert!(handle.take().is_none(), "關閉時不該有東西進通道");
}

#[test]
fn test_next_backoff_caps_at_five_seconds() {
    let seq: Vec<u64> = std::iter::successors(Some(BACKOFF_MIN_MS), |d| Some(next_backoff(*d)))
        .take(8)
        .collect();
    assert_eq!(
        seq,
        vec![250, 500, 1000, 2000, 4000, BACKOFF_MAX_MS, BACKOFF_MAX_MS, BACKOFF_MAX_MS]
    );
    assert_eq!(BACKOFF_MAX_MS, 5000);
}

#[test]
fn test_set_url_blank_disables() {
    let mut handle = SinkHandle::default();
    handle.set_url(Some("   ".to_owned()));
    assert!(!handle.enabled());
    assert!(handle.url().is_none(), "不該啟動任務");
}

#[test]
fn test_normalize_url_loopback_forms_accepted() {
    for (raw, want) in [
        ("ws://127.0.0.1:8765/x", "ws://127.0.0.1:8765/x"),
        ("  ws://localhost:8765  ", "ws://localhost:8765"),
        ("ws://LOCALHOST:1/a", "ws://LOCALHOST:1/a"),
        ("ws://[::1]:8765/x", "ws://[::1]:8765/x"),
        ("WS://127.0.0.1:8765/x", "ws://127.0.0.1:8765/x"),
        ("Ws://127.0.0.2:9", "ws://127.0.0.2:9"),
    ] {
        assert_eq!(normalize_url(Some(raw)), Ok(Some(want.to_owned())), "輸入 {raw}");
    }
}

#[test]
fn test_normalize_url_absent_or_blank_is_none() {
    for raw in [None, Some(""), Some("   \t\n")] {
        assert_eq!(normalize_url(raw), Ok(None), "輸入 {raw:?}");
    }
}

#[test]
fn test_normalize_url_non_loopback_rejected() {
    for raw in [
        "ws://localhost.evil.com:8765",
        "ws://evil.com/localhost",
        "ws://localhost@evil.com:8765",
        "ws://10.0.0.5:8765",
        "ws://0.0.0.0:8765",
        "ws://[::2]:8765",
        "ws://[::ffff:8.8.8.8]:8765",
        "wss://localhost:8765",
        "http://localhost:8765",
        "localhost:8765",
        "ws://",
        "不是位址",
    ] {
        assert!(normalize_url(Some(raw)).is_err(), "應該拒絕 {raw}");
    }
}

fn command(id: u64, name: &str) -> Option<Inbound> {
    Some(Inbound { kind: "command".into(), id, name: name.into() })
}

#[test]
fn a_new_connection_is_greeted_and_starts_empty() {
    let mut handle = SinkHandle::default();
    handle.set_url(Some(" ws://127.0.0.1:1 ".to_owned()));
    assert_eq!(handle.url(), Some("ws://127.0.0.1:1"));
    handle.try_send("stale".to_owned());
    handle.drop_stale();
    handle.try_send("a".to_owned());
    handle.connect();
    assert!(handle.connected());
    handle.try_send("b".to_owned());
    assert_eq!(handle.take().as_deref(), Some("a"));
    assert_eq!(handle.take().as_deref(), Some("b"));
    handle.disconnect();
    assert!(!handle.connected());
    let text = hello(3);
    let v: serde_json::Value = serde_json::from_str(&text).unwrap();
    assert_eq!(v["kind"], "sinkHello");
    assert_eq!(v["droppedSinceStart"], 3);
    assert_eq!(v["app"], "openmeetnote");
}

#[test]
fn commands_run_in_order_and_a_full_queue_is_answered_at_once() {
    let mut q = CommandQueue::default();
    for id in 1..=CMD_QUEUE as u64 {
        assert!(matches!(q.receive(command(id, "endMeeting"), true), FrameAction::Enqueue));
    }
    match q.receive(command(9, "endMeeting"), true) {
        FrameAction::Answer(a) => {
            assert_eq!((a.id, a.error.as_deref()), (9, Some("busy")));
        }
        _ => panic!("滿了沒有立刻回覆"),
    }
    for id in 1..=CMD_QUEUE as u64 {
        assert_eq!(q.take(), Some((id, "endMeeting".to_owned())));
    }
    assert_eq!(q.take(), None);
}

#[test]
fn bad_frames_are_noted_once_and_other_kinds_are_ignored() {
    let mut q = CommandQueue::default();
    assert!(matches!(q.receive(None, true), FrameAction::Note));
    assert!(matches!(q.receive(None, true), FrameAction::Ignore));
    let other = Some(Inbound { kind: "hello".into(), id: 1, name: "x".into() });
    assert!(matches!(q.receive(other, true), FrameAction::Ignore));
    assert!(matches!(q.receive(command(2, "endMeeting"), true), FrameAction::Enqueue));
    match q.receive(command(3, "endMeeting"), false) {
        FrameAction::Answer(a) => assert_eq!(a.error.as_deref(), Some("命令處理器沒有設定")),
        _ => panic!("沒有處理器卻沒有回覆"),
    }
}

#[test]
fn replies_say_what_became_of_a_command() {
    assert_eq!(reply(7, "pauseMeeting".into(), Some(Ok(()))).error, None);
    let failed = reply(9, "selfDestruct".into(), Some(Err("unknown command".into())));
    assert_eq!((failed.id, failed.error.as_deref()), (9, Some("unknown command")));
    let broke = reply(1, "x".into(), None);
    assert_eq!(broke.error.as_deref(), Some("命令執行時發生未預期的錯誤"));
}

#[test]
fn short_lived_connections_back_off_and_lasting_ones_do_not() {
    let (mut link, first) = Link::start(true);
    assert_eq!(first, LinkAction::Connect);
    let mut waits = vec![];
    for _ in 0..4 {
        assert_eq!(link.step(LinkEvent::Connected, true), LinkAction::Forward);
        let ended = LinkEvent::Ended { exit: Exit::Dropped, up_ms: 5 };
        match link.step(ended, true) {
            LinkAction::Sleep(ms) => waits.push(ms),
            other => panic!("{other:?}"),
        }
        assert_eq!(link.step(LinkEvent::Slept, true), LinkAction::Connect);
    }
    assert_eq!(waits, [250, 500, 1000, 2000]);
    let lasted = LinkEvent::Ended { exit: Exit::Dropped, up_ms: STABLE_AFTER_MS };
    assert_eq!(link.step(lasted, true), LinkAction::Sleep(250));
}

#[test]
fn a_changed_address_is_tried_at_once_and_the_end_stops() {
    let (mut link, first) = Link::start(false);
    assert_eq!(first, LinkAction::AwaitUrl);
    assert_eq!(link.step(LinkEvent::UrlChanged, true), LinkAction::Connect);
    assert_eq!(link.step(LinkEvent::ConnectFailed, true), LinkAction::Sleep(250));
    assert_eq!(link.step(LinkEvent::Slept, true), LinkAction::Connect);
    assert_eq!(link.step(LinkEvent::ConnectFailed, true), LinkAction::Sleep(500));
    assert_eq!(link.step(LinkEvent::UrlChanged, false), LinkAction::AwaitUrl);
    let gone = LinkEvent::Ended { exit: Exit::Stop, up_ms: 0 };
    assert_eq!(link.step(gone, true), LinkAction::Stop);
    assert_eq!(link.step(LinkEvent::HandleGone, true), LinkAction::Stop);
    assert_eq!(after_write(WriteOutcome::Done), None);
    assert_eq!(after_write(WriteOutcome::TimedOut), Some(Exit::Dropped));
    assert_eq!(after_write(WriteOutcome::Failed), Some(Exit::Dropped));
    assert_eq!(after_write(WriteOutcome::UrlChanged), Some(Exit::UrlChanged));
    assert_eq!(after_write(WriteOutcome::HandleGone), Some(Exit::Stop));
}
