use term_sessions::errors::SessionError;
use term_sessions::session::{ChannelRead, DrainOutcome, ReadOutcome, SessionCore, SessionEvent};

fn id(s: &str) -> Vec<u8> {
    s.as_bytes().to_vec()
}

#[test]
fn spawn_local_is_idempotent_per_id() {
    // Two spawns for "a" (a duplicated request) and one for "b": exactly one
    // record per id survives, and the duplicate is reported not-inserted.
    let mut core = SessionCore::new();
    assert!(core.spawn_local(id("a")));
    assert!(!core.spawn_local(id("a")));
    assert!(core.spawn_local(id("b")));
    assert!(core.contains_local(&id("a")));
    assert!(core.contains_local(&id("b")));
    assert_eq!(core.local_count(), 2);
}

#[test]
fn spawn_remote_duplicate_is_an_error() {
    let mut core = SessionCore::new();
    assert!(core.spawn_remote(id("r")).is_ok());
    match core.spawn_remote(id("r")) {
        Err(SessionError::AlreadyExists) => {}
        _ => panic!("duplicate remote spawn must report AlreadyExists"),
    }
    assert_eq!(core.remote_count(), 1);
}

#[test]
fn local_session_scenario() {
    // spawn "t1" -> write "echo hi\n" -> a data event carrying "hi" -> kill
    // -> lookup yields NotFound.
    let mut core = SessionCore::new();
    assert!(core.spawn_local(id("t1")));

    let written = core
        .write_local(&id("t1"), b"echo hi\n".to_vec())
        .expect("live session accepts writes");
    assert_eq!(written, b"echo hi\n".to_vec());

    let step = core.local_worker_step(&id("t1"), ReadOutcome::Chunk(b"hi\r\n".to_vec()));
    assert!(!step.exit_loop);
    assert_eq!(step.events.len(), 1);
    match &step.events[0] {
        SessionEvent::Data { id: eid, text } => {
            assert_eq!(eid, &id("t1"));
            assert!(text.contains("hi"));
        }
        _ => panic!("a chunk must become a data event"),
    }

    assert!(core.kill_local(&id("t1")).is_ok());
    match core.write_local(&id("t1"), b"x".to_vec()) {
        Err(SessionError::NotFound) => {}
        _ => panic!("a killed session must be NotFound"),
    }
    assert!(!core.contains_local(&id("t1")));
}

#[test]
fn ended_is_terminal_and_entry_is_gone() {
    let mut core = SessionCore::new();
    assert!(core.spawn_local(id("s")));
    let step = core.local_worker_step(&id("s"), ReadOutcome::Eof);
    assert!(step.exit_loop);
    assert_eq!(step.events.len(), 1);
    match &step.events[0] {
        SessionEvent::Ended { id: eid } => assert_eq!(eid, &id("s")),
        _ => panic!("end of stream must become an ended event"),
    }
    assert!(!core.contains_local(&id("s")));
    // The worker exits its loop after the terminal event; a read error ends
    // the same way.
    let mut core2 = SessionCore::new();
    assert!(core2.spawn_local(id("s")));
    let step2 = core2.local_worker_step(&id("s"), ReadOutcome::Failed);
    assert!(step2.exit_loop);
    assert!(matches!(step2.events[0], SessionEvent::Ended { .. }));
}

#[test]
fn kill_then_write_local_yields_not_found() {
    let mut core = SessionCore::new();
    assert!(core.spawn_local(id("k")));
    assert!(core.kill_local(&id("k")).is_ok());
    assert!(matches!(
        core.write_local(&id("k"), b"data".to_vec()),
        Err(SessionError::NotFound)
    ));
}

#[test]
fn kill_then_write_remote_yields_not_found() {
    let mut core = SessionCore::new();
    assert!(core.spawn_remote(id("k")).is_ok());
    assert!(core.kill_remote(&id("k")).is_ok());
    assert!(matches!(
        core.write_remote(&id("k"), b"data".to_vec()),
        Err(SessionError::NotFound)
    ));
    // Killing again is safe: kill is idempotent.
    assert!(core.kill_remote(&id("k")).is_ok());
}

#[test]
fn remote_round_trip_preserves_bytes_in_order() {
    let mut core = SessionCore::new();
    assert!(core.spawn_remote(id("r")).is_ok());
    core.write_remote(&id("r"), vec![0, 159, 146, 150]).unwrap();
    core.write_remote(&id("r"), b"second".to_vec()).unwrap();

    match core.remote_drain_step(&id("r")) {
        DrainOutcome::Write(bytes) => assert_eq!(bytes, vec![0, 159, 146, 150]),
        _ => panic!("the first enqueued write must drain first, unmodified"),
    }
    match core.remote_drain_step(&id("r")) {
        DrainOutcome::Write(bytes) => assert_eq!(bytes, b"second".to_vec()),
        _ => panic!("the second write drains second"),
    }
    assert!(matches!(core.remote_drain_step(&id("r")), DrainOutcome::Empty));

    let idle = core.remote_read_step(&id("r"), ChannelRead::WouldBlock, false);
    assert!(idle.sleep);
    assert!(!idle.exit_loop);
    assert!(idle.events.is_empty());
}

#[test]
fn remote_worker_emits_data_then_ended_on_eof_flag() {
    let mut core = SessionCore::new();
    assert!(core.spawn_remote(id("r")).is_ok());
    let step = core.remote_read_step(&id("r"), ChannelRead::Data(b"out".to_vec()), true);
    assert!(step.exit_loop);
    assert_eq!(step.events.len(), 2);
    assert!(matches!(step.events[0], SessionEvent::Data { .. }));
    assert!(matches!(step.events[1], SessionEvent::Ended { .. }));
    assert!(!core.contains_remote(&id("r")));
}

#[test]
fn remote_worker_exits_silently_after_kill() {
    let mut core = SessionCore::new();
    assert!(core.spawn_remote(id("r")).is_ok());
    assert!(core.kill_remote(&id("r")).is_ok());
    // The worker's next queue check observes the disconnection: no events,
    // just exit within one loop iteration.
    assert!(matches!(
        core.remote_drain_step(&id("r")),
        DrainOutcome::Disconnected
    ));
}

#[test]
fn remote_read_failure_ends_the_session() {
    let mut core = SessionCore::new();
    assert!(core.spawn_remote(id("r")).is_ok());
    let step = core.remote_read_step(&id("r"), ChannelRead::Failed, false);
    assert!(step.exit_loop);
    assert_eq!(step.events.len(), 1);
    assert!(matches!(step.events[0], SessionEvent::Ended { .. }));
    assert!(!core.contains_remote(&id("r")));
    // A write that follows within the grace period is NotFound.
    assert!(matches!(
        core.write_remote(&id("r"), b"x".to_vec()),
        Err(SessionError::NotFound)
    ));
}

#[test]
fn resize_repeated_with_same_geometry_changes_nothing_more() {
    let mut core = SessionCore::new();
    assert!(core.spawn_local(id("l")));
    assert!(core.spawn_remote(id("r")).is_ok());

    assert!(core.resize_local(&id("l"), 50, 120).is_ok());
    assert!(core.resize_local(&id("l"), 50, 120).is_ok());
    assert!(core.resize_remote(&id("r"), 50, 120).is_ok());
    assert!(core.resize_remote(&id("r"), 50, 120).is_ok());

    // The sessions are still live, alone in their tables, and writable.
    assert_eq!(core.local_count(), 1);
    assert_eq!(core.remote_count(), 1);
    assert!(core.write_local(&id("l"), b"x".to_vec()).is_ok());
    assert!(core.write_remote(&id("r"), b"x".to_vec()).is_ok());
}

#[test]
fn resize_unknown_session_is_not_found() {
    let mut core = SessionCore::new();
    assert!(matches!(
        core.resize_local(&id("nope"), 24, 80),
        Err(SessionError::NotFound)
    ));
    assert!(matches!(
        core.resize_remote(&id("nope"), 24, 80),
        Err(SessionError::NotFound)
    ));
}

#[test]
fn invalid_utf8_output_is_replaced_not_fatal() {
    let mut core = SessionCore::new();
    assert!(core.spawn_local(id("u")));
    let step = core.local_worker_step(&id("u"), ReadOutcome::Chunk(vec![0xff, 0xfe]));
    match &step.events[0] {
        SessionEvent::Data { text, .. } => {
            assert_eq!(text.as_str(), "\u{FFFD}\u{FFFD}");
        }
        _ => panic!("expected a data event"),
    }
}

#[test]
fn kill_local_unknown_id_is_an_error_remote_is_not() {
    let mut core = SessionCore::new();
    assert!(matches!(
        core.kill_local(&id("ghost")),
        Err(SessionError::NotFound)
    ));
    assert!(core.kill_remote(&id("ghost")).is_ok());
}
