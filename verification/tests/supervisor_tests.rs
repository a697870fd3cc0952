use ovpnd::config::ConfigEntry;
use ovpnd::status::SessionStatus;
use ovpnd::supervisor::SessionManager;

fn entry() -> ConfigEntry {
    ConfigEntry { name: "foo".to_string(), guid: "g1".to_string() }
}

fn status_of(mgr: &SessionManager) -> SessionStatus {
    mgr.active.as_ref().expect("active session").status
}

#[test]
fn new_manager_is_empty() {
    let mgr = SessionManager::new();
    assert!(!mgr.has_active_session());
    assert!(mgr.snapshot().is_none());
}

#[test]
fn spawn_installs_starting_session() {
    let mut mgr = SessionManager::new();
    let ev = mgr.on_spawned(entry(), 4242);
    assert!(mgr.has_active_session());
    assert_eq!(status_of(&mgr), SessionStatus::Starting);
    assert_eq!(ev.guid, "g1");
    assert_eq!(ev.name, "foo");
    assert_eq!(ev.status, SessionStatus::Starting);
    let snap = mgr.snapshot().expect("snapshot");
    assert_eq!(snap.status, SessionStatus::Starting);
    assert_eq!(snap.config.name, "foo");
}

#[test]
fn stays_starting_without_marker() {
    let mut mgr = SessionManager::new();
    mgr.on_spawned(entry(), 1);
    assert!(mgr.on_output_line(b"TUN/TAP device tun0 opened").is_none());
    assert!(mgr.on_output_line(b"Peer Connection Initiated").is_none());
    assert!(mgr.on_output_line(b"").is_none());
    assert_eq!(status_of(&mgr), SessionStatus::Starting);
}

#[test]
fn marker_line_makes_running() {
    let mut mgr = SessionManager::new();
    mgr.on_spawned(entry(), 1);
    let ev = mgr
        .on_output_line(b"2024-05-01 Initialization Sequence Completed ok")
        .expect("transition");
    assert_eq!(ev.status, SessionStatus::Running);
    assert_eq!(ev.name, "foo");
    assert_eq!(status_of(&mgr), SessionStatus::Running);
    // A second marker line changes nothing: only Starting reacts.
    assert!(mgr.on_output_line(b"Initialization Sequence Completed").is_none());
    assert_eq!(status_of(&mgr), SessionStatus::Running);
}

#[test]
fn stop_from_starting_goes_through_stopping_to_stopped() {
    let mut mgr = SessionManager::new();
    mgr.on_spawned(entry(), 77);
    let (pid, ev) = mgr.begin_stop();
    assert_eq!(pid, 77);
    assert_eq!(ev.status, SessionStatus::Stopping);
    assert_eq!(status_of(&mgr), SessionStatus::Stopping);
    let ev2 = mgr.finish_stop();
    assert_eq!(ev2.status, SessionStatus::Stopped);
    assert!(!mgr.has_active_session());
}

#[test]
fn stop_from_running_goes_through_stopping_to_stopped() {
    let mut mgr = SessionManager::new();
    mgr.on_spawned(entry(), 9);
    mgr.on_output_line(b"Initialization Sequence Completed").expect("running");
    let (_, ev) = mgr.begin_stop();
    assert_eq!(ev.status, SessionStatus::Stopping);
    let ev2 = mgr.finish_stop();
    assert_eq!(ev2.status, SessionStatus::Stopped);
    assert!(!mgr.has_active_session());
}

#[test]
fn unsolicited_exit_crashes_and_clears_slot() {
    let mut mgr = SessionManager::new();
    mgr.on_spawned(entry(), 5);
    mgr.on_output_line(b"Initialization Sequence Completed").expect("running");
    let ev = mgr.on_process_exit().expect("crash event");
    assert_eq!(ev.status, SessionStatus::Crashed);
    assert_eq!(ev.guid, "g1");
    assert!(!mgr.has_active_session());
}

#[test]
fn exit_while_stopping_is_owned_by_the_stop() {
    let mut mgr = SessionManager::new();
    mgr.on_spawned(entry(), 5);
    mgr.begin_stop();
    // The exit watcher fires while the stop is in flight: no event, no
    // change — the stop path finalizes.
    assert!(mgr.on_process_exit().is_none());
    assert!(mgr.has_active_session());
    assert_eq!(status_of(&mgr), SessionStatus::Stopping);
}

#[test]
fn exit_with_empty_slot_is_a_no_op() {
    let mut mgr = SessionManager::new();
    assert!(mgr.on_process_exit().is_none());
    assert!(!mgr.has_active_session());
}

#[test]
fn status_event_encodes_like_an_event_frame() {
    let mut mgr = SessionManager::new();
    let ev = mgr.on_spawned(entry(), 1);
    assert_eq!(ev.encode(), b"!15:g1:foo:Starting\n".to_vec());
}

#[test]
fn stop_signal_to_a_nonexistent_group_reports_the_error() {
    // A process-group id far above the kernel's pid range: delivery must
    // fail and the errno must be passed back rather than swallowed.
    assert!(ovpnd::supervisor::deliver_stop_signal(2_000_000_000).is_err());
}

#[test]
fn status_labels() {
    assert_eq!(SessionStatus::Starting.label(), "Starting");
    assert_eq!(SessionStatus::Running.label(), "Running");
    assert_eq!(SessionStatus::Stopping.label(), "Stopping");
    assert_eq!(SessionStatus::Stopped.label(), "Stopped");
    assert_eq!(SessionStatus::Crashed.label(), "Crashed");
}
