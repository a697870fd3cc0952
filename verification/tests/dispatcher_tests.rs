use ovpnd::command::parse_command_line;
use ovpnd::config::{ConfigIndex, ConfigManager};
use ovpnd::dispatcher::{
    delete_response, derive_profile_name, export_response, import_response,
    invalid_command_response, start_response, stop_response, CommandHandler, ConfigAction,
    Dispatch,
};
use ovpnd::status::SessionStatus;
use ovpnd::supervisor::SessionManager;

fn store_with_foo() -> ConfigManager {
    let mut mgr = ConfigManager { index: ConfigIndex::empty() };
    mgr.import_entry("foo".to_string()).expect("import");
    mgr
}

fn dispatch(line: &str, mgr: &SessionManager, cfg: &ConfigManager) -> Dispatch {
    let cli = parse_command_line(line).expect("parses");
    CommandHandler::handle_command(&cli, mgr, cfg)
}

#[test]
fn end_to_end_start_status_stop() {
    let cfg = store_with_foo();
    let mut mgr = SessionManager::new();
    let mut broadcasts: Vec<SessionStatus> = Vec::new();

    // With no active session and an existing profile, the start passes
    // every check and names the profile to spawn.
    let entry = match dispatch("session start --name foo", &mgr, &cfg) {
        Dispatch::StartSession { entry } => entry,
        other => panic!("expected a start, got {:?}", other),
    };
    assert_eq!(entry.name, "foo");

    // The spawn succeeded: the session is installed as Starting.
    let ev = mgr.on_spawned(entry, 4242);
    broadcasts.push(ev.status);
    let ok = start_response(true);
    assert!(ok.success);
    assert_eq!(ok.message, "Session started successfully");

    // An immediate second start is refused, and nothing is spawned.
    match dispatch("session start --name foo", &mgr, &cfg) {
        Dispatch::Reply(resp) => {
            assert!(!resp.success);
            assert_eq!(
                resp.message,
                "Cannot start new session because another one is already active"
            );
        }
        other => panic!("expected a refusal, got {:?}", other),
    }

    // The status query reports Starting before the marker arrived.
    match dispatch("session status", &mgr, &cfg) {
        Dispatch::StatusReport(snap) => assert_eq!(snap.status, SessionStatus::Starting),
        other => panic!("expected a status report, got {:?}", other),
    }

    // The marker arrives; the status query now reports Running.
    let ev = mgr.on_output_line(b"Initialization Sequence Completed").expect("running");
    broadcasts.push(ev.status);
    match dispatch("session status", &mgr, &cfg) {
        Dispatch::StatusReport(snap) => assert_eq!(snap.status, SessionStatus::Running),
        other => panic!("expected a status report, got {:?}", other),
    }

    // The stop passes its check, drives Stopping then Stopped, and the
    // slot ends empty, with a broadcast at every transition.
    assert!(matches!(dispatch("session stop", &mgr, &cfg), Dispatch::StopSession));
    let (pid, ev) = mgr.begin_stop();
    assert_eq!(pid, 4242);
    broadcasts.push(ev.status);
    let ev = mgr.finish_stop();
    broadcasts.push(ev.status);
    assert!(!mgr.has_active_session());
    let done = stop_response(true);
    assert!(done.success);
    assert_eq!(done.message, "The session was stopped successfully");

    assert_eq!(
        broadcasts,
        vec![
            SessionStatus::Starting,
            SessionStatus::Running,
            SessionStatus::Stopping,
            SessionStatus::Stopped,
        ]
    );
}

#[test]
fn start_with_unknown_profile_is_refused() {
    let cfg = store_with_foo();
    let mgr = SessionManager::new();
    match dispatch("session start --name nope", &mgr, &cfg) {
        Dispatch::Reply(resp) => {
            assert!(!resp.success);
            assert_eq!(resp.message, "The specified configuration cannot be found");
        }
        other => panic!("expected a refusal, got {:?}", other),
    }
}

#[test]
fn stop_without_active_session_is_refused_without_any_transition() {
    let cfg = store_with_foo();
    let mgr = SessionManager::new();
    match dispatch("session stop", &mgr, &cfg) {
        Dispatch::Reply(resp) => {
            assert!(!resp.success);
            assert_eq!(resp.message, "No session is currently active");
        }
        other => panic!("expected a refusal, got {:?}", other),
    }
    // The dispatcher only read the state: the slot is still empty and no
    // event exists to broadcast.
    assert!(!mgr.has_active_session());
}

#[test]
fn status_with_no_session_reports_none() {
    let cfg = store_with_foo();
    let mgr = SessionManager::new();
    match dispatch("session status", &mgr, &cfg) {
        Dispatch::Reply(resp) => {
            assert!(resp.success);
            assert_eq!(resp.message, "No active sessions");
        }
        other => panic!("expected a reply, got {:?}", other),
    }
}

#[test]
fn config_commands_become_store_actions() {
    let cfg = store_with_foo();
    let mgr = SessionManager::new();
    assert!(matches!(
        dispatch("config list", &mgr, &cfg),
        Dispatch::Config(ConfigAction::List)
    ));
    match dispatch("config export --name foo", &mgr, &cfg) {
        Dispatch::Config(ConfigAction::Export { name }) => assert_eq!(name, "foo"),
        other => panic!("expected an export action, got {:?}", other),
    }
    match dispatch("config delete --name foo", &mgr, &cfg) {
        Dispatch::Config(ConfigAction::Delete { name }) => assert_eq!(name, "foo"),
        other => panic!("expected a delete action, got {:?}", other),
    }
}

#[test]
fn import_name_defaults_to_the_file_stem() {
    let cfg = store_with_foo();
    let mgr = SessionManager::new();
    match dispatch("config import --path /etc/x/client.conf", &mgr, &cfg) {
        Dispatch::Config(ConfigAction::Import { name, path }) => {
            assert_eq!(name, "client");
            assert_eq!(path, "/etc/x/client.conf");
        }
        other => panic!("expected an import action, got {:?}", other),
    }
    match dispatch("config import --path p.conf --name given", &mgr, &cfg) {
        Dispatch::Config(ConfigAction::Import { name, .. }) => assert_eq!(name, "given"),
        other => panic!("expected an import action, got {:?}", other),
    }
}

#[test]
fn file_stem_derivation() {
    assert_eq!(derive_profile_name(&"/a/b/client.conf".to_string()), "client");
    assert_eq!(derive_profile_name(&"client.conf".to_string()), "client");
    assert_eq!(derive_profile_name(&"noext".to_string()), "noext");
    assert_eq!(derive_profile_name(&"/a/.hidden".to_string()), ".hidden");
    assert_eq!(derive_profile_name(&"a.b.c".to_string()), "a.b");
}

#[test]
fn response_builders_carry_exact_messages() {
    let inv = invalid_command_response();
    assert!(!inv.success);
    assert_eq!(inv.message, "Invalid command");

    let r = start_response(false);
    assert!(!r.success);
    assert_eq!(r.message, "Failed to start the session");

    let r = stop_response(false);
    assert!(!r.success);
    assert_eq!(r.message, "Failed to stop the session");

    let r = import_response(&Ok(()));
    assert!(r.success);
    assert_eq!(r.message, "Configuration imported successfully");

    let r = import_response(&Err("A configuration with the same name already exists.".to_string()));
    assert!(!r.success);
    assert_eq!(
        r.message,
        "Failed to import configuration: A configuration with the same name already exists."
    );

    let r = delete_response(&Ok(()));
    assert!(r.success);
    assert_eq!(r.message, "Configuration deleted successfully");

    let r = delete_response(&Err("boom".to_string()));
    assert!(!r.success);
    assert_eq!(r.message, "Failed to delete configuration: boom");

    let r = export_response(Ok("remote 1.2.3.4\n".to_string()));
    assert!(r.success);
    assert_eq!(r.message, "remote 1.2.3.4\n");

    let r = export_response(Err("Cannot read the configuration file.".to_string()));
    assert!(!r.success);
    assert_eq!(
        r.message,
        "Failed to export configuration: Cannot read the configuration file."
    );
}

#[test]
fn responses_encode_with_the_shared_framing() {
    let resp = invalid_command_response();
    assert_eq!(resp.encode(), b"19:err:Invalid command\n".to_vec());
    let ok = start_response(true);
    assert_eq!(ok.encode(), b"31:ok:Session started successfully\n".to_vec());
}
