use filen_relay::common::{LogLineContent, ServerId, ServerSpec, ServerStatus, ServerType};
use filen_relay::manager::{AddOutcome, RemoveAction, ServerManager, StartAction};

fn mk_spec(id: ServerId, email: &str) -> ServerSpec {
    ServerSpec {
        id,
        name: "My Server".to_string(),
        server_type: ServerType::Http,
        root: "/".to_string(),
        read_only: false,
        password: None,
        filen_email: email.to_string(),
        filen_password: "pw".to_string(),
        filen_2fa_code: None,
    }
}

fn add_and_get_logs_id(m: &mut ServerManager, id: ServerId) -> (String, StartAction) {
    match m.handle_add(mk_spec(id, "user@example.com"), true) {
        AddOutcome::Started { logs_id, action } => (logs_id, action),
        _ => panic!("expected the add to be accepted"),
    }
}

#[test]
fn add_rejected_when_persistence_fails() {
    let mut m = ServerManager::new();
    let r = m.handle_add(mk_spec(ServerId::new(), "a@b"), false);
    assert!(matches!(r, AddOutcome::Rejected));
    assert_eq!(m.get_state_snapshot().len(), 0);
}

#[test]
fn add_starts_instance_with_starting_row_and_event_line() {
    let mut m = ServerManager::new();
    let id = ServerId::new();
    let (logs_id, action) = add_and_get_logs_id(&mut m, id);
    let snapshot = m.get_state_snapshot();
    assert_eq!(snapshot.len(), 1);
    match action {
        StartAction::Spawn { port: _ } => {
            assert!(matches!(snapshot[0].status, ServerStatus::Starting));
        }
        StartAction::Failed => {
            assert!(matches!(snapshot[0].status, ServerStatus::Error));
        }
    }
    assert_eq!(snapshot[0].logs_id, logs_id);
    let k = m.find_logs(&logs_id).expect("the sink must be registered");
    let history = m.logs_at(k).sink.get();
    assert!(!history.is_empty());
    match &history[0].content {
        LogLineContent::Event(msg) => assert_eq!(msg, "Starting server..."),
        _ => panic!("the first line must be the starting event"),
    }
}

#[test]
fn duplicate_add_is_dropped() {
    let mut m = ServerManager::new();
    let id = ServerId::new();
    add_and_get_logs_id(&mut m, id.duplicate());
    let r = m.handle_add(mk_spec(id, "user@example.com"), true);
    assert!(matches!(r, AddOutcome::Duplicate));
    assert_eq!(m.get_state_snapshot().len(), 1);
}

#[test]
fn remove_nonexistent_is_benign_and_loop_keeps_working() {
    let mut m = ServerManager::new();
    let r = m.handle_remove(&ServerId::new());
    assert!(matches!(r, RemoveAction::NotFound));
    assert_eq!(m.get_state_snapshot().len(), 0);

    // later requests are still processed as usual
    let id = ServerId::new();
    add_and_get_logs_id(&mut m, id.duplicate());
    assert_eq!(m.get_state_snapshot().len(), 1);
    let r = m.handle_remove(&ServerId::new());
    assert!(matches!(r, RemoveAction::NotFound));
    assert_eq!(m.get_state_snapshot().len(), 1);
    m.confirm_running(&id, 9000);
    let r = m.handle_remove(&id);
    assert!(matches!(r, RemoveAction::SignalStop));
}

#[test]
fn confirm_running_sets_port_and_registers_stop_handle() {
    let mut m = ServerManager::new();
    let id = ServerId::new();
    let (logs_id, _) = add_and_get_logs_id(&mut m, id.duplicate());
    m.confirm_running(&id, 8080);
    let snapshot = m.get_state_snapshot();
    assert_eq!(snapshot.len(), 1);
    assert!(matches!(snapshot[0].status, ServerStatus::Running { port: 8080 }));

    // stop: first signal consumes the handle, the second is a no-op
    assert!(m.signal_stop(&id));
    assert!(!m.signal_stop(&id));
    m.finish_stop(&id, true);
    assert_eq!(m.get_state_snapshot().len(), 0);
    let k = m.find_logs(&logs_id).unwrap();
    let history = m.logs_at(k).sink.get();
    let stopped = history.iter().any(|l| match &l.content {
        LogLineContent::Event(msg) => msg == "Server stopped.",
        _ => false,
    });
    assert!(stopped);
}

#[test]
fn stop_signal_twice_is_noop_second_time() {
    let mut m = ServerManager::new();
    let id = ServerId::new();
    add_and_get_logs_id(&mut m, id.duplicate());
    m.confirm_running(&id, 7000);
    assert!(m.signal_stop(&id));
    let before = m.get_state_snapshot().len();
    assert!(!m.signal_stop(&id));
    assert!(!m.signal_stop(&id));
    assert_eq!(m.get_state_snapshot().len(), before);
}

#[test]
fn spawn_failure_gives_one_error_row_with_event_and_no_handle() {
    let mut m = ServerManager::new();
    let id = ServerId::new();
    let (logs_id, _) = add_and_get_logs_id(&mut m, id.duplicate());
    m.fail_instance(&id, "Failed to find free local port");
    let snapshot = m.get_state_snapshot();
    assert_eq!(snapshot.len(), 1);
    assert!(matches!(snapshot[0].status, ServerStatus::Error));
    let k = m.find_logs(&logs_id).unwrap();
    let history = m.logs_at(k).sink.get();
    let failure_logged = history.iter().any(|l| match &l.content {
        LogLineContent::Event(msg) => msg.contains("Failed to find free local port"),
        _ => false,
    });
    assert!(failure_logged);
    // no process handle is leaked
    assert!(!m.signal_stop(&id));
}

#[test]
fn nonzero_exit_moves_row_to_error_and_retains_it_until_removed() {
    let mut m = ServerManager::new();
    let id = ServerId::new();
    add_and_get_logs_id(&mut m, id.duplicate());
    m.confirm_running(&id, 8100);
    m.process_exited(&id, false, "Server process exited with status: 1");
    let snapshot = m.get_state_snapshot();
    assert_eq!(snapshot.len(), 1);
    assert!(matches!(snapshot[0].status, ServerStatus::Error));
    // retained until an explicit remove; no live supervisor, so it drops
    let r = m.handle_remove(&id);
    assert!(matches!(r, RemoveAction::Dropped));
    assert_eq!(m.get_state_snapshot().len(), 0);
}

#[test]
fn clean_exit_removes_row_without_explicit_remove() {
    let mut m = ServerManager::new();
    let id = ServerId::new();
    add_and_get_logs_id(&mut m, id.duplicate());
    m.confirm_running(&id, 8200);
    m.process_exited(&id, true, "Server process exited with status: 0");
    assert_eq!(m.get_state_snapshot().len(), 0);
}

#[test]
fn state_version_moves_on_every_mutation() {
    let mut m = ServerManager::new();
    let (snapshot, version) = m.subscribe_state_changes();
    assert_eq!(snapshot.len(), 0);
    assert!(!m.state_changed(version));
    let id = ServerId::new();
    add_and_get_logs_id(&mut m, id.duplicate());
    assert!(m.state_changed(version));
    let (_, v2) = m.subscribe_state_changes();
    m.confirm_running(&id, 8300);
    assert!(m.state_changed(v2));
}

#[test]
fn table_never_holds_two_rows_with_one_id() {
    let mut m = ServerManager::new();
    let id = ServerId::new();
    add_and_get_logs_id(&mut m, id.duplicate());
    m.confirm_running(&id, 8400);
    m.handle_add(mk_spec(id.duplicate(), "other@example.com"), true);
    let snapshot = m.get_state_snapshot();
    for i in 0..snapshot.len() {
        for j in 0..snapshot.len() {
            if i != j {
                assert_ne!(snapshot[i].spec.id.to_text(), snapshot[j].spec.id.to_text());
            }
        }
    }
}
