use filen_relay::common::{LogLine, LogLineContent, ServerId, ServerSpec, ServerType};
use filen_relay::logsink::IncrementalVec;
use filen_relay::manager::{AddOutcome, ServerManager};

fn line(n: i64, text: &str) -> LogLine {
    LogLine { timestamp_ms: n, content: LogLineContent::ServerProcess(text.to_string()) }
}

fn text_of(l: &LogLine) -> String {
    match &l.content {
        LogLineContent::Event(s) => s.clone(),
        LogLineContent::ServerProcess(s) => s.clone(),
    }
}

#[test]
fn subscriber_gets_history_then_every_later_line_once_in_order() {
    let mut sink = IncrementalVec::new(10);
    sink.push(line(1, "one"));
    sink.push(line(2, "two"));
    sink.push(line(3, "three"));

    let (history, sub) = sink.subscribe();
    assert_eq!(history.len(), 3);
    assert_eq!(text_of(&history[0]), "one");
    assert_eq!(text_of(&history[1]), "two");
    assert_eq!(text_of(&history[2]), "three");

    // nothing pending right after subscribing: no duplicate at the seam
    assert!(sink.recv(sub).is_none());

    sink.push(line(4, "four"));
    sink.push(line(5, "five"));
    let a = sink.recv(sub).expect("the first live line");
    let b = sink.recv(sub).expect("the second live line");
    assert_eq!(text_of(&a), "four");
    assert_eq!(text_of(&b), "five");
    // no gap, no duplicate: the tail ends exactly here
    assert!(sink.recv(sub).is_none());
}

#[test]
fn two_subscribers_each_get_their_own_tail() {
    let mut sink = IncrementalVec::new(10);
    sink.push(line(1, "a"));
    let (h1, s1) = sink.subscribe();
    assert_eq!(h1.len(), 1);
    sink.push(line(2, "b"));
    let (h2, s2) = sink.subscribe();
    assert_eq!(h2.len(), 2);
    sink.push(line(3, "c"));

    assert_eq!(text_of(&sink.recv(s1).unwrap()), "b");
    assert_eq!(text_of(&sink.recv(s1).unwrap()), "c");
    assert!(sink.recv(s1).is_none());
    assert_eq!(text_of(&sink.recv(s2).unwrap()), "c");
    assert!(sink.recv(s2).is_none());
}

#[test]
fn history_is_bounded_and_drops_the_oldest() {
    let mut sink = IncrementalVec::new(2);
    sink.push(line(1, "a"));
    sink.push(line(2, "b"));
    sink.push(line(3, "c"));
    let history = sink.get();
    assert_eq!(history.len(), 2);
    assert_eq!(text_of(&history[0]), "b");
    assert_eq!(text_of(&history[1]), "c");
    assert_eq!(sink.history_len(), 2);
}

#[test]
fn dropped_subscriber_stops_receiving_but_keeps_its_backlog() {
    let mut sink = IncrementalVec::new(10);
    let (_, sub) = sink.subscribe();
    sink.push(line(1, "before"));
    sink.unsubscribe(sub);
    sink.push(line(2, "after"));
    assert_eq!(text_of(&sink.recv(sub).unwrap()), "before");
    assert!(sink.recv(sub).is_none());
}

#[test]
fn manager_log_subscription_spans_the_seam() {
    let mut m = ServerManager::new();
    let id = ServerId::new();
    let spec = ServerSpec {
        id,
        name: "n".to_string(),
        server_type: ServerType::Webdav,
        root: "/".to_string(),
        read_only: true,
        password: Some("secret".to_string()),
        filen_email: "e@x".to_string(),
        filen_password: "pw".to_string(),
        filen_2fa_code: None,
    };
    let logs_id = match m.handle_add(spec, true) {
        AddOutcome::Started { logs_id, .. } => logs_id,
        _ => panic!("expected the add to be accepted"),
    };
    let k = m.find_logs(&logs_id).unwrap();
    let (history, sub) = m.subscribe_logs(k);
    assert_eq!(history.len(), 1);
    assert_eq!(text_of(&history[0]), "Starting server...");
    assert!(m.recv_logs(k, sub).is_none());

    let id2 = m.get_state_snapshot()[0].spec.id.duplicate();
    m.fail_instance(&id2, "Failed to authenticate");
    let tail = m.recv_logs(k, sub).expect("the failure event reaches the tail");
    assert_eq!(text_of(&tail), "Failed to authenticate");
    assert!(m.recv_logs(k, sub).is_none());

    m.unsubscribe_logs(k, sub);
    let id3 = m.get_state_snapshot()[0].spec.id.duplicate();
    let _ = m.handle_remove(&id3);
    assert!(m.recv_logs(k, sub).is_none());
}
