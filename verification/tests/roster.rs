use tcp_chat::chan::Delivery;
use tcp_chat::state::{Action, Event, ServerState, SessionInput, SessionStep};
use tokio::sync::mpsc::UnboundedReceiver;

fn join(state: &mut ServerState, addr: &str) -> (UnboundedReceiver<String>, Vec<Delivery>) {
    match state.handle_event(Event::NewPeer { addr: addr.to_string() }) {
        Action::RunSession { addr: a, messages, deliveries } => {
            assert_eq!(a, addr);
            (messages.into_inner(), deliveries)
        }
        Action::Done { .. } => panic!("a new address must start a session"),
    }
}

fn drain(rx: &mut UnboundedReceiver<String>) -> Vec<String> {
    let mut out = Vec::new();
    while let Ok(m) = rx.try_recv() {
        out.push(m);
    }
    out
}

#[test]
fn new_state_is_empty() {
    let state = ServerState::new();
    assert_eq!(state.len(), 0);
    assert_eq!(state.position(&"127.0.0.1:1".to_string()), None);
}

#[test]
fn newcomer_is_added_and_announced_to_everyone() {
    let mut state = ServerState::new();
    let (mut first_rx, d1) = join(&mut state, "127.0.0.1:1000");
    assert_eq!(d1.len(), 1);
    assert_eq!(d1[0].to, "127.0.0.1:1000");
    assert_eq!(d1[0].message, "User 127.0.0.1:1000 has joined the session");
    assert!(d1[0].accepted);
    let (mut second_rx, d2) = join(&mut state, "127.0.0.1:2000");
    assert_eq!(state.len(), 2);
    assert_eq!(state.position(&"127.0.0.1:2000".to_string()), Some(1));
    let to: Vec<&str> = d2.iter().map(|d| d.to.as_str()).collect();
    assert_eq!(to, vec!["127.0.0.1:1000", "127.0.0.1:2000"]);
    assert_eq!(
        drain(&mut first_rx),
        vec![
            "User 127.0.0.1:1000 has joined the session".to_string(),
            "User 127.0.0.1:2000 has joined the session".to_string()
        ]
    );
    assert_eq!(drain(&mut second_rx), vec!["User 127.0.0.1:2000 has joined the session".to_string()]);
}

#[test]
fn known_address_changes_nothing() {
    let mut state = ServerState::new();
    let (mut rx, _) = join(&mut state, "10.0.0.1:5");
    drain(&mut rx);
    match state.handle_event(Event::NewPeer { addr: "10.0.0.1:5".to_string() }) {
        Action::Done { deliveries } => assert!(deliveries.is_empty()),
        Action::RunSession { .. } => panic!("a known address must not start a second session"),
    }
    assert_eq!(state.len(), 1);
    assert!(drain(&mut rx).is_empty());
}

#[test]
fn chat_line_is_relayed_to_all_with_its_author() {
    let mut state = ServerState::new();
    let (mut a_rx, _) = join(&mut state, "1.1.1.1:1");
    let (mut b_rx, _) = join(&mut state, "2.2.2.2:2");
    drain(&mut a_rx);
    drain(&mut b_rx);
    let action = state.handle_event(Event::NewMessage { contents: "hi there".to_string(), from: "1.1.1.1:1".to_string() });
    match action {
        Action::Done { deliveries } => {
            assert_eq!(deliveries.len(), 2);
            assert!(deliveries.iter().all(|d| d.message == "1.1.1.1:1: hi there" && d.accepted));
        }
        Action::RunSession { .. } => panic!("a chat line starts no session"),
    }
    assert_eq!(state.len(), 2);
    assert_eq!(drain(&mut a_rx), vec!["1.1.1.1:1: hi there".to_string()]);
    assert_eq!(drain(&mut b_rx), vec!["1.1.1.1:1: hi there".to_string()]);
}

#[test]
fn chat_line_with_no_peers_reaches_nobody() {
    let mut state = ServerState::new();
    match state.handle_event(Event::NewMessage { contents: "x".to_string(), from: "9.9.9.9:9".to_string() }) {
        Action::Done { deliveries } => assert!(deliveries.is_empty()),
        Action::RunSession { .. } => panic!("a chat line starts no session"),
    }
}

#[test]
fn ended_session_leaves_and_the_rest_are_told() {
    let mut state = ServerState::new();
    let (mut a_rx, _) = join(&mut state, "1.1.1.1:1");
    let (b_rx, _) = join(&mut state, "2.2.2.2:2");
    let (mut c_rx, _) = join(&mut state, "3.3.3.3:3");
    drain(&mut a_rx);
    drain(&mut c_rx);
    let deliveries = state.end_session(&"2.2.2.2:2".to_string());
    drop(b_rx);
    assert_eq!(state.len(), 2);
    assert_eq!(state.position(&"2.2.2.2:2".to_string()), None);
    assert_eq!(state.position(&"3.3.3.3:3".to_string()), Some(1));
    let to: Vec<&str> = deliveries.iter().map(|d| d.to.as_str()).collect();
    assert_eq!(to, vec!["1.1.1.1:1", "3.3.3.3:3"]);
    assert_eq!(drain(&mut a_rx), vec!["2.2.2.2:2 has been terminated".to_string()]);
    assert_eq!(drain(&mut c_rx), vec!["2.2.2.2:2 has been terminated".to_string()]);
}

#[test]
fn session_end_undoes_the_arrival() {
    let mut state = ServerState::new();
    let (_a_rx, _) = join(&mut state, "1.1.1.1:1");
    let (_b_rx, _) = join(&mut state, "2.2.2.2:2");
    state.end_session(&"2.2.2.2:2".to_string());
    assert_eq!(state.len(), 1);
    assert_eq!(state.position(&"1.1.1.1:1".to_string()), Some(0));
    assert_eq!(state.position(&"2.2.2.2:2".to_string()), None);
}

#[test]
fn ending_an_unknown_session_only_notifies() {
    let mut state = ServerState::new();
    let (mut rx, _) = join(&mut state, "1.1.1.1:1");
    drain(&mut rx);
    let deliveries = state.end_session(&"8.8.8.8:8".to_string());
    assert_eq!(state.len(), 1);
    assert_eq!(deliveries.len(), 1);
    assert_eq!(drain(&mut rx), vec!["8.8.8.8:8 has been terminated".to_string()]);
}

#[test]
fn closed_channel_refuses_the_message() {
    let mut state = ServerState::new();
    let (rx, _) = join(&mut state, "1.1.1.1:1");
    drop(rx);
    let report = state.server_broadcast("anyone?".to_string());
    assert_eq!(report.len(), 1);
    assert_eq!(report[0].to, "1.1.1.1:1");
    assert_eq!(report[0].message, "anyone?");
    assert!(!report[0].accepted);
}

#[test]
fn session_forwards_a_read_line() {
    let addr = "5.5.5.5:5".to_string();
    match ServerState::connection_step(&addr, SessionInput::Line("hello".to_string())) {
        SessionStep::Forward(Event::NewMessage { contents, from }) => {
            assert_eq!(contents, "hello");
            assert_eq!(from, "5.5.5.5:5");
        }
        _ => panic!("a line is forwarded"),
    }
}

#[test]
fn session_steps_for_the_other_inputs() {
    let addr = "5.5.5.5:5".to_string();
    assert!(matches!(ServerState::connection_step(&addr, SessionInput::LinesEnded), SessionStep::Stop));
    assert!(matches!(ServerState::connection_step(&addr, SessionInput::OutboxClosed), SessionStep::Stop));
    match ServerState::connection_step(&addr, SessionInput::Outgoing("to you".to_string())) {
        SessionStep::Write(m) => assert_eq!(m, "to you"),
        _ => panic!("an outgoing message is written"),
    }
    match ServerState::connection_step(&addr, SessionInput::ReadFailed("reset".to_string())) {
        SessionStep::Fail(Event::ServerErrorLogRequest { err }) => assert_eq!(err, "reset"),
        _ => panic!("a failed read is reported"),
    }
}
