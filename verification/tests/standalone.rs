use tcp_chat::server::relay::{disconnect_notice, frame_message, read_step, ReadStep, TryRead, MAX_MSG_SIZE};
use tcp_chat::chan::Outbox;
use tcp_chat::server::state::{Action, Event, OutgoingStep, ReadStep as LineStep, ServerState, Session};
use tcp_chat::ShutdownSignal;
use tokio::sync::mpsc::UnboundedReceiver;

fn drain(rx: &mut UnboundedReceiver<String>) -> Vec<String> {
    let mut out = Vec::new();
    while let Ok(m) = rx.try_recv() {
        out.push(m);
    }
    out
}

/// Lets a peer arrive at `addr` and its session post its append; gives the
/// receiver of the peer's channel.
fn append(state: &mut ServerState, addr: &str) -> UnboundedReceiver<String> {
    let (append, messages) = match state.handle_event(Event::NewPeer { addr: addr.to_string() }) {
        Action::SpawnSession { append, messages, .. } => (append, messages),
        Action::Done { .. } => panic!("an arrival spawns a session"),
    };
    match state.handle_event(append) {
        Action::Done { .. } => messages.into_inner(),
        Action::SpawnSession { .. } => panic!("an added channel spawns nothing"),
    }
}

#[test]
fn new_peer_asks_for_a_session() {
    let mut state = ServerState::new();
    match state.handle_event(Event::NewPeer { addr: "1.2.3.4:5".to_string() }) {
        Action::SpawnSession { greeting, append, .. } => {
            assert_eq!(greeting, "hello");
            match append {
                Event::UserAppend { usr_addr, .. } => assert_eq!(usr_addr, "1.2.3.4:5"),
                _ => panic!("a session opens with its append"),
            }
        }
        Action::Done { .. } => panic!("a new peer needs a session"),
    }
    assert_eq!(state.len(), 0);
}

#[test]
fn added_user_is_announced() {
    let mut state = ServerState::new();
    let mut a = append(&mut state, "1.1.1.1:1");
    let mut b = append(&mut state, "2.2.2.2:2");
    assert_eq!(state.len(), 2);
    assert_eq!(state.position(&"2.2.2.2:2".to_string()), Some(1));
    assert_eq!(drain(&mut a), vec!["User 1.1.1.1:1 joined".to_string(), "User 2.2.2.2:2 joined".to_string()]);
    assert_eq!(drain(&mut b), vec!["User 2.2.2.2:2 joined".to_string()]);
}

#[test]
fn known_user_gets_its_channel_replaced_silently() {
    let mut state = ServerState::new();
    let mut first = append(&mut state, "1.1.1.1:1");
    drain(&mut first);
    let mut second = append(&mut state, "1.1.1.1:1");
    assert_eq!(state.len(), 1);
    assert!(drain(&mut second).is_empty());
    let report = state.server_broadcast("ping".to_string());
    assert_eq!(report.len(), 1);
    assert!(report[0].accepted);
    assert_eq!(drain(&mut second), vec!["ping".to_string()]);
    assert!(drain(&mut first).is_empty());
}

#[test]
fn line_for_everyone_is_not_passed_on() {
    let mut state = ServerState::new();
    let mut a = append(&mut state, "1.1.1.1:1");
    drain(&mut a);
    match state.handle_event(Event::AllMessage { contents: "hey".to_string(), from: "1.1.1.1:1".to_string() }) {
        Action::Done { deliveries } => assert!(deliveries.is_empty()),
        Action::SpawnSession { .. } => panic!("a line spawns nothing"),
    }
    assert!(drain(&mut a).is_empty());
}

fn open(addr: &str) -> Session {
    let mut outbox = Outbox::new();
    let (session, _greeting, _event, _rx) = Session::open(&mut outbox, addr.to_string());
    session
}

#[test]
fn opened_session_hands_its_sender_over() {
    let mut outbox = Outbox::new();
    let (session, greeting, event, rx) = Session::open(&mut outbox, "7.7.7.7:7".to_string());
    let mut rx = rx.into_inner();
    let mut state = ServerState::new();
    assert_eq!(greeting, "hello");
    match event {
        Event::UserAppend { ref usr_addr, .. } => assert_eq!(usr_addr, "7.7.7.7:7"),
        _ => panic!("a session opens with its sender"),
    }
    state.handle_event(event);
    assert_eq!(drain(&mut rx), vec!["User 7.7.7.7:7 joined".to_string()]);
    drop(session);
}

#[test]
fn session_ends_by_posting_its_departure() {
    let mut session = open("7.7.7.7:7");
    session.on_read("abc\n");
    match session.on_read("") {
        LineStep::Stop(Event::DropUser { addr }) => assert_eq!(addr, "7.7.7.7:7"),
        _ => panic!("an ended input posts the departure"),
    }
}

#[test]
fn read_chunks_are_posted_and_cleared_once_taken() {
    let mut session = open("7.7.7.7:7");
    match session.on_read("abc\n") {
        LineStep::Forward(Event::AllMessage { contents, from }) => {
            assert_eq!(contents, "abc\n");
            assert_eq!(from, "7.7.7.7:7");
        }
        _ => panic!("a chunk is posted"),
    }
    session.after_forward(true);
    match session.on_read("def\n") {
        LineStep::Forward(Event::AllMessage { contents, .. }) => assert_eq!(contents, "def\n"),
        _ => panic!("a chunk is posted"),
    }
}

#[test]
fn refused_line_is_posted_again_with_the_next_chunk() {
    let mut session = open("7.7.7.7:7");
    session.on_read("abc\n");
    session.after_forward(false);
    match session.on_read("def\n") {
        LineStep::Forward(Event::AllMessage { contents, .. }) => assert_eq!(contents, "abc\ndef\n"),
        _ => panic!("a chunk is posted"),
    }
}

#[test]
fn empty_read_ends_the_session() {
    let mut session = open("7.7.7.7:7");
    assert!(matches!(session.on_read(""), LineStep::Stop(_)));
}

#[test]
fn outgoing_messages_are_written_and_closed_channel_waits() {
    let mut session = open("7.7.7.7:7");
    match session.on_outgoing(Some("x".to_string())) {
        OutgoingStep::Write(m) => assert_eq!(m, "x"),
        OutgoingStep::Wait => panic!("a message is written"),
    }
    assert!(matches!(session.on_outgoing(None), OutgoingStep::Wait));
}

#[test]
fn read_step_retries_and_yields_the_bytes_read() {
    let mut buf = vec![0u8; MAX_MSG_SIZE];
    buf[0] = b'h';
    buf[1] = b'i';
    assert!(matches!(read_step(TryRead::Read(0), &buf), ReadStep::Closed));
    assert!(matches!(read_step(TryRead::WouldBlock, &buf), ReadStep::Retry));
    match read_step(TryRead::Failed("boom".to_string()), &buf) {
        ReadStep::Complain(e) => assert_eq!(e, "boom"),
        _ => panic!("a failure is reported"),
    }
    match read_step(TryRead::Read(2), &buf) {
        ReadStep::Message(m) => assert_eq!(m, b"hi".to_vec()),
        _ => panic!("a read yields the buffer"),
    }
}

#[test]
fn frame_leads_with_the_author() {
    let from = "127.0.0.1:9000".to_string();
    assert_eq!(frame_message(b"hello".to_vec(), Some(&from)), b"127.0.0.1:9000: hello".to_vec());
    assert_eq!(frame_message(b"hello".to_vec(), None), b"hello".to_vec());
    assert_eq!(frame_message(Vec::new(), Some(&from)), b"127.0.0.1:9000: ".to_vec());
}

#[test]
fn disconnect_notice_text() {
    assert_eq!(disconnect_notice(&"127.0.0.1:9000".to_string()), b"user 127.0.0.1:9000 disconnected".to_vec());
}

#[test]
fn shutdown_signal_compares_equal() {
    assert_eq!(ShutdownSignal::Cease, ShutdownSignal::Cease);
}

#[test]
fn roster_holds_every_appended_address_with_its_last_channel() {
    let mut state = ServerState::new();
    let mut a1 = append(&mut state, "1.1.1.1:1");
    let mut b = append(&mut state, "2.2.2.2:2");
    let mut a2 = append(&mut state, "1.1.1.1:1");
    assert_eq!(state.len(), 2);
    assert_eq!(state.position(&"1.1.1.1:1".to_string()), Some(0));
    assert_eq!(state.position(&"2.2.2.2:2".to_string()), Some(1));
    drain(&mut a1);
    drain(&mut b);
    drain(&mut a2);
    state.server_broadcast("after".to_string());
    assert!(drain(&mut a1).is_empty());
    assert_eq!(drain(&mut a2), vec!["after".to_string()]);
    assert_eq!(drain(&mut b), vec!["after".to_string()]);
}

#[test]
fn session_greets_first_then_writes_what_arrives() {
    let mut state = ServerState::new();
    match state.handle_event(Event::NewPeer { addr: "3.3.3.3:3".to_string() }) {
        Action::SpawnSession { mut session, greeting, .. } => {
            assert_eq!(greeting, "hello");
            match session.on_outgoing(Some("first".to_string())) {
                OutgoingStep::Write(m) => assert_eq!(m, "first"),
                OutgoingStep::Wait => panic!("a message is written"),
            }
        }
        Action::Done { .. } => panic!("an arrival spawns a session"),
    }
}
