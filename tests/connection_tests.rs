use pastepoint::{Action, Phase, SessionStore, WsChatSession, MAX_SIGNAL_SIZE};

fn running(room: &str, id: u64) -> WsChatSession {
    let mut c = WsChatSession::new(11, false);
    assert!(c.started(1_000).is_empty());
    if !room.is_empty() {
        c.joined(room.to_string(), id);
    }
    c
}

fn frame(meta: &str, data: &[u8]) -> Vec<u8> {
    let mut f = meta.as_bytes().to_vec();
    f.push(0);
    f.extend_from_slice(data);
    f
}

#[test]
fn new_connection_has_a_two_word_name() {
    let c = WsChatSession::new(3, true);
    assert_eq!(c.session_id, 3);
    assert_ne!(c.id, 0);
    assert_eq!(c.phase, Phase::Created);
    assert_eq!(c.name.split(' ').filter(|w| !w.is_empty()).count() >= 2, true);
    assert!(c.room.is_empty());
}

#[test]
fn auto_join_asks_for_main() {
    let mut c = WsChatSession::new(3, true);
    assert_eq!(c.started(5), vec![Action::Join("main".to_string())]);
    assert_eq!(c.phase, Phase::Running);
    assert_eq!(c.last_heartbeat, 5);
}

#[test]
fn test_ws_communication() {
    let mut c = running("main", 1);
    let name = c.name.clone();
    assert_eq!(
        c.handle_text("[UserCommand]/name"),
        vec![Action::Text(format!("[SystemName] {}", name))]
    );
}

#[test]
fn test_ws_list_command() {
    let mut c = running("main", 1);
    assert_eq!(c.handle_text("[UserCommand]/list"), vec![Action::ListRooms]);
    let reply = c.list_rooms(&vec!["main".to_string(), "test_room".to_string()]);
    assert_eq!(reply, Action::Text("[SystemRooms] main, test_room".to_string()));
}

#[test]
fn test_ws_join_command() {
    let mut c = running("main", 4);
    assert_eq!(
        c.handle_text("[UserCommand]/join test_room"),
        vec![Action::Leave("main".to_string(), 4), Action::Join("test_room".to_string())]
    );
    c.joined("test_room".to_string(), 4);
    assert!(c.handle_text("[UserCommand] /join test_room").is_empty());
}

#[test]
fn join_without_room_name_is_an_error() {
    let mut c = running("", 0);
    assert_eq!(
        c.handle_text("[UserCommand]/join"),
        vec![Action::Text("[SystemError] Room name is required".to_string())]
    );
    assert_eq!(c.handle_text("  [UserCommand]/join r  "), vec![Action::Join("r".to_string())]);
}

#[test]
fn test_ws_unknown_command() {
    let mut c = running("main", 1);
    assert_eq!(
        c.handle_text("[UserCommand]/unknown"),
        vec![Action::Text("[SystemError] Error Unknown command: Not Found".to_string())]
    );
}

#[test]
fn test_ws_normal_text_message() {
    let mut c = running("main", 1);
    assert_eq!(
        c.handle_text("Hello, World!"),
        vec![Action::Text("[SystemError] Error Unknown command: Not Found".to_string())]
    );
}

#[test]
fn test_ws_invalid_signal_message() {
    let mut c = running("main", 1);
    assert_eq!(
        c.handle_text("[SignalMessage] {invalid_signal_payload}"),
        vec![Action::Text("[SystemError] Invalid signaling message format".to_string())]
    );
}

#[test]
fn signal_without_target_is_an_error() {
    let mut c = running("main", 1);
    assert_eq!(
        c.handle_text(r#"[SignalMessage] {"kind":"offer"}"#),
        vec![Action::Text("[SystemError] Signaling message missing 'to' field".to_string())]
    );
}

#[test]
fn signal_is_relayed_with_its_payload() {
    let mut c = running("R", 1);
    let payload = r#"{"to":"Bob","kind":"offer","sdp":"v=0"}"#;
    assert_eq!(
        c.handle_text(&format!("[SignalMessage] {}", payload)),
        vec![Action::RelaySignal("Bob".to_string(), payload.to_string())]
    );
}

#[test]
fn oversize_signal_is_refused() {
    let mut c = running("R", 1);
    let big = format!("[SignalMessage] {}", "a".repeat(MAX_SIGNAL_SIZE + 1));
    assert_eq!(
        c.handle_text(&big),
        vec![Action::Text("[SystemError] Signal message too large".to_string())]
    );
    assert_eq!(c.phase, Phase::Running);
}

#[test]
fn user_disconnected_stops_once() {
    let mut c = running("main", 6);
    assert_eq!(
        c.handle_text("[UserDisconnected]"),
        vec![Action::Leave("main".to_string(), 6), Action::Release, Action::Close]
    );
    assert_eq!(c.phase, Phase::Stopped);
    assert!(c.stopped().is_empty());
    assert!(c.handle_text("[UserCommand]/list").is_empty());
}

#[test]
fn heartbeat_pings_then_times_out() {
    let mut c = running("main", 2);
    assert_eq!(c.start_heartbeat(1_000 + 120_000), vec![Action::Ping]);
    assert_eq!(c.handle_ping(200_000, b"p".to_vec()), vec![Action::Pong(b"p".to_vec())]);
    c.handle_pong(250_000);
    assert_eq!(c.start_heartbeat(250_000 + 300_000), vec![Action::Ping]);
    assert_eq!(
        c.start_heartbeat(250_000 + 300_001),
        vec![Action::Leave("main".to_string(), 2), Action::Release, Action::Close]
    );
    assert_eq!(c.phase, Phase::Stopped);
    assert!(c.start_heartbeat(10_000_000).is_empty());
}

#[test]
fn protocol_error_reports_and_closes() {
    let mut c = running("", 0);
    assert_eq!(
        c.handle_protocol_error(),
        vec![
            Action::Text("[SystemError] Invalid message format".to_string()),
            Action::Release,
            Action::Close
        ]
    );
}

#[test]
fn chunked_file_assembly() {
    let mut c = running("main", 1);
    let meta = |i: usize| {
        format!(
            r#"{{"file_name":"a.txt","mime_type":"text/plain","total_chunks":3,"current_chunk":{}}}"#,
            i
        )
    };
    assert!(c.handle_binary_message(&frame(&meta(0), b"ab")).is_empty());
    assert!(c.handle_binary_message(&frame(&meta(2), b"ef")).is_empty());
    assert_eq!(
        c.handle_binary_message(&frame(&meta(1), b"cd")),
        vec![Action::SendFile("a.txt".to_string(), "text/plain".to_string(), b"abcdef".to_vec())]
    );
}

#[test]
fn binary_frame_errors() {
    let mut c = running("main", 1);
    assert_eq!(
        c.handle_binary_message(b"no separator"),
        vec![Action::Text("[SystemError] Invalid File".to_string())]
    );
    assert_eq!(
        c.handle_binary_message(&frame("{not json", b"x")),
        vec![Action::Text("[SystemError] Metadata Parsing Error".to_string())]
    );
    let meta = r#"{"file_name":"f","mime_type":"m","total_chunks":2,"current_chunk":2}"#;
    assert_eq!(
        c.handle_binary_message(&frame(meta, b"x")),
        vec![Action::Text("[SystemError] IndexOutOfBounds".to_string())]
    );
}

#[test]
fn heartbeat_timeout_releases_last_reference() {
    let mut store = SessionStore::new();
    let session = store.open_public_session("host:10.0.0.9");
    let mut c = WsChatSession::new(session, true);
    assert_eq!(c.started(0), vec![Action::Join("main".to_string())]);
    c.joined("main".to_string(), 31);
    let actions = c.start_heartbeat(300_001);
    assert_eq!(actions, vec![Action::Leave("main".to_string(), 31), Action::Release, Action::Close]);
    assert!(store.remove_client(c.session_id).session_emptied);
    assert_ne!(store.open_public_session("host:10.0.0.9"), 0);
    assert!(c.stopped().is_empty());
}
