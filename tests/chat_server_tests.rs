use pastepoint::{
    ChatMessage, CleanupSession, Delivery, JoinRoom, LeaveRoom, ListRooms, RelaySignalMessage,
    ValidateAndRelaySignal, WsChatServer,
};

fn texts_for(ds: &[Delivery], client: u64) -> Vec<String> {
    ds.iter().filter(|d| d.client == client).map(|d| d.text.clone()).collect()
}

fn join(server: &mut WsChatServer, session: u128, room: &str, name: &str) -> (u64, Vec<Delivery>) {
    server.handle_join_room(JoinRoom(session, room.to_string(), name.to_string()))
}

#[test]
fn test_join_leave_room() {
    let mut server = WsChatServer::new();
    let session_id: u128 = 7;
    let room_name = "test_room";
    let (id, _) = server.add_client_to_room(session_id, room_name, None, "test_client".to_string());
    assert_ne!(id, 0);
    assert_eq!(server.handle_list_rooms(ListRooms(session_id)), vec!["test_room".to_string()]);
    let roster = server.broadcast_room_members(session_id, room_name);
    assert_eq!(roster.len(), 1);
    assert_eq!(roster[0].client, id);
    assert_eq!(roster[0].text, "[SystemMembers] test_client");
    server.handle_leave_room(LeaveRoom(session_id, room_name.to_string(), id));
    assert!(server.handle_list_rooms(ListRooms(session_id)).is_empty());
}

#[test]
fn join_announces_and_sends_roster() {
    let mut server = WsChatServer::new();
    let (a, first) = join(&mut server, 1, "main", "Alice");
    assert_eq!(
        texts_for(&first, a),
        vec![
            "Alice [SystemJoin] main".to_string(),
            "[SystemMembers] Alice".to_string(),
            "[SystemRooms] main".to_string(),
        ]
    );
    let (b, second) = join(&mut server, 1, "main", "Bob");
    let expected = vec![
        "Bob [SystemJoin] main".to_string(),
        "[SystemMembers] Alice, Bob".to_string(),
        "[SystemRooms] main".to_string(),
    ];
    assert_eq!(texts_for(&second, a), expected);
    assert_eq!(texts_for(&second, b), expected);
    assert!(second.iter().all(|d| d.session == 1 && d.room == "main"));
}

#[test]
fn public_session_join_and_broadcast() {
    let mut server = WsChatServer::new();
    let (a, _) = join(&mut server, 5, "main", "Ann Lee");
    let (b, _) = join(&mut server, 5, "main", "Bo Kim");
    server.handle_leave_room(LeaveRoom(5, "main".to_string(), a));
    let (a2, moved_a) = join(&mut server, 5, "room1", "Ann Lee");
    assert!(texts_for(&moved_a, b).contains(&"[SystemRooms] main, room1".to_string()));
    server.handle_leave_room(LeaveRoom(5, "main".to_string(), b));
    let (b2, moved_b) = join(&mut server, 5, "room1", "Bo Kim");
    let roster = "[SystemMembers] Ann Lee, Bo Kim".to_string();
    assert!(texts_for(&moved_b, a2).contains(&roster));
    assert!(texts_for(&moved_b, b2).contains(&roster));
    assert_eq!(
        server.handle_list_rooms(ListRooms(5)),
        vec!["main".to_string(), "room1".to_string()]
    );
}

#[test]
fn roster_after_leave_names_who_remains() {
    let mut server = WsChatServer::new();
    let (a, _) = join(&mut server, 2, "r", "A");
    let (b, _) = join(&mut server, 2, "r", "B");
    let (c, _) = join(&mut server, 2, "r", "C");
    let out = server.handle_leave_room(LeaveRoom(2, "r".to_string(), b));
    assert_eq!(
        texts_for(&out, a),
        vec!["[SystemRooms] r".to_string(), "[SystemMembers] A, C".to_string()]
    );
    assert_eq!(texts_for(&out, c).len(), 2);
    assert!(texts_for(&out, b).is_empty());
}

#[test]
fn main_room_survives_when_empty() {
    let mut server = WsChatServer::new();
    let (a, _) = join(&mut server, 3, "main", "A");
    let (_b, _) = join(&mut server, 3, "side", "B");
    server.handle_leave_room(LeaveRoom(3, "main".to_string(), a));
    assert_eq!(
        server.handle_list_rooms(ListRooms(3)),
        vec!["main".to_string(), "side".to_string()]
    );
}

#[test]
fn empty_side_room_goes_and_last_leave_drops_session() {
    let mut server = WsChatServer::new();
    let (a, _) = join(&mut server, 4, "main", "A");
    let (b, _) = join(&mut server, 4, "side", "B");
    let out = server.handle_leave_room(LeaveRoom(4, "side".to_string(), b));
    assert_eq!(server.handle_list_rooms(ListRooms(4)), vec!["main".to_string()]);
    assert_eq!(texts_for(&out, a), vec!["[SystemRooms] main".to_string()]);
    let out = server.handle_leave_room(LeaveRoom(4, "main".to_string(), a));
    assert!(out.is_empty());
    assert!(server.handle_list_rooms(ListRooms(4)).is_empty());
}

#[test]
fn leave_of_unknown_room_changes_nothing() {
    let mut server = WsChatServer::new();
    let (a, _) = join(&mut server, 9, "main", "A");
    assert!(server.handle_leave_room(LeaveRoom(9, "nowhere".to_string(), a)).is_empty());
    assert!(server.handle_leave_room(LeaveRoom(10, "main".to_string(), a)).is_empty());
    assert_eq!(server.handle_list_rooms(ListRooms(9)), vec!["main".to_string()]);
}

#[test]
fn same_id_joins_once() {
    let mut server = WsChatServer::new();
    let (id, _) = server.add_client_to_room(1, "r", Some(42), "X".to_string());
    assert_eq!(id, 42);
    let (again, out) = server.add_client_to_room(1, "r", Some(42), "Y".to_string());
    assert_eq!(again, 42);
    assert!(out.is_empty());
    assert_eq!(
        server.broadcast_room_members(1, "r").iter().map(|d| d.text.clone()).collect::<Vec<_>>(),
        vec!["[SystemMembers] X".to_string()]
    );
}

#[test]
fn signal_relay_success() {
    let mut server = WsChatServer::new();
    let (_alice, _) = join(&mut server, 8, "R", "Alice");
    let (bob, _) = join(&mut server, 8, "R", "Bob");
    let (_carol, _) = join(&mut server, 8, "Other", "Carol");
    let payload = r#"{"to":"Bob","kind":"offer","sdp":"x"}"#;
    let d = server
        .handle_validate_and_relay(ValidateAndRelaySignal {
            session_id: 8,
            from_user: "Alice".to_string(),
            to_user: "Bob".to_string(),
            payload: payload.to_string(),
        })
        .unwrap();
    assert_eq!(d.client, bob);
    assert_eq!(d.text, format!("[SignalMessage] {}", payload));
    let to_carol = server.handle_validate_and_relay(ValidateAndRelaySignal {
        session_id: 8,
        from_user: "Alice".to_string(),
        to_user: "Carol".to_string(),
        payload: "{}".to_string(),
    });
    assert_eq!(to_carol, None);
}

#[test]
fn users_share_room_needs_two_names_in_one_room() {
    let mut server = WsChatServer::new();
    join(&mut server, 1, "a", "P");
    join(&mut server, 1, "a", "Q");
    join(&mut server, 1, "b", "S");
    assert!(server.users_share_room(1, "P", "Q"));
    assert!(!server.users_share_room(1, "P", "S"));
    assert!(!server.users_share_room(1, "P", "P"));
    assert!(!server.users_share_room(2, "P", "Q"));
}

#[test]
fn direct_relay_finds_first_named_client() {
    let mut server = WsChatServer::new();
    join(&mut server, 1, "a", "P");
    let (q, _) = join(&mut server, 2, "b", "Q");
    let d = server
        .handle_relay_signal(RelaySignalMessage {
            from: "P".to_string(),
            to: "Q".to_string(),
            message: ChatMessage("hi".to_string()),
        })
        .unwrap();
    assert_eq!((d.session, d.client, d.text.as_str()), (2, q, "hi"));
    assert_eq!(
        server.handle_relay_signal(RelaySignalMessage {
            from: "Q".to_string(),
            to: "Q".to_string(),
            message: ChatMessage("x".to_string()),
        }),
        None
    );
    assert_eq!(server.relay_message_to_user("Z", ChatMessage("x".to_string()), "P"), None);
}

#[test]
fn cleanup_drops_sessions() {
    let mut server = WsChatServer::new();
    join(&mut server, 1, "a", "P");
    join(&mut server, 2, "b", "Q");
    server.handle_cleanup_session(CleanupSession(1));
    assert!(server.handle_list_rooms(ListRooms(1)).is_empty());
    assert_eq!(server.take_room(2, "b").map(|m| m.len()), Some(1));
    server.cleanup_stale_sessions();
    assert!(server.handle_list_rooms(ListRooms(2)).is_empty());
}

#[test]
fn take_room_empties_but_keeps_it() {
    let mut server = WsChatServer::new();
    join(&mut server, 1, "a", "P");
    join(&mut server, 1, "a", "Q");
    let taken = server.take_room(1, "a").unwrap();
    assert_eq!(taken.iter().map(|m| m.name.clone()).collect::<Vec<_>>(), vec!["P", "Q"]);
    assert_eq!(server.handle_list_rooms(ListRooms(1)), vec!["a".to_string()]);
    assert!(server.take_room(1, "zzz").is_none());
}

#[test]
fn chunked_file_assembly_fan_out() {
    let mut server = WsChatServer::new();
    let (sender, _) = join(&mut server, 1, "main", "S");
    let (other, _) = join(&mut server, 1, "main", "O");
    let out = server
        .send_chat_attachment(1, "main", "a.txt", "text/plain", b"abcdef".to_vec(), sender)
        .unwrap();
    assert_eq!(
        texts_for(&out, other),
        vec!["[SystemFile]:a.txt:text/plain:YWJjZGVm".to_string()]
    );
    assert_eq!(
        texts_for(&out, sender),
        vec!["[SystemAck]: File 'a.txt' sent successfully.".to_string()]
    );
    assert!(server.send_chat_attachment(1, "none", "a", "b", Vec::new(), sender).is_none());
}

#[test]
fn join_message_reaches_room_only() {
    let mut server = WsChatServer::new();
    let (p, _) = join(&mut server, 1, "a", "P");
    join(&mut server, 1, "b", "Q");
    let out = server.send_join_message(1, "a", &"hello".to_string(), p).unwrap();
    assert_eq!(out.len(), 1);
    assert_eq!(out[0].client, p);
    assert!(server.send_join_message(1, "c", &"x".to_string(), p).is_none());
    assert_eq!(server.broadcast_room_list(1).len(), 2);
    assert!(server.broadcast_room_list(99).is_empty());
}

#[test]
fn attachment_in_chunks_reaches_others_in_order() {
    let mut server = WsChatServer::new();
    let (sender, _) = join(&mut server, 1, "main", "S");
    let (other, _) = join(&mut server, 1, "main", "O");
    let data = vec![1u8; pastepoint::MAX_FRAME_SIZE * 2];
    let out = server
        .send_chat_attachment_in_chunks(1, "main", "b.bin", "application/octet-stream", data, sender)
        .unwrap();
    let to_other = texts_for(&out, other);
    assert_eq!(to_other.len(), 2);
    assert!(to_other[0].starts_with("[SystemFileChunk]:b.bin:application/octet-stream:1:2:"));
    assert!(to_other[1].starts_with("[SystemFileChunk]:b.bin:application/octet-stream:2:2:"));
    assert_eq!(
        texts_for(&out, sender),
        vec!["[SystemAck]: File 'b.bin' sent successfully.".to_string()]
    );
    assert!(server.send_chat_attachment_in_chunks(2, "main", "x", "y", Vec::new(), sender).is_none());
}

#[test]
fn remove_empty_rooms_keeps_main() {
    let mut server = WsChatServer::new();
    join(&mut server, 1, "main", "P");
    join(&mut server, 1, "side", "Q");
    join(&mut server, 1, "third", "R");
    server.take_room(1, "main");
    server.take_room(1, "side");
    let out = server.remove_empty_rooms(1);
    assert_eq!(
        server.handle_list_rooms(ListRooms(1)),
        vec!["main".to_string(), "third".to_string()]
    );
    assert_eq!(out.len(), 1);
    assert_eq!(out[0].text, "[SystemRooms] main, third");
    server.take_room(1, "third");
    assert!(server.remove_empty_rooms(1).is_empty());
    assert!(server.handle_list_rooms(ListRooms(1)).is_empty());
}
