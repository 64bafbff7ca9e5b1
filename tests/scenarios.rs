use inpixly::names::{Password, RoomId, Username};
use inpixly::protocol::{ErrorKind, JoinRequest, SignalingPayload, WsMessage};
use inpixly::registry::{DeleteError, JoinOutcome, Registry};
use inpixly::room::RoomEvent;
use inpixly::session::{
    handshake_step, on_client_frame, on_room_event, ClientFrame, EventAction, FrameAction,
    HandshakeStep, Received, Session, TextContent,
};

fn name(s: &str) -> Username {
    Username::parse(s).unwrap()
}

fn session(user: &str, token: &str) -> Session {
    Session { token: token.to_string(), username: name(user), is_owner: false }
}

fn by_token(token: &str) -> JoinRequest {
    JoinRequest::WithToken { token: token.to_string() }
}

fn joined(outcome: JoinOutcome) -> (Session, Vec<WsMessage>) {
    match outcome {
        JoinOutcome::Joined { session, greeting } => (session, greeting),
        other => panic!("expected a join, got {:?}", other),
    }
}

fn text(message: WsMessage) -> ClientFrame {
    ClientFrame::Text { len: 10, content: TextContent::Message(message) }
}

#[test]
fn create_room_and_look_it_up() {
    let mut reg = Registry::new();
    let resp = reg.create_room(name("alice"), None).unwrap();
    let id = resp.room_id.as_str();
    assert_eq!(id.len(), 36);
    for (i, c) in id.chars().enumerate() {
        if [8, 13, 18, 23].contains(&i) {
            assert_eq!(c, '-');
        } else {
            assert!(c.is_ascii_hexdigit());
        }
    }
    assert_ne!(resp.owner_token, resp.member_token);
    assert_eq!(resp.username.as_str(), "alice");
    let info = reg.room_info(&resp.room_id);
    assert!(info.exists);
    assert!(!info.has_password);
    let members = reg.room(&resp.room_id).unwrap().get_member_list();
    assert_eq!(members.len(), 1);
    assert!(members[0].is_online);
}

#[test]
fn creator_is_online_until_a_connection_takes_over() {
    let mut reg = Registry::new();
    let resp = reg.create_room(name("alice"), None).unwrap();
    let id = resp.room_id.clone();
    reg.take_events(&id);
    let r = reg.join_room(&id, &by_token(&resp.member_token), false);
    assert!(matches!(r, JoinOutcome::Evicting));
    let events = reg.take_events(&id);
    assert!(matches!(&events[0], RoomEvent::Kick { token } if *token == resp.member_token));
    assert!(matches!(&events[1], RoomEvent::Broadcast(WsMessage::MemberLeft { username })
        if username.as_str() == "alice"));
    let (s, _) = joined(reg.join_room(&id, &by_token(&resp.member_token), true));
    assert_eq!(s.username.as_str(), "alice");
    assert!(!s.is_owner);
}

#[test]
fn join_with_a_drawn_token() {
    let mut reg = Registry::new();
    let resp = reg.create_room(name("alice"), None).unwrap();
    let id = resp.room_id.clone();
    let bob = JoinRequest::with_credentials("bob", None).unwrap();
    let (s, _) = joined(reg.join_room_with_token(&id, &bob, false, "t-bob".to_string(), 42));
    assert_eq!(s.token, "t-bob");
    assert_eq!(reg.room(&id).unwrap().last_activity(), 42);
    let carol = JoinRequest::with_credentials("carol", None).unwrap();
    let r = reg.join_room_with_token(&id, &carol, false, "t-bob".to_string(), 43);
    assert!(matches!(r, JoinOutcome::Rejected(ErrorKind::Other { .. })));
    assert_eq!(reg.room(&id).unwrap().get_member_list().len(), 2);
}

#[test]
fn unknown_room_lookups() {
    let mut reg = Registry::new();
    let id = RoomId::parse("550e8400-e29b-41d4-a716-446655440000").unwrap();
    let info = reg.room_info(&id);
    assert!(!info.exists && !info.has_password);
    assert!(!reg.contains(&id));
    assert_eq!(reg.delete_room(&id, "x"), Err(DeleteError::NotFound));
    let r = reg.join_room(&id, &by_token("t"), false);
    assert!(matches!(r, JoinOutcome::Rejected(ErrorKind::RoomNotFound)));
    reg.disconnect(&id, "t");
    assert!(reg.take_events(&id).is_empty());
}

#[test]
fn password_protected_join() {
    let mut reg = Registry::new();
    let resp = reg.create_room(name("alice"), Some(Password::parse("secret1").unwrap())).unwrap();
    let id = resp.room_id.clone();
    assert!(reg.room_info(&id).has_password);
    let first = reg.join_room(&id, &by_token(&resp.member_token), false);
    assert!(matches!(first, JoinOutcome::Evicting));
    joined(reg.join_room(&id, &by_token(&resp.member_token), true));

    let wrong = JoinRequest::with_credentials("bob", Some("wrong1")).unwrap();
    let r = reg.join_room(&id, &wrong, false);
    assert!(matches!(r, JoinOutcome::Rejected(ErrorKind::IncorrectPassword)));
    assert_eq!(reg.room(&id).unwrap().get_member_list().len(), 1);

    let missing = JoinRequest::with_credentials("bob", None).unwrap();
    let r = reg.join_room(&id, &missing, false);
    assert!(matches!(r, JoinOutcome::Rejected(ErrorKind::PasswordRequired)));

    let right = JoinRequest::with_credentials("bob", Some("secret1")).unwrap();
    let (s, greeting) = joined(reg.join_room(&id, &right, false));
    assert_eq!(s.username.as_str(), "bob");
    assert!(!s.is_owner);
    assert!(matches!(&greeting[0], WsMessage::JoinedAs { username, token, is_owner: false }
        if username.as_str() == "bob" && *token == s.token));
    match &greeting[1] {
        WsMessage::MemberList { members } => {
            assert_eq!(members.len(), 2);
            assert!(members.iter().any(|m| m.username.as_str() == "alice" && m.is_online));
            assert!(members.iter().any(|m| m.username.as_str() == "bob" && m.is_online));
        }
        other => panic!("expected a member list, got {:?}", other),
    }
}

#[test]
fn second_connection_with_same_token_takes_over() {
    let mut reg = Registry::new();
    let resp = reg.create_room(name("alice"), None).unwrap();
    let id = resp.room_id.clone();
    let bob = JoinRequest::with_credentials("bob", None).unwrap();
    let (first, _) = joined(reg.join_room(&id, &bob, false));
    let t = first.token.clone();
    reg.take_events(&id);

    let r = reg.join_room(&id, &by_token(&t), false);
    assert!(matches!(r, JoinOutcome::Evicting));
    let events = reg.take_events(&id);
    assert_eq!(events.len(), 2);
    let mut kicked = false;
    for e in events {
        if let EventAction::Evicted = on_room_event(&first, Received::Event(e)) {
            kicked = true;
        }
    }
    assert!(kicked);
    reg.disconnect(&id, &t);
    assert!(reg.take_events(&id).is_empty());

    let (second, greeting) = joined(reg.join_room(&id, &by_token(&t), true));
    assert_eq!(second.token, t);
    assert!(matches!(&greeting[0], WsMessage::JoinedAs { username, token, is_owner: false }
        if username.as_str() == "bob" && *token == t));
    let list = reg.room(&id).unwrap().get_member_list();
    let bob_online = list.iter().filter(|m| m.username.as_str() == "bob" && m.is_online).count();
    assert_eq!(bob_online, 1);
}

#[test]
fn retry_while_still_online_is_refused() {
    let mut reg = Registry::new();
    let resp = reg.create_room(name("alice"), None).unwrap();
    let id = resp.room_id.clone();
    let r = reg.join_room(&id, &by_token(&resp.member_token), true);
    assert!(matches!(r, JoinOutcome::Rejected(ErrorKind::TokenAlreadyInUse)));
    let r = reg.join_room(&id, &by_token("nobody"), false);
    assert!(matches!(r, JoinOutcome::Rejected(ErrorKind::TokenNotFound)));
}

#[test]
fn owner_deletes_room() {
    let mut reg = Registry::new();
    let resp = reg.create_room(name("alice"), None).unwrap();
    let id = resp.room_id.clone();
    assert_eq!(reg.delete_room(&id, "not-the-owner"), Err(DeleteError::Forbidden));
    assert!(reg.room_info(&id).exists);
    assert_eq!(reg.delete_room(&id, &resp.member_token), Err(DeleteError::Forbidden));
    assert_eq!(reg.delete_room(&id, &resp.owner_token), Ok(()));
    assert!(!reg.room_info(&id).exists);
}

#[test]
fn sweep_removes_only_inactive_rooms() {
    let mut reg = Registry::new();
    let a = reg.create_room(name("alice"), None).unwrap();
    let b = reg.create_room(name("bob"), None).unwrap();
    let last = reg.room(&a.room_id).unwrap().last_activity();
    assert!(reg.sweep_inactive(last).is_empty());
    assert!(reg.sweep_inactive(last + 2_592_000_000 - 1000).is_empty());
    let removed = reg.sweep_inactive(last + 40 * 86_400_000);
    assert_eq!(removed.len(), 2);
    assert!(removed[0].same_as(&a.room_id));
    assert!(removed[1].same_as(&b.room_id));
    assert!(!reg.contains(&a.room_id) && !reg.contains(&b.room_id));
}

#[test]
fn insert_replaces_a_room_with_the_same_id() {
    let mut reg = Registry::new();
    let resp = reg.create_room(name("alice"), None).unwrap();
    let room = inpixly::room::Room::new(None);
    let other = room.id().clone();
    reg.insert(room);
    assert!(reg.contains(&other));
    assert!(reg.contains(&resp.room_id));
}

#[test]
fn join_request_validation() {
    let r = JoinRequest::with_credentials("a", None);
    assert!(matches!(r, Err(ErrorKind::InvalidUsername { message })
        if message == "Username must be at least 2 characters"));
    let r = JoinRequest::with_credentials("bob", Some("abc"));
    assert!(matches!(r, Err(ErrorKind::Other { message })
        if message == "Password must be at least 4 characters"));
    let r = JoinRequest::with_credentials(" bob ", Some("abcd")).unwrap();
    assert!(matches!(r, JoinRequest::WithUsername { username, password: Some(p) }
        if username.as_str() == "bob" && p.as_str() == "abcd"));
}

#[test]
fn join_fans_out_to_other_sessions_only() {
    let sessions = [session("alice", "ta"), session("bob", "tb"), session("carol", "tc")];
    let mut delivered = 0;
    for s in &sessions {
        let e = RoomEvent::Broadcast(WsMessage::MemberJoined { username: name("carol") });
        match on_room_event(s, Received::Event(e)) {
            EventAction::Forward(WsMessage::MemberJoined { username }) => {
                assert_ne!(s.username.as_str(), "carol");
                assert_eq!(username.as_str(), "carol");
                delivered += 1;
            }
            EventAction::Ignore => assert_eq!(s.username.as_str(), "carol"),
            other => panic!("unexpected {:?}", other),
        }
    }
    assert_eq!(delivered, sessions.len() - 1);
}

#[test]
fn events_are_forwarded_in_publication_order() {
    let s = session("alice", "ta");
    let events = vec![
        RoomEvent::Broadcast(WsMessage::MemberJoined { username: name("bob") }),
        RoomEvent::Broadcast(WsMessage::Chat { from: name("bob"), message: "hi".to_string() }),
        RoomEvent::Broadcast(WsMessage::MemberLeft { username: name("bob") }),
    ];
    let mut out = Vec::new();
    for e in events {
        if let EventAction::Forward(m) = on_room_event(&s, Received::Event(e)) {
            out.push(m);
        }
    }
    assert!(matches!(&out[0], WsMessage::MemberJoined { .. }));
    assert!(matches!(&out[1], WsMessage::Chat { message, .. } if message == "hi"));
    assert!(matches!(&out[2], WsMessage::MemberLeft { .. }));
}

#[test]
fn offer_reaches_only_its_addressee() {
    let alice = session("alice", "ta");
    let offer = WsMessage::Offer { to: "bob".to_string(), sdp: "v=0".to_string() };
    let event = match on_client_frame(&alice, text(offer)) {
        FrameAction::Publish(e) => e,
        other => panic!("expected a relay, got {:?}", other),
    };
    let bob = session("bob", "tb");
    match on_room_event(&bob, Received::Event(event.clone())) {
        EventAction::Forward(WsMessage::SignalingMessage {
            from,
            payload: SignalingPayload::Offer { sdp },
        }) => {
            assert_eq!(from, "alice");
            assert_eq!(sdp, "v=0");
        }
        other => panic!("expected the offer, got {:?}", other),
    }
    for other in [session("carol", "tc"), session("alice", "ta")] {
        assert!(matches!(on_room_event(&other, Received::Event(event.clone())), EventAction::Ignore));
    }
}

#[test]
fn answer_and_candidate_are_relayed() {
    let bob = session("bob", "tb");
    let answer = WsMessage::Answer { to: "alice".to_string(), sdp: "a".to_string() };
    assert!(matches!(on_client_frame(&bob, text(answer)),
        FrameAction::Publish(RoomEvent::Direct { to, message: WsMessage::SignalingMessage {
            from, payload: SignalingPayload::Answer { sdp } } })
        if to == "alice" && from == "bob" && sdp == "a"));
    let ice = WsMessage::IceCandidate { to: "alice".to_string(), candidate: "c".to_string() };
    assert!(matches!(on_client_frame(&bob, text(ice)),
        FrameAction::Publish(RoomEvent::Direct { message: WsMessage::SignalingMessage {
            payload: SignalingPayload::IceCandidate { candidate }, .. }, .. })
        if candidate == "c"));
}

#[test]
fn chat_is_attributed_to_the_sender() {
    let bob = session("bob", "tb");
    let chat = WsMessage::ChatMessage { message: "hello".to_string() };
    assert!(matches!(on_client_frame(&bob, text(chat)),
        FrameAction::Publish(RoomEvent::Broadcast(WsMessage::Chat { from, message }))
        if from.as_str() == "bob" && message == "hello"));
}

#[test]
fn oversized_and_other_frames() {
    let bob = session("bob", "tb");
    let big = ClientFrame::Text {
        len: 30001,
        content: TextContent::Message(WsMessage::ChatMessage { message: String::new() }),
    };
    assert!(matches!(on_client_frame(&bob, big), FrameAction::Close));
    let edge = ClientFrame::Text {
        len: 30000,
        content: TextContent::Message(WsMessage::ChatMessage { message: String::new() }),
    };
    assert!(matches!(on_client_frame(&bob, edge), FrameAction::Publish(_)));
    assert!(matches!(on_client_frame(&bob, text(WsMessage::Leave)), FrameAction::Ignore));
    let unreadable = ClientFrame::Text { len: 3, content: TextContent::Unreadable };
    assert!(matches!(on_client_frame(&bob, unreadable), FrameAction::Ignore));
    assert!(matches!(on_client_frame(&bob, ClientFrame::Ping), FrameAction::Ignore));
    assert!(matches!(on_client_frame(&bob, ClientFrame::Binary), FrameAction::Close));
    assert!(matches!(on_client_frame(&bob, ClientFrame::Close), FrameAction::Close));
    assert!(matches!(on_client_frame(&bob, ClientFrame::Failed), FrameAction::Close));
}

#[test]
fn room_channel_conditions() {
    let bob = session("bob", "tb");
    assert!(matches!(on_room_event(&bob, Received::Lagged), EventAction::Overrun));
    assert!(matches!(on_room_event(&bob, Received::Closed), EventAction::Ended));
    let other_kick = RoomEvent::Kick { token: "ta".to_string() };
    assert!(matches!(on_room_event(&bob, Received::Event(other_kick)), EventAction::Ignore));
    let own_kick = RoomEvent::Kick { token: "tb".to_string() };
    assert!(matches!(on_room_event(&bob, Received::Event(own_kick)), EventAction::Evicted));
}

#[test]
fn handshake_steps() {
    let join = text(WsMessage::Join(by_token("t")));
    assert!(matches!(handshake_step(join), HandshakeStep::Join(JoinRequest::WithToken { token }) if token == "t"));
    assert!(matches!(handshake_step(text(WsMessage::Leave)), HandshakeStep::Wait));
    assert!(matches!(handshake_step(ClientFrame::Pong), HandshakeStep::Wait));
    let bad = ClientFrame::Text {
        len: 5,
        content: TextContent::InvalidJoin(ErrorKind::InvalidUsername { message: "m".to_string() }),
    };
    assert!(matches!(handshake_step(bad), HandshakeStep::Fail(ErrorKind::InvalidUsername { .. })));
    let unreadable = ClientFrame::Text { len: 3, content: TextContent::Unreadable };
    assert!(matches!(handshake_step(unreadable), HandshakeStep::Close));
    assert!(matches!(handshake_step(ClientFrame::Binary), HandshakeStep::Close));
    assert!(matches!(handshake_step(ClientFrame::Close), HandshakeStep::Close));
}

#[test]
fn create_room_with_given_identity() {
    let mut reg = Registry::new();
    let id = RoomId::parse("11111111-2222-3333-4444-555555555555").unwrap();
    let resp = reg
        .create_room_with(
            name("alice"),
            Some(Password::parse("secret1").unwrap()),
            id.clone(),
            "owner".to_string(),
            "member".to_string(),
            77,
        )
        .unwrap();
    assert!(resp.room_id.same_as(&id));
    assert_eq!(resp.owner_token, "owner");
    assert_eq!(resp.member_token, "member");
    assert_eq!(resp.username.as_str(), "alice");
    let room = reg.room(&id).unwrap();
    assert_eq!(room.last_activity(), 77);
    assert!(room.has_password());
    assert!(room.is_owner("owner"));
    let members = room.get_member_list();
    assert_eq!(members.len(), 1);
    assert!(members[0].is_online && members[0].username.as_str() == "alice");
    assert!(reg.ids_are_unique());
}

#[test]
fn create_room_with_equal_tokens_fails() {
    let mut reg = Registry::new();
    let id = RoomId::parse("11111111-2222-3333-4444-555555555555").unwrap();
    let r = reg.create_room_with(name("alice"), None, id.clone(), "t".to_string(), "t".to_string(), 1);
    assert!(matches!(r, Err(ErrorKind::Other { .. })));
    assert!(!reg.contains(&id));
}
