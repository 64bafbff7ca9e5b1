use inpixly::names::{Password, Username};
use inpixly::protocol::{ErrorKind, WsMessage};
use inpixly::room::{Room, RoomEvent};

fn name(s: &str) -> Username {
    Username::parse(s).unwrap()
}

fn joined(e: &RoomEvent) -> Option<String> {
    match e {
        RoomEvent::Broadcast(WsMessage::MemberJoined { username }) => Some(username.to_string()),
        _ => None,
    }
}

fn left(e: &RoomEvent) -> Option<String> {
    match e {
        RoomEvent::Broadcast(WsMessage::MemberLeft { username }) => Some(username.to_string()),
        _ => None,
    }
}

#[test]
fn free_username_is_kept() {
    let mut room = Room::new(None);
    let (u, token) = room.add_member(name("alice"), true).unwrap();
    assert_eq!(u.as_str(), "alice");
    assert_eq!(token.len(), 36);
    let list = room.get_member_list();
    assert_eq!(list.len(), 1);
    assert_eq!(list[0].username.as_str(), "alice");
    assert!(list[0].is_online);
    let events = room.take_events();
    assert_eq!(events.len(), 1);
    assert_eq!(joined(&events[0]).as_deref(), Some("alice"));
    assert!(room.take_events().is_empty());
}

#[test]
fn taken_username_gets_numeric_suffixes_in_order() {
    let mut room = Room::new(None);
    let (a, _) = room.add_member(name("jan"), false).unwrap();
    let (b, _) = room.add_member(name("jan"), false).unwrap();
    let (c, _) = room.add_member(name("jan"), false).unwrap();
    assert_eq!(a.as_str(), "jan");
    assert_eq!(b.as_str(), "jan1");
    assert_eq!(c.as_str(), "jan2");
    room.add_member(name("bob3"), false).unwrap();
    let (d, _) = room.add_member(name("bob"), false).unwrap();
    assert_eq!(d.as_str(), "bob");
    let (e, _) = room.add_member(name("bob"), false).unwrap();
    assert_eq!(e.as_str(), "bob1");
}

#[test]
fn exhausted_username_fails_and_changes_nothing() {
    // 31 characters: only the one-digit suffixes fit in 32.
    let base = "a".repeat(31);
    let mut room = Room::new(None);
    let (first, _) = room.add_member(name(&base), false).unwrap();
    assert_eq!(first.as_str(), base);
    for k in 1..10 {
        let (u, _) = room.add_member(name(&base), false).unwrap();
        assert_eq!(u.into_inner(), format!("{}{}", base, k));
    }
    room.take_events();
    for _ in 0..2 {
        let r = room.add_member(name(&base), true);
        assert!(matches!(r, Err(ErrorKind::UsernameTaken)));
        assert_eq!(room.get_member_list().len(), 10);
        assert!(room.take_events().is_empty());
    }
}

#[test]
fn suffix_reaches_ninety_nine() {
    let mut room = Room::new(None);
    room.add_member(name("zz"), false).unwrap();
    for k in 1..100 {
        let (u, _) = room.add_member(name("zz"), false).unwrap();
        assert_eq!(u.into_inner(), format!("zz{}", k));
    }
    assert!(matches!(room.add_member(name("zz"), false), Err(ErrorKind::UsernameTaken)));
}

#[test]
fn add_member_with_token_uses_the_given_token() {
    let mut room = Room::new(None);
    let (u, t) = room.add_member_with_token(name("carol"), false, "tok-1".to_string(), 5).unwrap();
    assert_eq!(u.as_str(), "carol");
    assert_eq!(t, "tok-1");
    assert_eq!(room.last_activity(), 5);
    let again = room.add_member_with_token(name("dave"), false, "tok-1".to_string(), 9);
    assert!(matches!(again, Err(ErrorKind::Other { .. })));
    assert_eq!(room.get_member_list().len(), 1);
    assert_eq!(room.last_activity(), 5);
}

#[test]
fn verify_password_cases() {
    let open = Room::new(None);
    let p = Password::parse("secret1").unwrap();
    assert!(open.verify_password(None).is_ok());
    assert!(open.verify_password(Some(&p)).is_ok());
    assert!(!open.has_password());

    let closed = Room::new(Some(Password::parse("secret1").unwrap()));
    assert!(closed.has_password());
    assert!(matches!(closed.verify_password(None), Err(ErrorKind::PasswordRequired)));
    assert!(closed.verify_password(Some(&p)).is_ok());
    let wrong = Password::parse("wrong1").unwrap();
    assert!(matches!(closed.verify_password(Some(&wrong)), Err(ErrorKind::IncorrectPassword)));
    let prefix = Password::parse("secret").unwrap();
    assert!(matches!(closed.verify_password(Some(&prefix)), Err(ErrorKind::IncorrectPassword)));
    let longer = Password::parse("secret12").unwrap();
    assert!(matches!(closed.verify_password(Some(&longer)), Err(ErrorKind::IncorrectPassword)));
}

#[test]
fn login_member_errors_and_success() {
    let mut room = Room::new(None);
    assert!(matches!(room.login_member("nope"), Err(ErrorKind::TokenNotFound)));
    let (_, token) = room.add_member(name("bob"), false).unwrap();
    room.take_events();
    let u = room.login_member(&token).unwrap();
    assert_eq!(u.as_str(), "bob");
    assert!(room.get_member_list()[0].is_online);
    assert!(matches!(room.login_member(&token), Err(ErrorKind::TokenAlreadyInUse)));
    let events = room.take_events();
    assert_eq!(events.len(), 1);
    assert_eq!(joined(&events[0]).as_deref(), Some("bob"));
}

#[test]
fn reconnection_evicts_then_logs_in_again() {
    let mut room = Room::new(None);
    let (_, token) = room.add_member(name("bob"), true).unwrap();
    room.take_events();
    assert!(matches!(room.login_member(&token), Err(ErrorKind::TokenAlreadyInUse)));
    assert!(room.force_logout_member(&token));
    assert!(!room.get_member_list()[0].is_online);
    room.on_disconnect(&token);
    assert_eq!(room.login_member(&token).unwrap().as_str(), "bob");
    let events = room.take_events();
    assert_eq!(events.len(), 3);
    assert!(matches!(&events[0], RoomEvent::Kick { token: t } if *t == token));
    assert_eq!(left(&events[1]).as_deref(), Some("bob"));
    assert_eq!(joined(&events[2]).as_deref(), Some("bob"));
    let online = room.get_member_list().iter().filter(|m| m.is_online).count();
    assert_eq!(online, 1);
}

#[test]
fn force_logout_of_offline_or_unknown_does_nothing() {
    let mut room = Room::new(None);
    let (_, token) = room.add_member(name("bob"), false).unwrap();
    room.take_events();
    assert!(!room.force_logout_member(&token));
    assert!(!room.force_logout_member("unknown"));
    assert!(room.take_events().is_empty());
}

#[test]
fn on_disconnect_is_idempotent() {
    let mut room = Room::new(None);
    let (_, token) = room.add_member(name("eve"), true).unwrap();
    room.take_events();
    room.on_disconnect(&token);
    room.on_disconnect(&token);
    room.on_disconnect("unknown");
    let events = room.take_events();
    assert_eq!(events.len(), 1);
    assert_eq!(left(&events[0]).as_deref(), Some("eve"));
    assert!(!room.get_member_list()[0].is_online);
}

#[test]
fn owner_token_and_ids_are_fresh() {
    let a = Room::new(None);
    let b = Room::default();
    assert!(a.is_owner(a.owner_token()));
    assert!(!a.is_owner(b.owner_token()));
    assert!(!a.id().same_as(b.id()));
    assert_eq!(a.id().as_str().len(), 36);
    assert_eq!(a.id().as_str(), a.id().as_str().to_lowercase());
    assert!(a.is_well_formed());
}

#[test]
fn broadcast_queues_events_in_order() {
    let mut room = Room::new(None);
    room.broadcast(RoomEvent::Kick { token: "a".to_string() });
    room.broadcast(RoomEvent::Kick { token: "b".to_string() });
    let events = room.take_events();
    assert!(matches!(&events[0], RoomEvent::Kick { token } if token == "a"));
    assert!(matches!(&events[1], RoomEvent::Kick { token } if token == "b"));
}

#[test]
fn touch_and_member_accessors() {
    let mut room = Room::new(None);
    room.add_member_with_token(name("max"), false, "t".to_string(), -7).unwrap();
    assert_eq!(room.last_activity(), -7);
    room.touch();
    assert!(room.last_activity() > 1_600_000_000_000);
    let mut m = inpixly::room::Member::new(name("kim"), false);
    assert_eq!(m.username().as_str(), "kim");
    assert_eq!(m.token().len(), 36);
    m.set_online(true);
    assert!(m.is_online());
    let info = m.to_info();
    assert_eq!(info.username.as_str(), "kim");
    assert!(info.is_online);
}

#[test]
fn member_list_follows_token_order() {
    let mut room = Room::new(None);
    room.add_member_with_token(name("bob"), false, "bb".to_string(), 1).unwrap();
    room.add_member_with_token(name("amy"), true, "aa".to_string(), 2).unwrap();
    room.add_member_with_token(name("cid"), false, "ab".to_string(), 3).unwrap();
    room.add_member_with_token(name("dan"), false, "b".to_string(), 4).unwrap();
    let order: Vec<String> =
        room.get_member_list().into_iter().map(|m| m.username.into_inner()).collect();
    assert_eq!(order, vec!["amy", "cid", "dan", "bob"]);
    assert!(room.login_member("bb").is_ok());
    let list = room.get_member_list();
    assert!(list[3].is_online && list[3].username.as_str() == "bob");
}

#[test]
fn room_with_identity_is_empty() {
    let id = inpixly::names::RoomId::parse("aaaaaaaa-bbbb-cccc-dddd-eeeeeeeeeeee").unwrap();
    let room = Room::with_identity(id, "own".to_string(), None, 9);
    assert_eq!(room.id().as_str(), "aaaaaaaa-bbbb-cccc-dddd-eeeeeeeeeeee");
    assert_eq!(room.owner_token(), "own");
    assert_eq!(room.last_activity(), 9);
    assert!(room.get_member_list().is_empty());
    assert!(!room.has_password());
}
