//! The decisions of one connection session. A session waits for a join
//! message, then forwards room events to its client and turns the client's
//! messages into room events, until it ends. The transport, the timer and the
//! room's channel are driven from outside; each step here takes what arrived
//! and says what to do.
use vstd::prelude::*;
use crate::names::Username;
use crate::protocol::{ErrorKind, JoinRequest, SignalingPayload, WsMessage};
use crate::room::RoomEvent;
use crate::text::same_text;

verus! {

/// Seconds a new connection has to send its join message.
pub const JOIN_TIMEOUT_SECS: u64 = 10;

/// Text frames longer than this many bytes end the session unread.
pub const MAX_TEXT_LEN: usize = 30000;

/// Who a session speaks for.
#[derive(Debug, Clone)]
pub struct Session {
    pub token: String,
    pub username: Username,
    pub is_owner: bool,
}

pub struct SessionView {
    pub token: Seq<char>,
    pub username: Seq<char>,
    pub is_owner: bool,
}

impl View for Session {
    type V = SessionView;

    open spec fn view(&self) -> SessionView {
        SessionView { token: self.token@, username: self.username@, is_owner: self.is_owner }
    }
}

/// What a text frame held.
#[derive(Debug, Clone)]
pub enum TextContent {
    /// A protocol message.
    Message(WsMessage),
    /// A join by credentials whose username or password is malformed.
    InvalidJoin(ErrorKind),
    /// Text that is no protocol message.
    Unreadable,
}

/// A frame from the client, with its text already decoded.
#[derive(Debug, Clone)]
pub enum ClientFrame {
    Text { len: usize, content: TextContent },
    Binary,
    Ping,
    Pong,
    Close,
    /// The transport failed to deliver a frame.
    Failed,
}

/// What a waiting session does with a frame.
#[derive(Debug, Clone)]
pub enum HandshakeStep {
    /// Keep waiting for a join message.
    Wait,
    /// Try to join the room.
    Join(JoinRequest),
    /// Report the error and end the session.
    Fail(ErrorKind),
    /// End the session.
    Close,
}

/// What the room's channel handed to a session.
#[derive(Debug, Clone)]
pub enum Received {
    Event(RoomEvent),
    /// The session fell too far behind and events were lost.
    Lagged,
    /// The channel is gone.
    Closed,
}

/// What an active session does with what the room's channel handed it.
#[derive(Debug, Clone)]
pub enum EventAction {
    /// Send this message to the client.
    Forward(WsMessage),
    Ignore,
    /// Another session took over: close the transport, release the
    /// acknowledgment, end.
    Evicted,
    /// The session could not keep up: end.
    Overrun,
    /// The room's channel closed: end.
    Ended,
}

/// What an active session does with a frame from its client.
#[derive(Debug, Clone)]
pub enum FrameAction {
    /// Publish this event to the room.
    Publish(RoomEvent),
    Ignore,
    /// End the session.
    Close,
}

/// Whether `m` announces the join of the member the session speaks for.
pub open spec fn is_own_join(s: SessionView, m: WsMessage) -> bool {
    m matches WsMessage::MemberJoined { username } && username@ == s.username
}

/// The message a session sends its client for a room event, if any.
pub open spec fn delivery(s: SessionView, e: RoomEvent) -> Option<WsMessage> {
    match e {
        RoomEvent::Broadcast(m) => if is_own_join(s, m) {
            None
        } else {
            Some(m)
        },
        RoomEvent::Direct { to, message } => if to@ == s.username {
            Some(message)
        } else {
            None
        },
        RoomEvent::Kick { .. } => None,
    }
}

/// The messages a session sends its client for a run of room events.
pub open spec fn forwarded(s: SessionView, events: Seq<RoomEvent>) -> Seq<WsMessage>
    decreases events.len(),
{
    if events.len() == 0 {
        Seq::empty()
    } else {
        let earlier = forwarded(s, events.drop_last());
        match delivery(s, events.last()) {
            Some(m) => earlier.push(m),
            None => earlier,
        }
    }
}

/// How many of `sessions` send their client something for `e`.
pub open spec fn recipients(sessions: Seq<SessionView>, e: RoomEvent) -> nat
    decreases sessions.len(),
{
    if sessions.len() == 0 {
        0
    } else {
        recipients(sessions.drop_last(), e) + if delivery(sessions.last(), e) is Some {
            1nat
        } else {
            0nat
        }
    }
}

/// A waiting session takes a join message, keeps waiting through other
/// messages and pings, reports a malformed join, and ends on anything else.
pub fn handshake_step(frame: ClientFrame) -> (r: HandshakeStep)
    ensures
        match frame {
            ClientFrame::Text { content: TextContent::Message(WsMessage::Join(req)), .. } => r
                == HandshakeStep::Join(req),
            ClientFrame::Text { content: TextContent::Message(_), .. } => r is Wait,
            ClientFrame::Text { content: TextContent::InvalidJoin(e), .. } => r
                == HandshakeStep::Fail(e),
            ClientFrame::Ping => r is Wait,
            ClientFrame::Pong => r is Wait,
            _ => r is Close,
        },
{
    match frame {
        ClientFrame::Text { content, .. } => match content {
            TextContent::Message(WsMessage::Join(req)) => HandshakeStep::Join(req),
            TextContent::Message(_) => HandshakeStep::Wait,
            TextContent::InvalidJoin(e) => HandshakeStep::Fail(e),
            TextContent::Unreadable => HandshakeStep::Close,
        },
        ClientFrame::Ping => HandshakeStep::Wait,
        ClientFrame::Pong => HandshakeStep::Wait,
        _ => HandshakeStep::Close,
    }
}

/// An active session forwards room events to its client, except the
/// announcement of its own join and messages addressed to other members;
/// it ends when evicted, when it fell behind, or when the channel closed.
pub fn on_room_event(session: &Session, received: Received) -> (r: EventAction)
    ensures
        match received {
            Received::Event(RoomEvent::Kick { token }) => if token@ == session@.token {
                r is Evicted
            } else {
                r is Ignore
            },
            Received::Event(e) => match delivery(session@, e) {
                Some(m) => r == EventAction::Forward(m),
                None => r is Ignore,
            },
            Received::Lagged => r is Overrun,
            Received::Closed => r is Ended,
        },
{
    match received {
        Received::Event(RoomEvent::Kick { token }) => {
            if same_text(token.as_str(), session.token.as_str()) {
                EventAction::Evicted
            } else {
                EventAction::Ignore
            }
        },
        Received::Event(RoomEvent::Broadcast(m)) => {
            let own = match &m {
                WsMessage::MemberJoined { username } => username.same_as(&session.username),
                _ => false,
            };
            if own {
                EventAction::Ignore
            } else {
                EventAction::Forward(m)
            }
        },
        Received::Event(RoomEvent::Direct { to, message }) => {
            if same_text(to.as_str(), session.username.as_str()) {
                EventAction::Forward(message)
            } else {
                EventAction::Ignore
            }
        },
        Received::Lagged => EventAction::Overrun,
        Received::Closed => EventAction::Ended,
    }
}

/// Whether `e` relays `payload` from the member `from` to the member `to` alone.
pub open spec fn relays(e: RoomEvent, from: Seq<char>, to: String, payload: SignalingPayload) -> bool {
    e matches RoomEvent::Direct {
        to: t,
        message: WsMessage::SignalingMessage { from: f, payload: p },
    } && t == to && f@ == from && p == payload
}

/// An active session ends on oversized text, closing or failing transport
/// and binary frames; it publishes chat to the room, relays signaling to its
/// addressee alone, and ignores anything else.
pub fn on_client_frame(session: &Session, frame: ClientFrame) -> (r: FrameAction)
    ensures
        match frame {
            ClientFrame::Text { len, content } => if len > MAX_TEXT_LEN {
                r is Close
            } else {
                match content {
                    TextContent::Message(WsMessage::ChatMessage { message }) => (r matches FrameAction::Publish(
                        RoomEvent::Broadcast(WsMessage::Chat { from, message: m }),
                    ) && from@ == session@.username && m == message),
                    TextContent::Message(WsMessage::Offer { to, sdp }) => (r matches FrameAction::Publish(e)
                        && relays(e, session@.username, to, SignalingPayload::Offer { sdp })),
                    TextContent::Message(WsMessage::Answer { to, sdp }) => (r matches FrameAction::Publish(e)
                        && relays(e, session@.username, to, SignalingPayload::Answer { sdp })),
                    TextContent::Message(WsMessage::IceCandidate { to, candidate }) => (r matches FrameAction::Publish(e)
                        && relays(
                        e,
                        session@.username,
                        to,
                        SignalingPayload::IceCandidate { candidate },
                    )),
                    _ => r is Ignore,
                }
            },
            ClientFrame::Ping => r is Ignore,
            ClientFrame::Pong => r is Ignore,
            _ => r is Close,
        },
{
    match frame {
        ClientFrame::Text { len, content } => {
            if len > MAX_TEXT_LEN {
                return FrameAction::Close;
            }
            match content {
                TextContent::Message(WsMessage::ChatMessage { message }) => FrameAction::Publish(
                    RoomEvent::Broadcast(
                        WsMessage::Chat { from: session.username.clone(), message },
                    ),
                ),
                TextContent::Message(WsMessage::Offer { to, sdp }) => FrameAction::Publish(
                    RoomEvent::Direct {
                        to,
                        message: WsMessage::SignalingMessage {
                            from: session.username.to_string(),
                            payload: SignalingPayload::Offer { sdp },
                        },
                    },
                ),
                TextContent::Message(WsMessage::Answer { to, sdp }) => FrameAction::Publish(
                    RoomEvent::Direct {
                        to,
                        message: WsMessage::SignalingMessage {
                            from: session.username.to_string(),
                            payload: SignalingPayload::Answer { sdp },
                        },
                    },
                ),
                TextContent::Message(WsMessage::IceCandidate { to, candidate }) => {
                    FrameAction::Publish(
                        RoomEvent::Direct {
                            to,
                            message: WsMessage::SignalingMessage {
                                from: session.username.to_string(),
                                payload: SignalingPayload::IceCandidate { candidate },
                            },
                        },
                    )
                },
                _ => FrameAction::Ignore,
            }
        },
        ClientFrame::Ping => FrameAction::Ignore,
        ClientFrame::Pong => FrameAction::Ignore,
        _ => FrameAction::Close,
    }
}

/// A signaling message relayed from one member to another reaches the
/// session of the addressee, as sent by the sender, and no other session.
pub proof fn lemma_signal_reaches_addressee_only(
    e: RoomEvent,
    from: Seq<char>,
    to: String,
    payload: SignalingPayload,
    s: SessionView,
)
    requires
        relays(e, from, to, payload),
    ensures
        s.username == to@ ==> (delivery(s, e) matches Some(WsMessage::SignalingMessage {
            from: f,
            payload: p,
        }) && f@ == from && p == payload),
        s.username != to@ ==> delivery(s, e) is None,
{
}

/// A session forwards the events of two runs in the order they were
/// published: what it sends for both is what it sends for the first, then
/// what it sends for the second.
pub proof fn lemma_forwarded_keeps_order(s: SessionView, a: Seq<RoomEvent>, b: Seq<RoomEvent>)
    ensures
        forwarded(s, a + b) == forwarded(s, a) + forwarded(s, b),
    decreases b.len(),
{
    if b.len() == 0 {
        assert(a + b =~= a);
        assert(forwarded(s, a) + forwarded(s, b) =~= forwarded(s, a));
    } else {
        lemma_forwarded_keeps_order(s, a, b.drop_last());
        assert((a + b).drop_last() =~= a + b.drop_last());
        assert((a + b).last() == b.last());
        match delivery(s, b.last()) {
            Some(m) => {
                assert(forwarded(s, a) + forwarded(s, b.drop_last()).push(m) =~= (forwarded(s, a)
                    + forwarded(s, b.drop_last())).push(m));
            },
            None => {},
        }
    }
}

proof fn lemma_recipients_all(sessions: Seq<SessionView>, e: RoomEvent, name: Seq<char>)
    requires
        e@ == crate::room::EventView::Joined(name),
        forall|i: int| 0 <= i < sessions.len() ==> (#[trigger] sessions[i]).username != name,
    ensures
        recipients(sessions, e) == sessions.len(),
    decreases sessions.len(),
{
    if sessions.len() > 0 {
        lemma_recipients_all(sessions.drop_last(), e, name);
        assert(sessions.last() == sessions[sessions.len() - 1]);
    }
}

/// When a member joins, each attached session of another member gets the
/// announcement and the joiner's own session does not: among sessions of
/// distinct members that include the joiner's, one fewer than all of them.
pub proof fn lemma_join_fan_out(sessions: Seq<SessionView>, e: RoomEvent, name: Seq<char>)
    requires
        e@ == crate::room::EventView::Joined(name),
        forall|i: int, j: int|
            0 <= i < sessions.len() && 0 <= j < sessions.len() && i != j ==> (#[trigger] sessions[i]).username
                != (#[trigger] sessions[j]).username,
        exists|k: int| 0 <= k < sessions.len() && (#[trigger] sessions[k]).username == name,
    ensures
        recipients(sessions, e) == sessions.len() - 1,
        forall|i: int|
            0 <= i < sessions.len() ==> (delivery(#[trigger] sessions[i], e) is Some
                <==> sessions[i].username != name),
    decreases sessions.len(),
{
    let n = sessions.len();
    let rest = sessions.drop_last();
    if sessions.last().username == name {
        assert forall|i: int| 0 <= i < rest.len() implies (#[trigger] rest[i]).username != name by {
            assert(rest[i] == sessions[i]);
            assert(sessions[n - 1] == sessions.last());
        }
        lemma_recipients_all(rest, e, name);
    } else {
        let k = choose|k: int| 0 <= k < sessions.len() && (#[trigger] sessions[k]).username == name;
        assert(k != n - 1);
        assert(rest[k] == sessions[k]);
        assert forall|i: int, j: int|
            0 <= i < rest.len() && 0 <= j < rest.len() && i != j implies (#[trigger] rest[i]).username
                != (#[trigger] rest[j]).username by {
            assert(rest[i] == sessions[i] && rest[j] == sessions[j]);
        }
        lemma_join_fan_out(rest, e, name);
    }
}

} // verus!
