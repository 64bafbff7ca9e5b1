//! Messages exchanged with clients, and the bodies of the room requests.
use vstd::prelude::*;
use crate::names::{
    password_error, trimmed, username_error, valid_password, valid_username, Password, RoomId,
    Username,
};

verus! {

/// A message of the real-time channel, in either direction.
#[derive(Debug, Clone)]
pub enum WsMessage {
    // From a client.
    Join(JoinRequest),
    Leave,
    Offer { to: String, sdp: String },
    Answer { to: String, sdp: String },
    IceCandidate { to: String, candidate: String },
    ChatMessage { message: String },
    // From the server.
    JoinedAs { username: Username, token: String, is_owner: bool },
    MemberJoined { username: Username },
    MemberLeft { username: Username },
    MemberList { members: Vec<MemberInfo> },
    SignalingMessage { from: String, payload: SignalingPayload },
    Chat { from: Username, message: String },
    Error(ErrorKind),
    ForceDisconnect,
}

/// How a connection asks to join a room.
#[derive(Debug, Clone)]
pub enum JoinRequest {
    WithToken { token: String },
    WithUsername { username: Username, password: Option<Password> },
}

/// What a signaling envelope carries from one member to another.
#[derive(Debug, Clone)]
pub enum SignalingPayload {
    Offer { sdp: String },
    Answer { sdp: String },
    IceCandidate { candidate: String },
}

/// The errors reported to a client.
#[derive(Debug, Clone)]
pub enum ErrorKind {
    TokenNotFound,
    TokenAlreadyInUse,
    RoomNotFound,
    InvalidUsername { message: String },
    UsernameTaken,
    PasswordRequired,
    IncorrectPassword,
    JoinTimeout,
    TooManyAttempts,
    Other { message: String },
}

/// One row of a room's member list.
#[derive(Debug, Clone, PartialEq)]
pub struct MemberInfo {
    pub username: Username,
    pub is_online: bool,
}

/// Body of a room creation request.
#[derive(Debug, Clone)]
pub struct CreateRoomRequest {
    pub username: Username,
    pub password: Option<Password>,
}

/// Answer to a room creation request.
#[derive(Debug, Clone)]
pub struct CreateRoomResponse {
    pub room_id: RoomId,
    pub owner_token: String,
    pub member_token: String,
    pub username: Username,
}

/// Answer to a room lookup.
#[derive(Debug, Clone)]
pub struct RoomInfoResponse {
    pub exists: bool,
    pub has_password: bool,
}

pub open spec fn opt_view<T: View>(o: Option<T>) -> Option<T::V> {
    match o {
        Some(x) => Some(x@),
        None => None,
    }
}

pub open spec fn opt_str_view(o: Option<&str>) -> Option<Seq<char>> {
    match o {
        Some(x) => Some(x@),
        None => None,
    }
}

/// A password that is absent or well formed.
pub open spec fn password_acceptable(o: Option<&str>) -> bool {
    match o {
        Some(p) => valid_password(p@),
        None => true,
    }
}

impl JoinRequest {
    /// Builds a join by credentials from the text a client sent: the username
    /// is checked first, then the password, if one was given.
    pub fn with_credentials(username: &str, password: Option<&str>) -> (r: Result<
        JoinRequest,
        ErrorKind,
    >)
        ensures
            match r {
                Ok(req) => valid_username(trimmed(username@)) && password_acceptable(password) && (
                req matches JoinRequest::WithUsername { username: u, password: p } && u@ == trimmed(
                    username@,
                ) && opt_view(p) == opt_str_view(password)),
                Err(ErrorKind::InvalidUsername { message }) => !valid_username(trimmed(username@))
                    && message@ == username_error(trimmed(username@)),
                Err(ErrorKind::Other { message }) => valid_username(trimmed(username@)) && (
                password matches Some(p) && !valid_password(p@) && message@ == password_error(p@)),
                Err(_) => false,
            },
    {
        let u = match Username::parse(username) {
            Ok(u) => u,
            Err(e) => {
                return Err(ErrorKind::InvalidUsername { message: e.message() });
            },
        };
        let p = match password {
            None => None,
            Some(text) => match Password::parse(text) {
                Ok(p) => Some(p),
                Err(e) => {
                    return Err(ErrorKind::Other { message: e.message() });
                },
            },
        };
        Ok(JoinRequest::WithUsername { username: u, password: p })
    }
}

} // verus!
