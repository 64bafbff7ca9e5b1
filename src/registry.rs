//! The registry of rooms, and the operations that look a room up by its
//! identifier: creation, lookup, deletion, the inactivity sweep, joining and
//! leaving.
use vstd::prelude::*;
use crate::names::{canonical_room_id, Password, RoomId, Username};
use crate::protocol::{
    opt_view, CreateRoomResponse, ErrorKind, JoinRequest, MemberInfo, RoomInfoResponse,
    WsMessage,
};
use crate::room::{
    assigned_name, has_token, name_taken, password_check, MemberView, Room, RoomEvent, RoomView,
};
use crate::platform::{now_millis, random_uuid};
use crate::session::{Session, SessionView};
use crate::text::same_text;

verus! {

/// A room whose last activity is more than this many milliseconds old is
/// swept away (30 days).
pub const INACTIVE_LIMIT_MS: i64 = 2592000000;

pub open spec fn has_room(rooms: Seq<RoomView>, id: Seq<char>) -> bool {
    exists|i: int| 0 <= i < rooms.len() && #[trigger] rooms[i].id == id
}

pub open spec fn is_first_room(rooms: Seq<RoomView>, id: Seq<char>, i: int) -> bool {
    0 <= i < rooms.len() && rooms[i].id == id && forall|j: int|
        0 <= j < i ==> #[trigger] rooms[j].id != id
}

/// The position of the room named `id`.
pub open spec fn room_index(rooms: Seq<RoomView>, id: Seq<char>) -> int {
    choose|i: int| is_first_room(rooms, id, i)
}

proof fn lemma_first_room_exists(rooms: Seq<RoomView>, id: Seq<char>, i: int)
    requires
        0 <= i < rooms.len(),
        rooms[i].id == id,
    ensures
        exists|k: int| is_first_room(rooms, id, k),
    decreases i,
{
    if exists|j: int| 0 <= j < i && #[trigger] rooms[j].id == id {
        let j = choose|j: int| 0 <= j < i && #[trigger] rooms[j].id == id;
        lemma_first_room_exists(rooms, id, j);
    } else {
        assert(is_first_room(rooms, id, i));
    }
}

/// A stored identifier has a first position.
pub proof fn lemma_room_index(rooms: Seq<RoomView>, id: Seq<char>)
    requires
        has_room(rooms, id),
    ensures
        is_first_room(rooms, id, room_index(rooms, id)),
{
    let i = choose|i: int| 0 <= i < rooms.len() && #[trigger] rooms[i].id == id;
    lemma_first_room_exists(rooms, id, i);
}

/// No two rooms share an identifier.
pub open spec fn ids_unique(rooms: Seq<RoomView>) -> bool {
    forall|a: int, b: int|
        0 <= a < rooms.len() && 0 <= b < rooms.len() && a != b ==> #[trigger] rooms[a].id
            != #[trigger] rooms[b].id
}

/// Replacing a room by one with the same identifier keeps identifiers unique.
proof fn lemma_update_keeps_ids_unique(rooms: Seq<RoomView>, i: int, v: RoomView)
    requires
        ids_unique(rooms),
        0 <= i < rooms.len(),
        v.id == rooms[i].id,
    ensures
        ids_unique(rooms.update(i, v)),
{
    let w = rooms.update(i, v);
    assert forall|a: int, b: int|
        0 <= a < w.len() && 0 <= b < w.len() && a != b implies #[trigger] w[a].id != #[trigger] w[b].id by {
        assert(w[a].id == rooms[a].id && w[b].id == rooms[b].id);
    }
}

/// In a registry with unique identifiers, the room found under an
/// identifier is the only one with it.
pub proof fn lemma_room_index_unique(rooms: Seq<RoomView>, id: Seq<char>, i: int)
    requires
        ids_unique(rooms),
        0 <= i < rooms.len(),
        rooms[i].id == id,
    ensures
        has_room(rooms, id),
        room_index(rooms, id) == i,
{
    lemma_room_index(rooms, id);
    let k = room_index(rooms, id);
    if k != i {
        assert(rooms[k].id != rooms[i].id);
    }
}

/// Once the room under `id` is deleted, no room is found under `id`, and the
/// other rooms stay as they were.
pub proof fn lemma_deleted_room_absent(rooms: Seq<RoomView>, id: Seq<char>)
    requires
        ids_unique(rooms),
        has_room(rooms, id),
    ensures
        !has_room(rooms.remove(room_index(rooms, id)), id),
        ids_unique(rooms.remove(room_index(rooms, id))),
        rooms.remove(room_index(rooms, id)).len() == rooms.len() - 1,
{
    lemma_room_index(rooms, id);
    let i = room_index(rooms, id);
    let w = rooms.remove(i);
    assert forall|a: int| 0 <= a < w.len() implies #[trigger] w[a].id != id by {
        if a < i {
            assert(w[a] == rooms[a]);
        } else {
            assert(w[a] == rooms[a + 1]);
            assert(rooms[a + 1].id != rooms[i].id);
        }
    }
    assert forall|a: int, b: int|
        0 <= a < w.len() && 0 <= b < w.len() && a != b implies #[trigger] w[a].id != #[trigger] w[b].id by {
        let a0 = if a < i { a } else { a + 1 };
        let b0 = if b < i { b } else { b + 1 };
        assert(w[a] == rooms[a0] && w[b] == rooms[b0]);
    }
}

/// The rooms after `v` was stored under its identifier, replacing any room
/// stored there before.
pub open spec fn with_room(rooms: Seq<RoomView>, v: RoomView) -> Seq<RoomView> {
    if has_room(rooms, v.id) {
        rooms.update(room_index(rooms, v.id), v)
    } else {
        rooms.push(v)
    }
}

pub open spec fn inactive(v: RoomView, now: i64) -> bool {
    now - v.last_activity > INACTIVE_LIMIT_MS
}

/// Whether `list` shows exactly the members `ms`, in order.
pub open spec fn lists_members(list: Seq<MemberInfo>, ms: Seq<MemberView>) -> bool {
    list.len() == ms.len() && forall|i: int|
        0 <= i < list.len() ==> (#[trigger] list[i]).username@ == ms[i].username && list[i].is_online
            == ms[i].is_online
}

/// The two messages a session sends first: who it is, then who is there.
pub open spec fn greets(greeting: Seq<WsMessage>, s: Session, room: RoomView) -> bool {
    &&& greeting.len() == 2
    &&& greeting[0] matches WsMessage::JoinedAs { username, token, is_owner } && username@
        == s.username@ && token@ == s.token@ && is_owner == s.is_owner
    &&& greeting[1] matches WsMessage::MemberList { members } && lists_members(members@, room.members)
}

/// What a join attempt on the room at position `i` did, given the rooms
/// before and after it.
pub open spec fn join_effect(
    before: Seq<RoomView>,
    after: Seq<RoomView>,
    i: int,
    request: JoinRequest,
    after_eviction: bool,
    r: JoinOutcome,
) -> bool {
    let v = before[i];
    let now = after[i].last_activity;
    match request {
        JoinRequest::WithToken { token } => match v.login_outcome(token@) {
            Ok(name) => (r matches JoinOutcome::Joined { session, greeting } && session@ == (
            SessionView { token: token@, username: name, is_owner: v.owner_token == token@ })
                && after == before.update(i, v.after_login(token@, now)) && greets(
                greeting@,
                session,
                after[i],
            )),
            Err(ErrorKind::TokenAlreadyInUse) => if after_eviction {
                (r matches JoinOutcome::Rejected(ErrorKind::TokenAlreadyInUse) && after == before)
            } else {
                r is Evicting && after == before.update(i, v.after_force_logout(token@, now))
            },
            Err(e) => r == JoinOutcome::Rejected(e) && after == before,
        },
        JoinRequest::WithUsername { username, password } => match password_check(
            v.password,
            opt_view(password),
        ) {
            Err(e) => r == JoinOutcome::Rejected(e) && after == before,
            Ok(_) => match assigned_name(v.members, username@) {
                None => (r matches JoinOutcome::Rejected(ErrorKind::UsernameTaken) && after
                    == before),
                Some(name) => (r matches JoinOutcome::Joined { session, greeting }
                    && session@.username == name && !session.is_owner && !has_token(
                    v.members,
                    session@.token,
                ) && after == before.update(i, v.with_new_member(name, session@.token, true, now))
                    && greets(greeting@, session, after[i])) || (r matches JoinOutcome::Rejected(
                    ErrorKind::Other { .. },
                ) && v.members.len() > 0 && after == before),
            },
        },
    }
}

/// What a join attempt with the drawn member token `token` and time `now` did.
/// It is the same as `join_effect`, except that a join by credentials with a
/// free name succeeds exactly when no member already holds `token`.
pub open spec fn join_effect_with(
    before: Seq<RoomView>,
    after: Seq<RoomView>,
    i: int,
    request: JoinRequest,
    after_eviction: bool,
    token: Seq<char>,
    now: i64,
    r: JoinOutcome,
) -> bool {
    let v = before[i];
    match request {
        JoinRequest::WithToken { .. } => join_effect(before, after, i, request, after_eviction, r),
        JoinRequest::WithUsername { username, password } => match password_check(
            v.password,
            opt_view(password),
        ) {
            Err(e) => r == JoinOutcome::Rejected(e) && after == before,
            Ok(_) => match assigned_name(v.members, username@) {
                None => (r matches JoinOutcome::Rejected(ErrorKind::UsernameTaken) && after
                    == before),
                Some(name) => if has_token(v.members, token) {
                    (r matches JoinOutcome::Rejected(ErrorKind::Other { .. }) && after == before)
                } else {
                    (r matches JoinOutcome::Joined { session, greeting } && session@ == (
                    SessionView { token, username: name, is_owner: false }) && after
                        == before.update(i, v.with_new_member(name, token, true, now)) && greets(
                        greeting@,
                        session,
                        after[i],
                    ))
                },
            },
        },
    }
}

/// Why a room could not be deleted.
#[derive(Debug, Clone, Copy, PartialEq, Eq)]
pub enum DeleteError {
    NotFound,
    Forbidden,
}

/// How a join attempt ended.
#[derive(Debug)]
pub enum JoinOutcome {
    /// The session joined; it sends `greeting` before anything else.
    Joined { session: Session, greeting: Vec<WsMessage> },
    /// The member is online in another session, which was told to end. Try
    /// again once it has.
    Evicting,
    /// The join failed; report the error and end the session.
    Rejected(ErrorKind),
}

/// All rooms of the process, each under its own identifier: no two rooms
/// share one.
#[derive(Debug)]
pub struct Registry {
    rooms: Vec<Room>,
}

/// The models of a sequence of rooms.
pub open spec fn views(rooms: Seq<Room>) -> Seq<RoomView> {
    rooms.map_values(|r: Room| r@)
}

impl View for Registry {
    type V = Seq<RoomView>;

    closed spec fn view(&self) -> Seq<RoomView> {
        views(self.rooms@)
    }
}

impl Registry {
    #[verifier::type_invariant]
    spec fn inv(&self) -> bool {
        ids_unique(self@)
    }

    /// Every registry keeps its room identifiers unique.
    pub fn ids_are_unique(&self) -> (r: bool)
        ensures
            r,
            ids_unique(self@),
    {
        proof {
            use_type_invariant(self);
        }
        true
    }

    /// Moves the rooms out, leaving the registry empty.
    fn take_rooms(&mut self) -> (r: Vec<Room>)
        ensures
            views(r@) == old(self)@,
            ids_unique(views(r@)),
            final(self)@.len() == 0,
    {
        proof {
            use_type_invariant(&*self);
        }
        let mut rooms: Vec<Room> = Vec::new();
        std::mem::swap(&mut rooms, &mut self.rooms);
        rooms
    }

    /// Moves `rooms` back in.
    fn restore(&mut self, rooms: Vec<Room>)
        requires
            ids_unique(views(rooms@)),
        ensures
            final(self)@ == views(rooms@),
    {
        let mut rooms = rooms;
        std::mem::swap(&mut rooms, &mut self.rooms);
    }

    pub fn new() -> (r: Registry)
        ensures
            r@.len() == 0,
            ids_unique(r@),
    {
        let r = Registry { rooms: Vec::new() };
        assert(r@ =~= Seq::empty());
        r
    }

    /// The position of the room named `id`.
    fn position(&self, id: &RoomId) -> (r: Option<usize>)
        ensures
            r is None <==> !has_room(self@, id@),
            r matches Some(i) ==> i == room_index(self@, id@) && i < self@.len(),
    {
        let mut i: usize = 0;
        while i < self.rooms.len()
            invariant
                i <= self@.len(),
                self@.len() == self.rooms@.len(),
                forall|j: int| 0 <= j < i ==> #[trigger] self@[j].id != id@,
            decreases self.rooms@.len() - i,
        {
            if self.rooms[i].id().same_as(id) {
                proof {
                    let rooms = self@;
                    assert(is_first_room(rooms, id@, i as int));
                    let k = room_index(rooms, id@);
                    assert(is_first_room(rooms, id@, k));
                    assert(k == i as int) by {
                        if k < i {
                            assert(rooms[k].id != id@);
                        } else if k > i {
                            assert(rooms[i as int].id != id@);
                        }
                    }
                }
                return Some(i);
            }
            i += 1;
        }
        None
    }

    /// Whether a room is stored under `id`.
    pub fn contains(&self, id: &RoomId) -> (r: bool)
        ensures
            r == has_room(self@, id@),
    {
        self.position(id).is_some()
    }

    /// The room stored under `id`, if any.
    pub fn room(&self, id: &RoomId) -> (r: Option<&Room>)
        ensures
            r is None <==> !has_room(self@, id@),
            r matches Some(room) ==> room@ == self@[room_index(self@, id@)],
    {
        match self.position(id) {
            Some(i) => Some(&self.rooms[i]),
            None => None,
        }
    }

    /// Stores `room` under its identifier, replacing any room stored there.
    pub fn insert(&mut self, room: Room)
        ensures
            final(self)@ == with_room(old(self)@, room@),
    {
        let pos = self.position(room.id());
        let ghost rv = room@;
        let mut rooms = self.take_rooms();
        let ghost before = views(rooms@);
        match pos {
            Some(i) => {
                rooms.set(i, room);
            },
            None => {
                rooms.push(room);
            },
        }
        assert(views(rooms@) =~= with_room(before, rv));
        proof {
            if has_room(before, rv.id) {
                lemma_room_index(before, rv.id);
                lemma_update_keeps_ids_unique(before, room_index(before, rv.id), rv);
            } else {
                let w = views(rooms@);
                assert forall|a: int, b: int|
                    0 <= a < w.len() && 0 <= b < w.len() && a != b implies #[trigger] w[a].id
                    != #[trigger] w[b].id by {
                    if a < before.len() && b < before.len() {
                        assert(w[a] == before[a] && w[b] == before[b]);
                    } else if a < before.len() {
                        assert(w[a] == before[a]);
                    } else {
                        assert(w[b] == before[b]);
                    }
                }
            }
        }
        self.restore(rooms);
    }

    /// Whether a room is stored under `id`, and whether it has a password.
    pub fn room_info(&self, id: &RoomId) -> (r: RoomInfoResponse)
        ensures
            r.exists == has_room(self@, id@),
            r.has_password == (has_room(self@, id@) && self@[room_index(self@, id@)].password is Some),
    {
        match self.position(id) {
            Some(i) => RoomInfoResponse { exists: true, has_password: self.rooms[i].has_password() },
            None => RoomInfoResponse { exists: false, has_password: false },
        }
    }

    /// Deletes the room stored under `id` for the holder of its owner token.
    pub fn delete_room(&mut self, id: &RoomId, owner_token: &str) -> (r: Result<(), DeleteError>)
        ensures
            !has_room(old(self)@, id@) ==> r == Err::<(), DeleteError>(DeleteError::NotFound)
                && final(self)@ == old(self)@,
            has_room(old(self)@, id@) && old(self)@[room_index(old(self)@, id@)].owner_token
                != owner_token@ ==> r == Err::<(), DeleteError>(DeleteError::Forbidden)
                && final(self)@ == old(self)@,
            has_room(old(self)@, id@) && old(self)@[room_index(old(self)@, id@)].owner_token
                == owner_token@ ==> r is Ok && final(self)@ == old(self)@.remove(
                room_index(old(self)@, id@),
            ),
            r is Ok ==> !has_room(final(self)@, id@),
    {
        let i = match self.position(id) {
            Some(i) => i,
            None => {
                return Err(DeleteError::NotFound);
            },
        };
        if !self.rooms[i].is_owner(owner_token) {
            return Err(DeleteError::Forbidden);
        }
        let mut rooms = self.take_rooms();
        let _room = rooms.remove(i);
        assert(views(rooms@) =~= old(self)@.remove(i as int));
        proof {
            lemma_deleted_room_absent(old(self)@, id@);
        }
        self.restore(rooms);
        Ok(())
    }

    /// The session of `token` in the room stored under `id` ended.
    pub fn disconnect(&mut self, id: &RoomId, token: &str)
        ensures
            !has_room(old(self)@, id@) ==> final(self)@ == old(self)@,
            has_room(old(self)@, id@) ==> {
                let i = room_index(old(self)@, id@);
                final(self)@ == old(self)@.update(
                    i,
                    old(self)@[i].after_disconnect(token@, final(self)@[i].last_activity),
                )
            },
    {
        if let Some(i) = self.position(id) {
            let mut rooms = self.take_rooms();
            rooms[i].on_disconnect(token);
            assert(views(rooms@) =~= old(self)@.update(i as int, rooms@[i as int]@));
            proof {
                lemma_update_keeps_ids_unique(old(self)@, i as int, rooms@[i as int]@);
            }
            self.restore(rooms);
        }
    }

    /// Hands over the events the room stored under `id` published so far,
    /// oldest first, and forgets them there.
    pub fn take_events(&mut self, id: &RoomId) -> (r: Vec<RoomEvent>)
        ensures
            !has_room(old(self)@, id@) ==> r@.len() == 0 && final(self)@ == old(self)@,
            has_room(old(self)@, id@) ==> {
                let i = room_index(old(self)@, id@);
                &&& r@.map_values(|e: RoomEvent| e@) == old(self)@[i].events
                &&& final(self)@ == old(self)@.update(
                    i,
                    RoomView { events: Seq::empty(), ..old(self)@[i] },
                )
            },
    {
        match self.position(id) {
            Some(i) => {
                let mut rooms = self.take_rooms();
                let events = rooms[i].take_events();
                assert(views(rooms@) =~= old(self)@.update(i as int, rooms@[i as int]@));
                proof {
                    lemma_update_keeps_ids_unique(old(self)@, i as int, rooms@[i as int]@);
                }
                self.restore(rooms);
                events
            },
            None => Vec::new(),
        }
    }

    /// Removes every room whose last activity is more than 30 days before
    /// `now`, keeping the others in order, and returns the identifiers removed.
    pub fn sweep_inactive(&mut self, now: i64) -> (r: Vec<RoomId>)
        ensures
            final(self)@ == old(self)@.filter(|v: RoomView| !inactive(v, now)),
            r@.map_values(|x: RoomId| x@) == old(self)@.filter(|v: RoomView| inactive(v, now)).map_values(
                |v: RoomView| v.id,
            ),
    {
        let ghost all = self@;
        let ghost keep = |v: RoomView| !inactive(v, now);
        let ghost drop = |v: RoomView| inactive(v, now);
        let mut pending = self.take_rooms();
        let mut kept: Vec<Room> = Vec::new();
        let mut removed: Vec<RoomId> = Vec::new();
        let ghost mut k: int = 0;
        assert(all.subrange(0, 0) =~= Seq::<RoomView>::empty());
        proof {
            reveal(Seq::filter);
        }
        assert(views(kept@) =~= Seq::<RoomView>::empty());
        assert(views(pending@) =~= all.subrange(0, all.len() as int));
        while pending.len() > 0
            invariant
                0 <= k <= all.len(),
                views(kept@) == all.subrange(0, k).filter(keep),
                removed@.map_values(|x: RoomId| x@) == all.subrange(0, k).filter(drop).map_values(
                    |v: RoomView| v.id,
                ),
                views(pending@) == all.subrange(k, all.len() as int),
                pending@.len() == all.len() - k,
                forall|a: int|
                    0 <= a < views(kept@).len() ==> exists|j: int|
                        0 <= j < k && (#[trigger] views(kept@)[a]).id == #[trigger] all[j].id,
                ids_unique(all) ==> ids_unique(views(kept@)),
                keep == (|v: RoomView| !inactive(v, now)),
                drop == (|v: RoomView| inactive(v, now)),
            decreases pending@.len(),
        {
            let ghost rest = pending@;
            assert(views(rest)[0] == all[k]);
            let room = pending.remove(0);
            let ghost rv = room@;
            assert(rv == all[k]);
            assert forall|j: int| 0 <= j < pending@.len() implies #[trigger] pending@[j]@ == all[k + 1 + j] by {
                assert(pending@[j] == rest[j + 1]);
                assert(views(rest)[j + 1] == all.subrange(k, all.len() as int)[j + 1]);
            }
            assert(all.subrange(0, k + 1) =~= all.subrange(0, k).push(rv));
            proof {
                all.subrange(0, k).lemma_filter_push(rv, keep);
                all.subrange(0, k).lemma_filter_push(rv, drop);
            }
            let age = (now as i128) - (room.last_activity() as i128);
            if age > INACTIVE_LIMIT_MS as i128 {
                let ghost before = removed@;
                removed.push(room.id().clone());
                assert(removed@.map_values(|x: RoomId| x@) =~= before.map_values(|x: RoomId| x@).push(
                    rv.id,
                ));
                assert(all.subrange(0, k).filter(drop).push(rv).map_values(|v: RoomView| v.id)
                    =~= all.subrange(0, k).filter(drop).map_values(|v: RoomView| v.id).push(rv.id));
            } else {
                let ghost before = views(kept@);
                kept.push(room);
                assert(views(kept@) =~= before.push(rv));
                proof {
                    if ids_unique(all) {
                        assert forall|a: int| 0 <= a < before.len() implies #[trigger] before[a].id != rv.id by {
                            let j = choose|j: int| 0 <= j < k && (#[trigger] before[a]).id == #[trigger] all[j].id;
                            assert(all[j].id != all[k].id);
                        }
                        assert forall|a: int, b: int|
                            0 <= a < views(kept@).len() && 0 <= b < views(kept@).len() && a != b implies #[trigger] views(kept@)[a].id
                            != #[trigger] views(kept@)[b].id by {
                            if a < before.len() && b < before.len() {
                                assert(views(kept@)[a] == before[a] && views(kept@)[b] == before[b]);
                            } else if a < before.len() {
                                assert(views(kept@)[a] == before[a]);
                            } else {
                                assert(views(kept@)[b] == before[b]);
                            }
                        }
                    }
                }
                assert forall|a: int| 0 <= a < views(kept@).len() implies exists|j: int|
                    0 <= j < k + 1 && (#[trigger] views(kept@)[a]).id == #[trigger] all[j].id by {
                    if a < before.len() {
                        assert(views(kept@)[a] == before[a]);
                        let j = choose|j: int| 0 <= j < k && (#[trigger] before[a]).id == #[trigger] all[j].id;
                        assert(0 <= j < k + 1 && views(kept@)[a].id == all[j].id);
                    } else {
                        assert(views(kept@)[a].id == all[k].id);
                    }
                }
            }
            proof {
                k = k + 1;
            }
            assert(views(pending@) =~= all.subrange(k, all.len() as int));
        }
        assert(all.subrange(0, all.len() as int) =~= all);
        self.restore(kept);
        removed
    }

    /// Attempts a join of the room stored under `id`, giving a member who
    /// joins by credentials the token `token` as of time `now`. A token whose
    /// member is online elsewhere gets that session told to end, unless this
    /// attempt already follows such an eviction.
    pub fn join_room_with_token(
        &mut self,
        id: &RoomId,
        request: &JoinRequest,
        after_eviction: bool,
        token: String,
        now: i64,
    ) -> (r: JoinOutcome)
        ensures
            !has_room(old(self)@, id@) ==> (r matches JoinOutcome::Rejected(ErrorKind::RoomNotFound)
                && final(self)@ == old(self)@),
            has_room(old(self)@, id@) ==> join_effect_with(
                old(self)@,
                final(self)@,
                room_index(old(self)@, id@),
                *request,
                after_eviction,
                token@,
                now,
                r,
            ),
    {
        let i = match self.position(id) {
            Some(i) => i,
            None => {
                return JoinOutcome::Rejected(ErrorKind::RoomNotFound);
            },
        };
        let mut rooms = self.take_rooms();
        let r = Self::join_at(&mut rooms, i, request, after_eviction, token, now);
        self.restore(rooms);
        r
    }

    /// The join of `join_room_with_token`, on the room at position `i`.
    fn join_at(
        rooms: &mut Vec<Room>,
        i: usize,
        request: &JoinRequest,
        after_eviction: bool,
        token: String,
        now: i64,
    ) -> (r: JoinOutcome)
        requires
            i < old(rooms)@.len(),
            ids_unique(views(old(rooms)@)),
        ensures
            join_effect_with(
                views(old(rooms)@),
                views(final(rooms)@),
                i as int,
                *request,
                after_eviction,
                token@,
                now,
                r,
            ),
            ids_unique(views(final(rooms)@)),
    {
        match request {
            JoinRequest::WithToken { token: member_token } => {
                let token = member_token;
                match rooms[i].login_member(token.as_str()) {
                    Ok(username) => {
                        assert(views(rooms@) =~= views(old(rooms)@).update(i as int, rooms@[i as int]@));
                        proof {
                            lemma_update_keeps_ids_unique(views(old(rooms)@), i as int, rooms@[i as int]@);
                        }
                        let is_owner = rooms[i].is_owner(token.as_str());
                        let members = rooms[i].get_member_list();
                        let session = Session { token: token.clone(), username: username.clone(), is_owner };
                        let greeting = vec![
                            WsMessage::JoinedAs { username, token: token.clone(), is_owner },
                            WsMessage::MemberList { members },
                        ];
                        JoinOutcome::Joined { session, greeting }
                    },
                    Err(e) => {
                        let in_use = match e {
                            ErrorKind::TokenAlreadyInUse => true,
                            _ => false,
                        };
                        if in_use && !after_eviction {
                            rooms[i].force_logout_member(token.as_str());
                            assert(views(rooms@) =~= views(old(rooms)@).update(i as int, rooms@[i as int]@));
                            proof {
                                lemma_update_keeps_ids_unique(views(old(rooms)@), i as int, rooms@[i as int]@);
                            }
                            JoinOutcome::Evicting
                        } else {
                            assert(views(rooms@) =~= views(old(rooms)@));
                            JoinOutcome::Rejected(e)
                        }
                    },
                }
            },
            JoinRequest::WithUsername { username, password } => {
                if let Err(e) = rooms[i].verify_password(password.as_ref()) {
                    return JoinOutcome::Rejected(e);
                }
                match rooms[i].add_member_with_token(username.clone(), true, token, now) {
                    Ok((name, token)) => {
                        assert(views(rooms@) =~= views(old(rooms)@).update(i as int, rooms@[i as int]@));
                        proof {
                            lemma_update_keeps_ids_unique(views(old(rooms)@), i as int, rooms@[i as int]@);
                        }
                        let members = rooms[i].get_member_list();
                        let session = Session { token: token.clone(), username: name.clone(), is_owner: false };
                        let greeting = vec![
                            WsMessage::JoinedAs { username: name, token, is_owner: false },
                            WsMessage::MemberList { members },
                        ];
                        JoinOutcome::Joined { session, greeting }
                    },
                    Err(e) => {
                        assert(views(rooms@) =~= views(old(rooms)@));
                        JoinOutcome::Rejected(e)
                    },
                }
            },
        }
    }

    /// Attempts a join of the room stored under `id`, drawing a fresh token
    /// for a member who joins by credentials; see `join_room_with_token`.
    pub fn join_room(&mut self, id: &RoomId, request: &JoinRequest, after_eviction: bool) -> (r:
        JoinOutcome)
        ensures
            !has_room(old(self)@, id@) ==> (r matches JoinOutcome::Rejected(ErrorKind::RoomNotFound)
                && final(self)@ == old(self)@),
            has_room(old(self)@, id@) ==> join_effect(
                old(self)@,
                final(self)@,
                room_index(old(self)@, id@),
                *request,
                after_eviction,
                r,
            ),
    {
        let token = random_uuid();
        let now = now_millis();
        let ghost drawn = token@;
        let r = self.join_room_with_token(id, request, after_eviction, token, now);
        proof {
            if has_room(old(self)@, id@) {
                lemma_room_index(old(self)@, id@);
                let i = room_index(old(self)@, id@);
                let v = old(self)@[i];
                if request is WithUsername {
                    let username = request->WithUsername_username;
                    let password = request->WithUsername_password;
                    if password_check(v.password, opt_view(password)) is Ok && assigned_name(
                        v.members,
                        username@,
                    ) is Some {
                        let name = assigned_name(v.members, username@)->0;
                        {
                            if has_token(v.members, drawn) {
                                assert(v.members.len() > 0);
                            } else {
                                assert(self@[i] == v.with_new_member(name, drawn, true, now));
                                assert(self@[i].last_activity == now);
                            }
                        }
                    }
                }
            }
        }
        r
    }

    /// Creates a room named `id` with an optional password, owned by the
    /// holder of `owner_token`, whose creator is its first member, online,
    /// holding `member_token`, as of time `now`. It fails, changing nothing,
    /// exactly when the two tokens are equal.
    pub fn create_room_with(
        &mut self,
        username: Username,
        password: Option<Password>,
        id: RoomId,
        owner_token: String,
        member_token: String,
        now: i64,
    ) -> (r: Result<CreateRoomResponse, ErrorKind>)
        ensures
            r is Ok <==> owner_token@ != member_token@,
            r is Err ==> (r matches Err(ErrorKind::Other { .. }) && final(self)@ == old(self)@),
            r matches Ok(resp) ==> {
                let v = final(self)@[room_index(final(self)@, id@)];
                &&& resp.room_id@ == id@
                &&& resp.owner_token@ == owner_token@
                &&& resp.member_token@ == member_token@
                &&& resp.username@ == username@
                &&& has_room(final(self)@, id@)
                &&& final(self)@ == with_room(old(self)@, v)
                &&& v.id == id@
                &&& v.owner_token == owner_token@
                &&& v.password == opt_view(password)
                &&& v.last_activity == now
                &&& v.members.len() == 1
                &&& v.members[0].username == username@
                &&& v.members[0].token == member_token@
                &&& v.members[0].is_online
            },
    {
        if same_text(owner_token.as_str(), member_token.as_str()) {
            return Err(ErrorKind::Other { message: "Member token already in use".to_owned() });
        }
        let mut room = Room::with_identity(id, owner_token, password, now);
        let ghost empty = room@;
        assert(!name_taken(empty.members, username@));
        assert(!has_token(empty.members, member_token@));
        let (name, member_token) = match room.add_member_with_token(username, true, member_token, now) {
            Ok(pair) => pair,
            Err(e) => {
                return Err(e);
            },
        };
        let room_id = room.id().clone();
        let owner_token = room.owner_token().to_owned();
        let ghost v = room@;
        self.insert(room);
        proof {
            assert(has_room(self@, v.id)) by {
                if has_room(old(self)@, v.id) {
                    let k = room_index(old(self)@, v.id);
                    lemma_room_index(old(self)@, v.id);
                    assert(self@[k].id == v.id);
                } else {
                    assert(self@[self@.len() - 1].id == v.id);
                }
            }
            let k = room_index(self@, v.id);
            lemma_room_index(self@, v.id);
            if has_room(old(self)@, v.id) {
                let j = room_index(old(self)@, v.id);
                lemma_room_index(old(self)@, v.id);
                assert(k == j) by {
                    if k < j {
                        assert(old(self)@[k].id != v.id);
                    } else if k > j {
                        assert(self@[j].id == v.id);
                    }
                }
            } else {
                assert(k == self@.len() - 1) by {
                    if k < self@.len() - 1 {
                        assert(old(self)@[k].id != v.id);
                    }
                }
            }
        }
        Ok(CreateRoomResponse { room_id, owner_token, member_token, username: name })
    }

    /// Creates a room with an optional password, whose creator is its first
    /// member, online, drawing a fresh identifier, owner token and member
    /// token; see `create_room_with`. It fails, changing nothing, only when
    /// the two tokens drawn are equal.
    pub fn create_room(&mut self, username: Username, password: Option<Password>) -> (r: Result<
        CreateRoomResponse,
        ErrorKind,
    >)
        ensures
            r is Err ==> (r matches Err(ErrorKind::Other { .. }) && final(self)@ == old(self)@),
            r matches Ok(resp) ==> {
                let v = final(self)@[room_index(final(self)@, resp.room_id@)];
                &&& canonical_room_id(resp.room_id@)
                &&& has_room(final(self)@, resp.room_id@)
                &&& final(self)@ == with_room(old(self)@, v)
                &&& v.id == resp.room_id@
                &&& v.owner_token == resp.owner_token@
                &&& v.password == opt_view(password)
                &&& v.members.len() == 1
                &&& v.members[0].username == username@
                &&& v.members[0].token == resp.member_token@
                &&& v.members[0].is_online
                &&& resp.owner_token@ != resp.member_token@
                &&& resp.username@ == username@
            },
    {
        let id = RoomId::from_canonical(random_uuid());
        let owner_token = random_uuid();
        let member_token = random_uuid();
        let now = now_millis();
        self.create_room_with(username, password, id, owner_token, member_token, now)
    }
}

} // verus!
