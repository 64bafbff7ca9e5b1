//! A room: its member table, its password, its owner capability, and the
//! events it publishes to the sessions attached to it.
use vstd::prelude::*;
use crate::names::{
    canonical_room_id, valid_username, Password, RoomId, Username, USERNAME_MAX_LEN,
};
use crate::platform::{fixed_time_eq, now_millis, random_uuid};
use crate::protocol::{opt_view, ErrorKind, MemberInfo, WsMessage};
use crate::text::{
    is_ascii_alphanumeric, lemma_text_less_irreflexive, lemma_text_less_total,
    lemma_text_less_transitive, same_text, text_less, text_lt,
};

verus! {

/// Numeric suffixes tried for a taken username run from 1 to one below this.
pub const SUFFIX_LIMIT: u32 = 100;

/// What a room publishes to the sessions attached to it.
#[derive(Debug, Clone)]
pub enum RoomEvent {
    /// A message for every session of the room.
    Broadcast(WsMessage),
    /// The session speaking for `token` must end.
    Kick { token: String },
    /// A message for the session of member `to` alone.
    Direct { to: String, message: WsMessage },
}

/// What a room event says, with names and tokens as text.
pub enum EventView {
    Joined(Seq<char>),
    Left(Seq<char>),
    Evict(Seq<char>),
    Message(WsMessage),
    Direct(Seq<char>, WsMessage),
}

impl View for RoomEvent {
    type V = EventView;

    open spec fn view(&self) -> EventView {
        match self {
            RoomEvent::Broadcast(WsMessage::MemberJoined { username }) => EventView::Joined(
                username@,
            ),
            RoomEvent::Broadcast(WsMessage::MemberLeft { username }) => EventView::Left(
                username@,
            ),
            RoomEvent::Broadcast(m) => EventView::Message(*m),
            RoomEvent::Kick { token } => EventView::Evict(token@),
            RoomEvent::Direct { to, message } => EventView::Direct(to@, *message),
        }
    }
}

pub struct MemberView {
    pub username: Seq<char>,
    pub token: Seq<char>,
    pub is_online: bool,
    pub last_seen: i64,
}

pub struct RoomView {
    pub id: Seq<char>,
    pub owner_token: Seq<char>,
    pub password: Option<Seq<char>>,
    pub members: Seq<MemberView>,
    pub last_activity: i64,
    /// Events published and not yet handed to the sessions, oldest first.
    pub events: Seq<EventView>,
}

pub open spec fn name_taken(ms: Seq<MemberView>, name: Seq<char>) -> bool {
    exists|i: int| 0 <= i < ms.len() && #[trigger] ms[i].username == name
}

pub open spec fn has_token(ms: Seq<MemberView>, token: Seq<char>) -> bool {
    exists|i: int| 0 <= i < ms.len() && #[trigger] ms[i].token == token
}

/// The position of the member holding `token` (tokens are unique in a room).
pub open spec fn token_index(ms: Seq<MemberView>, token: Seq<char>) -> int {
    choose|i: int| 0 <= i < ms.len() && #[trigger] ms[i].token == token
}

/// Members appear in ascending order of their tokens.
pub open spec fn tokens_sorted(ms: Seq<MemberView>) -> bool {
    forall|i: int, j: int|
        0 <= i < j < ms.len() ==> text_less(#[trigger] ms[i].token, #[trigger] ms[j].token)
}

/// How many members hold a token that comes before `token`: where a member
/// holding `token` goes.
pub open spec fn tokens_before(ms: Seq<MemberView>, token: Seq<char>) -> nat
    decreases ms.len(),
{
    if ms.len() == 0 {
        0
    } else {
        tokens_before(ms.drop_last(), token) + if text_less(ms.last().token, token) {
            1nat
        } else {
            0nat
        }
    }
}

pub open spec fn digit_char(d: nat) -> char {
    ((48 + d) as u32) as char
}

/// `n` in decimal notation.
pub open spec fn decimal(n: nat) -> Seq<char>
    decreases n,
{
    if n < 10 {
        seq![digit_char(n)]
    } else {
        decimal(n / 10) + seq![digit_char(n % 10)]
    }
}

pub open spec fn with_suffix(base: Seq<char>, n: nat) -> Seq<char> {
    base + decimal(n)
}

pub open spec fn suffix_free(ms: Seq<MemberView>, base: Seq<char>, n: nat) -> bool {
    valid_username(with_suffix(base, n)) && !name_taken(ms, with_suffix(base, n))
}

/// The first of `base` + n, ..., `base` + 99 that is a valid, free username.
pub open spec fn first_free_suffix(ms: Seq<MemberView>, base: Seq<char>, n: nat) -> Option<
    Seq<char>,
>
    decreases SUFFIX_LIMIT - n,
{
    if n >= SUFFIX_LIMIT {
        None
    } else if suffix_free(ms, base, n) {
        Some(with_suffix(base, n))
    } else {
        first_free_suffix(ms, base, n + 1)
    }
}

/// The username a member asking for `base` is given, if any is left.
pub open spec fn assigned_name(ms: Seq<MemberView>, base: Seq<char>) -> Option<Seq<char>> {
    if !name_taken(ms, base) {
        Some(base)
    } else {
        first_free_suffix(ms, base, 1)
    }
}

/// What a password check answers, given the room's password and the candidate.
pub open spec fn password_check(room: Option<Seq<char>>, candidate: Option<Seq<char>>) -> Result<
    (),
    ErrorKind,
> {
    match (room, candidate) {
        (None, _) => Ok(()),
        (Some(_), None) => Err(ErrorKind::PasswordRequired),
        (Some(p), Some(c)) => if p == c {
            Ok(())
        } else {
            Err(ErrorKind::IncorrectPassword)
        },
    }
}

impl RoomView {
    /// Member tokens are unique, and so are usernames; members are kept in
    /// ascending order of their tokens.
    pub open spec fn well_formed(self) -> bool {
        &&& forall|i: int, j: int|
            0 <= i < self.members.len() && 0 <= j < self.members.len() && i != j ==> {
                &&& #[trigger] self.members[i].token != #[trigger] self.members[j].token
                &&& self.members[i].username != self.members[j].username
            }
        &&& tokens_sorted(self.members)
    }

    pub open spec fn touched(self, now: i64) -> RoomView {
        RoomView { last_activity: now, ..self }
    }

    pub open spec fn announced(self, e: EventView) -> RoomView {
        RoomView { events: self.events.push(e), ..self }
    }

    pub open spec fn with_presence(self, i: int, online: bool, now: i64) -> RoomView {
        RoomView {
            members: self.members.update(
                i,
                MemberView { is_online: online, last_seen: now, ..self.members[i] },
            ),
            ..self
        }
    }

    /// The room after a member `name` with `token` joined at time `now`.
    pub open spec fn with_new_member(
        self,
        name: Seq<char>,
        token: Seq<char>,
        online: bool,
        now: i64,
    ) -> RoomView {
        RoomView {
            members: self.members.insert(
                tokens_before(self.members, token) as int,
                MemberView { username: name, token, is_online: online, last_seen: now },
            ),
            ..self
        }.announced(EventView::Joined(name)).touched(now)
    }

    /// Whether the member holding `token` is online.
    pub open spec fn is_online(self, token: Seq<char>) -> bool {
        has_token(self.members, token) && self.members[token_index(self.members, token)].is_online
    }

    pub open spec fn login_outcome(self, token: Seq<char>) -> Result<Seq<char>, ErrorKind> {
        if !has_token(self.members, token) {
            Err(ErrorKind::TokenNotFound)
        } else if self.is_online(token) {
            Err(ErrorKind::TokenAlreadyInUse)
        } else {
            Ok(self.members[token_index(self.members, token)].username)
        }
    }

    /// The room after a login by `token` at time `now`.
    pub open spec fn after_login(self, token: Seq<char>, now: i64) -> RoomView {
        let i = token_index(self.members, token);
        if self.login_outcome(token) is Ok {
            self.with_presence(i, true, now).announced(
                EventView::Joined(self.members[i].username),
            ).touched(now)
        } else {
            self
        }
    }

    /// The room after the session of `token` was told to end at time `now`.
    pub open spec fn after_force_logout(self, token: Seq<char>, now: i64) -> RoomView {
        let i = token_index(self.members, token);
        if self.is_online(token) {
            self.with_presence(i, false, now).announced(EventView::Evict(token)).announced(
                EventView::Left(self.members[i].username),
            ).touched(now)
        } else {
            self
        }
    }

    /// The room after the session of `token` ended at time `now`.
    pub open spec fn after_disconnect(self, token: Seq<char>, now: i64) -> RoomView {
        let i = token_index(self.members, token);
        if self.is_online(token) {
            self.with_presence(i, false, now).announced(
                EventView::Left(self.members[i].username),
            ).touched(now)
        } else {
            self
        }
    }
}

/// A name given by `first_free_suffix` is valid and free.
pub proof fn lemma_first_free_suffix(ms: Seq<MemberView>, base: Seq<char>, n: nat)
    ensures
        first_free_suffix(ms, base, n) matches Some(x) ==> valid_username(x) && !name_taken(ms, x),
    decreases SUFFIX_LIMIT - n,
{
    if n < SUFFIX_LIMIT && !suffix_free(ms, base, n) {
        lemma_first_free_suffix(ms, base, n + 1);
    }
}

/// A valid username that no member holds is given unchanged.
pub proof fn lemma_free_name_kept(ms: Seq<MemberView>, u: Seq<char>)
    requires
        valid_username(u),
        !name_taken(ms, u),
    ensures
        assigned_name(ms, u) == Some(u),
{
}

proof fn lemma_first_free_suffix_is(ms: Seq<MemberView>, u: Seq<char>, n: nat, k: nat)
    requires
        1 <= n <= k < SUFFIX_LIMIT,
        suffix_free(ms, u, k),
        forall|j: nat| n <= j < k ==> !#[trigger] suffix_free(ms, u, j),
    ensures
        first_free_suffix(ms, u, n) == Some(with_suffix(u, k)),
    decreases k - n,
{
    if n < k {
        assert(!suffix_free(ms, u, n));
        lemma_first_free_suffix_is(ms, u, n + 1, k);
    }
}

proof fn lemma_no_free_suffix(ms: Seq<MemberView>, u: Seq<char>, n: nat)
    requires
        1 <= n,
        forall|j: nat| 1 <= j < SUFFIX_LIMIT ==> !#[trigger] suffix_free(ms, u, j),
    ensures
        first_free_suffix(ms, u, n) is None,
    decreases SUFFIX_LIMIT - n,
{
    if n < SUFFIX_LIMIT {
        assert(!suffix_free(ms, u, n));
        lemma_no_free_suffix(ms, u, n + 1);
    }
}

/// A taken username is given the suffix `k` when `k` is the first of 1 to 99
/// whose suffixed name is valid and free.
pub proof fn lemma_taken_name_suffixed(ms: Seq<MemberView>, u: Seq<char>, k: nat)
    requires
        name_taken(ms, u),
        1 <= k < SUFFIX_LIMIT,
        suffix_free(ms, u, k),
        forall|j: nat| 1 <= j < k ==> !#[trigger] suffix_free(ms, u, j),
    ensures
        assigned_name(ms, u) == Some(with_suffix(u, k)),
{
    lemma_first_free_suffix_is(ms, u, 1, k);
}

/// When a username and all its suffixed names 1 to 99 are taken or invalid,
/// no name is given.
pub proof fn lemma_exhausted_name(ms: Seq<MemberView>, u: Seq<char>)
    requires
        name_taken(ms, u),
        forall|j: nat| 1 <= j < SUFFIX_LIMIT ==> !#[trigger] suffix_free(ms, u, j),
    ensures
        assigned_name(ms, u) is None,
{
    lemma_no_free_suffix(ms, u, 1);
}

/// In a well-formed room the member holding a token is found where it is.
proof fn lemma_token_index_is(v: RoomView, token: Seq<char>, i: int)
    requires
        v.well_formed(),
        0 <= i < v.members.len(),
        v.members[i].token == token,
    ensures
        has_token(v.members, token),
        token_index(v.members, token) == i,
{
    let k = token_index(v.members, token);
    assert(v.members[k].token == token);
    if k != i {
        assert(v.members[k].token != v.members[i].token);
    }
}

/// Changing whether a member is online keeps a room well formed.
proof fn lemma_presence_keeps_well_formed(v: RoomView, i: int, online: bool, now: i64)
    requires
        v.well_formed(),
        0 <= i < v.members.len(),
    ensures
        v.with_presence(i, online, now).well_formed(),
        v.with_presence(i, online, now).members[i].token == v.members[i].token,
{
    let w = v.with_presence(i, online, now);
    assert forall|a: int, b: int|
        0 <= a < w.members.len() && 0 <= b < w.members.len() && a != b implies #[trigger] w.members[a].token
        != #[trigger] w.members[b].token && w.members[a].username != w.members[b].username by {
        assert(w.members[a].token == v.members[a].token);
        assert(w.members[b].token == v.members[b].token);
        assert(w.members[a].username == v.members[a].username);
        assert(w.members[b].username == v.members[b].username);
    }
    assert forall|a: int, b: int| 0 <= a < b < w.members.len() implies text_less(
        #[trigger] w.members[a].token,
        #[trigger] w.members[b].token,
    ) by {
        assert(w.members[a].token == v.members[a].token);
        assert(w.members[b].token == v.members[b].token);
    }
}

/// Reconnection. While the member holding `token` is online, a login with
/// the token is refused as in use; the old session is told to end, and the
/// member goes offline with a `MemberLeft`. The end of the old session then
/// changes nothing, and the login tried again succeeds, its `MemberJoined`
/// coming after that `MemberLeft`. The token is held by one member record
/// throughout, so it is never online twice.
pub proof fn lemma_reconnect_serialized(v: RoomView, token: Seq<char>, t1: i64, t2: i64, t3: i64)
    requires
        v.well_formed(),
        v.is_online(token),
    ensures
        ({
            let name = v.members[token_index(v.members, token)].username;
            let evicted = v.after_force_logout(token, t1);
            let ended = evicted.after_disconnect(token, t2);
            let back = ended.after_login(token, t3);
            &&& v.login_outcome(token) == Err::<Seq<char>, ErrorKind>(ErrorKind::TokenAlreadyInUse)
            &&& evicted.well_formed() && !evicted.is_online(token)
            &&& ended == evicted
            &&& ended.login_outcome(token) == Ok::<Seq<char>, ErrorKind>(name)
            &&& back.well_formed() && back.is_online(token)
            &&& back.members.len() == v.members.len()
            &&& back.events == v.events + seq![
                EventView::Evict(token),
                EventView::Left(name),
                EventView::Joined(name),
            ]
        }),
{
    let i = token_index(v.members, token);
    let name = v.members[i].username;
    let evicted = v.after_force_logout(token, t1);
    lemma_presence_keeps_well_formed(v, i, false, t1);
    lemma_token_index_is(evicted, token, i);
    let ended = evicted.after_disconnect(token, t2);
    assert(ended == evicted);
    let back = ended.after_login(token, t3);
    lemma_presence_keeps_well_formed(ended, i, true, t3);
    lemma_token_index_is(back, token, i);
    assert(back.events =~= v.events + seq![
        EventView::Evict(token),
        EventView::Left(name),
        EventView::Joined(name),
    ]);
}

/// In members sorted by token, those before `token` come first.
pub proof fn lemma_tokens_before(ms: Seq<MemberView>, token: Seq<char>)
    requires
        tokens_sorted(ms),
    ensures
        tokens_before(ms, token) <= ms.len(),
        forall|k: int| 0 <= k < tokens_before(ms, token) ==> text_less(#[trigger] ms[k].token, token),
        forall|k: int|
            tokens_before(ms, token) <= k < ms.len() ==> !text_less(#[trigger] ms[k].token, token),
    decreases ms.len(),
{
    if ms.len() > 0 {
        let rest = ms.drop_last();
        assert forall|i: int, j: int| 0 <= i < j < rest.len() implies text_less(
            #[trigger] rest[i].token,
            #[trigger] rest[j].token,
        ) by {
            assert(rest[i] == ms[i] && rest[j] == ms[j]);
        }
        lemma_tokens_before(rest, token);
        let p = tokens_before(rest, token);
        let n = ms.len() - 1;
        assert(ms.last() == ms[n]);
        if text_less(ms[n].token, token) {
            assert(p == n) by {
                if p < n {
                    assert(rest[p as int] == ms[p as int]);
                    assert(text_less(ms[p as int].token, ms[n].token));
                    lemma_text_less_transitive(ms[p as int].token, ms[n].token, token);
                }
            }
            assert forall|k: int| 0 <= k < tokens_before(ms, token) implies text_less(
                #[trigger] ms[k].token,
                token,
            ) by {
                if k < n {
                    assert(rest[k] == ms[k]);
                }
            }
        } else {
            assert forall|k: int| 0 <= k < tokens_before(ms, token) implies text_less(
                #[trigger] ms[k].token,
                token,
            ) by {
                assert(rest[k] == ms[k]);
            }
            assert forall|k: int| tokens_before(ms, token) <= k < ms.len() implies !text_less(
                #[trigger] ms[k].token,
                token,
            ) by {
                if k < n {
                    assert(rest[k] == ms[k]);
                }
            }
        }
    }
}

/// Adding a member whose name and token are both new, at the place of its
/// token, keeps a room well formed.
proof fn lemma_insert_member(v: RoomView, m: MemberView)
    requires
        v.well_formed(),
        !name_taken(v.members, m.username),
        !has_token(v.members, m.token),
    ensures
        (RoomView {
            members: v.members.insert(tokens_before(v.members, m.token) as int, m),
            ..v
        }).well_formed(),
{
    lemma_tokens_before(v.members, m.token);
    let p = tokens_before(v.members, m.token) as int;
    let ms = v.members.insert(p, m);
    assert forall|i: int| 0 <= i < ms.len() implies (#[trigger] ms[i]) == (if i < p {
        v.members[i]
    } else if i == p {
        m
    } else {
        v.members[i - 1]
    }) by {}
    assert forall|i: int, j: int|
        0 <= i < ms.len() && 0 <= j < ms.len() && i != j implies #[trigger] ms[i].token
        != #[trigger] ms[j].token && ms[i].username != ms[j].username by {
        let i0 = if i < p { i } else { i - 1 };
        let j0 = if j < p { j } else { j - 1 };
        if i != p && j != p {
            assert(ms[i] == v.members[i0] && ms[j] == v.members[j0]);
        } else if i == p {
            assert(ms[j] == v.members[j0]);
            assert(v.members[j0].token != m.token);
            assert(v.members[j0].username != m.username);
        } else {
            assert(ms[i] == v.members[i0]);
            assert(v.members[i0].token != m.token);
            assert(v.members[i0].username != m.username);
        }
    }
    assert forall|i: int, j: int| 0 <= i < j < ms.len() implies text_less(
        #[trigger] ms[i].token,
        #[trigger] ms[j].token,
    ) by {
        if j < p {
            assert(ms[i] == v.members[i] && ms[j] == v.members[j]);
        } else if j == p {
            assert(ms[i] == v.members[i]);
        } else if i < p {
            assert(ms[i] == v.members[i] && ms[j] == v.members[j - 1]);
        } else if i == p {
            assert(ms[j] == v.members[j - 1]);
            assert(v.members[j - 1].token != m.token);
            lemma_text_less_total(m.token, v.members[j - 1].token);
        } else {
            assert(ms[i] == v.members[i - 1] && ms[j] == v.members[j - 1]);
        }
    }
}

/// Decimal digits are ASCII letters or digits.
proof fn lemma_decimal_alphanumeric(n: nat)
    ensures
        forall|i: int| 0 <= i < decimal(n).len() ==> is_ascii_alphanumeric(#[trigger] decimal(n)[i]),
    decreases n,
{
    if n >= 10 {
        lemma_decimal_alphanumeric(n / 10);
        assert forall|i: int| 0 <= i < decimal(n).len() implies is_ascii_alphanumeric(
            #[trigger] decimal(n)[i],
        ) by {
            if i < decimal(n / 10).len() {
                assert(decimal(n)[i] == decimal(n / 10)[i]);
            }
        }
    }
}

/// The text of one decimal digit.
fn digit_text(d: u32) -> (r: &'static str)
    requires
        d < 10,
    ensures
        r@ == seq![digit_char(d as nat)],
{
    proof {
        reveal_strlit("0");
        reveal_strlit("1");
        reveal_strlit("2");
        reveal_strlit("3");
        reveal_strlit("4");
        reveal_strlit("5");
        reveal_strlit("6");
        reveal_strlit("7");
        reveal_strlit("8");
        reveal_strlit("9");
    }
    let r = if d == 0 {
        "0"
    } else if d == 1 {
        "1"
    } else if d == 2 {
        "2"
    } else if d == 3 {
        "3"
    } else if d == 4 {
        "4"
    } else if d == 5 {
        "5"
    } else if d == 6 {
        "6"
    } else if d == 7 {
        "7"
    } else if d == 8 {
        "8"
    } else {
        "9"
    };
    assert(r@ =~= seq![digit_char(d as nat)]);
    r
}

/// `n` in decimal notation, for a suffix.
fn decimal_text(n: u32) -> (r: String)
    requires
        1 <= n < SUFFIX_LIMIT,
    ensures
        r@ == decimal(n as nat),
{
    if n < 10 {
        digit_text(n).to_owned()
    } else {
        let mut r = digit_text(n / 10).to_owned();
        r.append(digit_text(n % 10));
        assert(decimal((n / 10) as nat) == seq![digit_char((n / 10) as nat)]);
        r
    }
}

} // verus!

verus! {

/// A participant of a room, known durably by its token.
#[derive(Debug)]
pub struct Member {
    username: Username,
    token: String,
    last_seen: i64,
    is_online: bool,
}

impl View for Member {
    type V = MemberView;

    closed spec fn view(&self) -> MemberView {
        MemberView {
            username: self.username@,
            token: self.token@,
            is_online: self.is_online,
            last_seen: self.last_seen,
        }
    }
}

impl Member {
    /// A member with a fresh random token.
    pub fn new(username: Username, is_online: bool) -> (r: Member)
        ensures
            r@.username == username@,
            r@.is_online == is_online,
            canonical_room_id(r@.token),
    {
        Member { username, token: random_uuid(), is_online, last_seen: now_millis() }
    }

    /// The member's row in a member list.
    pub fn to_info(&self) -> (r: MemberInfo)
        ensures
            r.username@ == self@.username,
            r.is_online == self@.is_online,
    {
        MemberInfo { username: self.username.clone(), is_online: self.is_online }
    }

    /// Marks the member online or offline, as seen now.
    pub fn set_online(&mut self, online: bool)
        ensures
            final(self)@ == (MemberView {
                is_online: online,
                last_seen: final(self)@.last_seen,
                ..old(self)@
            }),
    {
        self.is_online = online;
        self.last_seen = now_millis();
    }

    pub fn username(&self) -> (r: &Username)
        ensures
            r@ == self@.username,
    {
        &self.username
    }

    pub fn token(&self) -> (r: &str)
        ensures
            r@ == self@.token,
    {
        self.token.as_str()
    }

    pub fn is_online(&self) -> (r: bool)
        ensures
            r == self@.is_online,
    {
        self.is_online
    }
}

/// A room: its members, its password, its owner capability, its last
/// activity, and the events published to its sessions and not yet handed on.
#[derive(Debug)]
pub struct Room {
    id: RoomId,
    owner_token: String,
    password: Option<Password>,
    members: Vec<Member>,
    last_activity: i64,
    events: Vec<RoomEvent>,
}

impl View for Room {
    type V = RoomView;

    closed spec fn view(&self) -> RoomView {
        RoomView {
            id: self.id@,
            owner_token: self.owner_token@,
            password: opt_view(self.password),
            members: self.members@.map_values(|m: Member| m@),
            last_activity: self.last_activity,
            events: self.events@.map_values(|e: RoomEvent| e@),
        }
    }
}

impl Room {
    #[verifier::type_invariant]
    spec fn inv(&self) -> bool {
        self@.well_formed()
    }

    /// Every room keeps its tokens and usernames unique.
    pub fn is_well_formed(&self) -> (r: bool)
        ensures
            r,
            self@.well_formed(),
    {
        proof {
            use_type_invariant(self);
        }
        true
    }

    /// An empty room with a fresh identifier and owner token.
    pub fn new(password: Option<Password>) -> (r: Room)
        ensures
            canonical_room_id(r@.id),
            canonical_room_id(r@.owner_token),
            r@.password == opt_view(password),
            r@.members.len() == 0,
            r@.events.len() == 0,
    {
        let id = RoomId::from_canonical(random_uuid());
        let owner_token = random_uuid();
        let now = now_millis();
        Room::with_identity(id, owner_token, password, now)
    }

    /// An empty room named `id`, owned by the holder of `owner_token`, last
    /// active at `now`.
    pub fn with_identity(id: RoomId, owner_token: String, password: Option<Password>, now: i64) -> (r:
        Room)
        ensures
            r@ == (RoomView {
                id: id@,
                owner_token: owner_token@,
                password: opt_view(password),
                members: Seq::empty(),
                last_activity: now,
                events: Seq::empty(),
            }),
    {
        let room = Room {
            id,
            owner_token,
            password,
            members: Vec::new(),
            last_activity: now,
            events: Vec::new(),
        };
        assert(room@.members =~= Seq::empty());
        assert(room@.events =~= Seq::empty());
        room
    }

    pub fn id(&self) -> (r: &RoomId)
        ensures
            r@ == self@.id,
    {
        &self.id
    }

    pub fn owner_token(&self) -> (r: &str)
        ensures
            r@ == self@.owner_token,
    {
        self.owner_token.as_str()
    }

    pub fn last_activity(&self) -> (r: i64)
        ensures
            r == self@.last_activity,
    {
        self.last_activity
    }

    /// Whether the room has a password.
    pub fn has_password(&self) -> (r: bool)
        ensures
            r == self@.password is Some,
    {
        self.password.is_some()
    }

    /// Checks a candidate password against the room's, comparing in fixed time.
    pub fn verify_password(&self, password: Option<&Password>) -> (r: Result<(), ErrorKind>)
        ensures
            r == password_check(self@.password, opt_view(password)),
    {
        match (&self.password, password) {
            (None, _) => Ok(()),
            (Some(_), None) => Err(ErrorKind::PasswordRequired),
            (Some(room_pass), Some(provided)) => {
                if fixed_time_eq(room_pass.as_str(), provided.as_str()) {
                    Ok(())
                } else {
                    Err(ErrorKind::IncorrectPassword)
                }
            },
        }
    }

    /// Records activity now.
    pub fn touch(&mut self)
        ensures
            final(self)@ == old(self)@.touched(final(self)@.last_activity),
    {
        proof {
            use_type_invariant(&*self);
        }
        let now = now_millis();
        self.set_last_activity(now);
    }

    fn set_last_activity(&mut self, now: i64)
        ensures
            final(self)@ == old(self)@.touched(now),
    {
        proof {
            use_type_invariant(&*self);
        }
        // Naming the members lets the invariant check after the write see them unchanged.
        let ghost ms = self@.members;
        self.last_activity = now;
        assert(self@.members == ms);
    }

    /// Marks member `i` online or offline as of `now`.
    fn set_presence(&mut self, i: usize, online: bool, now: i64)
        requires
            i < old(self)@.members.len(),
        ensures
            final(self)@ == old(self)@.with_presence(i as int, online, now),
    {
        proof {
            use_type_invariant(&*self);
        }
        let ghost before = self@;
        let mut members: Vec<Member> = Vec::new();
        std::mem::swap(&mut members, &mut self.members);
        assert(self@.members =~= Seq::<MemberView>::empty());
        members[i].is_online = online;
        members[i].last_seen = now;
        assert(members@.map_values(|m: Member| m@) =~= before.with_presence(
            i as int,
            online,
            now,
        ).members);
        proof {
            lemma_presence_keeps_well_formed(before, i as int, online, now);
        }
        std::mem::swap(&mut members, &mut self.members);
        assert(self@.members =~= before.with_presence(i as int, online, now).members);
    }

    fn publish(&mut self, event: RoomEvent)
        ensures
            final(self)@ == old(self)@.announced(event@),
    {
        proof {
            use_type_invariant(&*self);
        }
        let ghost before = self@;
        // Naming the members lets the invariant check after the write see them unchanged.
        let ghost ms = self@.members;
        assert(before.well_formed());
        let mut events: Vec<RoomEvent> = Vec::new();
        std::mem::swap(&mut events, &mut self.events);
        events.push(event);
        std::mem::swap(&mut events, &mut self.events);
        assert(self@.events =~= before.events.push(event@));
        assert(self@.members =~= before.members);
    }

    /// Adds a member asking for `requested_username`, holding `token`, at time
    /// `now`. The name is kept if free, else the first free of the name with a
    /// suffix 1 to 99 that is still a valid username is given.
    pub fn add_member_with_token(
        &mut self,
        requested_username: Username,
        is_online: bool,
        token: String,
        now: i64,
    ) -> (r: Result<(Username, String), ErrorKind>)
        ensures
            match r {
                Ok((u, t)) => assigned_name(old(self)@.members, requested_username@) == Some(u@)
                    && t@ == token@ && !has_token(old(self)@.members, token@) && final(self)@
                    == old(self)@.with_new_member(u@, token@, is_online, now),
                Err(ErrorKind::UsernameTaken) => assigned_name(
                    old(self)@.members,
                    requested_username@,
                ) is None && final(self)@ == old(self)@,
                Err(ErrorKind::Other { .. }) => assigned_name(
                    old(self)@.members,
                    requested_username@,
                ) is Some && has_token(old(self)@.members, token@) && final(self)@ == old(self)@,
                Err(_) => false,
            },
    {
        proof {
            use_type_invariant(&*self);
        }
        let name = match self.generate_unique_username(&requested_username) {
            Some(name) => name,
            None => {
                return Err(ErrorKind::UsernameTaken);
            },
        };
        if self.token_position(token.as_str()).is_some() {
            return Err(ErrorKind::Other { message: "Member token already in use".to_owned() });
        }
        let ghost before = self@;
        let member = Member {
            username: name.clone(),
            token: token.clone(),
            last_seen: now,
            is_online,
        };
        proof {
            if !name_taken(before.members, requested_username@) {
                assert(name@ == requested_username@);
            } else {
                lemma_first_free_suffix(before.members, requested_username@, 1);
            }
            lemma_insert_member(before, member@);
            lemma_tokens_before(before.members, token@);
        }
        let place = self.token_rank(token.as_str());
        let ghost target = before.members.insert(place as int, member@);
        let mut members: Vec<Member> = Vec::new();
        std::mem::swap(&mut members, &mut self.members);
        assert(self@.members =~= Seq::<MemberView>::empty());
        assert(members@.len() == before.members.len());
        members.insert(place, member);
        assert(members@.map_values(|m: Member| m@) =~= target);
        std::mem::swap(&mut members, &mut self.members);
        assert(self@.members =~= target);
        self.publish(RoomEvent::Broadcast(WsMessage::MemberJoined { username: name.clone() }));
        self.set_last_activity(now);
        Ok((name, token))
    }

    /// Adds a member asking for `requested_username`, with a fresh random
    /// token, as of now; see `add_member_with_token`. Besides `UsernameTaken`,
    /// it can fail only with `Other`, when the token drawn is already held by a
    /// member, which needs a member to exist.
    pub fn add_member(&mut self, requested_username: Username, is_online: bool) -> (r: Result<
        (Username, String),
        ErrorKind,
    >)
        ensures
            match r {
                Ok((u, t)) => assigned_name(old(self)@.members, requested_username@) == Some(u@)
                    && !has_token(old(self)@.members, t@) && final(self)@ == old(
                    self,
                )@.with_new_member(u@, t@, is_online, final(self)@.last_activity),
                Err(ErrorKind::UsernameTaken) => assigned_name(
                    old(self)@.members,
                    requested_username@,
                ) is None && final(self)@ == old(self)@,
                Err(ErrorKind::Other { .. }) => assigned_name(
                    old(self)@.members,
                    requested_username@,
                ) is Some && old(self)@.members.len() > 0 && final(self)@ == old(self)@,
                Err(_) => false,
            },
    {
        let token = random_uuid();
        let now = now_millis();
        self.add_member_with_token(requested_username, is_online, token, now)
    }

    /// Brings back the member holding `token`, who must be offline.
    pub fn login_member(&mut self, token: &str) -> (r: Result<Username, ErrorKind>)
        ensures
            final(self)@ == old(self)@.after_login(token@, final(self)@.last_activity),
            match r {
                Ok(u) => old(self)@.login_outcome(token@) == Ok::<Seq<char>, ErrorKind>(u@),
                Err(e) => old(self)@.login_outcome(token@) == Err::<Seq<char>, ErrorKind>(e),
            },
    {
        let i = match self.token_position(token) {
            Some(i) => i,
            None => {
                return Err(ErrorKind::TokenNotFound);
            },
        };
        if self.members[i].is_online {
            return Err(ErrorKind::TokenAlreadyInUse);
        }
        let username = self.members[i].username.clone();
        assert(username@ == self@.members[i as int].username);
        let now = now_millis();
        self.set_presence(i, true, now);
        self.publish(RoomEvent::Broadcast(WsMessage::MemberJoined { username: username.clone() }));
        self.set_last_activity(now);
        Ok(username)
    }

    /// Marks the online member holding `token` offline and tells its session
    /// to end. Returns whether it did; nothing changes for an offline or
    /// unknown token.
    pub fn force_logout_member(&mut self, token: &str) -> (r: bool)
        ensures
            r == old(self)@.is_online(token@),
            final(self)@ == old(self)@.after_force_logout(token@, final(self)@.last_activity),
    {
        let i = match self.token_position(token) {
            Some(i) => i,
            None => {
                return false;
            },
        };
        if !self.members[i].is_online {
            return false;
        }
        let username = self.members[i].username.clone();
        assert(username@ == self@.members[i as int].username);
        let now = now_millis();
        self.set_presence(i, false, now);
        self.publish(RoomEvent::Kick { token: token.to_owned() });
        self.publish(RoomEvent::Broadcast(WsMessage::MemberLeft { username }));
        self.set_last_activity(now);
        true
    }

    /// The session of `token` ended: an online member goes offline. Nothing
    /// changes for an offline or unknown token.
    pub fn on_disconnect(&mut self, token: &str)
        ensures
            final(self)@ == old(self)@.after_disconnect(token@, final(self)@.last_activity),
    {
        let i = match self.token_position(token) {
            Some(i) => i,
            None => {
                return ;
            },
        };
        if !self.members[i].is_online {
            return ;
        }
        let username = self.members[i].username.clone();
        assert(username@ == self@.members[i as int].username);
        let now = now_millis();
        self.set_presence(i, false, now);
        self.publish(RoomEvent::Broadcast(WsMessage::MemberLeft { username }));
        self.set_last_activity(now);
    }

    /// All members, in ascending order of their tokens.
    pub fn get_member_list(&self) -> (r: Vec<MemberInfo>)
        ensures
            tokens_sorted(self@.members),
            r@.len() == self@.members.len(),
            forall|i: int|
                0 <= i < r@.len() ==> (#[trigger] r@[i]).username@ == self@.members[i].username
                    && r@[i].is_online == self@.members[i].is_online,
    {
        proof {
            use_type_invariant(self);
        }
        let mut list: Vec<MemberInfo> = Vec::new();
        let mut i: usize = 0;
        while i < self.members.len()
            invariant
                i <= self.members@.len(),
                list@.len() == i,
                forall|j: int|
                    0 <= j < i ==> (#[trigger] list@[j]).username@ == self@.members[j].username
                        && list@[j].is_online == self@.members[j].is_online,
            decreases self.members@.len() - i,
        {
            list.push(self.members[i].to_info());
            i += 1;
        }
        list
    }

    /// Whether `token` is the room's owner token.
    pub fn is_owner(&self, token: &str) -> (r: bool)
        ensures
            r == (self@.owner_token == token@),
    {
        same_text(self.owner_token.as_str(), token)
    }

    /// Publishes an event to the sessions of the room.
    pub fn broadcast(&mut self, event: RoomEvent)
        ensures
            final(self)@ == old(self)@.announced(event@),
    {
        self.publish(event);
    }

    /// Hands over the events published so far, oldest first, and forgets them.
    pub fn take_events(&mut self) -> (r: Vec<RoomEvent>)
        ensures
            r@.map_values(|e: RoomEvent| e@) == old(self)@.events,
            final(self)@ == (RoomView { events: Seq::empty(), ..old(self)@ }),
    {
        proof {
            use_type_invariant(&*self);
        }
        let ghost before = self@;
        // Naming the members lets the invariant check after the write see them unchanged.
        let ghost ms = self@.members;
        assert(before.well_formed());
        let mut taken: Vec<RoomEvent> = Vec::new();
        std::mem::swap(&mut taken, &mut self.events);
        assert(self@.events =~= Seq::empty());
        assert(self@.members =~= before.members);
        taken
    }

    /// Whether a member of the room has this username.
    fn is_username_taken(&self, username: &Username) -> (r: bool)
        ensures
            r == name_taken(self@.members, username@),
    {
        let mut i: usize = 0;
        while i < self.members.len()
            invariant
                i <= self.members@.len(),
                forall|j: int| 0 <= j < i ==> #[trigger] self@.members[j].username != username@,
            decreases self.members@.len() - i,
        {
            if self.members[i].username.same_as(username) {
                assert(self@.members[i as int].username == username@);
                return true;
            }
            i += 1;
        }
        false
    }

    /// Where a member holding `token` goes among the members, by token order.
    fn token_rank(&self, token: &str) -> (r: usize)
        ensures
            r == tokens_before(self@.members, token@),
    {
        proof {
            use_type_invariant(self);
            lemma_tokens_before(self@.members, token@);
        }
        let mut j: usize = 0;
        let mut found = false;
        while !found && j < self.members.len()
            invariant
                j <= self.members@.len(),
                self@.well_formed(),
                forall|k: int| 0 <= k < j ==> text_less(#[trigger] self@.members[k].token, token@),
                found ==> j < self.members@.len() && !text_less(self@.members[j as int].token, token@),
            decreases self.members@.len() - j + if found {
                0int
            } else {
                1int
            },
        {
            if text_lt(self.members[j].token.as_str(), token) {
                j += 1;
            } else {
                found = true;
            }
        }
        proof {
            let ms = self@.members;
            let p = tokens_before(ms, token@) as int;
            if (j as int) < p {
                assert(text_less(ms[j as int].token, token@));
            } else if (j as int) > p {
                assert(text_less(ms[p].token, token@));
            }
        }
        j
    }

    /// The position of the member holding `token`.
    fn token_position(&self, token: &str) -> (r: Option<usize>)
        ensures
            r is None <==> !has_token(self@.members, token@),
            r matches Some(i) ==> i == token_index(self@.members, token@) && i
                < self@.members.len(),
    {
        proof {
            use_type_invariant(self);
        }
        let mut i: usize = 0;
        while i < self.members.len()
            invariant
                i <= self.members@.len(),
                self@.well_formed(),
                forall|j: int| 0 <= j < i ==> #[trigger] self@.members[j].token != token@,
            decreases self.members@.len() - i,
        {
            if same_text(self.members[i].token.as_str(), token) {
                proof {
                    let ms = self@.members;
                    assert(ms[i as int].token == token@);
                    let k = token_index(ms, token@);
                    assert(ms[k].token == token@);

                    assert(k == i as int) by {
                        if k != i as int {
                            assert(ms[k].token != ms[i as int].token);
                        }
                    }
                }
                return Some(i);
            }
            i += 1;
        }
        None
    }

    /// The username for a member asking for `base`: `base` itself if free,
    /// else the first free of `base`1 to `base`99 that is a valid username.
    fn generate_unique_username(&self, base: &Username) -> (r: Option<Username>)
        ensures
            opt_view(r) == assigned_name(self@.members, base@),
    {
        if !self.is_username_taken(base) {
            return Some(base.clone());
        }
        let base_text = base.as_str();
        let base_len = base_text.unicode_len();
        let mut counter: u32 = 1;
        while counter < SUFFIX_LIMIT
            invariant
                1 <= counter <= SUFFIX_LIMIT,
                base_text@ == base@,
                base_len == base@.len(),
                valid_username(base@),
                name_taken(self@.members, base@),
                first_free_suffix(self@.members, base@, 1) == first_free_suffix(
                    self@.members,
                    base@,
                    counter as nat,
                ),
            decreases SUFFIX_LIMIT - counter,
        {
            let digits = decimal_text(counter);
            let digits_len = digits.as_str().unicode_len();
            let ghost name = with_suffix(base@, counter as nat);
            if digits_len <= USERNAME_MAX_LEN - base_len {
                let mut text = base_text.to_owned();
                text.append(digits.as_str());
                proof {
                    lemma_decimal_alphanumeric(counter as nat);
                    assert(text@ =~= name);
                    assert forall|i: int| 0 <= i < name.len() implies is_ascii_alphanumeric(
                        #[trigger] name[i],
                    ) by {
                        if i >= base@.len() {
                            assert(name[i] == decimal(counter as nat)[i - base@.len()]);
                        }
                    }
                }
                let candidate = Username::from_valid(text);
                if !self.is_username_taken(&candidate) {
                    return Some(candidate);
                }
            }
            counter += 1;
        }
        None
    }
}

impl Default for Room {
    fn default() -> (r: Room)
        ensures
            r@.password is None,
            r@.members.len() == 0,
            r@.events.len() == 0,
    {
        Room::new(None)
    }
}

} // verus!
