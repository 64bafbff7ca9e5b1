//! Validated names: room identifiers, usernames and room passwords.
use vstd::prelude::*;
use std::str::FromStr;
pub use crate::text::trimmed;
use crate::text::{
    ascii_lower, ascii_lowercase, char_is_alphanumeric, char_is_hexdigit, is_ascii_alphanumeric,
    is_ascii_hexdigit, to_ascii_lowercase, trim,
};

verus! {

pub const USERNAME_MIN_LEN: usize = 2;

pub const USERNAME_MAX_LEN: usize = 32;

pub const PASSWORD_MIN_LEN: usize = 4;

pub const PASSWORD_MAX_LEN: usize = 64;

pub const ROOM_ID_LEN: usize = 36;

/// 2 to 32 characters, ASCII letters and digits only.
pub open spec fn valid_username(s: Seq<char>) -> bool {
    USERNAME_MIN_LEN <= s.len() <= USERNAME_MAX_LEN && forall|i: int|
        0 <= i < s.len() ==> is_ascii_alphanumeric(#[trigger] s[i])
}

/// Why the (already trimmed) text `t` is no username.
pub open spec fn username_error(t: Seq<char>) -> Seq<char> {
    if t.len() < USERNAME_MIN_LEN {
        "Username must be at least 2 characters"@
    } else if t.len() > USERNAME_MAX_LEN {
        "Username must be at most 32 characters"@
    } else {
        "Username must contain only letters and numbers"@
    }
}

/// 4 to 64 characters of any kind.
pub open spec fn valid_password(s: Seq<char>) -> bool {
    PASSWORD_MIN_LEN <= s.len() <= PASSWORD_MAX_LEN
}

pub open spec fn password_error(s: Seq<char>) -> Seq<char> {
    if s.len() < PASSWORD_MIN_LEN {
        "Password must be at least 4 characters"@
    } else {
        "Password must be at most 64 characters"@
    }
}

pub open spec fn is_hyphen_position(i: int) -> bool {
    i == 8 || i == 13 || i == 18 || i == 23
}

/// Hexadecimal digits grouped 8-4-4-4-12 by hyphens, in either case.
pub open spec fn room_id_shaped(s: Seq<char>) -> bool {
    s.len() == ROOM_ID_LEN && forall|i: int|
        0 <= i < s.len() ==> if is_hyphen_position(i) {
            #[trigger] s[i] == '-'
        } else {
            is_ascii_hexdigit(s[i])
        }
}

/// The normalized form of a room identifier: shaped, with lower-case digits.
pub open spec fn canonical_room_id(s: Seq<char>) -> bool {
    room_id_shaped(s) && forall|i: int| 0 <= i < s.len() ==> ascii_lower(#[trigger] s[i]) == s[i]
}

pub open spec fn room_id_error() -> Seq<char> {
    "Invalid room ID format"@
}

/// Whether every character of `t` is an ASCII letter or digit.
fn all_alphanumeric(t: &str) -> (r: bool)
    ensures
        r == forall|i: int| 0 <= i < t@.len() ==> is_ascii_alphanumeric(#[trigger] t@[i]),
{
    let n = t.unicode_len();
    let mut i: usize = 0;
    while i < n
        invariant
            n == t@.len(),
            i <= n,
            forall|j: int| 0 <= j < i ==> is_ascii_alphanumeric(#[trigger] t@[j]),
        decreases n - i,
    {
        if !char_is_alphanumeric(t.get_char(i)) {
            return false;
        }
        i += 1;
    }
    true
}

/// Whether `t` has the 8-4-4-4-12 shape of a room identifier.
fn is_room_id_shaped(t: &str) -> (r: bool)
    ensures
        r == room_id_shaped(t@),
{
    let n = t.unicode_len();
    if n != ROOM_ID_LEN {
        return false;
    }
    let mut i: usize = 0;
    while i < n
        invariant
            n == t@.len() == ROOM_ID_LEN,
            i <= n,
            forall|j: int|
                0 <= j < i ==> if is_hyphen_position(j) {
                    #[trigger] t@[j] == '-'
                } else {
                    is_ascii_hexdigit(t@[j])
                },
        decreases n - i,
    {
        let c = t.get_char(i);
        let ok = if i == 8 || i == 13 || i == 18 || i == 23 {
            c == '-'
        } else {
            char_is_hexdigit(c)
        };
        if !ok {
            assert(!(if is_hyphen_position(i as int) {
                t@[i as int] == '-'
            } else {
                is_ascii_hexdigit(t@[i as int])
            }));
            return false;
        }
        i += 1;
    }
    true
}

/// A username: 2 to 32 ASCII letters and digits, unique within its room.
#[derive(Debug, PartialEq, Eq, Hash)]
pub struct Username(String);

impl View for Username {
    type V = Seq<char>;

    closed spec fn view(&self) -> Seq<char> {
        self.0@
    }
}

impl Username {
    #[verifier::type_invariant]
    spec fn inv(&self) -> bool {
        valid_username(self.0@)
    }


    pub(crate) fn from_valid(s: String) -> (r: Username)
        requires
            valid_username(s@),
        ensures
            r@ == s@,
    {
        Username(s)
    }

    /// Reads a username from `s`, ignoring white space at either end.
    pub fn parse(s: &str) -> (r: Result<Username, UsernameError>)
        ensures
            r is Ok <==> valid_username(trimmed(s@)),
            r matches Ok(u) ==> u@ == trimmed(s@),
            r matches Err(e) ==> e@ == username_error(trimmed(s@)),
    {
        let t = trim(s);
        let n = t.unicode_len();
        if n < USERNAME_MIN_LEN {
            return Err(UsernameError("Username must be at least 2 characters".to_owned()));
        }
        if n > USERNAME_MAX_LEN {
            return Err(UsernameError("Username must be at most 32 characters".to_owned()));
        }
        if !all_alphanumeric(t) {
            return Err(
                UsernameError("Username must contain only letters and numbers".to_owned()),
            );
        }
        Ok(Username(t.to_owned()))
    }

    /// The username as a string slice.
    pub fn as_str(&self) -> (r: &str)
        ensures
            r@ == self@,
            valid_username(r@),
    {
        proof {
            use_type_invariant(self);
        }
        self.0.as_str()
    }

    /// The username as an owned string.
    pub fn into_inner(self) -> (r: String)
        ensures
            r@ == self@,
    {
        self.0
    }

    /// The username as text.
    pub fn to_string(&self) -> (r: String)
        ensures
            r@ == self@,
    {
        self.0.clone()
    }

    /// Whether this username and `other` are the same text.
    pub fn same_as(&self, other: &Username) -> (r: bool)
        ensures
            r == (self@ == other@),
    {
        self.0 == other.0
    }
}

impl Clone for Username {
    fn clone(&self) -> (r: Self)
        ensures
            r == *self,
    {
        proof {
            use_type_invariant(self);
        }
        Username(self.0.clone())
    }
}

impl FromStr for Username {
    type Err = UsernameError;

    fn from_str(s: &str) -> Result<Username, UsernameError> {
        Username::parse(s)
    }
}

impl From<Username> for String {
    fn from(u: Username) -> (r: String) {
        u.0
    }
}

/// The text a Username turns into is its own text.
pub broadcast proof fn lemma_username_into_string(u: Username)
    ensures
        (#[trigger] <String as vstd::std_specs::convert::FromSpec<Username>>::from_spec(u))@ == u@,
{
}

impl vstd::std_specs::convert::FromSpecImpl<Username> for String {
    open spec fn obeys_from_spec() -> bool {
        true
    }

    closed spec fn from_spec(u: Username) -> String {
        u.0
    }
}

/// Why a text is no username.
#[derive(Debug)]
pub struct UsernameError(String);

impl View for UsernameError {
    type V = Seq<char>;

    closed spec fn view(&self) -> Seq<char> {
        self.0@
    }
}

impl UsernameError {
    /// The reason, in words.
    pub fn message(&self) -> (r: String)
        ensures
            r@ == self@,
    {
        self.0.clone()
    }
}

impl Clone for UsernameError {
    fn clone(&self) -> (r: Self)
        ensures
            r == *self,
    {
        UsernameError(self.0.clone())
    }
}

/// A room password: 4 to 64 characters.
#[derive(Debug, PartialEq, Eq, Hash)]
pub struct Password(String);

impl View for Password {
    type V = Seq<char>;

    closed spec fn view(&self) -> Seq<char> {
        self.0@
    }
}

impl Password {
    #[verifier::type_invariant]
    spec fn inv(&self) -> bool {
        valid_password(self.0@)
    }


    /// Reads a password from `s`, taken as it stands.
    pub fn parse(s: &str) -> (r: Result<Password, PasswordError>)
        ensures
            r is Ok <==> valid_password(s@),
            r matches Ok(p) ==> p@ == s@,
            r matches Err(e) ==> e@ == password_error(s@),
    {
        let n = s.unicode_len();
        if n < PASSWORD_MIN_LEN {
            return Err(PasswordError("Password must be at least 4 characters".to_owned()));
        }
        if n > PASSWORD_MAX_LEN {
            return Err(PasswordError("Password must be at most 64 characters".to_owned()));
        }
        Ok(Password(s.to_owned()))
    }

    /// The password as a string slice.
    pub fn as_str(&self) -> (r: &str)
        ensures
            r@ == self@,
            valid_password(r@),
    {
        proof {
            use_type_invariant(self);
        }
        self.0.as_str()
    }

    /// The password as an owned string.
    pub fn into_inner(self) -> (r: String)
        ensures
            r@ == self@,
    {
        self.0
    }

    /// The password as text.
    pub fn to_string(&self) -> (r: String)
        ensures
            r@ == self@,
    {
        self.0.clone()
    }
}

impl Clone for Password {
    fn clone(&self) -> (r: Self)
        ensures
            r == *self,
    {
        proof {
            use_type_invariant(self);
        }
        Password(self.0.clone())
    }
}

impl FromStr for Password {
    type Err = PasswordError;

    fn from_str(s: &str) -> Result<Password, PasswordError> {
        Password::parse(s)
    }
}

impl From<Password> for String {
    fn from(p: Password) -> (r: String) {
        p.0
    }
}

/// The text a Password turns into is its own text.
pub broadcast proof fn lemma_password_into_string(p: Password)
    ensures
        (#[trigger] <String as vstd::std_specs::convert::FromSpec<Password>>::from_spec(p))@ == p@,
{
}

impl vstd::std_specs::convert::FromSpecImpl<Password> for String {
    open spec fn obeys_from_spec() -> bool {
        true
    }

    closed spec fn from_spec(p: Password) -> String {
        p.0
    }
}

/// Why a text is no password.
#[derive(Debug)]
pub struct PasswordError(String);

impl View for PasswordError {
    type V = Seq<char>;

    closed spec fn view(&self) -> Seq<char> {
        self.0@
    }
}

impl PasswordError {
    /// The reason, in words.
    pub fn message(&self) -> (r: String)
        ensures
            r@ == self@,
    {
        self.0.clone()
    }
}

impl Clone for PasswordError {
    fn clone(&self) -> (r: Self)
        ensures
            r == *self,
    {
        PasswordError(self.0.clone())
    }
}

/// A room identifier in its normalized form: 8-4-4-4-12 lower-case hexadecimal digits.
#[derive(Debug, PartialEq, Eq, Hash)]
pub struct RoomId(String);

impl View for RoomId {
    type V = Seq<char>;

    closed spec fn view(&self) -> Seq<char> {
        self.0@
    }
}

impl RoomId {
    #[verifier::type_invariant]
    spec fn inv(&self) -> bool {
        canonical_room_id(self.0@)
    }


    pub(crate) fn from_canonical(s: String) -> (r: RoomId)
        requires
            canonical_room_id(s@),
        ensures
            r@ == s@,
    {
        RoomId(s)
    }

    /// Reads a room identifier from `s`, ignoring white space at either end and
    /// the case of its letters.
    pub fn parse(s: &str) -> (r: Result<RoomId, RoomIdError>)
        ensures
            r is Ok <==> room_id_shaped(trimmed(s@)),
            r matches Ok(id) ==> id@ == ascii_lowercase(trimmed(s@)),
            r matches Err(e) ==> e@ == room_id_error(),
    {
        let t = trim(s);
        if !is_room_id_shaped(t) {
            return Err(RoomIdError("Invalid room ID format".to_owned()));
        }
        let lower = to_ascii_lowercase(t);
        proof {
            assert forall|i: int| 0 <= i < lower@.len() implies (if is_hyphen_position(i) {
                #[trigger] lower@[i] == '-'
            } else {
                is_ascii_hexdigit(lower@[i])
            }) && ascii_lower(lower@[i]) == lower@[i] by {
                assert(lower@[i] == ascii_lower(t@[i]));
            }
        }
        Ok(RoomId(lower))
    }

    /// The identifier as a string slice.
    pub fn as_str(&self) -> (r: &str)
        ensures
            r@ == self@,
            canonical_room_id(r@),
    {
        proof {
            use_type_invariant(self);
        }
        self.0.as_str()
    }

    /// The identifier as an owned string.
    pub fn into_inner(self) -> (r: String)
        ensures
            r@ == self@,
    {
        self.0
    }

    /// The identifier as text.
    pub fn to_string(&self) -> (r: String)
        ensures
            r@ == self@,
    {
        self.0.clone()
    }

    /// Whether this identifier and `other` name the same room.
    pub fn same_as(&self, other: &RoomId) -> (r: bool)
        ensures
            r == (self@ == other@),
    {
        self.0 == other.0
    }
}

impl Clone for RoomId {
    fn clone(&self) -> (r: Self)
        ensures
            r == *self,
    {
        proof {
            use_type_invariant(self);
        }
        RoomId(self.0.clone())
    }
}

impl FromStr for RoomId {
    type Err = RoomIdError;

    fn from_str(s: &str) -> Result<RoomId, RoomIdError> {
        RoomId::parse(s)
    }
}

impl From<RoomId> for String {
    fn from(r: RoomId) -> (s: String) {
        r.0
    }
}

/// The text a RoomId turns into is its own text.
pub broadcast proof fn lemma_room_id_into_string(r: RoomId)
    ensures
        (#[trigger] <String as vstd::std_specs::convert::FromSpec<RoomId>>::from_spec(r))@ == r@,
{
}

impl vstd::std_specs::convert::FromSpecImpl<RoomId> for String {
    open spec fn obeys_from_spec() -> bool {
        true
    }

    closed spec fn from_spec(r: RoomId) -> String {
        r.0
    }
}

/// Why a text is no room identifier.
#[derive(Debug)]
pub struct RoomIdError(String);

impl View for RoomIdError {
    type V = Seq<char>;

    closed spec fn view(&self) -> Seq<char> {
        self.0@
    }
}

impl RoomIdError {
    /// The reason, in words.
    pub fn message(&self) -> (r: String)
        ensures
            r@ == self@,
    {
        self.0.clone()
    }
}

impl Clone for RoomIdError {
    fn clone(&self) -> (r: Self)
        ensures
            r == *self,
    {
        RoomIdError(self.0.clone())
    }
}

} // verus!
