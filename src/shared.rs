//! The values that flow between clients and the hub.

use std::time::Instant;
use vstd::prelude::*;
use vstd::string::*;

verus! {

/// `sender + ": " + body`, the form of a chat line attributed to a sender.
pub open spec fn chat_line(sender: Seq<char>, body: Seq<char>) -> Seq<char> {
    sender + seq![':', ' '] + body
}

/// A chat line as it is stored, listed and relayed.
#[derive(Debug, Clone)]
pub struct Message {
    /// The text content of the message.
    pub text: String,
}

impl View for Message {
    type V = Seq<char>;

    open spec fn view(&self) -> Seq<char> {
        self.text@
    }
}

impl Message {
    /// Wraps `text` as a message.
    pub fn new(text: String) -> (m: Message)
        ensures
            m@ == text@,
    {
        Message { text }
    }

    /// A message carrying `text` attributed to `sender`: `"sender: text"`.
    pub fn chat_message(sender: &str, text: &str) -> (m: Message)
        ensures
            m@ == chat_line(sender@, text@),
    {
        let mut line = sender.to_owned();
        proof {
            reveal_strlit(": ");
        }
        line.append(": ");
        line.append(text);
        Message { text: line }
    }

    /// A copy of this message with the same text.
    pub fn duplicate(&self) -> (m: Message)
        ensures
            m@ == self@,
    {
        Message { text: self.text.clone() }
    }
}


/// Declares `std::time::Instant` so that a user can carry the moment it connected.
#[verifier::external_type_specification]
#[verifier::external_body]
pub struct ExInstant(Instant);

/// Relies on `std::time::Instant::now`: a reading of the monotonic clock.
/// Nothing is promised of its value.
#[verifier::external_body]
pub(crate) fn clock_now() -> (t: Instant) {
    Instant::now()
}

/// A lower-case hexadecimal digit.
pub open spec fn is_lower_hex(c: char) -> bool {
    ('0' <= c && c <= '9') || ('a' <= c && c <= 'f')
}

/// The hyphenated lower-case text form of a UUID: 36 characters, hyphens at
/// positions 8, 13, 18 and 23, hexadecimal digits elsewhere.
pub open spec fn is_hyphenated_uuid(s: Seq<char>) -> bool {
    &&& s.len() == 36
    &&& forall|i: int|
        0 <= i < 36 ==> if i == 8 || i == 13 || i == 18 || i == 23 {
            #[trigger] s[i] == '-'
        } else {
            is_lower_hex(s[i])
        }
}

/// Relies on `uuid::Uuid::new_v4` and the `Display` impl of `uuid::Uuid`: a
/// random version-4 UUID, written in the hyphenated lower-case form. It
/// panics only when the operating system cannot supply random bytes.
#[verifier::external_body]
pub(crate) fn fresh_uuid() -> (r: String)
    ensures
        is_hyphenated_uuid(r@),
{
    uuid::Uuid::new_v4().to_string()
}

/// A user connected to the hub. Copies are made with `duplicate`.
#[derive(Debug)]
pub struct User {
    /// Opaque unique identity of the user's connection; never sent to other clients.
    pub id: String,
    /// Display name; two users may share one.
    pub name: String,
    /// When the user connected.
    pub connected_at: Instant,
}

impl User {
    /// A user named `name` with a freshly generated id, connected now.
    pub fn new(name: String) -> (u: User)
        ensures
            u.name@ == name@,
            is_hyphenated_uuid(u.id@),
    {
        User { id: fresh_uuid(), name, connected_at: clock_now() }
    }

    /// A user with the given id and name, connected now.
    pub fn with_id(id: String, name: String) -> (u: User)
        ensures
            u.id@ == id@,
            u.name@ == name@,
    {
        User { id, name, connected_at: clock_now() }
    }

    /// A copy of this user: same id, name and connection time.
    pub fn duplicate(&self) -> (u: User)
        ensures
            u.id@ == self.id@,
            u.name@ == self.name@,
            u.connected_at == self.connected_at,
    {
        User { id: self.id.clone(), name: self.name.clone(), connected_at: self.connected_at }
    }
}

/// The part of a user that is shown to other clients: its name only.
#[derive(Debug, Clone)]
pub struct SerializableUser {
    /// The user's display name.
    pub name: String,
}

impl From<&User> for SerializableUser {
    fn from(user: &User) -> (s: SerializableUser) {
        SerializableUser { name: user.name.clone() }
    }
}

impl vstd::std_specs::convert::FromSpecImpl<&User> for SerializableUser {
    open spec fn obeys_from_spec() -> bool {
        true
    }

    open spec fn from_spec(user: &User) -> SerializableUser {
        SerializableUser { name: user.name }
    }
}

/// A presence snapshot: the names of the connected users and how many there are.
#[derive(Debug, Clone)]
pub struct UserList {
    /// The connected users, reduced to their names.
    pub users: Vec<SerializableUser>,
    /// How many users are connected.
    pub count: usize,
}

/// The names of a sequence of users, in order.
pub open spec fn names_of(users: Seq<User>) -> Seq<Seq<char>> {
    users.map_values(|u: User| u.name@)
}

impl UserList {
    /// The names of `users`, in order, with their count.
    pub fn from_users(users: &[User]) -> (l: UserList)
        ensures
            l.count == users@.len(),
            l.users@.map_values(|u: SerializableUser| u.name@) == names_of(users@),
    {
        let mut listed: Vec<SerializableUser> = Vec::new();
        let mut i: usize = 0;
        while i < users.len()
            invariant
                i <= users@.len(),
                listed@.len() == i,
                forall|j: int| 0 <= j < i ==> #[trigger] listed@[j].name@ == users@[j].name@,
            decreases users@.len() - i,
        {
            listed.push(SerializableUser::from(&users[i]));
            i += 1;
        }
        proof {
            assert(listed@.map_values(|u: SerializableUser| u.name@) =~= names_of(users@));
        }
        UserList { users: listed, count: users.len() }
    }
}

/// What the hub sends to clients.
#[derive(Debug, Clone)]
pub enum ServerMessage {
    /// A chat line, already prefixed with its sender.
    Chat { text: String },
    /// The full presence snapshot.
    UserList(UserList),
    /// A user joined.
    UserJoined { name: String },
    /// A user left.
    UserLeft { name: String },
}

/// What a client sends to the hub.
#[derive(Debug, Clone)]
pub enum ClientMessage {
    /// Declares the sender's display name; sent once, right after connecting.
    Connect { name: String },
    /// A chat line.
    Chat { text: String },
    /// The sender intends to leave.
    Disconnect,
}

} // verus!
