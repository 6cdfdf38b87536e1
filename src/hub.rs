//! Hub operations shared by the connection lifecycle and the HTTP surface:
//! announcing events to every connection and taking in posted messages.

use crate::clients::{broadcast_effect, ClientRegistry};
use crate::codec::{encode_server_message, json_quoted, server_json};
use crate::presence::{ids_distinct, presence_of, PresenceRegistry};
use crate::shared::{names_of, Message, ServerMessage, User, UserList};
use crate::store::{most_recent, MessageStore};
use vstd::prelude::*;

verus! {

/// The wire text of a chat event carrying `line`.
pub open spec fn chat_event_json(line: Seq<char>) -> Seq<char> {
    "{\"type\":\"Chat\",\"text\":"@ + json_quoted(line) + "}"@
}

/// The wire text of a "user joined" event for `name`.
pub open spec fn joined_event_json(name: Seq<char>) -> Seq<char> {
    "{\"type\":\"UserJoined\",\"name\":"@ + json_quoted(name) + "}"@
}

/// The wire text of a "user left" event for `name`.
pub open spec fn left_event_json(name: Seq<char>) -> Seq<char> {
    "{\"type\":\"UserLeft\",\"name\":"@ + json_quoted(name) + "}"@
}

/// `list` names every user of the presence map `presence` once, in some
/// order, and counts them.
pub open spec fn lists_presence(list: UserList, presence: Map<Seq<char>, Seq<char>>) -> bool {
    exists|users: Seq<User>|
        #![trigger presence_of(users)]
        {
            &&& ids_distinct(users)
            &&& presence_of(users) == presence
            &&& list.count == users.len()
            &&& list.users@.map_values(|u: crate::shared::SerializableUser| u.name@) == names_of(users)
        }
}

/// Sends the wire text of `m` to every connection.
pub fn announce(clients: &mut ClientRegistry, m: &ServerMessage)
    ensures
        broadcast_effect(*old(clients), *final(clients), server_json(*m)),
{
    let text = encode_server_message(m);
    clients.broadcast(&Message::new(text));
}

/// Sends the current presence snapshot to every connection.
pub fn announce_user_list(presence: &PresenceRegistry, clients: &mut ClientRegistry)
    ensures
        exists|list: UserList|
            lists_presence(list, presence@) && broadcast_effect(
                *old(clients),
                *final(clients),
                server_json(ServerMessage::UserList(list)),
            ),
{
    let users = presence.snapshot();
    let listed = users.as_slice();
    let list = UserList::from_users(listed);
    let m = ServerMessage::UserList(list);
    announce(clients, &m);
    assert(lists_presence(list, presence@));
}

/// Tells every connection that `name` joined.
pub fn announce_user_joined(clients: &mut ClientRegistry, name: &str)
    ensures
        broadcast_effect(*old(clients), *final(clients), joined_event_json(name@)),
{
    let m = ServerMessage::UserJoined { name: name.to_owned() };
    announce(clients, &m);
}

/// Tells every connection that `name` left.
pub fn announce_user_left(clients: &mut ClientRegistry, name: &str)
    ensures
        broadcast_effect(*old(clients), *final(clients), left_event_json(name@)),
{
    let m = ServerMessage::UserLeft { name: name.to_owned() };
    announce(clients, &m);
}

/// Stores `stored` in the history, then hands `relayed` to every connection.
pub fn publish(
    store: &mut MessageStore,
    clients: &mut ClientRegistry,
    stored: Message,
    relayed: &Message,
)
    ensures
        final(store)@ == most_recent(old(store)@.push(stored@)),
        broadcast_effect(*old(clients), *final(clients), relayed@),
{
    store.append(stored);
    clients.broadcast(relayed);
}

/// A message posted over HTTP: stored in the history, with the same eviction
/// as chat over a connection, and handed as it is to every connection.
pub fn post_message(store: &mut MessageStore, clients: &mut ClientRegistry, msg: Message)
    ensures
        final(store)@ == most_recent(old(store)@.push(msg@)),
        broadcast_effect(*old(clients), *final(clients), msg@),
{
    let relayed = msg.duplicate();
    publish(store, clients, msg, &relayed);
}

} // verus!
