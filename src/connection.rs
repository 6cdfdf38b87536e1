//! The lifecycle of one connection: the handshake that settles its display
//! name, joining the hub, the decision taken on each inbound frame, and
//! leaving. The caller runs the transport and hands each event in.

use crate::clients::{broadcast_effect, send_log, ClientRegistry};
use crate::codec::Decoded;
use crate::hub::{
    announce_user_joined, announce_user_left, announce_user_list,
    chat_event_json, joined_event_json, left_event_json, lists_presence, publish,
};
use crate::presence::PresenceRegistry;
use crate::shared::{
    chat_line, fresh_uuid, is_hyphenated_uuid, is_lower_hex, ClientMessage, Message, ServerMessage, UserList,
};
use crate::codec::server_json;
use crate::store::{most_recent, texts_of, MessageStore};
use tokio::sync::mpsc::UnboundedSender;
use vstd::prelude::*;
use vstd::string::*;

verus! {

/// The part of `s` before the first `c`; all of `s` when it holds no `c`.
pub open spec fn before_first(s: Seq<char>, c: char) -> Seq<char>
    decreases s.len(),
{
    if s.len() == 0 {
        s
    } else if s[0] == c {
        Seq::empty()
    } else {
        seq![s[0]] + before_first(s.drop_first(), c)
    }
}

/// Text with no `c` is its own part before `c`, and so is the part before
/// the `c` that follows it.
proof fn lemma_before_first(a: Seq<char>, b: Seq<char>, c: char)
    requires
        !a.contains(c),
    ensures
        before_first(a + seq![c] + b, c) == a,
        before_first(a, c) == a,
    decreases a.len(),
{
    if a.len() == 0 {
        assert((a + seq![c] + b)[0] == c);
        assert(before_first(a, c) == a);
    } else {
        assert(a[0] != c) by {
            if a[0] == c {
                assert(a.contains(c));
            }
        }
        assert(!a.drop_first().contains(c)) by {
            if a.drop_first().contains(c) {
                let i = choose|i: int| 0 <= i < a.drop_first().len() && a.drop_first()[i] == c;
                assert(a[i + 1] == c);
            }
        }
        lemma_before_first(a.drop_first(), b, c);
        assert((a + seq![c] + b).drop_first() =~= a.drop_first() + seq![c] + b);
        assert((a + seq![c] + b)[0] == a[0]);
        assert(seq![a[0]] + a.drop_first() =~= a);
    }
}

/// Relies on `str::split_once` with a `char` delimiter: `s` split at the
/// first occurrence of `c` into the text before it and the text after it;
/// `None` when `s` holds no `c`.
#[verifier::external_body]
fn split_at_first<'a>(s: &'a str, c: char) -> (r: Option<(&'a str, &'a str)>)
    ensures
        r matches Some((before, after)) ==> s@ == before@ + seq![c] + after@ && !before@.contains(c),
        r is None ==> !s@.contains(c),
{
    s.split_once(c)
}

/// The part of `s` before the first `c`; all of `s` when it holds no `c`.
pub fn prefix_before(s: &str, c: char) -> (r: String)
    ensures
        r@ == before_first(s@, c),
{
    match split_at_first(s, c) {
        Some((before, after)) => {
            proof {
                lemma_before_first(before@, after@, c);
            }
            before.to_owned()
        },
        None => {
            proof {
                lemma_before_first(s@, Seq::empty(), c);
            }
            s.to_owned()
        },
    }
}

/// The name given to a connection that did not declare one: `"User_"`
/// followed by the first group of the token `token`.
pub open spec fn generated_name(token: Seq<char>) -> Seq<char> {
    "User_"@ + before_first(token, '-')
}

/// A name generated from a UUID is `"User_"` followed by the UUID's first
/// eight characters, all of them hexadecimal digits.
pub proof fn lemma_generated_name_shape(token: Seq<char>)
    requires
        is_hyphenated_uuid(token),
    ensures
        generated_name(token) == "User_"@ + token.subrange(0, 8),
        forall|i: int| 0 <= i < 8 ==> is_lower_hex(#[trigger] token[i]),
{
    let first = token.subrange(0, 8);
    let rest = token.subrange(9, 36);
    assert forall|i: int| 0 <= i < 8 implies is_lower_hex(#[trigger] token[i]) by {
        assert(i != 8 && i != 13 && i != 18 && i != 23);
    }
    assert(!first.contains('-')) by {
        if first.contains('-') {
            let i = choose|i: int| 0 <= i < first.len() && first[i] == '-';
            assert(first[i] == token[i]);
            assert(is_lower_hex(token[i]));
        }
    }
    assert(token[8] == '-');
    assert(token =~= first + seq!['-'] + rest);
    lemma_before_first(first, rest, '-');
}

/// The first frame of a connection, as far as it could be read.
#[derive(Debug, Clone)]
pub enum Opening {
    /// A tagged client message.
    Typed(ClientMessage),
    /// A legacy message, whose text has the form `"name: body"`.
    Legacy(Message),
    /// Nothing readable: another kind of frame, an error, or the peer closed.
    Unreadable,
}

impl Opening {
    /// The opening given by a first text frame `raw`, where `typed` is what
    /// reading `raw` as a tagged client message gave and `legacy` what reading
    /// it as a JSON `{"text": ...}` message gave (`None` where that failed).
    /// Text that is neither is legacy bare text, taken verbatim.
    pub fn from_first_frame(raw: String, typed: Option<ClientMessage>, legacy: Option<Message>) -> (o: Opening)
        ensures
            typed matches Some(m) ==> o == Opening::Typed(m),
            typed is None && legacy is Some ==> o == Opening::Legacy(legacy->0),
            typed is None && legacy is None ==> (o matches Opening::Legacy(m) && m@ == raw@),
    {
        match typed {
            Some(m) => Opening::Typed(m),
            None => match legacy {
                Some(m) => Opening::Legacy(m),
                None => Opening::Legacy(Message::new(raw)),
            },
        }
    }
}

/// The opening declares a name: a `Connect`, or a legacy message.
pub open spec fn declares_name(opening: Opening) -> bool {
    ||| opening matches Opening::Typed(ClientMessage::Connect { .. })
    ||| opening is Legacy
}

/// The display name that `opening` settles on, with `token` as the source of
/// a generated one.
pub open spec fn opening_name(opening: Opening, token: Seq<char>) -> Seq<char> {
    match opening {
        Opening::Typed(ClientMessage::Connect { name }) => name@,
        Opening::Legacy(m) => before_first(m@, ':'),
        _ => generated_name(token),
    }
}

/// The display name that `opening` settles on, with `token` as the source of
/// a generated one.
pub fn name_for(opening: &Opening, token: &str) -> (r: String)
    ensures
        r@ == opening_name(*opening, token@),
{
    match opening {
        Opening::Typed(ClientMessage::Connect { name }) => name.clone(),
        Opening::Legacy(m) => prefix_before(m.text.as_str(), ':'),
        _ => {
            let mut name = String::from_str("User_");
            let group = prefix_before(token, '-');
            name.append(group.as_str());
            name
        },
    }
}

/// The display name that `opening` settles on: the declared one where there
/// is one, otherwise one generated from a fresh random UUID.
pub fn handshake_name(opening: &Opening) -> (r: String)
    ensures
        declares_name(*opening) ==> r@ == opening_name(*opening, Seq::empty()),
        !declares_name(*opening) ==> exists|token: Seq<char>|
            is_hyphenated_uuid(token) && r@ == generated_name(token),
{
    match opening {
        Opening::Typed(ClientMessage::Connect { .. }) => name_for(opening, ""),
        Opening::Legacy(_) => name_for(opening, ""),
        _ => {
            let token = fresh_uuid();
            name_for(opening, token.as_str())
        },
    }
}

/// One event of an active connection.
#[derive(Debug, Clone)]
pub enum Inbound {
    /// A text frame, decoded.
    Text(Decoded),
    /// A frame of another kind; it is ignored.
    Other,
    /// The transport closed or failed.
    Closed,
}

/// Where a connection is in its lifecycle.
#[derive(Debug, Clone, Copy, PartialEq, Eq, Structural)]
pub enum Phase {
    /// The name is settled; the connection is not registered yet.
    Joining,
    /// Registered; frames are being processed.
    Active,
    /// Deregistered; nothing more happens.
    Closed,
}

/// One connection to the hub.
pub struct Connection {
    id: String,
    name: String,
    phase: Phase,
}

impl Connection {
    /// The connection's id.
    pub closed spec fn spec_id(&self) -> Seq<char> {
        self.id@
    }

    /// The connection's display name.
    pub closed spec fn spec_name(&self) -> Seq<char> {
        self.name@
    }

    /// The connection's phase.
    pub closed spec fn spec_phase(&self) -> Phase {
        self.phase
    }

    /// The connection's id.
    pub fn id(&self) -> (r: &String)
        ensures
            r@ == self.spec_id(),
    {
        &self.id
    }

    /// The connection's display name.
    pub fn name(&self) -> (r: &String)
        ensures
            r@ == self.spec_name(),
    {
        &self.name
    }

    /// The connection's phase.
    pub fn phase(&self) -> (r: Phase)
        ensures
            r == self.spec_phase(),
    {
        self.phase
    }

    /// A connection whose first frame was `opening`: its name is settled as
    /// `handshake_name` says, and it gets a fresh random id.
    pub fn open(opening: &Opening) -> (c: Connection)
        ensures
            c.spec_phase() == Phase::Joining,
            is_hyphenated_uuid(c.spec_id()),
            declares_name(*opening) ==> c.spec_name() == opening_name(*opening, Seq::empty()),
            !declares_name(*opening) ==> exists|token: Seq<char>|
                is_hyphenated_uuid(token) && c.spec_name() == generated_name(token),
    {
        let name = handshake_name(opening);
        Connection { id: fresh_uuid(), name, phase: Phase::Joining }
    }

    /// Joins the hub: registers `tx` as this connection's outbound channel and
    /// the user in the presence registry, then announces the new presence
    /// list and the arrival to every connection, this one included. Returns
    /// the history, to be replayed to this connection alone before anything
    /// queued on `tx`. Does nothing, and returns nothing, unless the
    /// connection is joining.
    pub fn join(
        &mut self,
        tx: UnboundedSender<Message>,
        store: &MessageStore,
        presence: &mut PresenceRegistry,
        clients: &mut ClientRegistry,
    ) -> (backlog: Vec<Message>)
        ensures
            final(self).spec_id() == old(self).spec_id(),
            final(self).spec_name() == old(self).spec_name(),
            old(self).spec_phase() == Phase::Joining ==> {
                &&& final(self).spec_phase() == Phase::Active
                &&& final(presence)@ == old(presence)@.insert(old(self).spec_id(), old(self).spec_name())
                &&& texts_of(backlog@) == store@
                &&& exists|added: ClientRegistry, listed: ClientRegistry, list: UserList|
                    {
                        &&& added@ == old(clients)@.push((old(clients).fresh_slot(), send_log(tx)))
                        &&& added.retired() == old(clients).retired()
                        &&& added.fresh_slot() == old(clients).fresh_slot() + 1
                        &&& lists_presence(list, final(presence)@)
                        &&& broadcast_effect(added, listed, server_json(ServerMessage::UserList(list)))
                        &&& broadcast_effect(listed, *final(clients), joined_event_json(old(self).spec_name()))
                    }
            },
            old(self).spec_phase() != Phase::Joining ==> {
                &&& final(self).spec_phase() == old(self).spec_phase()
                &&& final(presence)@ == old(presence)@
                &&& *final(clients) == *old(clients)
                &&& backlog@.len() == 0
            },
    {
        if self.phase != Phase::Joining {
            return Vec::new();
        }
        clients.add(tx);
        let ghost added = *clients;
        presence.register(self.id.clone(), self.name.clone());
        let backlog = store.list();
        announce_user_list(presence, clients);
        let ghost listed = *clients;
        let ghost list = choose|list: UserList|
            lists_presence(list, presence@) && broadcast_effect(
                added,
                listed,
                server_json(ServerMessage::UserList(list)),
            );
        announce_user_joined(clients, self.name.as_str());
        self.phase = Phase::Active;
        assert(broadcast_effect(added, listed, server_json(ServerMessage::UserList(list))));
        assert(broadcast_effect(listed, *clients, joined_event_json(self.name@)));
        backlog
    }

    /// Handles one event of this connection, and says whether to keep
    /// reading. A chat line is attributed to the connection's name, stored,
    /// and sent to every connection as a chat event; legacy text is stored and
    /// sent to every connection as it is; a repeated `Connect` and frames of
    /// other kinds are ignored; `Disconnect` and a closed transport end the
    /// connection. Does nothing, and says stop, unless the connection is
    /// active.
    pub fn on_frame(&self, event: Inbound, store: &mut MessageStore, clients: &mut ClientRegistry) -> (keep_open: bool)
        ensures
            self.spec_phase() != Phase::Active ==> {
                &&& !keep_open
                &&& final(store)@ == old(store)@
                &&& *final(clients) == *old(clients)
            },
            self.spec_phase() == Phase::Active ==> match event {
                Inbound::Text(Decoded::Typed(ClientMessage::Chat { text })) => {
                    &&& keep_open
                    &&& final(store)@ == most_recent(old(store)@.push(chat_line(self.spec_name(), text@)))
                    &&& broadcast_effect(
                        *old(clients),
                        *final(clients),
                        chat_event_json(chat_line(self.spec_name(), text@)),
                    )
                },
                Inbound::Text(Decoded::Legacy(raw)) => {
                    &&& keep_open
                    &&& final(store)@ == most_recent(old(store)@.push(raw@))
                    &&& broadcast_effect(*old(clients), *final(clients), raw@)
                },
                _ => {
                    &&& keep_open == (event matches Inbound::Text(Decoded::Typed(ClientMessage::Connect { .. }))
                        || event is Other)
                    &&& final(store)@ == old(store)@
                    &&& *final(clients) == *old(clients)
                },
            },
    {
        if self.phase != Phase::Active {
            return false;
        }
        match event {
            Inbound::Text(Decoded::Typed(ClientMessage::Chat { text })) => {
                let line = Message::chat_message(self.name.as_str(), text.as_str());
                let event = ServerMessage::Chat { text: line.text.clone() };
                let relayed = Message::new(crate::codec::encode_server_message(&event));
                publish(store, clients, line, &relayed);
                true
            },
            Inbound::Text(Decoded::Typed(ClientMessage::Disconnect)) => false,
            Inbound::Text(Decoded::Typed(ClientMessage::Connect { .. })) => true,
            Inbound::Text(Decoded::Legacy(raw)) => {
                let line = Message::new(raw);
                let relayed = line.duplicate();
                publish(store, clients, line, &relayed);
                true
            },
            Inbound::Other => true,
            Inbound::Closed => false,
        }
    }

    /// Leaves the hub: removes the user from the presence registry and tells
    /// every remaining connection that it left. Only an active connection
    /// does this, and only once: the connection is closed afterwards.
    pub fn leave(&mut self, presence: &mut PresenceRegistry, clients: &mut ClientRegistry)
        ensures
            final(self).spec_id() == old(self).spec_id(),
            final(self).spec_name() == old(self).spec_name(),
            final(self).spec_phase() == Phase::Closed,
            old(self).spec_phase() == Phase::Active ==> {
                &&& final(presence)@ == old(presence)@.remove(old(self).spec_id())
                &&& broadcast_effect(*old(clients), *final(clients), left_event_json(old(self).spec_name()))
            },
            old(self).spec_phase() != Phase::Active ==> {
                &&& final(presence)@ == old(presence)@
                &&& *final(clients) == *old(clients)
            },
    {
        if self.phase == Phase::Active {
            presence.unregister(&self.id);
            announce_user_left(clients, self.name.as_str());
        }
        self.phase = Phase::Closed;
    }
}

} // verus!
