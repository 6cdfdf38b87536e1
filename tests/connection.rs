use chat::clients::ClientRegistry;
use chat::codec::Decoded;
use chat::connection::{handshake_name, name_for, prefix_before, Connection, Inbound, Opening, Phase};
use chat::hub::post_message;
use chat::presence::PresenceRegistry;
use chat::shared::{ClientMessage, Message};
use chat::store::MessageStore;
use tokio::sync::mpsc::{unbounded_channel, UnboundedReceiver};

fn drain(rx: &mut UnboundedReceiver<Message>) -> Vec<String> {
    let mut texts = Vec::new();
    while let Ok(m) = rx.try_recv() {
        texts.push(m.text);
    }
    texts
}

fn connect(
    name: &str,
    store: &MessageStore,
    presence: &mut PresenceRegistry,
    clients: &mut ClientRegistry,
) -> (Connection, UnboundedReceiver<Message>) {
    let opening = Opening::Typed(ClientMessage::Connect { name: name.to_string() });
    let mut conn = Connection::open(&opening);
    let (tx, rx) = unbounded_channel::<Message>();
    conn.join(tx, store, presence, clients);
    (conn, rx)
}

#[test]
fn connect_declares_the_name() {
    let opening = Opening::Typed(ClientMessage::Connect { name: "Alice".to_string() });
    assert_eq!(handshake_name(&opening), "Alice");
    let conn = Connection::open(&opening);
    assert_eq!(conn.name(), "Alice");
    assert_eq!(conn.phase(), Phase::Joining);
    assert_eq!(conn.id().len(), 36);
}

#[test]
fn legacy_opening_takes_the_text_before_the_first_colon() {
    let opening = Opening::Legacy(Message::new("Bob: hello: there".to_string()));
    assert_eq!(handshake_name(&opening), "Bob");
    let no_colon = Opening::Legacy(Message::new("Bob".to_string()));
    assert_eq!(handshake_name(&no_colon), "Bob");
}

#[test]
fn unreadable_opening_gets_a_generated_name() {
    let name = handshake_name(&Opening::Unreadable);
    assert!(name.starts_with("User_"));
    assert_eq!(name.len(), 13);
    assert!(name[5..].chars().all(|c| c.is_ascii_hexdigit()));
    let chat_first = Opening::Typed(ClientMessage::Chat { text: "hi".to_string() });
    assert!(handshake_name(&chat_first).starts_with("User_"));
}

#[test]
fn generated_name_uses_the_first_group_of_the_token() {
    let name = name_for(&Opening::Unreadable, "67e55044-10b1-426f-9247-bb680e5fe0c8");
    assert_eq!(name, "User_67e55044");
    let disconnect_first = Opening::Typed(ClientMessage::Disconnect);
    assert_eq!(name_for(&disconnect_first, "abc"), "User_abc");
}

#[test]
fn prefix_before_stops_at_the_first_occurrence() {
    assert_eq!(prefix_before("a:b:c", ':'), "a");
    assert_eq!(prefix_before(":x", ':'), "");
    assert_eq!(prefix_before("none", ':'), "none");
    assert_eq!(prefix_before("", ':'), "");
    assert_eq!(prefix_before("世界:🚀", ':'), "世界");
}

#[test]
fn chat_from_a_connection_reaches_an_earlier_peer() {
    let mut store = MessageStore::new();
    let mut presence = PresenceRegistry::new();
    let mut clients = ClientRegistry::new();
    let (_peer, mut peer_rx) = connect("Peer", &store, &mut presence, &mut clients);
    let (alice, mut alice_rx) = connect("Alice", &store, &mut presence, &mut clients);
    drain(&mut peer_rx);
    drain(&mut alice_rx);
    let hi = Inbound::Text(Decoded::Typed(ClientMessage::Chat { text: "hi".to_string() }));
    assert!(alice.on_frame(hi, &mut store, &mut clients));
    assert_eq!(drain(&mut peer_rx), vec![r#"{"type":"Chat","text":"Alice: hi"}"#.to_string()]);
    assert_eq!(store.list()[0].text, "Alice: hi");
}

#[test]
fn joining_replays_history_then_announces() {
    let mut store = MessageStore::new();
    let mut presence = PresenceRegistry::new();
    let mut clients = ClientRegistry::new();
    store.append(Message::new("old line".to_string()));
    let (_peer, mut peer_rx) = connect("Peer", &store, &mut presence, &mut clients);
    assert_eq!(
        drain(&mut peer_rx),
        vec![
            r#"{"type":"UserList","users":[{"name":"Peer"}],"count":1}"#.to_string(),
            r#"{"type":"UserJoined","name":"Peer"}"#.to_string(),
        ]
    );
    let mut bob = Connection::open(&Opening::Typed(ClientMessage::Connect { name: "Bob".to_string() }));
    let (tx, mut bob_rx) = unbounded_channel::<Message>();
    let backlog = bob.join(tx, &store, &mut presence, &mut clients);
    assert_eq!(bob.phase(), Phase::Active);
    assert_eq!(backlog.len(), 1);
    assert_eq!(backlog[0].text, "old line");
    assert!(presence.contains(bob.id()));
    assert_eq!(presence.len(), 2);
    let peer_sees = drain(&mut peer_rx);
    assert_eq!(peer_sees.len(), 2);
    assert!(peer_sees[0].starts_with(r#"{"type":"UserList","users":["#));
    assert!(peer_sees[0].ends_with(r#"],"count":2}"#));
    assert_eq!(peer_sees[1], r#"{"type":"UserJoined","name":"Bob"}"#);
    assert_eq!(drain(&mut bob_rx), peer_sees);
}

#[test]
fn leaving_without_disconnect_notifies_once() {
    let mut store = MessageStore::new();
    let mut presence = PresenceRegistry::new();
    let mut clients = ClientRegistry::new();
    let (_peer, mut peer_rx) = connect("Peer", &store, &mut presence, &mut clients);
    let (mut carol, carol_rx) = connect("Carol", &store, &mut presence, &mut clients);
    drain(&mut peer_rx);
    assert!(!carol.on_frame(Inbound::Closed, &mut store, &mut clients));
    drop(carol_rx);
    carol.leave(&mut presence, &mut clients);
    carol.leave(&mut presence, &mut clients);
    assert_eq!(carol.phase(), Phase::Closed);
    assert!(!presence.contains(carol.id()));
    assert_eq!(presence.len(), 1);
    assert_eq!(drain(&mut peer_rx), vec![r#"{"type":"UserLeft","name":"Carol"}"#.to_string()]);
    assert_eq!(clients.len(), 1);
}

#[test]
fn disconnect_ends_the_connection_and_repeat_connect_is_ignored() {
    let mut store = MessageStore::new();
    let mut presence = PresenceRegistry::new();
    let mut clients = ClientRegistry::new();
    let (dave, mut rx) = connect("Dave", &store, &mut presence, &mut clients);
    drain(&mut rx);
    let again = Inbound::Text(Decoded::Typed(ClientMessage::Connect { name: "Eve".to_string() }));
    assert!(dave.on_frame(again, &mut store, &mut clients));
    assert!(dave.on_frame(Inbound::Other, &mut store, &mut clients));
    assert!(drain(&mut rx).is_empty());
    let bye = Inbound::Text(Decoded::Typed(ClientMessage::Disconnect));
    assert!(!dave.on_frame(bye, &mut store, &mut clients));
    assert_eq!(store.len(), 0);
    assert_eq!(dave.name(), "Dave");
}

#[test]
fn legacy_text_is_stored_and_relayed_verbatim() {
    let mut store = MessageStore::new();
    let mut presence = PresenceRegistry::new();
    let mut clients = ClientRegistry::new();
    let (frank, mut rx) = connect("Frank", &store, &mut presence, &mut clients);
    drain(&mut rx);
    let raw = "Frank: plain old text".to_string();
    assert!(frank.on_frame(Inbound::Text(Decoded::Legacy(raw.clone())), &mut store, &mut clients));
    assert_eq!(drain(&mut rx), vec![raw.clone()]);
    assert_eq!(store.list()[0].text, raw);
}

#[test]
fn a_connection_that_never_joined_does_nothing() {
    let mut store = MessageStore::new();
    let mut presence = PresenceRegistry::new();
    let mut clients = ClientRegistry::new();
    let mut conn = Connection::open(&Opening::Unreadable);
    let hi = Inbound::Text(Decoded::Typed(ClientMessage::Chat { text: "hi".to_string() }));
    assert!(!conn.on_frame(hi, &mut store, &mut clients));
    conn.leave(&mut presence, &mut clients);
    assert_eq!(conn.phase(), Phase::Closed);
    assert_eq!(store.len(), 0);
    let (tx, _rx) = unbounded_channel::<Message>();
    assert!(conn.join(tx, &store, &mut presence, &mut clients).is_empty());
    assert_eq!(presence.len(), 0);
    assert_eq!(clients.len(), 0);
}

#[test]
fn posted_message_is_served_back_at_the_end_of_the_history() {
    let mut store = MessageStore::new();
    let mut presence = PresenceRegistry::new();
    let mut clients = ClientRegistry::new();
    let (_peer, mut rx) = connect("Peer", &store, &mut presence, &mut clients);
    drain(&mut rx);
    store.append(Message::new("earlier".to_string()));
    post_message(&mut store, &mut clients, Message::new("hello".to_string()));
    let body = store.render();
    assert!(body.ends_with("hello\n"));
    assert_eq!(body, "earlier\nhello\n");
    assert_eq!(drain(&mut rx), vec!["hello".to_string()]);
}

#[test]
fn test_server_with_multiple_clients() {
    let mut store = MessageStore::new();
    let mut clients = ClientRegistry::new();
    for i in 0..3 {
        post_message(&mut store, &mut clients, Message::new(format!("Client {} message", i)));
    }
    let content = store.render();
    assert!(content.contains("Client 0 message"));
    assert!(content.contains("Client 1 message"));
    assert!(content.contains("Client 2 message"));
}

#[test]
fn bare_text_first_frame_names_the_connection() {
    let opening = Opening::from_first_frame("Bob: hi".to_string(), None, None);
    assert_eq!(handshake_name(&opening), "Bob");
    let whole = Opening::from_first_frame("Bob".to_string(), None, None);
    assert_eq!(handshake_name(&whole), "Bob");
}

#[test]
fn first_frame_prefers_the_tagged_reading() {
    let typed = Some(ClientMessage::Connect { name: "Alice".to_string() });
    let opening = Opening::from_first_frame("ignored".to_string(), typed, None);
    assert_eq!(handshake_name(&opening), "Alice");
    let legacy = Some(Message::new("Carol: hey".to_string()));
    let opening = Opening::from_first_frame(r#"{"text":"Carol: hey"}"#.to_string(), None, legacy);
    assert_eq!(handshake_name(&opening), "Carol");
}
