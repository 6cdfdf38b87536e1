use chat::shared::{Message, SerializableUser, User, UserList};

#[test]
fn server_test_message_formatting() {
    let message = Message::chat_message("Alice", "Hello everyone!");
    assert_eq!(message.text, "Alice: Hello everyone!");
}

#[test]
fn client_test_message_formatting() {
    let message = Message::chat_message("Alice", "Hello everyone!");
    assert_eq!(message.text, "Alice: Hello everyone!");
    let copy = Message::new(message.text.clone());
    assert_eq!(copy.text, "Alice: Hello everyone!");
}

#[test]
fn test_name_formatting_edge_cases() {
    assert_eq!(Message::chat_message("", "Hello").text, ": Hello");
    assert_eq!(Message::chat_message("John Doe", "Hello").text, "John Doe: Hello");
    assert_eq!(Message::chat_message("User@123", "Hello").text, "User@123: Hello");
}

#[test]
fn test_empty_message_handling() {
    let message = Message::new(String::new());
    assert_eq!(message.text, "");
    assert_eq!(message.duplicate().text, "");
}

#[test]
fn server_test_user_creation() {
    let user = User::new("User_1a2b3c4d".to_string());
    assert!(!user.id.is_empty());
    assert!(!user.name.is_empty());
    assert!(user.name.starts_with("User_"));
}

#[test]
fn new_users_get_distinct_uuid_ids() {
    let a = User::new("Alice".to_string());
    let b = User::new("Alice".to_string());
    assert_ne!(a.id, b.id);
    for id in [&a.id, &b.id] {
        assert_eq!(id.len(), 36);
        for (i, c) in id.chars().enumerate() {
            if i == 8 || i == 13 || i == 18 || i == 23 {
                assert_eq!(c, '-');
            } else {
                assert!(c.is_ascii_hexdigit() && !c.is_ascii_uppercase());
            }
        }
    }
}

#[test]
fn user_with_id_keeps_id_and_name() {
    let user = User::with_id("conn-1".to_string(), "Bob".to_string());
    assert_eq!(user.id, "conn-1");
    assert_eq!(user.name, "Bob");
    let copy = user.duplicate();
    assert_eq!(copy.id, "conn-1");
    assert_eq!(copy.name, "Bob");
}

#[test]
fn user_list_reduces_users_to_names() {
    let users = vec![
        User::with_id("1".to_string(), "Alice".to_string()),
        User::with_id("2".to_string(), "Bob".to_string()),
    ];
    let list = UserList::from_users(&users);
    assert_eq!(list.count, 2);
    let names: Vec<String> = list.users.iter().map(|u| u.name.clone()).collect();
    assert_eq!(names, vec!["Alice", "Bob"]);
    let single = SerializableUser::from(&users[1]);
    assert_eq!(single.name, "Bob");
}

#[test]
fn empty_user_list() {
    let list = UserList::from_users(&[]);
    assert_eq!(list.count, 0);
    assert!(list.users.is_empty());
}

#[test]
fn tests_test_message_formatting() {
    let message = Message::chat_message("Alice", "Hello everyone!");
    assert_eq!(message.text, "Alice: Hello everyone!");
}

#[test]
fn tests_test_user_creation() {
    let user = User::new(chat::connection::handshake_name(&chat::connection::Opening::Unreadable));
    assert!(!user.id.is_empty());
    assert!(!user.name.is_empty());
    assert!(user.name.starts_with("User_"));
}

#[test]
fn server_test_user_id_generation() {
    let user_id1 = User::new("a".to_string()).id;
    let user_id2 = User::new("b".to_string()).id;
    assert_ne!(user_id1, user_id2);
    assert!(user_id1.contains('-'));
    assert!(user_id2.contains('-'));
    let name1 = chat::connection::name_for(&chat::connection::Opening::Unreadable, &user_id1);
    let name2 = chat::connection::name_for(&chat::connection::Opening::Unreadable, &user_id2);
    assert!(name1.starts_with("User_"));
    assert!(name2.starts_with("User_"));
    assert_ne!(name1, name2);
}

#[test]
fn tests_test_user_id_generation() {
    let name1 = chat::connection::handshake_name(&chat::connection::Opening::Unreadable);
    let name2 = chat::connection::handshake_name(&chat::connection::Opening::Unreadable);
    assert!(name1.starts_with("User_"));
    assert!(name2.starts_with("User_"));
    assert_ne!(name1, name2);
}
