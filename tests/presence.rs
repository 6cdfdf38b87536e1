use chat::presence::PresenceRegistry;

#[test]
fn server_test_user_management() {
    let mut users = PresenceRegistry::new();
    let user_id = "0f8fad5b-d9cb-469f-a165-70867728950e".to_string();
    users.register(user_id.clone(), "TestUser".to_string());
    assert_eq!(users.len(), 1);
    assert!(users.contains(&user_id));
    users.unregister(&user_id);
    assert_eq!(users.len(), 0);
    assert!(!users.contains(&user_id));
}

#[test]
fn registering_returns_the_stored_user() {
    let mut users = PresenceRegistry::new();
    let user = users.register("id-1".to_string(), "Alice".to_string());
    assert_eq!(user.id, "id-1");
    assert_eq!(user.name, "Alice");
}

#[test]
fn unregistering_an_absent_id_changes_nothing() {
    let mut users = PresenceRegistry::new();
    users.register("id-1".to_string(), "Alice".to_string());
    users.unregister(&"id-2".to_string());
    assert_eq!(users.len(), 1);
    users.unregister(&"id-1".to_string());
    users.unregister(&"id-1".to_string());
    assert_eq!(users.len(), 0);
}

#[test]
fn shared_names_are_distinct_users() {
    let mut users = PresenceRegistry::new();
    users.register("id-1".to_string(), "Sam".to_string());
    users.register("id-2".to_string(), "Sam".to_string());
    assert_eq!(users.len(), 2);
    users.unregister(&"id-1".to_string());
    assert!(users.contains(&"id-2".to_string()));
    assert_eq!(users.len(), 1);
}

#[test]
fn registering_an_id_again_replaces_its_user() {
    let mut users = PresenceRegistry::new();
    users.register("id-1".to_string(), "Old".to_string());
    users.register("id-1".to_string(), "New".to_string());
    assert_eq!(users.len(), 1);
    let snapshot = users.snapshot();
    assert_eq!(snapshot.len(), 1);
    assert_eq!(snapshot[0].name, "New");
}

#[test]
fn snapshot_lists_every_user_once() {
    let mut users = PresenceRegistry::new();
    users.register("a".to_string(), "Alice".to_string());
    users.register("b".to_string(), "Bob".to_string());
    users.register("c".to_string(), "Carol".to_string());
    users.unregister(&"b".to_string());
    let mut pairs: Vec<(String, String)> =
        users.snapshot().into_iter().map(|u| (u.id, u.name)).collect();
    pairs.sort();
    assert_eq!(
        pairs,
        vec![
            ("a".to_string(), "Alice".to_string()),
            ("c".to_string(), "Carol".to_string())
        ]
    );
}

#[test]
fn tests_test_user_management() {
    let mut users = PresenceRegistry::new();
    let user_id = chat::shared::User::new("TestUser".to_string()).id;
    let stored = users.register(user_id.clone(), "TestUser".to_string());
    assert_eq!(stored.name, "TestUser");
    assert_eq!(users.len(), 1);
    assert!(users.contains(&user_id));
    users.unregister(&user_id);
    assert_eq!(users.len(), 0);
    assert!(!users.contains(&user_id));
}

#[test]
fn tests_test_app_state_creation() {
    let users = PresenceRegistry::new();
    let clients = chat::clients::ClientRegistry::new();
    let store = chat::store::MessageStore::new();
    assert_eq!(store.len(), 0);
    assert_eq!(clients.len(), 0);
    assert_eq!(users.len(), 0);
}
