use gridspeak::ChatMessage;
use gridspeak::ChatStore;

fn msg(id: u128, author: &str, body: &str) -> ChatMessage {
    ChatMessage {
        id,
        author: author.to_string(),
        body: body.to_string(),
        timestamp: "2024-01-01T00:00:00+00:00".to_string(),
        attachments: Vec::new(),
    }
}

#[test]
fn append_keeps_order() {
    let mut store = ChatStore::new();
    store.append(msg(1, "a", "one"));
    store.append(msg(2, "b", "two"));
    store.append(msg(3, "c", "three"));
    let all = store.messages();
    assert_eq!(all.len(), 3);
    assert_eq!(all[0].body, "one");
    assert_eq!(all[1].body, "two");
    assert_eq!(all[2].body, "three");
}

#[test]
fn append_is_idempotent() {
    let mut store = ChatStore::new();
    for _ in 0..5 {
        store.append(msg(42, "a", "hello"));
    }
    assert_eq!(store.len(), 1);
    let all = store.messages();
    assert_eq!(all[0].id, 42);
    assert_eq!(all[0].body, "hello");
}

#[test]
fn append_same_id_different_body_is_dropped() {
    let mut store = ChatStore::new();
    store.append(msg(7, "a", "first"));
    store.append(msg(7, "b", "second"));
    assert_eq!(store.len(), 1);
    assert_eq!(store.messages()[0].body, "first");
}

#[test]
fn snapshot_round_trip() {
    let mut store = ChatStore::new();
    store.append(msg(1, "a", "one"));
    store.append(msg(2, "b", "two"));
    store.append(msg(3, "c", "three"));
    let persisted = store.messages();
    let reopened = ChatStore::from_snapshot(persisted);
    let all = reopened.messages();
    assert_eq!(all.len(), 3);
    assert_eq!(all[0].id, 1);
    assert_eq!(all[1].id, 2);
    assert_eq!(all[2].id, 3);
    assert_eq!(all[0].body, "one");
    assert_eq!(all[2].body, "three");
}

#[test]
fn snapshot_with_duplicate_ids_collapses_to_first() {
    let reopened = ChatStore::from_snapshot(vec![
        msg(1, "a", "one"),
        msg(1, "a", "dup"),
        msg(2, "b", "two"),
    ]);
    let all = reopened.messages();
    assert_eq!(all.len(), 2);
    assert_eq!(all[0].body, "one");
    assert_eq!(all[1].body, "two");
}
