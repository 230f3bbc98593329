use gridspeak::ChannelError;
use gridspeak::ChatMessage;
use gridspeak::directory::ChannelState;
use gridspeak::directory::needs_legacy_migration;

fn msg(id: u128, body: &str) -> ChatMessage {
    ChatMessage {
        id,
        author: "a".to_string(),
        body: body.to_string(),
        timestamp: "2024-01-01T00:00:00+00:00".to_string(),
        attachments: Vec::new(),
    }
}

fn open_general() -> ChannelState {
    ChannelState::open(vec!["general".to_string()], vec![Vec::new()])
}

#[test]
fn open_loads_snapshots_and_adds_root() {
    let dir = ChannelState::open(
        vec!["dev".to_string()],
        vec![vec![msg(1, "hi"), msg(2, "there")]],
    );
    let names = dir.list();
    assert!(names.contains(&"dev".to_string()));
    assert!(names.contains(&"general".to_string()));
    let dev = dir.messages("dev");
    assert_eq!(dev.len(), 2);
    assert_eq!(dev[0].body, "hi");
    assert_eq!(dir.messages("general").len(), 0);
}

#[test]
fn open_collapses_duplicate_names() {
    let dir = ChannelState::open(
        vec!["general".to_string(), "dev".to_string(), "dev".to_string()],
        vec![Vec::new(), vec![msg(1, "first")], vec![msg(9, "second")]],
    );
    let names = dir.list();
    assert_eq!(names, vec!["general".to_string(), "dev".to_string()]);
    let dev = dir.messages("dev");
    assert_eq!(dev.len(), 1);
    assert_eq!(dev[0].body, "first");
}

#[test]
fn add_channel_normalizes_and_is_idempotent() {
    let mut dir = open_general();
    assert_eq!(dir.add_channel_local(" Foo_1 ", Vec::new()), Ok(true));
    assert_eq!(dir.add_channel_local("foo_1", Vec::new()), Ok(false));
    let names = dir.list();
    assert_eq!(names, vec!["general".to_string(), "foo_1".to_string()]);
}

#[test]
fn add_channel_rejects_invalid_names() {
    let mut dir = open_general();
    assert_eq!(
        dir.add_channel_local("not a name", Vec::new()),
        Err(ChannelError::InvalidName)
    );
    assert_eq!(dir.add_channel_local("", Vec::new()), Err(ChannelError::InvalidName));
    assert_eq!(dir.list(), vec!["general".to_string()]);
}

#[test]
fn add_channel_loads_existing_journal() {
    let mut dir = open_general();
    assert_eq!(dir.add_channel_local("old", vec![msg(5, "kept")]), Ok(true));
    let old = dir.messages("old");
    assert_eq!(old.len(), 1);
    assert_eq!(old[0].body, "kept");
}

#[test]
fn root_removal_is_rejected() {
    let mut dir = open_general();
    assert_eq!(
        dir.remove_channel_local("general"),
        Err(ChannelError::ProtectedChannel)
    );
    assert_eq!(dir.list(), vec!["general".to_string()]);
}

#[test]
fn remote_root_removal_is_ignored() {
    let mut dir = open_general();
    dir.remove_channel_in_memory("general");
    assert_eq!(dir.list(), vec!["general".to_string()]);
}

#[test]
fn local_removal_drops_channel() {
    let mut dir = open_general();
    dir.add_channel_local("dev", Vec::new()).unwrap();
    assert_eq!(dir.remove_channel_local("dev"), Ok(()));
    assert_eq!(dir.list(), vec!["general".to_string()]);
    assert!(dir.get_store("dev").is_none());
}

#[test]
fn removal_of_absent_channel_is_ok() {
    let mut dir = open_general();
    assert_eq!(dir.remove_channel_local("nothere"), Ok(()));
    assert_eq!(dir.list(), vec!["general".to_string()]);
}

#[test]
fn merge_is_monotone_and_additive() {
    let mut dir = open_general();
    dir.append_message("general", msg(1, "kept"));
    let before = dir.list();
    let advert = vec!["general".to_string(), "random".to_string()];
    let unknown = dir.unknown_channels(&advert);
    assert_eq!(unknown, vec!["random".to_string()]);
    let entries: Vec<(String, Vec<ChatMessage>)> =
        unknown.into_iter().map(|n| (n, Vec::new())).collect();
    dir.merge_channels_from_remote(entries);
    let after = dir.list();
    for name in &before {
        assert!(after.contains(name));
    }
    assert!(after.contains(&"random".to_string()));
    assert_eq!(dir.messages("general").len(), 1);
    assert_eq!(dir.messages("random").len(), 0);
}

#[test]
fn merge_ignores_known_names() {
    let mut dir = open_general();
    dir.merge_channels_from_remote(vec![("general".to_string(), vec![msg(1, "x")])]);
    assert_eq!(dir.list(), vec!["general".to_string()]);
    assert_eq!(dir.messages("general").len(), 0);
}

#[test]
fn append_to_unknown_channel_is_dropped() {
    let mut dir = open_general();
    assert!(!dir.append_message("ghost", msg(1, "x")));
    assert_eq!(dir.list(), vec!["general".to_string()]);
}

#[test]
fn append_is_idempotent_through_directory() {
    let mut dir = open_general();
    assert!(dir.append_message("general", msg(1, "x")));
    assert!(dir.append_message("general", msg(1, "x")));
    assert_eq!(dir.messages("general").len(), 1);
}

#[test]
fn total_message_count() {
    let mut dir = open_general();
    dir.add_channel_local("dev", Vec::new()).unwrap();
    dir.append_message("general", msg(1, "a"));
    dir.append_message("general", msg(2, "b"));
    dir.append_message("dev", msg(3, "c"));
    assert_eq!(dir.total_messages(), 3);
}

#[test]
fn legacy_migration_decision() {
    assert!(needs_legacy_migration(true, false));
    assert!(!needs_legacy_migration(true, true));
    assert!(!needs_legacy_migration(false, false));
    assert!(!needs_legacy_migration(false, true));
}
