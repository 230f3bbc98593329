use gridspeak::ChannelError;
use gridspeak::names::normalize_channel_name;
use gridspeak::names::normalize_loose;
use gridspeak::names::is_blank_exec;
use gridspeak::names::store_file_name;
use gridspeak::names::str_eq;

#[test]
fn normalization_trims_and_lowercases() {
    assert_eq!(normalize_channel_name(" Foo_1 ").unwrap(), "foo_1");
    assert_eq!(normalize_channel_name("foo_1").unwrap(), "foo_1");
    assert_eq!(normalize_channel_name("GENERAL").unwrap(), "general");
    assert_eq!(normalize_channel_name("\tdev-chat\n").unwrap(), "dev-chat");
}

#[test]
fn invalid_names_are_rejected() {
    assert_eq!(normalize_channel_name(""), Err(ChannelError::InvalidName));
    assert_eq!(normalize_channel_name("   "), Err(ChannelError::InvalidName));
    assert_eq!(normalize_channel_name("has space"), Err(ChannelError::InvalidName));
    assert_eq!(normalize_channel_name("a!b"), Err(ChannelError::InvalidName));
    let long = "x".repeat(65);
    assert_eq!(normalize_channel_name(&long), Err(ChannelError::InvalidName));
    let max = "x".repeat(64);
    assert_eq!(normalize_channel_name(&max).unwrap(), max);
}

#[test]
fn loose_normalization_does_not_validate() {
    assert_eq!(normalize_loose("  Hello World! "), "hello world!");
    assert_eq!(normalize_loose(""), "");
}

#[test]
fn blank_detection() {
    assert!(is_blank_exec(""));
    assert!(is_blank_exec(" \t\r\n"));
    assert!(!is_blank_exec(" x "));
}

#[test]
fn store_file_names() {
    assert_eq!(store_file_name("general"), "messages-general.json");
    assert_eq!(store_file_name("dev"), "messages-dev.json");
}

#[test]
fn string_comparison() {
    assert!(str_eq("abc", "abc"));
    assert!(!str_eq("abc", "abd"));
    assert!(!str_eq("abc", "ab"));
    assert!(str_eq("", ""));
}

#[test]
fn error_descriptions() {
    assert_eq!(ChannelError::InvalidName.describe(), "invalid channel name");
    assert_eq!(ChannelError::ProtectedChannel.describe(), "cannot delete #general");
}
