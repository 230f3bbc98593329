use gridspeak::ChannelError;
use gridspeak::NodeConfig;
use gridspeak::config::default_channels;
use gridspeak::config::default_config_path;
use gridspeak::config::default_topic;
use gridspeak::directory::default_channel;

fn base_config() -> NodeConfig {
    NodeConfig {
        data_dir: "/tmp/data".to_string(),
        topic: "gridspeak-global".to_string(),
        bootstrap_nodes: Vec::new(),
        nickname: "nick".to_string(),
        channels: vec!["general".to_string()],
    }
}

#[test]
fn defaults() {
    let cfg = NodeConfig::default();
    assert_eq!(cfg.topic, "gridspeak-global");
    assert!(cfg.bootstrap_nodes.is_empty());
    assert_eq!(cfg.channels, vec!["general".to_string()]);
    assert!(cfg.data_dir.ends_with("/gridspeak"));
}

#[test]
fn config_file_path() {
    assert_eq!(NodeConfig::config_file("/tmp/x"), "/tmp/x/gridspeak.toml");
}

#[test]
fn free_defaults() {
    assert_eq!(default_topic(), "gridspeak-global");
    assert_eq!(default_channels(), vec!["general".to_string()]);
    assert_eq!(default_channel(), "general");
    assert!(default_config_path().ends_with("/gridspeak/gridspeak.toml"));
}

#[test]
fn add_channel_normalizes_and_deduplicates() {
    let mut cfg = base_config();
    assert_eq!(cfg.add_channel(" Foo_1 "), Ok(true));
    assert_eq!(cfg.add_channel("foo_1"), Ok(false));
    assert_eq!(cfg.channels, vec!["general".to_string(), "foo_1".to_string()]);
}

#[test]
fn add_channel_rejects_invalid() {
    let mut cfg = base_config();
    assert_eq!(cfg.add_channel("bad name"), Err(ChannelError::InvalidName));
    assert_eq!(cfg.add_channel(""), Err(ChannelError::InvalidName));
    assert_eq!(cfg.channels, vec!["general".to_string()]);
}

#[test]
fn remove_channel_keeps_order() {
    let mut cfg = base_config();
    cfg.add_channel("a1").unwrap();
    cfg.add_channel("b2").unwrap();
    cfg.remove_channel("a1");
    assert_eq!(cfg.channels, vec!["general".to_string(), "b2".to_string()]);
    cfg.remove_channel("missing");
    assert_eq!(cfg.channels, vec!["general".to_string(), "b2".to_string()]);
}
