use base64::Engine as _;
use base64::engine::general_purpose::STANDARD;
use gridspeak::PublishError;
use gridspeak::directory::ChannelState;
use gridspeak::publish::AttachmentPayload;
use gridspeak::publish::MAX_ATTACHMENT_BYTES;
use gridspeak::publish::filter_attachments;
use gridspeak::publish::prepare_publish;

fn payload(name: &str, raw: &[u8]) -> AttachmentPayload {
    AttachmentPayload {
        content_type: "application/octet-stream".to_string(),
        filename: name.to_string(),
        data_base64: STANDARD.encode(raw),
    }
}

fn open_general() -> ChannelState {
    ChannelState::open(vec!["general".to_string()], vec![Vec::new()])
}

#[test]
fn oversized_attachments_are_capped_keeping_earlier() {
    let big = vec![0u8; 300 * 1024];
    let atts = vec![
        payload("one.bin", &big),
        payload("two.bin", &big),
        payload("three.bin", &vec![1u8; 100 * 1024]),
    ];
    let kept = filter_attachments(atts);
    // one.bin (300 KiB) fits; two.bin would exceed 512 KiB; three.bin fits again.
    assert_eq!(kept.len(), 2);
    assert_eq!(kept[0].filename, "one.bin");
    assert_eq!(kept[1].filename, "three.bin");
    let total: usize = kept
        .iter()
        .map(|a| STANDARD.decode(a.data_base64.as_bytes()).unwrap().len())
        .sum();
    assert!(total <= MAX_ATTACHMENT_BYTES);
}

#[test]
fn undecodable_attachments_are_dropped() {
    let atts = vec![
        AttachmentPayload {
            content_type: "text/plain".to_string(),
            filename: "bad.txt".to_string(),
            data_base64: "not@@base64!!".to_string(),
        },
        payload("good.bin", b"data"),
    ];
    let kept = filter_attachments(atts);
    assert_eq!(kept.len(), 1);
    assert_eq!(kept[0].filename, "good.bin");
}

#[test]
fn publish_requires_known_channel() {
    let dir = open_general();
    let r = prepare_publish(&dir, "ghost", "hello".to_string(), None, "nick", Vec::new());
    assert!(matches!(r, Err(PublishError::UnknownChannel)));
    let r = prepare_publish(&dir, "  ", "hello".to_string(), None, "nick", Vec::new());
    assert!(matches!(r, Err(PublishError::EmptyChannel)));
}

#[test]
fn publish_rejects_empty_message() {
    let dir = open_general();
    let r = prepare_publish(&dir, "general", "   ".to_string(), None, "nick", Vec::new());
    assert!(matches!(r, Err(PublishError::EmptyMessage)));
}

#[test]
fn publish_normalizes_channel_and_fills_author() {
    let dir = open_general();
    let (channel, message) = prepare_publish(
        &dir,
        " GENERAL ",
        "hello".to_string(),
        None,
        "fallback",
        Vec::new(),
    )
    .unwrap();
    assert_eq!(channel, "general");
    assert_eq!(message.author, "fallback");
    assert_eq!(message.body, "hello");
    let (_, message) = prepare_publish(
        &dir,
        "general",
        "hi".to_string(),
        Some("alice".to_string()),
        "fallback",
        Vec::new(),
    )
    .unwrap();
    assert_eq!(message.author, "alice");
}

#[test]
fn publish_with_attachments_only_is_allowed() {
    let dir = open_general();
    let (_, message) = prepare_publish(
        &dir,
        "general",
        "  ".to_string(),
        None,
        "nick",
        vec![payload("a.bin", b"x")],
    )
    .unwrap();
    assert_eq!(message.attachments.len(), 1);
    assert_eq!(message.attachments[0].filename, "a.bin");
}

#[test]
fn oversized_publish_is_stored_within_cap() {
    let dir = open_general();
    let big = vec![7u8; 400 * 1024];
    let (_, message) = prepare_publish(
        &dir,
        "general",
        "body".to_string(),
        None,
        "nick",
        vec![payload("one.bin", &big), payload("two.bin", &big)],
    )
    .unwrap();
    let total: usize = message
        .attachments
        .iter()
        .map(|a| STANDARD.decode(a.data_base64.as_bytes()).unwrap().len())
        .sum();
    assert!(total <= MAX_ATTACHMENT_BYTES);
    assert_eq!(message.attachments.len(), 1);
    assert_eq!(message.attachments[0].filename, "one.bin");
}
