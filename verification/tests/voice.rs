use gridspeak::VoiceSignal;
use gridspeak::voice::MAX_VOICE_SIGNALS;
use gridspeak::voice::VoiceRing;

fn sig(n: usize) -> VoiceSignal {
    VoiceSignal {
        from: format!("peer-{}", n),
        to: None,
        kind: "offer".to_string(),
        data: format!("payload-{}", n),
    }
}

#[test]
fn ring_keeps_push_order() {
    let mut ring = VoiceRing::new();
    ring.push(sig(1));
    ring.push(sig(2));
    ring.push(sig(3));
    let all = ring.signals();
    assert_eq!(all.len(), 3);
    assert_eq!(all[0].data, "payload-1");
    assert_eq!(all[2].data, "payload-3");
}

#[test]
fn ring_is_bounded_to_most_recent() {
    let mut ring = VoiceRing::new();
    let total = MAX_VOICE_SIGNALS + 37;
    for n in 0..total {
        ring.push(sig(n));
    }
    assert_eq!(ring.len(), MAX_VOICE_SIGNALS);
    let all = ring.signals();
    assert_eq!(all[0].data, format!("payload-{}", total - MAX_VOICE_SIGNALS));
    assert_eq!(
        all[MAX_VOICE_SIGNALS - 1].data,
        format!("payload-{}", total - 1)
    );
    for (i, s) in all.iter().enumerate() {
        assert_eq!(s.data, format!("payload-{}", total - MAX_VOICE_SIGNALS + i));
    }
}
