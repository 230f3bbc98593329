//! Inbound gossip envelopes.
//!
//! A gossip payload is a JSON object carrying one of four top-level keys;
//! the surrounding binary parses the JSON and hands this crate which keys
//! were present and well-formed.  The first key present wins, checked in
//! the order: voice signal, channel list, channel removal, chat message.

use vstd::prelude::*;
use crate::message::ChatMessage;
use crate::voice::VoiceSignal;

verus! {

/// A chat message bound for a named channel.
pub struct ChatEnvelope {
    pub channel: String,
    pub message: ChatMessage,
}

/// A decoded inbound gossip payload: each field is `Some` exactly when its
/// top-level key was present and its value parsed.
pub struct IncomingPayload {
    /// The `voice_signal` key.
    pub voice_signal: Option<VoiceSignal>,
    /// The `channel_list` key: the advertised channel names.
    pub channel_list: Option<Vec<String>>,
    /// The `channel_removed` key: the name of the removed channel.
    pub channel_removed: Option<String>,
    /// The `channel` and `message` keys together.
    pub chat: Option<ChatEnvelope>,
}

/// Which handler an inbound payload reaches.
#[derive(Clone, Copy, Debug, PartialEq, Eq, Structural)]
pub enum DispatchKind {
    Voice,
    ChannelList,
    ChannelRemoved,
    Chat,
    Unknown,
}

/// The dispatch rule: the first key present wins, in this order.
pub open spec fn dispatch_kind(p: IncomingPayload) -> DispatchKind {
    if p.voice_signal is Some {
        DispatchKind::Voice
    } else if p.channel_list is Some {
        DispatchKind::ChannelList
    } else if p.channel_removed is Some {
        DispatchKind::ChannelRemoved
    } else if p.chat is Some {
        DispatchKind::Chat
    } else {
        DispatchKind::Unknown
    }
}

/// Where a payload is dispatched.
pub fn classify(p: &IncomingPayload) -> (r: DispatchKind)
    ensures
        r == dispatch_kind(*p),
{
    if p.voice_signal.is_some() {
        DispatchKind::Voice
    } else if p.channel_list.is_some() {
        DispatchKind::ChannelList
    } else if p.channel_removed.is_some() {
        DispatchKind::ChannelRemoved
    } else if p.chat.is_some() {
        DispatchKind::Chat
    } else {
        DispatchKind::Unknown
    }
}

} // verus!
