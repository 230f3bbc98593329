//! The mesh participation engine.
//!
//! The engine owns the channel directory, the telemetry and the voice ring,
//! and decides what each external event does to them and what must be
//! published, persisted or displayed in turn.  The surrounding binary runs
//! the event loop: it feeds one event at a time into the matching handler
//! and then performs the returned actions (writing journals, publishing on
//! the gossip topic, printing lines, loading stores).

use vstd::prelude::*;
use vstd::string::StringExecFns;
use crate::directory::ChannelState;
use crate::directory::root_name;
use crate::directory::unknown_views;
use crate::envelope::IncomingPayload;
use crate::envelope::dispatch_kind;
use crate::envelope::DispatchKind;
use crate::message::ChatMessage;
use crate::names::is_blank;
use crate::names::is_blank_exec;
use crate::names::name_views;
use crate::names::str_eq;
use crate::names::views_without;
use crate::storage::log_insert;
use crate::storage::log_views;
use crate::storage::lemma_log_insert_views;
use crate::telemetry::Telemetry;
use crate::voice::ring_push;
use crate::voice::VoiceRing;
use crate::voice::VoiceSignal;

verus! {

/// A request submitted through the external API bridge.
pub enum ApiRequest {
    /// Publish a message to a channel.
    SendMessage { channel: String, message: ChatMessage },
    /// Advertise the local channel list on the topic.
    BroadcastChannelList,
    /// Advertise a channel removal on the topic.
    BroadcastChannelRemoved(String),
}

/// What the surrounding binary must do after a handler ran, in order.
pub enum EngineAction {
    /// Publish a chat envelope for this channel on the topic.
    PublishChat { channel: String, message: ChatMessage },
    /// Publish a channel-list advertisement.
    PublishChannelList(Vec<String>),
    /// Publish a channel-removal advertisement.
    PublishChannelRemoved(String),
    /// Publish a voice-signal relay envelope.
    PublishVoice(VoiceSignal),
    /// Write the named channel's journal snapshot to disk.
    PersistChannel(String),
    /// Print a display line for the local user.
    DisplayLine(String),
    /// Add the peer as an explicit gossip peer.
    AddExplicitPeer(String),
    /// Remove the peer from the explicit gossip peers.
    RemoveExplicitPeer(String),
    /// Read the journal files for these new channels and hand the parsed
    /// snapshots to [`ChannelState::merge_channels_from_remote`].
    LoadChannels(Vec<String>),
}

/// A display line in the form `[channel] author :: body`.
pub fn format_chat_line(channel: &str, author: &str, body: &str) -> (r: String)
    ensures
        r@ == "["@ + channel@ + "] "@ + author@ + " :: "@ + body@,
{
    let mut s: String = String::from_str("[");
    s.append(channel);
    s.append("] ");
    s.append(author);
    s.append(" :: ");
    s.append(body);
    s
}

/// The engine's state: identity, directory, telemetry and voice ring.
pub struct MeshEngine {
    /// The stable peer identifier derived from the node's keypair.
    pub local_peer_id: String,
    /// Author name for locally typed messages.
    pub nickname: String,
    /// The channel directory with its per-channel stores.
    pub channels: ChannelState,
    /// Peer-liveness telemetry.
    pub telemetry: Telemetry,
    /// The bounded voice-signal ring.
    pub voice_ring: VoiceRing,
}

impl MeshEngine {
    /// All parts well-formed.
    pub open spec fn wf(&self) -> bool {
        &&& self.channels.wf()
        &&& self.telemetry.wf()
        &&& self.voice_ring.wf()
    }

    /// A fresh engine around an opened directory.
    pub fn new(local_peer_id: String, nickname: String, channels: ChannelState) -> (r: MeshEngine)
        requires
            channels.wf(),
        ensures
            r.wf(),
            r.local_peer_id == local_peer_id,
            r.nickname == nickname,
            r.channels == channels,
            r.telemetry.peers().len() == 0,
            r.telemetry.last() is None,
            r.voice_ring@.len() == 0,
    {
        MeshEngine {
            local_peer_id,
            nickname,
            channels,
            telemetry: Telemetry::new(),
            voice_ring: VoiceRing::new(),
        }
    }

    /// A locally typed line: blank input is ignored; anything else becomes a
    /// fresh chat message by the configured nickname, appended to the root
    /// channel's log first, then persisted, published and displayed, with
    /// telemetry stamped.
    pub fn handle_stdin_line(&mut self, line: &str) -> (actions: Vec<EngineAction>)
        requires
            old(self).wf(),
        ensures
            final(self).wf(),
            final(self).local_peer_id == old(self).local_peer_id,
            final(self).nickname == old(self).nickname,
            final(self).voice_ring@ == old(self).voice_ring@,
            final(self).telemetry.peers() == old(self).telemetry.peers(),
            final(self).channels.names() == old(self).channels.names(),
            is_blank(line@) ==> *final(self) == *old(self) && actions@.len() == 0,
            !is_blank(line@) ==> {
                &&& actions@.len() == 3
                &&& (actions@[0] matches EngineAction::PersistChannel(c) && c@ == root_name())
                &&& (actions@[1] matches EngineAction::PublishChat { channel, message } && {
                    &&& channel@ == root_name()
                    &&& message.author@ == old(self).nickname@
                    &&& message.body@ == line@
                    &&& final(self).telemetry.last() == Option::Some(message.timestamp@)
                    &&& log_views(final(self).channels.log_of(root_name())) == log_views(
                        log_insert(old(self).channels.log_of(root_name()), message),
                    )
                })
                &&& (actions@[2] matches EngineAction::DisplayLine(d) && d@ == "["@ + root_name()
                    + "] "@ + "you"@ + " :: "@ + line@)
                &&& forall|c: Seq<char>|
                    c != root_name() && old(self).channels.has_name(c) ==> final(self).channels.log_of(c) == old(self).channels.log_of(c)
            },
    {
        if is_blank_exec(line) {
            return Vec::new();
        }
        let message = ChatMessage::new(self.nickname.clone(), String::from_str(line));
        let ghost m = message;
        let copy = message.clone();
        let stamp = copy.timestamp.clone();
        let display = format_chat_line("general", "you", line);
        let delivered = self.channels.append_message("general", message);
        proof {
            old(self).channels.lemma_root_present();
            assert("general"@ == root_name());
            assert(delivered);
        }
        self.telemetry.note_message(stamp);
        let mut actions: Vec<EngineAction> = Vec::new();
        actions.push(EngineAction::PersistChannel(String::from_str("general")));
        actions.push(
            EngineAction::PublishChat { channel: String::from_str("general"), message: copy },
        );
        actions.push(EngineAction::DisplayLine(display));
        proof {
            assert(m.timestamp@ == copy@.timestamp);
            lemma_log_insert_views(old(self).channels.log_of(root_name()), m, copy);
        }
        actions
    }

    /// One decoded gossip payload, dispatched by the envelope priority:
    /// voice signal first (dropped when it echoes our own peer id, buffered
    /// in the ring otherwise), then channel-list merge, then channel
    /// removal (root-protected, in memory only), then chat append; anything
    /// else is dropped without effect.
    pub fn handle_gossip(&mut self, payload: IncomingPayload) -> (actions: Vec<EngineAction>)
        requires
            old(self).wf(),
        ensures
            final(self).wf(),
            final(self).local_peer_id == old(self).local_peer_id,
            final(self).nickname == old(self).nickname,
            final(self).telemetry.peers() == old(self).telemetry.peers(),
            dispatch_kind(payload) is Voice ==> {
                let sig = payload.voice_signal->0;
                &&& actions@.len() == 0
                &&& final(self).channels == old(self).channels
                &&& final(self).telemetry == old(self).telemetry
                &&& (sig.from@ == old(self).local_peer_id@ ==> final(self).voice_ring@ == old(self).voice_ring@)
                &&& (sig.from@ != old(self).local_peer_id@ ==> final(self).voice_ring@
                    == ring_push(old(self).voice_ring@, sig))
            },
            dispatch_kind(payload) is ChannelList ==> {
                let list = payload.channel_list->0;
                let unknown = unknown_views(old(self).channels.names(), name_views(list@));
                &&& final(self).channels == old(self).channels
                &&& final(self).telemetry == old(self).telemetry
                &&& final(self).voice_ring@ == old(self).voice_ring@
                &&& (list@.len() == 0 || unknown.len() == 0 ==> actions@.len() == 0)
                &&& (list@.len() > 0 && unknown.len() > 0 ==> actions@.len() == 1 && (actions@[0]
                    matches EngineAction::LoadChannels(names) && name_views(names@) == unknown))
            },
            dispatch_kind(payload) is ChannelRemoved ==> {
                let name = payload.channel_removed->0;
                &&& actions@.len() == 0
                &&& final(self).telemetry == old(self).telemetry
                &&& final(self).voice_ring@ == old(self).voice_ring@
                &&& (name@ == root_name() ==> final(self).channels == old(self).channels)
                &&& (name@ != root_name() ==> {
                    &&& final(self).channels.names() == views_without(
                        old(self).channels.names(),
                        name@,
                    )
                    &&& !final(self).channels.has_name(name@)
                    &&& forall|c: Seq<char>|
                        c != name@ && old(self).channels.has_name(c) ==> final(self).channels.has_name(c) && final(self).channels.log_of(c) == old(self).channels.log_of(c)
                })
            },
            dispatch_kind(payload) is Chat ==> {
                let env = payload.chat->0;
                &&& final(self).voice_ring@ == old(self).voice_ring@
                &&& final(self).channels.names() == old(self).channels.names()
                &&& (old(self).channels.has_name(env.channel@) ==> {
                    &&& final(self).channels.log_of(env.channel@) == log_insert(
                        old(self).channels.log_of(env.channel@),
                        env.message,
                    )
                    &&& forall|c: Seq<char>|
                        c != env.channel@ && old(self).channels.has_name(c) ==> final(self).channels.log_of(c) == old(self).channels.log_of(c)
                    &&& final(self).telemetry.last() == Option::Some(env.message.timestamp@)
                    &&& actions@.len() == 2
                    &&& (actions@[0] matches EngineAction::PersistChannel(c) && c@
                        == env.channel@)
                    &&& (actions@[1] matches EngineAction::DisplayLine(d) && d@ == "["@
                        + env.channel@ + "] "@ + env.message.author@ + " :: "@
                        + env.message.body@)
                })
                &&& (!old(self).channels.has_name(env.channel@) ==> *final(self) == *old(self)
                    && actions@.len() == 0)
            },
            dispatch_kind(payload) is Unknown ==> *final(self) == *old(self) && actions@.len()
                == 0,
    {
        let IncomingPayload { voice_signal, channel_list, channel_removed, chat } = payload;
        if let Option::Some(sig) = voice_signal {
            if !str_eq(sig.from.as_str(), self.local_peer_id.as_str()) {
                self.voice_ring.push(sig);
            }
            return Vec::new();
        }
        if let Option::Some(list) = channel_list {
            let mut actions: Vec<EngineAction> = Vec::new();
            if list.len() > 0 {
                let unknown = self.channels.unknown_channels(&list);
                if unknown.len() > 0 {
                    actions.push(EngineAction::LoadChannels(unknown));
                }
            }
            return actions;
        }
        if let Option::Some(name) = channel_removed {
            self.channels.remove_channel_in_memory(name.as_str());
            return Vec::new();
        }
        if let Option::Some(env) = chat {
            let display = format_chat_line(
                env.channel.as_str(),
                env.message.author.as_str(),
                env.message.body.as_str(),
            );
            let stamp = env.message.timestamp.clone();
            let channel = env.channel;
            let delivered = self.channels.append_message(channel.as_str(), env.message);
            let mut actions: Vec<EngineAction> = Vec::new();
            if delivered {
                self.telemetry.note_message(stamp);
                actions.push(EngineAction::PersistChannel(channel));
                actions.push(EngineAction::DisplayLine(display));
            }
            return actions;
        }
        Vec::new()
    }

    /// A command from the external API bridge: a message publish persists
    /// locally first (idempotently, and only where the channel is known)
    /// and is then published and stamped; the broadcast commands publish
    /// the current list or the removal notice without touching state.
    pub fn handle_command(&mut self, request: ApiRequest) -> (actions: Vec<EngineAction>)
        requires
            old(self).wf(),
        ensures
            final(self).wf(),
            final(self).local_peer_id == old(self).local_peer_id,
            final(self).nickname == old(self).nickname,
            final(self).voice_ring@ == old(self).voice_ring@,
            final(self).telemetry.peers() == old(self).telemetry.peers(),
            final(self).channels.names() == old(self).channels.names(),
            match request {
                ApiRequest::SendMessage { channel, message } => {
                    let known = old(self).channels.has_name(channel@);
                    &&& final(self).telemetry.last() == Option::Some(message.timestamp@)
                    &&& (known ==> {
                        &&& final(self).channels.log_of(channel@) == log_insert(
                            old(self).channels.log_of(channel@),
                            message,
                        )
                        &&& forall|c: Seq<char>|
                            c != channel@ && old(self).channels.has_name(c) ==> final(self).channels.log_of(c) == old(self).channels.log_of(c)
                        &&& actions@.len() == 2
                        &&& (actions@[0] matches EngineAction::PersistChannel(c) && c@
                            == channel@)
                        &&& (actions@[1] matches EngineAction::PublishChat {
                            channel: c,
                            message: m,
                        } && c@ == channel@ && m@ == message@)
                    })
                    &&& (!known ==> {
                        &&& final(self).channels == old(self).channels
                        &&& actions@.len() == 1
                        &&& (actions@[0] matches EngineAction::PublishChat {
                            channel: c,
                            message: m,
                        } && c@ == channel@ && m@ == message@)
                    })
                },
                ApiRequest::BroadcastChannelList => {
                    &&& *final(self) == *old(self)
                    &&& actions@.len() == 1
                    &&& (actions@[0] matches EngineAction::PublishChannelList(names)
                        && name_views(names@) == old(self).channels.names())
                },
                ApiRequest::BroadcastChannelRemoved(name) => {
                    &&& *final(self) == *old(self)
                    &&& actions@.len() == 1
                    &&& (actions@[0] matches EngineAction::PublishChannelRemoved(n) && n@
                        == name@)
                },
            },
    {
        match request {
            ApiRequest::SendMessage { channel, message } => {
                let stamp = message.timestamp.clone();
                let copy = message.clone();
                let delivered = self.channels.append_message(channel.as_str(), message);
                self.telemetry.note_message(stamp);
                let mut actions: Vec<EngineAction> = Vec::new();
                if delivered {
                    actions.push(EngineAction::PersistChannel(channel.clone()));
                }
                actions.push(EngineAction::PublishChat { channel, message: copy });
                actions
            },
            ApiRequest::BroadcastChannelList => {
                let list = self.channels.list();
                let mut actions: Vec<EngineAction> = Vec::new();
                actions.push(EngineAction::PublishChannelList(list));
                actions
            },
            ApiRequest::BroadcastChannelRemoved(name) => {
                let mut actions: Vec<EngineAction> = Vec::new();
                actions.push(EngineAction::PublishChannelRemoved(name));
                actions
            },
        }
    }

    /// A voice signal posted locally: wrapped for publication; the local
    /// ring is deliberately left alone (self-echo suppression happens on
    /// the receive side).
    pub fn handle_voice_outbound(&self, signal: VoiceSignal) -> (actions: Vec<EngineAction>)
        ensures
            actions@.len() == 1,
            actions@[0] matches EngineAction::PublishVoice(s) && s == signal,
    {
        let mut actions: Vec<EngineAction> = Vec::new();
        actions.push(EngineAction::PublishVoice(signal));
        actions
    }

    /// A peer found by discovery: marked online and added as an explicit
    /// gossip peer.
    pub fn handle_peer_discovered(&mut self, peer: &str) -> (actions: Vec<EngineAction>)
        requires
            old(self).wf(),
        ensures
            final(self).wf(),
            final(self).channels == old(self).channels,
            final(self).voice_ring@ == old(self).voice_ring@,
            final(self).telemetry.last() == old(self).telemetry.last(),
            final(self).telemetry.has_peer(peer@),
            old(self).telemetry.has_peer(peer@) ==> final(self).telemetry.peers() == old(self).telemetry.peers(),
            !old(self).telemetry.has_peer(peer@) ==> final(self).telemetry.peers() == old(self).telemetry.peers().push(peer@),
            actions@.len() == 1,
            actions@[0] matches EngineAction::AddExplicitPeer(p) && p@ == peer@,
    {
        self.telemetry.note_peer_online(peer);
        let mut actions: Vec<EngineAction> = Vec::new();
        actions.push(EngineAction::AddExplicitPeer(String::from_str(peer)));
        actions
    }

    /// A peer whose discovery record expired: marked offline and removed
    /// from the explicit gossip peers.
    pub fn handle_peer_expired(&mut self, peer: &str) -> (actions: Vec<EngineAction>)
        requires
            old(self).wf(),
        ensures
            final(self).wf(),
            final(self).channels == old(self).channels,
            final(self).voice_ring@ == old(self).voice_ring@,
            final(self).telemetry.last() == old(self).telemetry.last(),
            final(self).telemetry.peers() == views_without(old(self).telemetry.peers(), peer@),
            !final(self).telemetry.has_peer(peer@),
            actions@.len() == 1,
            actions@[0] matches EngineAction::RemoveExplicitPeer(p) && p@ == peer@,
    {
        self.telemetry.note_peer_offline(peer);
        let mut actions: Vec<EngineAction> = Vec::new();
        actions.push(EngineAction::RemoveExplicitPeer(String::from_str(peer)));
        actions
    }

    /// A transport connection opened: the peer is marked online.
    pub fn handle_connection_opened(&mut self, peer: &str)
        requires
            old(self).wf(),
        ensures
            final(self).wf(),
            final(self).channels == old(self).channels,
            final(self).voice_ring@ == old(self).voice_ring@,
            final(self).telemetry.last() == old(self).telemetry.last(),
            final(self).telemetry.has_peer(peer@),
            old(self).telemetry.has_peer(peer@) ==> final(self).telemetry.peers() == old(self).telemetry.peers(),
            !old(self).telemetry.has_peer(peer@) ==> final(self).telemetry.peers() == old(self).telemetry.peers().push(peer@),
    {
        self.telemetry.note_peer_online(peer);
    }

    /// A transport connection closed: the peer is marked offline.
    pub fn handle_connection_closed(&mut self, peer: &str)
        requires
            old(self).wf(),
        ensures
            final(self).wf(),
            final(self).channels == old(self).channels,
            final(self).voice_ring@ == old(self).voice_ring@,
            final(self).telemetry.last() == old(self).telemetry.last(),
            final(self).telemetry.peers() == views_without(old(self).telemetry.peers(), peer@),
            !final(self).telemetry.has_peer(peer@),
    {
        self.telemetry.note_peer_offline(peer);
    }
}

} // verus!
