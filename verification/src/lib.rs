//! Core of a peer-to-peer chat mesh node.
//!
//! The crate holds the node's replicated state and the rules that govern it:
//! per-channel append-only chat logs with idempotent insertion, the channel
//! directory with its undeletable root channel, the envelope dispatch rules
//! for inbound gossip, the bounded voice-signal ring, peer-liveness telemetry,
//! and the engine handlers that turn each external event into state updates
//! and outbound actions.  Transport, disk and HTTP plumbing live in the
//! surrounding binary, which feeds this crate plain values.

pub mod config;
pub mod directory;
pub mod engine;
pub mod envelope;
pub mod errors;
pub mod message;
pub mod names;
pub mod publish;
pub mod storage;
pub mod telemetry;
pub mod voice;

pub use config::NodeConfig;
pub use errors::ChannelError;
pub use errors::PublishError;
pub use message::Attachment;
pub use message::ChatMessage;
pub use storage::ChatStore;
pub use voice::VoiceSignal;
