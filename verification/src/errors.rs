use vstd::prelude::*;

verus! {

/// Why a channel-directory mutation was refused.
#[derive(Clone, Copy, Debug, PartialEq, Eq, Structural)]
pub enum ChannelError {
    /// The submitted name does not normalize to a valid channel name.
    InvalidName,
    /// The root channel cannot be removed.
    ProtectedChannel,
}

/// Why a message-publish request was refused before reaching the engine.
#[derive(Clone, Copy, Debug, PartialEq, Eq, Structural)]
pub enum PublishError {
    /// The channel field was empty after trimming.
    EmptyChannel,
    /// The named channel is not in the directory.
    UnknownChannel,
    /// Neither a body nor an attachment was supplied.
    EmptyMessage,
}

impl ChannelError {
    /// A short description, for callers that report the error as text.
    pub fn describe(&self) -> (r: &'static str)
        ensures
            *self is InvalidName ==> r@ == "invalid channel name"@,
            *self is ProtectedChannel ==> r@ == "cannot delete #general"@,
    {
        match self {
            ChannelError::InvalidName => "invalid channel name",
            ChannelError::ProtectedChannel => "cannot delete #general",
        }
    }
}

} // verus!
