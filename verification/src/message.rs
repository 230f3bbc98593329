//! Chat messages and their inline attachments.

use vstd::prelude::*;

verus! {

/// A single inline attachment (file, image, audio, video) carried inside a
/// chat message as base64 text.
#[derive(Debug)]
pub struct Attachment {
    /// MIME type, e.g. `image/png` or `application/octet-stream`.
    pub content_type: String,
    /// Original filename, kept for download.
    pub filename: String,
    /// Inline data, base64-encoded.  Kept small so gossip payloads stay small.
    pub data_base64: String,
}

/// Mathematical image of an [`Attachment`].
#[verifier::ext_equal]
pub struct AttachmentView {
    pub content_type: Seq<char>,
    pub filename: Seq<char>,
    pub data_base64: Seq<char>,
}

impl View for Attachment {
    type V = AttachmentView;

    open spec fn view(&self) -> AttachmentView {
        AttachmentView {
            content_type: self.content_type@,
            filename: self.filename@,
            data_base64: self.data_base64@,
        }
    }
}

impl Clone for Attachment {
    fn clone(&self) -> (res: Self)
        ensures
            res@ == self@,
    {
        Attachment {
            content_type: self.content_type.clone(),
            filename: self.filename.clone(),
            data_base64: self.data_base64.clone(),
        }
    }
}

/// A replicated chat message shared over the mesh.
#[derive(Debug)]
pub struct ChatMessage {
    /// 128-bit identifier, generated at creation; the deduplication key.
    pub id: u128,
    pub author: String,
    pub body: String,
    /// Creation time as an RFC 3339 string.
    pub timestamp: String,
    pub attachments: Vec<Attachment>,
}

/// Mathematical image of a [`ChatMessage`].
#[verifier::ext_equal]
pub struct ChatMessageView {
    pub id: u128,
    pub author: Seq<char>,
    pub body: Seq<char>,
    pub timestamp: Seq<char>,
    pub attachments: Seq<AttachmentView>,
}

impl View for ChatMessage {
    type V = ChatMessageView;

    open spec fn view(&self) -> ChatMessageView {
        ChatMessageView {
            id: self.id,
            author: self.author@,
            body: self.body@,
            timestamp: self.timestamp@,
            attachments: self.attachments@.map_values(|a: Attachment| a@),
        }
    }
}

impl Clone for ChatMessage {
    fn clone(&self) -> (res: Self)
        ensures
            res@ == self@,
    {
        let attachments = self.attachments.clone();
        proof {
            assert forall|i: int| 0 <= i < attachments@.len() implies attachments@[i]@
                == self.attachments@[i]@ by {
                assert(cloned(self.attachments@[i], attachments@[i]));
            }
            assert(attachments@.map_values(|a: Attachment| a@) =~= self.attachments@.map_values(
                |a: Attachment| a@,
            ));
        }
        ChatMessage {
            id: self.id,
            author: self.author.clone(),
            body: self.body.clone(),
            timestamp: self.timestamp.clone(),
            attachments,
        }
    }
}

/// Relies on uuid::Uuid::new_v4: a freshly generated random (version 4) UUID,
/// taken as its 128-bit value.  The value is random, so nothing is assumed of
/// it.
#[verifier::external_body]
pub(crate) fn fresh_message_id() -> u128 {
    uuid::Uuid::new_v4().as_u128()
}

/// Relies on chrono::Utc::now and DateTime::to_rfc3339: the current UTC time
/// rendered as an RFC 3339 string.  The value depends on the system clock, so
/// nothing is assumed of it.
#[verifier::external_body]
pub(crate) fn now_rfc3339() -> String {
    chrono::Utc::now().to_rfc3339()
}

impl ChatMessage {
    /// A fresh message without attachments, stamped with a new identifier and
    /// the current time.
    pub fn new(author: String, body: String) -> (r: ChatMessage)
        ensures
            r.author == author,
            r.body == body,
            r.attachments@.len() == 0,
    {
        ChatMessage {
            id: fresh_message_id(),
            author,
            body,
            timestamp: now_rfc3339(),
            attachments: Vec::new(),
        }
    }

    /// A fresh message carrying the given attachments.
    pub fn with_attachments(author: String, body: String, attachments: Vec<Attachment>) -> (r:
        ChatMessage)
        ensures
            r.author == author,
            r.body == body,
            r.attachments == attachments,
    {
        ChatMessage { id: fresh_message_id(), author, body, timestamp: now_rfc3339(), attachments }
    }
}

} // verus!
