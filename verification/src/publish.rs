//! Preparing an externally submitted message for publication: channel
//! normalization, emptiness checks, and the attachment size cap.

use vstd::prelude::*;
use vstd::string::StringExecFns;
use crate::directory::ChannelState;
use crate::errors::PublishError;
use crate::message::Attachment;
use crate::message::AttachmentView;
use crate::message::ChatMessage;
use crate::names::is_blank;
use crate::names::is_blank_exec;
use crate::names::normalize_loose;
use crate::names::normalized_name;

verus! {

/// Largest total decoded attachment size per message (512 KiB), so gossip
/// payloads stay small.
pub const MAX_ATTACHMENT_BYTES: usize = 512 * 1024;

/// An attachment as submitted for publishing, before the size check.
#[derive(Debug)]
pub struct AttachmentPayload {
    pub content_type: String,
    pub filename: String,
    pub data_base64: String,
}

impl View for AttachmentPayload {
    type V = AttachmentView;

    open spec fn view(&self) -> AttachmentView {
        AttachmentView {
            content_type: self.content_type@,
            filename: self.filename@,
            data_base64: self.data_base64@,
        }
    }
}

/// What base64 decoding yields on a given text, if it decodes at all.
pub uninterp spec fn base64_decoded(s: Seq<char>) -> Option<Seq<u8>>;

/// Relies on base64's STANDARD engine: decoding either fails or yields a
/// byte sequence; the outcome depends on the input characters alone.
#[verifier::external_body]
fn decode_base64(s: &str) -> (r: Option<Vec<u8>>)
    ensures
        match r {
            Option::Some(v) => base64_decoded(s@) == Option::Some(v@),
            Option::None => base64_decoded(s@) is None,
        },
{
    base64::Engine::decode(&base64::engine::general_purpose::STANDARD, s.as_bytes()).ok()
}

/// Decoded size of one attachment; undecodable payloads count as nothing
/// (they are dropped anyway).
pub open spec fn decoded_size(a: AttachmentView) -> int {
    match base64_decoded(a.data_base64) {
        Option::Some(d) => d.len() as int,
        Option::None => 0,
    }
}

/// Greedy selection under a byte budget: walk the attachments in order;
/// keep one whose payload decodes and fits in what is left of the budget,
/// drop one that does not decode or does not fit, and go on.  Earlier
/// attachments are kept over later ones.
pub open spec fn keep_attachments(atts: Seq<AttachmentView>, budget: int) -> Seq<AttachmentView>
    decreases atts.len(),
{
    if atts.len() == 0 {
        Seq::<AttachmentView>::empty()
    } else {
        match base64_decoded(atts[0].data_base64) {
            Option::Some(d) => if d.len() <= budget {
                seq![atts[0]] + keep_attachments(atts.drop_first(), budget - d.len())
            } else {
                keep_attachments(atts.drop_first(), budget)
            },
            Option::None => keep_attachments(atts.drop_first(), budget),
        }
    }
}

/// Sum of decoded sizes.
pub open spec fn decoded_sum(atts: Seq<AttachmentView>) -> int
    decreases atts.len(),
{
    if atts.len() == 0 {
        0
    } else {
        decoded_size(atts[0]) + decoded_sum(atts.drop_first())
    }
}

/// Law: whatever is submitted, the retained attachments decode to at most
/// the budget in total.
pub proof fn lemma_attachment_cap(atts: Seq<AttachmentView>, budget: int)
    requires
        budget >= 0,
    ensures
        decoded_sum(keep_attachments(atts, budget)) <= budget,
    decreases atts.len(),
{
    if atts.len() > 0 {
        let rest = atts.drop_first();
        match base64_decoded(atts[0].data_base64) {
            Option::Some(d) => {
                if d.len() <= budget {
                    lemma_attachment_cap(rest, budget - d.len());
                    let kept = seq![atts[0]] + keep_attachments(rest, budget - d.len());
                    assert(kept[0] == atts[0]);
                    assert(kept.drop_first() =~= keep_attachments(rest, budget - d.len()));
                } else {
                    lemma_attachment_cap(rest, budget);
                }
            },
            Option::None => {
                lemma_attachment_cap(rest, budget);
            },
        }
    }
}

/// The attachment views of a list.
pub open spec fn payload_views(atts: Seq<AttachmentPayload>) -> Seq<AttachmentView> {
    atts.map_values(|a: AttachmentPayload| a@)
}

/// The attachment views of a kept list.
pub open spec fn attachment_views(atts: Seq<Attachment>) -> Seq<AttachmentView> {
    atts.map_values(|a: Attachment| a@)
}

/// Applies the size cap to submitted attachments: keeps, in order, those
/// that decode and still fit under [`MAX_ATTACHMENT_BYTES`] in total,
/// preferring earlier attachments over later ones.
pub fn filter_attachments(payloads: Vec<AttachmentPayload>) -> (kept: Vec<Attachment>)
    ensures
        attachment_views(kept@) == keep_attachments(
            payload_views(payloads@),
            MAX_ATTACHMENT_BYTES as int,
        ),
{
    let ghost av = payload_views(payloads@);
    let n = payloads.len();
    let mut kept: Vec<Attachment> = Vec::new();
    let mut budget: usize = MAX_ATTACHMENT_BYTES;
    let mut i: usize = 0;
    proof {
        assert(av.skip(0) =~= av);
    }
    while i < n
        invariant
            i <= n,
            n == payloads@.len(),
            av == payload_views(payloads@),
            budget <= MAX_ATTACHMENT_BYTES,
            keep_attachments(av, MAX_ATTACHMENT_BYTES as int) == attachment_views(kept@)
                + keep_attachments(av.skip(i as int), budget as int),
        decreases n - i,
    {
        proof {
            assert(av.skip(i as int)[0] == av[i as int]);
            assert(av.skip(i as int).drop_first() =~= av.skip(i as int + 1));
        }
        let p = &payloads[i];
        match decode_base64(p.data_base64.as_str()) {
            Option::Some(decoded) => {
                if decoded.len() <= budget {
                    let a = Attachment {
                        content_type: p.content_type.clone(),
                        filename: p.filename.clone(),
                        data_base64: p.data_base64.clone(),
                    };
                    proof {
                        assert(a@ == av[i as int]);
                    }
                    budget = budget - decoded.len();
                    kept.push(a);
                    proof {
                        assert(attachment_views(kept@) =~= attachment_views(
                            kept@.drop_last(),
                        ).push(av[i as int]));
                        assert(attachment_views(kept@.drop_last()).push(av[i as int])
                            + keep_attachments(av.skip(i as int + 1), budget as int)
                            =~= attachment_views(kept@.drop_last()) + (seq![av[i as int]]
                            + keep_attachments(av.skip(i as int + 1), budget as int)));
                    }
                }
            },
            Option::None => {},
        }
        i = i + 1;
    }
    proof {
        assert(av.skip(n as int) =~= Seq::<AttachmentView>::empty());
        assert(attachment_views(kept@) + Seq::<AttachmentView>::empty() =~= attachment_views(
            kept@,
        ));
    }
    kept
}

/// Checks and shapes an externally submitted publish request: the channel
/// is trimmed and lowercased and must exist, the message must carry a body
/// or an attachment, the author falls back to the node's nickname, and the
/// attachments are capped.  Returns the channel and the ready message.
pub fn prepare_publish(
    directory: &ChannelState,
    channel: &str,
    body: String,
    author: Option<String>,
    fallback_author: &str,
    attachments: Vec<AttachmentPayload>,
) -> (r: Result<(String, ChatMessage), PublishError>)
    requires
        directory.wf(),
    ensures
        match r {
            Ok(pair) => {
                &&& pair.0@ == normalized_name(channel@)
                &&& pair.0@.len() > 0
                &&& directory.has_name(pair.0@)
                &&& !(is_blank(body@) && attachments@.len() == 0)
                &&& pair.1.author@ == (match author {
                    Option::Some(a) => a@,
                    Option::None => fallback_author@,
                })
                &&& pair.1.body == body
                &&& attachment_views(pair.1.attachments@) == keep_attachments(
                    payload_views(attachments@),
                    MAX_ATTACHMENT_BYTES as int,
                )
            },
            Err(e) => match e {
                PublishError::EmptyChannel => normalized_name(channel@).len() == 0,
                PublishError::UnknownChannel => normalized_name(channel@).len() > 0
                    && !directory.has_name(normalized_name(channel@)),
                PublishError::EmptyMessage => directory.has_name(normalized_name(channel@))
                    && is_blank(body@) && attachments@.len() == 0,
            },
        },
{
    let ch = normalize_loose(channel);
    if ch.as_str().unicode_len() == 0 {
        return Err(PublishError::EmptyChannel);
    }
    match directory.get_store(ch.as_str()) {
        Option::Some(_) => {},
        Option::None => {
            return Err(PublishError::UnknownChannel);
        },
    }
    if is_blank_exec(body.as_str()) && attachments.is_empty() {
        return Err(PublishError::EmptyMessage);
    }
    let author_name: String = match author {
        Option::Some(a) => a,
        Option::None => String::from_str(fallback_author),
    };
    let kept = filter_attachments(attachments);
    let message = ChatMessage::with_attachments(author_name, body, kept);
    Ok((ch, message))
}

} // verus!
