//! Conversations and messages as the messengers' backends hand them over.
use vstd::prelude::*;
use crate::json;
use crate::json::Json;
use crate::text;
use crate::time::Timestamp;

verus! {

/// What kind of conversation it is.
#[derive(Clone, Copy, Debug, PartialEq, Eq, Structural)]
pub enum ImConversationKind {
    /// Between two people.
    Dm,
    /// Between a few people.
    GroupDm,
    /// An open channel.
    Channel,
    /// A channel by invitation.
    PrivateChannel,
}

/// The name under which a kind is stored.
pub open spec fn source_kind_of(k: ImConversationKind) -> Seq<char> {
    match k {
        ImConversationKind::Dm => "dm"@,
        ImConversationKind::GroupDm => "group_dm"@,
        ImConversationKind::Channel => "channel"@,
        ImConversationKind::PrivateChannel => "private_channel"@,
    }
}

impl ImConversationKind {
    /// The name under which the kind is stored.
    pub fn as_source_kind(self) -> (r: &'static str)
        ensures
            r@ == source_kind_of(self),
    {
        match self {
            ImConversationKind::Dm => "dm",
            ImConversationKind::GroupDm => "group_dm",
            ImConversationKind::Channel => "channel",
            ImConversationKind::PrivateChannel => "private_channel",
        }
    }
}

/// One conversation.
pub struct ImConversation {
    /// The backend's id, by which cursor and files are kept.
    pub id: String,
    pub label: Option<String>,
    pub kind: ImConversationKind,
    /// What the backend wants to remember.
    pub raw: Json,
}

/// What a conversation is.
#[verifier::ext_equal]
pub struct ConvView {
    pub id: Seq<char>,
    pub label: Option<Seq<char>>,
    pub kind: ImConversationKind,
    pub raw: json::Tree,
}

impl View for ImConversation {
    type V = ConvView;

    open spec fn view(&self) -> ConvView {
        ConvView {
            id: self.id@,
            label: text::opt_text(self.label),
            kind: self.kind,
            raw: self.raw.view(),
        }
    }
}

impl ConvView {
    /// The label, or the id where there is none.
    pub open spec fn shown(self) -> Seq<char> {
        match self.label {
            Some(l) => l,
            None => self.id,
        }
    }
}

impl ImConversation {
    /// The label, or the id where there is none.
    pub fn shown_label(&self) -> (r: &str)
        ensures
            r@ == self@.shown(),
    {
        match &self.label {
            Some(l) => l.as_str(),
            None => self.id.as_str(),
        }
    }
}

/// A file that came with a message.
pub struct ImAttachment {
    /// The name in the staging directory.
    pub filename: String,
    /// Where it lies.
    pub local_path: String,
    /// The media type, where it is an image.
    pub mime_type: Option<String>,
    pub bytes: u64,
    /// What it is called.
    pub alt: Option<String>,
}

/// What an attachment is.
pub struct AttachmentView {
    pub filename: Seq<char>,
    pub local_path: Seq<char>,
    pub mime_type: Option<Seq<char>>,
    pub bytes: u64,
    pub alt: Option<Seq<char>>,
}

impl View for ImAttachment {
    type V = AttachmentView;

    open spec fn view(&self) -> AttachmentView {
        AttachmentView {
            filename: self.filename@,
            local_path: self.local_path@,
            mime_type: text::opt_text(self.mime_type),
            bytes: self.bytes,
            alt: text::opt_text(self.alt),
        }
    }
}

impl Clone for ImAttachment {
    fn clone(&self) -> (r: Self)
        ensures
            r == *self,
    {
        ImAttachment {
            filename: self.filename.clone(),
            local_path: self.local_path.clone(),
            mime_type: match &self.mime_type {
                Some(m) => Some(m.clone()),
                None => None,
            },
            bytes: self.bytes,
            alt: match &self.alt {
                Some(a) => Some(a.clone()),
                None => None,
            },
        }
    }
}

/// What the attachments of a list are.
pub open spec fn attachment_views(v: Seq<ImAttachment>) -> Seq<AttachmentView> {
    Seq::new(v.len(), |i: int| v[i]@)
}

/// A copy of the attachments.
pub fn copy_attachments(v: &Vec<ImAttachment>) -> (r: Vec<ImAttachment>)
    ensures
        r@ == v@,
{
    let mut out: Vec<ImAttachment> = Vec::new();
    let mut i: usize = 0;
    while i < v.len()
        invariant
            i <= v@.len(),
            out@ == v@.take(i as int),
        decreases v@.len() - i,
    {
        out.push(v[i].clone());
        i += 1;
        assert(out@ =~= v@.take(i as int));
    }
    assert(out@ =~= v@);
    out
}

/// One message.
pub struct ImMessage {
    /// The backend's id.
    pub id: String,
    pub timestamp: Timestamp,
    pub sender: Option<String>,
    /// The body as it is shown.
    pub text: String,
    pub external_url: Option<String>,
    /// The message was taken back.
    pub deleted: bool,
    pub attachments: Vec<ImAttachment>,
    /// What the backend wants to remember.
    pub raw: Json,
}

/// What a message is.
#[verifier::ext_equal]
pub struct MessageView {
    pub id: Seq<char>,
    pub timestamp: Timestamp,
    pub sender: Option<Seq<char>>,
    pub text: Seq<char>,
    pub external_url: Option<Seq<char>>,
    pub deleted: bool,
    pub attachments: Seq<AttachmentView>,
    pub raw: json::Tree,
}

impl View for ImMessage {
    type V = MessageView;

    open spec fn view(&self) -> MessageView {
        MessageView {
            id: self.id@,
            timestamp: self.timestamp,
            sender: text::opt_text(self.sender),
            text: self.text@,
            external_url: text::opt_text(self.external_url),
            deleted: self.deleted,
            attachments: attachment_views(self.attachments@),
            raw: self.raw.view(),
        }
    }
}

impl ImMessage {
    /// A copy of the message.
    pub fn copy(&self) -> (r: Self)
        ensures
            r@ == self@,
    {
        ImMessage {
            id: self.id.clone(),
            timestamp: self.timestamp,
            sender: match &self.sender {
                Some(s) => Some(s.clone()),
                None => None,
            },
            text: self.text.clone(),
            external_url: match &self.external_url {
                Some(s) => Some(s.clone()),
                None => None,
            },
            deleted: self.deleted,
            attachments: copy_attachments(&self.attachments),
            raw: self.raw.copy(),
        }
    }
}

/// What the messages of a list are.
pub open spec fn message_views(v: Seq<ImMessage>) -> Seq<MessageView> {
    Seq::new(v.len(), |i: int| v[i]@)
}

// ---------------------------------------------------------------------------
// Laws
// ---------------------------------------------------------------------------

/// The kinds of conversations are stored under their own names, and a conversation is shown
/// by its label, else by its id.
pub proof fn law_conversations_are_told_by_kind_and_label(c: ConvView, label: Seq<char>)
    ensures
        source_kind_of(ImConversationKind::Dm) == "dm"@,
        source_kind_of(ImConversationKind::GroupDm) == "group_dm"@,
        source_kind_of(ImConversationKind::Channel) == "channel"@,
        source_kind_of(ImConversationKind::PrivateChannel) == "private_channel"@,
        (ConvView { label: Some(label), ..c }).shown() == label,
        (ConvView { label: None, ..c }).shown() == c.id,
{
}

} // verus!
