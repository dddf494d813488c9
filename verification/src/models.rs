//! The chat messages and what is sent to clients about them.
use vstd::prelude::*;
use crate::text::same_text;

verus! {

/// What a message carries: text, an image or another file.
#[derive(Clone, Copy, Debug, PartialEq, Eq, Structural)]
pub enum MessageKind {
    Text,
    Image,
    File,
}

/// The stored name of a message kind.
pub open spec fn kind_text(k: MessageKind) -> Seq<char> {
    match k {
        MessageKind::Text => "text"@,
        MessageKind::Image => "image"@,
        MessageKind::File => "file"@,
    }
}

/// The message kind stored under a name, if any.
pub open spec fn kind_from_text(s: Seq<char>) -> Option<MessageKind> {
    if s == "text"@ {
        Some(MessageKind::Text)
    } else if s == "image"@ {
        Some(MessageKind::Image)
    } else if s == "file"@ {
        Some(MessageKind::File)
    } else {
        None
    }
}

impl MessageKind {
    /// The name under which the kind is stored and sent.
    pub fn as_str(self) -> (r: &'static str)
        ensures
            r@ == kind_text(self),
    {
        match self {
            MessageKind::Text => "text",
            MessageKind::Image => "image",
            MessageKind::File => "file",
        }
    }

    /// The kind stored under `s`; unknown names give `None`.
    pub fn from_str(s: &str) -> (r: Option<Self>)
        ensures
            r == kind_from_text(s@),
    {
        if same_text(s, "text") {
            Some(MessageKind::Text)
        } else if same_text(s, "image") {
            Some(MessageKind::Image)
        } else if same_text(s, "file") {
            Some(MessageKind::File)
        } else {
            None
        }
    }
}

/// Reading back the stored name of a kind gives the kind again.
pub proof fn lemma_kind_text_roundtrip(k: MessageKind)
    ensures
        kind_from_text(kind_text(k)) == Some(k),
{
    reveal_strlit("text");
    reveal_strlit("image");
    reveal_strlit("file");
    assert("text"@ != "image"@ && "text"@ != "file"@ && "image"@ != "file"@) by {
        assert("text"@[0] != "image"@[0]);
        assert("text"@[0] != "file"@[0]);
        assert("image"@[0] != "file"@[0]);
    }
}

/// The kinds are stored as "text", "image" and "file", and these three
/// names are the only ones read back as a kind.
pub proof fn lemma_kind_names(s: Seq<char>)
    ensures
        kind_text(MessageKind::Text) == "text"@,
        kind_text(MessageKind::Image) == "image"@,
        kind_text(MessageKind::File) == "file"@,
        kind_from_text(s) is Some <==> (s == "text"@ || s == "image"@ || s == "file"@),
{
}

/// A stored chat message.
pub struct Message {
    pub id: i64,
    pub hostname: String,
    pub ip: String,
    pub kind: MessageKind,
    pub content: Option<String>,
    pub filename: Option<String>,
    pub orig_name: Option<String>,
    pub created_at: i64,
    pub recalled: bool,
}

/// Message as sent to clients.
pub struct MessageDto {
    pub id: i64,
    pub sender: String,
    pub hostname: String,
    pub ip: String,
    pub avatar_url: String,
    pub kind: MessageKind,
    pub content: Option<String>,
    pub file_url: Option<String>,
    pub orig_name: Option<String>,
    pub size: Option<u64>,
    pub created_at: i64,
    pub recalled: bool,
}

/// An event pushed to every connected client.
pub enum SseEvent {
    NewMessage { message: MessageDto },
    Recalled { id: i64 },
}

/// The body of a text message post.
pub struct PostMessageRequest {
    pub content: String,
}

/// Who the asking client is.
pub struct MeResponse {
    pub hostname: String,
    pub ip: String,
    pub display: String,
    pub avatar_url: String,
}

/// One page of messages, oldest first, and whether older ones remain.
pub struct MessagesResponse {
    pub messages: Vec<MessageDto>,
    pub has_more: bool,
}

} // verus!
