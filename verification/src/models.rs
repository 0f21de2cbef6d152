//! Data shapes shared by the chat pipeline: messages, completion results, errors.
use vstd::prelude::*;

use crate::text::str_eq;

verus! {

/// Protocol family of a provider connection.
#[derive(Debug, Clone, Copy, PartialEq, Eq, Structural)]
pub enum ConnectionKind {
    /// Any OpenAI-compatible HTTP API.
    Openai,
    /// Native Anthropic Messages API.
    Anthropic,
}

impl ConnectionKind {
    /// Parse the stored kind tag (`"openai"` / `"anthropic"`).
    pub fn from_db(s: &str) -> (r: Option<ConnectionKind>)
        ensures
            s@ == "openai"@ ==> r == Some(ConnectionKind::Openai),
            s@ == "anthropic"@ ==> r == Some(ConnectionKind::Anthropic),
            s@ != "openai"@ && s@ != "anthropic"@ ==> r is None,
    {
        proof {
            reveal_strlit("openai");
            reveal_strlit("anthropic");
            assert("openai"@.len() != "anthropic"@.len());
        }
        if str_eq(s, "openai") {
            Some(ConnectionKind::Openai)
        } else if str_eq(s, "anthropic") {
            Some(ConnectionKind::Anthropic)
        } else {
            None
        }
    }
}

/// Base64 image attached to a user turn.
#[derive(Debug, Clone)]
pub struct ChatImage {
    pub mime_type: String,
    pub data_base64: String,
}

impl ChatImage {
    /// Field-by-field copy.
    pub fn duplicate(&self) -> (r: ChatImage)
        ensures
            r == *self,
    {
        ChatImage { mime_type: self.mime_type.clone(), data_base64: self.data_base64.clone() }
    }
}

/// One chat message: `role` is `"system"`, `"user"` or `"assistant"`.
#[derive(Debug, Clone)]
pub struct ChatMessage {
    pub role: String,
    pub content: String,
    pub images: Vec<ChatImage>,
}

/// Mathematical view of a message: role and content as characters, images as values.
pub struct MessageView {
    pub role: Seq<char>,
    pub content: Seq<char>,
    pub images: Seq<ChatImage>,
}

impl View for ChatMessage {
    type V = MessageView;

    open spec fn view(&self) -> MessageView {
        MessageView { role: self.role@, content: self.content@, images: self.images@ }
    }
}

/// Views of a run of messages.
pub open spec fn views(ms: Seq<ChatMessage>) -> Seq<MessageView> {
    Seq::new(ms.len(), |i: int| ms[i]@)
}

/// Views distribute over `push`.
pub proof fn lemma_views_push(a: Seq<ChatMessage>, m: ChatMessage)
    ensures
        views(a.push(m)) == views(a).push(m@),
{
    assert(views(a.push(m)) =~= views(a).push(m@));
}

/// Views of a range grow by one element at a time.
pub proof fn lemma_views_range_step(s: Seq<ChatMessage>, a: int, i: int)
    requires
        0 <= a <= i < s.len(),
    ensures
        views(s.subrange(a, i + 1)) == views(s.subrange(a, i)).push(s[i]@),
{
    assert(views(s.subrange(a, i + 1)) =~= views(s.subrange(a, i)).push(s[i]@));
}

impl ChatMessage {
    /// Field-by-field copy.
    pub fn duplicate(&self) -> (r: ChatMessage)
        ensures
            r@ == self@,
    {
        let mut images: Vec<ChatImage> = Vec::new();
        let mut i: usize = 0;
        while i < self.images.len()
            invariant
                i <= self.images.len(),
                images@ == self.images@.subrange(0, i as int),
            decreases self.images.len() - i,
        {
            images.push(self.images[i].duplicate());
            i = i + 1;
            assert(images@ =~= self.images@.subrange(0, i as int));
        }
        assert(images@ =~= self.images@);
        ChatMessage { role: self.role.clone(), content: self.content.clone(), images }
    }
}

/// Copy of a run of messages.
pub fn duplicate_messages(ms: &[ChatMessage]) -> (r: Vec<ChatMessage>)
    ensures
        views(r@) == views(ms@),
{
    let mut out: Vec<ChatMessage> = Vec::new();
    let mut i: usize = 0;
    while i < ms.len()
        invariant
            i <= ms.len(),
            views(out@) == views(ms@.subrange(0, i as int)),
        decreases ms.len() - i,
    {
        let d = ms[i].duplicate();
        proof {
            lemma_views_push(out@, d);
            lemma_views_range_step(ms@, 0, i as int);
        }
        out.push(d);
        i = i + 1;
    }
    assert(ms@.subrange(0, ms.len() as int) =~= ms@);
    out
}

/// Copy of `ms[a..b]`.
pub fn messages_range(ms: &[ChatMessage], a: usize, b: usize) -> (r: Vec<ChatMessage>)
    requires
        a <= b <= ms.len(),
    ensures
        views(r@) == views(ms@.subrange(a as int, b as int)),
{
    let mut out: Vec<ChatMessage> = Vec::new();
    let mut i = a;
    while i < b
        invariant
            a <= i <= b <= ms.len(),
            views(out@) == views(ms@.subrange(a as int, i as int)),
        decreases b - i,
    {
        let d = ms[i].duplicate();
        proof {
            lemma_views_push(out@, d);
            lemma_views_range_step(ms@, a as int, i as int);
        }
        out.push(d);
        i = i + 1;
    }
    out
}

/// Vendor-reported token usage.
#[derive(Debug, Clone, Copy, Default)]
pub struct TokenUsage {
    pub input_tokens: u32,
    pub output_tokens: u32,
}

/// Result of one chat completion.
#[derive(Debug, Clone)]
pub struct CompletionResult {
    pub text: String,
    pub model: String,
    pub latency_ms: u64,
    pub usage: TokenUsage,
    pub context_window_size: Option<i64>,
    pub scoped_text: Option<String>,
    pub session_summary: Option<String>,
    pub memory_compressed: bool,
    pub evicted_turns: Option<u32>,
    pub context_recovered: bool,
    pub stream_incomplete: bool,
    pub finish_reason: Option<String>,
    pub output_truncated: bool,
    pub retrieved_memory: Option<String>,
    pub vector_chunks_used: Option<u32>,
    pub vector_memory_compressed: bool,
}

/// Application error carried through the chat pipeline.
#[derive(Debug, Clone)]
pub enum AppError {
    /// Rejected request or vendor failure, with its message.
    Validation(String),
}

impl AppError {
    /// The error's text, as shown to users.
    pub fn message(&self) -> (r: String)
        ensures
            r@ == self.spec_message(),
    {
        match self {
            AppError::Validation(m) => m.clone(),
        }
    }

    pub open spec fn spec_message(&self) -> Seq<char> {
        match self {
            AppError::Validation(m) => m@,
        }
    }
}

} // verus!
