//! What the user attached to a chat turn (nothing, a snippet, a file, a folder or the whole
//! workspace) and how it is shown to the model.
use vstd::prelude::*;

use crate::models::{views, ChatMessage, MessageView};
use crate::text::{
    append_chars, append_str, chars_of, contains, contains_str, decimal, is_blank, is_blank_exec,
    push_decimal, string_of, trim, trim_vec,
};

verus! {

/// The part of the workspace a chat turn is about.
#[derive(Debug, Clone)]
pub enum ChatScope {
    Empty,
    Snippet {
        original: String,
        working: String,
        path: Option<String>,
        line_start: Option<u32>,
        line_end: Option<u32>,
        language_id: Option<String>,
    },
    File {
        path: String,
        content: String,
        content_hash: String,
        line_start: u32,
        line_end: u32,
        language_id: Option<String>,
    },
    Workspace { tree_summary: Option<String> },
    Folder {
        path: String,
        tree_summary: String,
        outline_summary: String,
        files: Vec<String>,
        truncated: bool,
    },
}

/// Scope of a chat request with its prompt modifiers.
#[derive(Debug, Clone)]
pub struct ChatContextPayload {
    pub scope: ChatScope,
    pub modifiers: Vec<String>,
    pub language_id: Option<String>,
}

/// The attachment block a scope adds to the user's message (empty for none).
pub open spec fn scope_block(scope: ChatScope) -> Seq<char> {
    match scope {
        ChatScope::Empty => Seq::empty(),
        ChatScope::Snippet { working, .. } => "[Attached snippet for reference]\n```\n"@ + working@
            + "\n```"@,
        ChatScope::File { path, content, line_start, line_end, .. } => "[Attached file: "@ + path@
            + " (lines "@ + decimal(line_start as nat) + "-"@ + decimal(line_end as nat) + ")]\n```\n"@
            + content@ + "\n```"@,
        ChatScope::Workspace { tree_summary } => match tree_summary {
            Some(t) => if t@.len() > 0 {
                "[Workspace tree]\n"@ + t@
            } else {
                Seq::empty()
            },
            None => Seq::empty(),
        },
        ChatScope::Folder { path, tree_summary, outline_summary, .. } => "[Attached folder: "@ + path@
            + "]\n[Folder tree]\n"@ + tree_summary@ + "\n\n[Folder outline]\n"@ + outline_summary@,
    }
}

/// Attachment block that a scope adds to the user's message.
pub fn scope_user_context_block(scope: &ChatScope) -> (r: String)
    ensures
        r@ == scope_block(*scope),
{
    let mut v: Vec<char> = Vec::new();
    match scope {
        ChatScope::Empty => {},
        ChatScope::Snippet { working, .. } => {
            append_str(&mut v, "[Attached snippet for reference]\n```\n");
            append_str(&mut v, working.as_str());
            append_str(&mut v, "\n```");
        },
        ChatScope::File { path, content, line_start, line_end, .. } => {
            append_str(&mut v, "[Attached file: ");
            append_str(&mut v, path.as_str());
            append_str(&mut v, " (lines ");
            push_decimal(&mut v, *line_start as u64);
            append_str(&mut v, "-");
            push_decimal(&mut v, *line_end as u64);
            append_str(&mut v, ")]\n```\n");
            append_str(&mut v, content.as_str());
            append_str(&mut v, "\n```");
        },
        ChatScope::Workspace { tree_summary } => {
            match tree_summary {
                Some(t) => {
                    if !t.as_str().is_empty() {
                        append_str(&mut v, "[Workspace tree]\n");
                        append_str(&mut v, t.as_str());
                    }
                },
                None => {},
            }
        },
        ChatScope::Folder { path, tree_summary, outline_summary, .. } => {
            append_str(&mut v, "[Attached folder: ");
            append_str(&mut v, path.as_str());
            append_str(&mut v, "]\n[Folder tree]\n");
            append_str(&mut v, tree_summary.as_str());
            append_str(&mut v, "\n\n[Folder outline]\n");
            append_str(&mut v, outline_summary.as_str());
        },
    }
    let r = string_of(v.as_slice());
    assert(r@ =~= scope_block(*scope));
    r
}

/// Folder and workspace scopes are inspected with tools before anything is rewritten.
pub open spec fn needs_inspection(scope: ChatScope) -> bool {
    scope is Folder || scope is Workspace
}

/// Whether the scope asks for tool inspection on diagnostic requests.
pub fn scope_needs_tool_inspection(scope: &ChatScope) -> (r: bool)
    ensures
        r == needs_inspection(*scope),
{
    match scope {
        ChatScope::Folder { .. } | ChatScope::Workspace { .. } => true,
        _ => false,
    }
}

/// The message already carries an attachment or workspace tree.
pub open spec fn has_attachment(content: Seq<char>) -> bool {
    ||| contains(content, "[Attached snippet"@)
    ||| contains(content, "[Attached file"@)
    ||| contains(content, "[Attached folder"@)
    ||| contains(content, "[Workspace tree]"@)
}

/// Content of the last user message after the scope block is attached.
pub open spec fn with_scope_block(content: Seq<char>, block: Seq<char>) -> Seq<char> {
    if is_blank(content) {
        block
    } else {
        trim(content) + "\n\n"@ + block
    }
}

/// Messages after attaching the scope block: only a last user message without an
/// attachment changes, and only when the block is not empty.
pub open spec fn scoped_messages(ms: Seq<MessageView>, block: Seq<char>) -> Seq<MessageView> {
    if block.len() == 0 || ms.len() == 0 || ms.last().role != "user"@ || has_attachment(
        ms.last().content,
    ) {
        ms
    } else {
        ms.update(
            ms.len() - 1,
            MessageView { content: with_scope_block(ms.last().content, block), ..ms.last() },
        )
    }
}

/// Attaches the scope block to the last message when it is a user message that carries
/// no attachment yet.
pub fn augment_messages_with_scope(messages: &mut Vec<ChatMessage>, ctx: &ChatContextPayload)
    ensures
        views(final(messages)@) == scoped_messages(views(old(messages)@), scope_block(ctx.scope)),
{
    let block = scope_user_context_block(&ctx.scope);
    let ghost ms0 = views(messages@);
    if block.as_str().is_empty() {
        return;
    }
    let n = messages.len();
    if n == 0 {
        return;
    }
    assert(ms0.len() == n);
    assert(ms0[n - 1] == messages@[n - 1]@);
    if !crate::text::str_eq(messages[n - 1].role.as_str(), "user") {
        return;
    }
    let content = chars_of(messages[n - 1].content.as_str());
    if contains_str(content.as_slice(), "[Attached snippet") || contains_str(
        content.as_slice(),
        "[Attached file",
    ) || contains_str(content.as_slice(), "[Attached folder") || contains_str(
        content.as_slice(),
        "[Workspace tree]",
    ) {
        return;
    }
    let new_content = if is_blank_exec(content.as_slice()) {
        block
    } else {
        let mut v = trim_vec(content.as_slice());
        append_str(&mut v, "\n\n");
        append_str(&mut v, block.as_str());
        string_of(v.as_slice())
    };
    let mut last = messages[n - 1].duplicate();
    last.content = new_content;
    messages.set(n - 1, last);
    assert(views(messages@) =~= scoped_messages(ms0, scope_block(ctx.scope)));
}


/// Attaching a scope changes at most the last message: the conversation keeps its length,
/// and every earlier message, and every role, stays as it was.
pub proof fn law_scope_touches_only_last_message(ms: Seq<MessageView>, block: Seq<char>)
    ensures
        scoped_messages(ms, block).len() == ms.len(),
        forall|k: int| 0 <= k < ms.len() - 1 ==> #[trigger] scoped_messages(ms, block)[k] == ms[k],
        forall|k: int| 0 <= k < ms.len() ==> (#[trigger] scoped_messages(ms, block)[k]).role == ms[k].role,
{
}

} // verus!
