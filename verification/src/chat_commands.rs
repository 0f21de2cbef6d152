//! Decisions of the chat command around a streamed completion: system-prompt protocols,
//! attachment types, the output budget and cancellation.
use vstd::prelude::*;

use crate::agent_tools::{append_system_block, with_block};
use crate::models::{AppError, ChatMessage};
use crate::text::{chars_of, contains_any, contains_any_exec, str_eq, strs_view, unicode_lowercase, unicode_lower_vec};
use crate::workspace_scope::{needs_inspection, scope_needs_tool_inspection, ChatContextPayload};

verus! {

/// Tells the model how to lay out multi-file output as file fences.
pub const FILE_ARTIFACT_PROTOCOL: &'static str = r#"When the user asks you to create or modify code that naturally spans multiple files, output each file as a separate markdown fence using exactly this header:
```file relative/path/from/workspace.ext
file contents
```
Use one fence per file. Put no prose inside file fences. Use stable relative workspace paths. Do not merge multiple files into one fence. If only one file is needed, you may still use one file fence.
For plans, notes, and markdown context files (.md), use clear filenames (e.g. PLAN.md, notes/context.md) — the app remembers these paths in semantic memory."#;

/// Gate for diagnostic requests in folder or workspace scope: inspect with tools first.
pub const DIAGNOSTIC_INSPECTION_PROTOCOL: &'static str = r#"Diagnostic/debug request in workspace scope:
- First inspect the relevant files with workspace tool_call blocks. Do not output generated file fences, rewrites, or replacement code before tool results.
- If you cannot call tools, say which exact files you need to read; do not invent file contents.
- After tool results, explain the likely root cause first. Only then provide a minimal patch if the user explicitly asked to fix it."#;

/// A file dropped onto the chat: an image as base64 or a text file as text.
#[derive(Debug, Clone)]
pub struct ChatDroppedFile {
    pub name: String,
    pub mime_type: String,
    pub data_base64: Option<String>,
    pub text: Option<String>,
}

/// Appends the file-fence protocol to the system prompt.
pub fn append_file_artifact_protocol(system_prompt: &mut Option<String>)
    ensures
        *final(system_prompt) matches Some(s) && s@ == with_block(
            *old(system_prompt),
            FILE_ARTIFACT_PROTOCOL@,
        ),
{
    append_system_block(system_prompt, FILE_ARTIFACT_PROTOCOL)
}

/// Words that mark a request to find out what is wrong.
pub open spec fn diagnosis_words() -> Seq<Seq<char>> {
    seq![
        "разбер"@, "что не так"@, "почему"@, "не работает"@, "сломал"@, "сломалось"@, "баг"@,
        "ошибк"@, "debug"@, "diagnos"@, "what is wrong"@, "why"@, "find the problem"@,
        "root cause"@, "game over"@,
    ]
}

/// The (Unicode-lowercased) text asks for a diagnosis.
pub open spec fn asks_diagnosis(text: Seq<char>) -> bool {
    contains_any(unicode_lowercase(text), diagnosis_words())
}

/// Whether the user's text asks to find out what is wrong.
pub fn user_requests_diagnosis(text: &str) -> (r: bool)
    ensures
        r == asks_diagnosis(text@),
{
    let t = chars_of(text);
    let l = unicode_lower_vec(t.as_slice());
    let words: Vec<&str> = vec![
        "разбер", "что не так", "почему", "не работает", "сломал", "сломалось", "баг", "ошибк",
        "debug", "diagnos", "what is wrong", "why", "find the problem", "root cause", "game over",
    ];
    assert(strs_view(words@) =~= diagnosis_words());
    contains_any_exec(l.as_slice(), words.as_slice())
}

/// Index of the last user message among the first `n`.
pub open spec fn last_user_index(ms: Seq<ChatMessage>, n: int) -> Option<int>
    decreases n,
{
    if n <= 0 || n > ms.len() {
        None
    } else if ms[n - 1].role@ == "user"@ {
        Some(n - 1)
    } else {
        last_user_index(ms, n - 1)
    }
}

/// The diagnostic gate applies: a folder or workspace scope and a last user message that
/// asks for a diagnosis.
pub open spec fn needs_diagnostic_gate(ms: Seq<ChatMessage>, ctx: Option<ChatContextPayload>) -> bool {
    match ctx {
        Some(c) => needs_inspection(c.scope) && match last_user_index(ms, ms.len() as int) {
            Some(i) => asks_diagnosis(ms[i].content@),
            None => false,
        },
        None => false,
    }
}

/// Appends the inspection gate to the system prompt when a diagnostic request arrives in
/// folder or workspace scope; otherwise the prompt is unchanged.
pub fn append_diagnostic_inspection_protocol(
    system_prompt: &mut Option<String>,
    messages: &[ChatMessage],
    ctx: Option<&ChatContextPayload>,
)
    ensures
        !needs_diagnostic_gate(messages@, match ctx {
            Some(c) => Some(*c),
            None => None,
        }) ==> *final(system_prompt) == *old(system_prompt),
        needs_diagnostic_gate(messages@, match ctx {
            Some(c) => Some(*c),
            None => None,
        }) ==> (*final(system_prompt) matches Some(s) && s@ == with_block(
            *old(system_prompt),
            DIAGNOSTIC_INSPECTION_PROTOCOL@,
        )),
{
    let c = match ctx {
        Some(c) => c,
        None => return,
    };
    if !scope_needs_tool_inspection(&c.scope) {
        return;
    }
    let mut n = messages.len();
    loop
        invariant
            n <= messages.len(),
            last_user_index(messages@, messages@.len() as int) == last_user_index(messages@, n as int),
        ensures
            n == 0 || messages@[n - 1].role@ == "user"@,
        decreases n,
    {
        if n == 0 {
            break;
        }
        if str_eq(messages[n - 1].role.as_str(), "user") {
            break;
        }
        n = n - 1;
    }
    if n == 0 {
        return;
    }
    if !user_requests_diagnosis(messages[n - 1].content.as_str()) {
        return;
    }
    append_system_block(system_prompt, DIAGNOSTIC_INSPECTION_PROTOCOL)
}

/// Extensions read as images.
pub open spec fn image_exts() -> Seq<Seq<char>> {
    seq!["png"@, "jpg"@, "jpeg"@, "gif"@, "webp"@, "bmp"@, "ico"@]
}

/// Extensions read as text.
pub open spec fn text_exts() -> Seq<Seq<char>> {
    seq![
        "txt"@, "md"@, "markdown"@, "json"@, "csv"@, "xml"@, "yaml"@, "yml"@, "log"@, "ts"@, "tsx"@,
        "js"@, "jsx"@, "py"@, "php"@, "phtml"@, "inc"@, "rs"@, "html"@, "css"@, "toml"@, "ini"@,
        "env"@,
    ]
}

/// Whether `s` is one of the literals.
fn one_of(s: &str, list: &[&str]) -> (r: bool)
    ensures
        r == strs_view(list@).contains(s@),
{
    let mut i: usize = 0;
    while i < list.len()
        invariant
            i <= list.len(),
            forall|k: int| 0 <= k < i ==> strs_view(list@)[k] != s@,
        decreases list.len() - i,
    {
        if str_eq(list[i], s) {
            assert(strs_view(list@)[i as int] == s@);
            return true;
        }
        i = i + 1;
    }
    false
}

/// Whether a dropped file with this extension is an image.
pub fn is_image_ext(ext: &str) -> (r: bool)
    ensures
        r == image_exts().contains(ext@),
{
    let list: Vec<&str> = vec!["png", "jpg", "jpeg", "gif", "webp", "bmp", "ico"];
    assert(strs_view(list@) =~= image_exts());
    one_of(ext, list.as_slice())
}

/// Whether a dropped file with this extension is read as text.
pub fn is_text_ext(ext: &str) -> (r: bool)
    ensures
        r == text_exts().contains(ext@),
{
    let list: Vec<&str> = vec![
        "txt", "md", "markdown", "json", "csv", "xml", "yaml", "yml", "log", "ts", "tsx", "js",
        "jsx", "py", "php", "phtml", "inc", "rs", "html", "css", "toml", "ini", "env",
    ];
    assert(strs_view(list@) =~= text_exts());
    one_of(ext, list.as_slice())
}

/// MIME type of an image extension (PNG for unknown ones).
pub open spec fn mime_of(ext: Seq<char>) -> Seq<char> {
    if ext == "gif"@ {
        "image/gif"@
    } else if ext == "webp"@ {
        "image/webp"@
    } else if ext == "bmp"@ {
        "image/bmp"@
    } else if ext == "ico"@ {
        "image/x-icon"@
    } else if ext == "jpg"@ || ext == "jpeg"@ {
        "image/jpeg"@
    } else {
        "image/png"@
    }
}

/// MIME type of a dropped image.
pub fn image_mime(ext: &str) -> (r: String)
    ensures
        r@ == mime_of(ext@),
{
    let m = if str_eq(ext, "gif") {
        "image/gif"
    } else if str_eq(ext, "webp") {
        "image/webp"
    } else if str_eq(ext, "bmp") {
        "image/bmp"
    } else if str_eq(ext, "ico") {
        "image/x-icon"
    } else if str_eq(ext, "jpg") || str_eq(ext, "jpeg") {
        "image/jpeg"
    } else {
        "image/png"
    };
    m.to_string()
}

/// Output budget of a chat turn: at least the mode floor (and 512) or 5/4 of the input,
/// at most what is left of the window (at least 512) and 16 000, never below 256.
pub open spec fn chat_max_tokens(mode_floor: int, input: int, context_limit: int) -> int {
    let ctx = if context_limit < 8192 {
        8192
    } else {
        context_limit
    };
    let remaining = if ctx - input - 192 < 512 {
        512
    } else {
        ctx - input - 192
    };
    let scaled = (5 * input + 3) / 4;
    let floor = if mode_floor < 512 {
        512
    } else {
        mode_floor
    };
    let a = if floor > scaled {
        floor
    } else {
        scaled
    };
    let b = if a < remaining {
        a
    } else {
        remaining
    };
    let c = if b < 16_000 {
        b
    } else {
        16_000
    };
    if c > 256 {
        c
    } else {
        256
    }
}

/// Scales the output budget from the mode floor, the input size and the room left in the
/// context window.
pub fn effective_chat_max_tokens(mode_floor: i64, input_estimate: u32, context_limit: i64) -> (r: u32)
    ensures
        r as int == chat_max_tokens(mode_floor as int, input_estimate as int, context_limit as int),
{
    let ctx: i64 = if context_limit < 8192 {
        8192
    } else {
        context_limit
    };
    let input = input_estimate as i64;
    let room = ctx - input - 192;
    let remaining: i64 = if room < 512 {
        512
    } else {
        room
    };
    let scaled: i64 = (5 * input + 3) / 4;
    let floor: i64 = if mode_floor < 512 {
        512
    } else {
        mode_floor
    };
    let a = if floor > scaled {
        floor
    } else {
        scaled
    };
    let b = if a < remaining {
        a
    } else {
        remaining
    };
    let c = if b < 16_000 {
        b
    } else {
        16_000
    };
    let d = if c > 256 {
        c
    } else {
        256
    };
    d as u32
}

/// Whether an error is the cancellation of a stream.
pub fn is_cancelled_err(e: &AppError) -> (r: bool)
    ensures
        r == (e.spec_message() == "cancelled"@),
{
    let m = e.message();
    str_eq(m.as_str(), "cancelled")
}


/// The output budget of a chat turn always lies between 512 and 16 000 tokens (the final
/// floor of 256 never binds: both the mode floor and the room left are at least 512).
pub proof fn law_output_budget_bounded(mode_floor: int, input: int, context_limit: int)
    ensures
        512 <= chat_max_tokens(mode_floor, input, context_limit) <= 16_000,
{
}


/// Key under which a message is remembered: the content hash of its role and content.
pub fn message_memory_key(message: &ChatMessage) -> (r: String)
    ensures
        r@ == crate::vector_memory::sha256_hex(
            crate::vector_memory::chunk_key_bytes(message.role@, message.content@),
        ),
{
    crate::vector_memory::chunk_content_hash(message.role.as_str(), message.content.as_str())
}

// ------------------------------------------------------------------
// Dropped files
// ------------------------------------------------------------------

/// Largest image accepted, in bytes (4 MiB).
pub const MAX_ATTACHMENT_IMAGE_BYTES: usize = 4194304;

/// Largest text file accepted, in bytes (512 KiB).
pub const MAX_ATTACHMENT_TEXT_BYTES: usize = 524288;

/// Character of a 6-bit value in the standard base64 alphabet (`A-Z`, `a-z`, `0-9`,
/// `+`, `/`).
pub open spec fn base64_char(v: int) -> char {
    if v < 26 {
        (65 + v) as char
    } else if v < 52 {
        (97 + v - 26) as char
    } else if v < 62 {
        (48 + v - 52) as char
    } else if v == 62 {
        '+'
    } else {
        '/'
    }
}

/// Standard base64 with `=` padding: each group of three bytes gives four characters,
/// a last group of one or two bytes gives two or three, padded with `=` to four.
pub open spec fn base64_standard(bytes: Seq<u8>) -> Seq<char>
    decreases bytes.len(),
{
    if bytes.len() == 0 {
        Seq::empty()
    } else if bytes.len() == 1 {
        let b0 = bytes[0] as int;
        seq![base64_char(b0 / 4), base64_char((b0 % 4) * 16), '=', '=']
    } else if bytes.len() == 2 {
        let b0 = bytes[0] as int;
        let b1 = bytes[1] as int;
        seq![base64_char(b0 / 4), base64_char((b0 % 4) * 16 + b1 / 16), base64_char((b1 % 16) * 4), '=']
    } else {
        let b0 = bytes[0] as int;
        let b1 = bytes[1] as int;
        let b2 = bytes[2] as int;
        seq![
            base64_char(b0 / 4),
            base64_char((b0 % 4) * 16 + b1 / 16),
            base64_char((b1 % 16) * 4 + b2 / 64),
            base64_char(b2 % 64),
        ] + base64_standard(bytes.subrange(3, bytes.len() as int))
    }
}


/// `base64::Engine::encode` with the `STANDARD` engine: standard alphabet with `=`
/// padding (`base64_standard`). The crate panics only when the output length overflows
/// `usize`, which `requires` rules out.
#[verifier::external_body]
fn encode_base64(bytes: &[u8]) -> (r: String)
    requires
        bytes@.len() <= MAX_ATTACHMENT_IMAGE_BYTES,
    ensures
        r@ == base64_standard(bytes@),
{
    base64::Engine::encode(&base64::engine::general_purpose::STANDARD, bytes)
}

/// `String::from_utf8`: the text the bytes encode when they are valid UTF-8 (vstd's
/// `valid_utf8` / `decode_utf8`), else `None`.
#[verifier::external_body]
fn decode_utf8(bytes: Vec<u8>) -> (r: Option<String>)
    ensures
        r is Some <==> vstd::utf8::valid_utf8(bytes@),
        r matches Some(s) ==> s@ == vstd::utf8::decode_utf8(bytes@),
{
    String::from_utf8(bytes).ok()
}

/// How a dropped file with this name, extension (ASCII case ignored) and content is
/// taken: an image up to 4 MiB as base64, a text file up to 512 KiB as UTF-8 text, or
/// an error naming the file.
pub open spec fn attachment_outcome(name: Seq<char>, ext: Seq<char>, bytes: Seq<u8>) -> Result<
    (Seq<char>, Option<Seq<char>>, Option<Seq<char>>),
    Seq<char>,
> {
    let e = crate::text::lower_seq(ext);
    if image_exts().contains(e) {
        if bytes.len() > MAX_ATTACHMENT_IMAGE_BYTES {
            Err(name + ": images must be under 4 MB"@)
        } else {
            Ok((mime_of(e), Some(base64_standard(bytes)), None))
        }
    } else if text_exts().contains(e) {
        if bytes.len() > MAX_ATTACHMENT_TEXT_BYTES {
            Err(name + ": text files must be under 512 KB"@)
        } else {
            if vstd::utf8::valid_utf8(bytes) {
                Ok(("text/plain"@, None, Some(vstd::utf8::decode_utf8(bytes))))
            } else {
                Err(name + ": not valid UTF-8 text"@)
            }
        }
    } else {
        Err("Unsupported file: "@ + name + " (images or text files only)"@)
    }
}

fn named_error(prefix: &str, name: &str, suffix: &str) -> (r: AppError)
    ensures
        r.spec_message() == prefix@ + name@ + suffix@,
{
    let mut v = chars_of(prefix);
    crate::text::append_str(&mut v, name);
    crate::text::append_str(&mut v, suffix);
    AppError::Validation(crate::text::string_of(v.as_slice()))
}

/// One dropped file read from disk (see `attachment_outcome`); `name` is the file name
/// and `ext` its extension.
pub fn chat_attachment(name: &str, ext: &str, bytes: Vec<u8>) -> (r: Result<ChatDroppedFile, AppError>)
    ensures
        match attachment_outcome(name@, ext@, bytes@) {
            Ok((mime, data, text)) => r matches Ok(f) && f.name@ == name@ && f.mime_type@ == mime && (match f.data_base64 {
                Some(d) => data == Some(d@),
                None => data is None,
            }) && (match f.text {
                Some(t) => text == Some(t@),
                None => text is None,
            }),
            Err(msg) => r matches Err(e) && e.spec_message() == msg,
        },
{
    let ev = chars_of(ext);
    let lv = crate::text::lower_vec(ev.as_slice());
    let e = crate::text::string_of(lv.as_slice());
    if is_image_ext(e.as_str()) {
        if bytes.len() > MAX_ATTACHMENT_IMAGE_BYTES {
            let r = named_error("", name, ": images must be under 4 MB");
            proof {
                reveal_strlit("");
            }
            assert(r.spec_message() == name@ + ": images must be under 4 MB"@);
            return Err(r);
        }
        let data = encode_base64(bytes.as_slice());
        return Ok(ChatDroppedFile { name: name.to_string(), mime_type: image_mime(e.as_str()), data_base64: Some(data), text: None });
    }
    if is_text_ext(e.as_str()) {
        if bytes.len() > MAX_ATTACHMENT_TEXT_BYTES {
            let r = named_error("", name, ": text files must be under 512 KB");
            proof {
                reveal_strlit("");
            }
            assert(r.spec_message() == name@ + ": text files must be under 512 KB"@);
            return Err(r);
        }
        return match decode_utf8(bytes) {
            Some(t) => Ok(ChatDroppedFile { name: name.to_string(), mime_type: "text/plain".to_string(), data_base64: None, text: Some(t) }),
            None => {
                let r = named_error("", name, ": not valid UTF-8 text");
                proof {
                    reveal_strlit("");
                }
                assert(r.spec_message() == name@ + ": not valid UTF-8 text"@);
                Err(r)
            },
        };
    }
    let r = named_error("Unsupported file: ", name, " (images or text files only)");
    assert(r.spec_message() == "Unsupported file: "@ + name@ + " (images or text files only)"@);
    Err(r)
}

/// Context window of a chat: the window the server reports (capped by a positive
/// configured window), else the configured window when positive, else 8192 tokens.
pub fn resolve_context_limit(configured: i64, probed: Option<i64>) -> (r: i64)
    ensures
        r == match probed {
            Some(p) => if configured > 0 && configured < p {
                configured
            } else {
                p
            },
            None => if configured > 0 {
                configured
            } else {
                8192
            },
        },
{
    match probed {
        Some(p) => if configured > 0 && configured < p {
            configured
        } else {
            p
        },
        None => if configured > 0 {
            configured
        } else {
            8192
        },
    }
}

} // verus!
