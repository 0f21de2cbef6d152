//! Workspace agent tools in chat: when the tool loop runs, where its paths are rooted, the
//! protocol it adds to the system prompt, and how its follow-up turns are continued.
use vstd::prelude::*;

use crate::continuation::{
    apply_output_truncation, continuation_context, continuation_messages, continuation_prompt,
    continue_prompt, context_view, cut_point, hit_output_limit, merge_completion_result,
    should_auto_continue_completion, stitch_continuation, stitched, tail_chars, tail_of,
    wants_continuation, ContinuationContext,
};
use crate::models::{views, ChatMessage, CompletionResult, MessageView};
use crate::gemma4::{format_tool_declarations, tool_declarations};
use crate::prompt_format::{resolve, ToolDefinition};
use crate::text::{
    append_str, chars_of, is_blank, is_blank_exec, replace_all, slice_of, string_of, take_chars,
    take_vec, trim, trim_char, trim_char_vec, trim_vec,
};
use crate::workspace_scope::ChatScope;

verus! {

/// Longest tool-result body in a follow-up message, in characters.
pub const TOOL_RESULT_MAX_CHARS: usize = 12_000;

/// Longest text of all tool results of one follow-up turn, in characters.
pub const TOOL_RESULT_TURN_MAX_CHARS: usize = 24_000;

/// Instructions that teach the model the workspace tool-call syntax.
pub const WORKSPACE_TOOLS_PROTOCOL: &'static str = r#"## Workspace file tools (active)

**Mandatory output format**
- For inspect/fix tasks on existing files: your first output must be `<|tool_call|>call:read_file{...}</|tool_call|>` (or apply_patch after you have read_file results). No prose before tool_call.
- Never paste a rewritten file body, ```file:``` fences, `edits:`, or labeled `old_text:` / `new_text:` blocks for existing files — those are not executed.
- One-line fixes = one apply_patch with a short old_text. Wait for tool results before explaining to the user.

You can inspect and edit the project with these tools (declare via tool_call blocks):
- `list_dir` — list files under a path (`path`, optional `depth`)
- `read_file` — read a file or line range (`path`, optional `start_line`/`end_line` or `lines:[start,end]`)
- `file_outline` — list classes/methods/functions in PHP/JS/Python (`path`)
- `read_symbol` — read a symbol body by name (`path`, `symbol`)
- `apply_patch` — surgical edit on **existing** files (`path`, `edits`: [{`old_text`, `new_text`}], optional `expected_hash` from read_file)
- `write_file` — create a **new** file only (`path`, `content`). Fails if file exists — then use apply_patch.
- `run_verify` — deterministic check after edits (`kind`: file_contains | file_not_contains | php_lint | cargo_check | vitest, plus `path` / `needle` / `manifest`)

Use relative paths from the workspace root. In **folder scope**, you may pass a bare filename (`index.html`) or the full path (`test/foo/index.html`).
Prefer `read_file` before editing existing files.
**New vs existing:** `list_dir` first if unsure. **New path** → `write_file`. **Existing path** → `read_file` then `apply_patch`. Never use apply_patch with empty old_text to create a file.
**Patch sizing:** prefer the smallest unique `old_text` (often 1–3 lines for typos). Multi-line `old_text` is fine when the fix genuinely spans a case block, method, or branch — include enough context that the anchor is unique once in the file.
Do not paste a whole file unless creating a new one. Split unrelated fixes into separate apply_patch calls.
If the tool returns "patch too large", narrow the anchor or split into sequential edits.

### Correct vs wrong (existing files)

GOOD — one-line typo fix:
<|tool_call|>call:apply_patch{path:vp/src/api/Foo.php,old_text:foreach ($projectUids as $id),new_text:foreach ($projectUuids as $id)}</|tool_call|>

GOOD — read then patch:
<|tool_call|>call:read_file{path:vp/src/api/Foo.php}</|tool_call|>
(then after tool results)
<|tool_call|>call:apply_patch{path:vp/src/api/Foo.php,old_text:exact unique lines,new_text:fixed lines}</|tool_call|>

GOOD — multi-line block when the bug spans several lines (unique anchor):
<|tool_call|>call:apply_patch{path:vp/src/api/Foo.php,old_text:"    case 'a':\n        break;\n    case 'b':",new_text:"    case 'a':\n        break;\n    case 'b_fixed':"}</|tool_call|>

BAD — not executed as tools (do NOT use for patches):
```file:path/to/File.php
edits:[{"old_text":"...whole method...","new_text":"..."}]
```

BAD — labeled old_text/new_text inside file fences (shown as garbage in UI, not applied):
```file:path/to/File.php
old_text:
foreach ($projectUids as $id) {
new_text:
foreach ($projectUuids as $id) {
```

BAD — whole file or entire class in one old_text on an **existing** file (split edits or use write_file for new paths).

### Creating NEW files (scaffold, index.html, new modules)

GOOD — new file via write_file (quote content when it contains commas or HTML tags):
<|tool_call|>call:write_file{path:index.html,content:"<!DOCTYPE html>\n<html><body>ok</body></html>"}</|tool_call|>

BAD — apply_patch on non-existent file or empty old_text:
<|tool_call|>call:apply_patch{path:test/new.html,old_text:,new_text:...}</|tool_call|>

Alternative for new files (applied after the turn in UI, not in tool loop): markdown fence
```file test/qwen_test/styles.css
/* full css */
```
Prefer **write_file** in tool_call when tools are active so files land immediately.

**Never** use markdown ` ```file:...` fences with `edits:` for existing files. Use tool_call only.
One small fix = one apply_patch call. Split multiple bugs into separate tool_call blocks.

When you need to inspect files, emit tool_call block(s) in one of these formats, then wait:

Qwen / LM Studio (preferred):
<|tool_call|>call:read_file{path:relative/path.ext}</|tool_call|>
<|tool_call|>call:apply_patch{path:relative/path.ext,old_text:exact lines,new_text:replacement}</|tool_call|>
<|tool_call|>call:write_file{path:relative/new.ext,content:full file body}</|tool_call|>

Gemma 4:
<|tool_call>call:read_file{path:<|"|>relative/path.ext<|"|>}<|tool_call|>
<|tool_call>call:apply_patch{path:<|"|>relative/path.ext<|"|>,old_text:<|"|>old<|"|>,new_text:<|"|>new<|"|>}<|tool_call|>

Alternative:
<tool_call>call:read_file{path:relative/path.ext}</tool_call>

Do not say "I will inspect/read/check" unless you also emit the needed tool_call block in the same turn.
After a tool_call, wait for tool results before answering the user."#;

/// Scopes in which the model uses filesystem tools instead of inlined bodies.
pub open spec fn tools_scope(scope: ChatScope) -> bool {
    scope is Folder || scope is Workspace || scope is File
}

/// Whether the scope lets the model use the workspace tools.
pub fn scope_enables_tools(scope: &ChatScope) -> (r: bool)
    ensures
        r == tools_scope(*scope),
{
    match scope {
        ChatScope::Folder { .. } | ChatScope::Workspace { .. } | ChatScope::File { .. } => true,
        _ => false,
    }
}

/// Whether both the scope and the connection's prompt format allow the tool loop
/// (every registered format supports tool calls).
pub fn connection_tools_active(scope: &ChatScope, prompt_format_id: &str) -> (r: bool)
    ensures
        r == tools_scope(*scope),
{
    scope_enables_tools(scope) && resolve(prompt_format_id).supports_tool_calling()
}

/// Last position of `c` among the first `n` characters.
pub open spec fn last_pos_upto(s: Seq<char>, c: char, n: int) -> Option<int>
    decreases n,
{
    if n <= 0 || n > s.len() {
        None
    } else if s[n - 1] == c {
        Some(n - 1)
    } else {
        last_pos_upto(s, c, n - 1)
    }
}

/// Root of tool paths for a scope: the folder itself (trimmed, slashes stripped; none for
/// the workspace root) or the directory of a file (none for a top-level file).
pub open spec fn tool_root(scope: ChatScope) -> Option<Seq<char>> {
    match scope {
        ChatScope::Folder { path, .. } => {
            let p = trim_char(trim(path@), '/');
            if p.len() == 0 || p == "."@ {
                None
            } else {
                Some(p)
            }
        },
        ChatScope::File { path, .. } => parent_of(path@),
        _ => None,
    }
}

/// Directory part of a file path (backslashes read as slashes); none at the top level.
pub open spec fn parent_of(path: Seq<char>) -> Option<Seq<char>> {
    let p = replace_all(path, "\\"@, "/"@);
    match last_pos_upto(p, '/', p.len() as int) {
        Some(i) => if i == 0 {
            None
        } else {
            Some(p.subrange(0, i))
        },
        None => None,
    }
}

/// Directory part of a file path.
fn parent_dir(path: &str) -> (r: Option<String>)
    ensures
        r matches Some(s) ==> parent_of(path@) == Some(s@),
        r is None ==> parent_of(path@) is None,
{
    let v = chars_of(path);
    proof {
        reveal_strlit("\\");
    }
    let p = crate::text::replace_vec(v.as_slice(), "\\", "/");
    let mut n = p.len();
    while n > 0
        invariant
            n <= p.len(),
            p@ == replace_all(path@, "\\"@, "/"@),
            last_pos_upto(p@, '/', p@.len() as int) == last_pos_upto(p@, '/', n as int),
        decreases n,
    {
        if p[n - 1] == '/' {
            let i = n - 1;
            if i == 0 {
                return None;
            }
            let dir = slice_of(p.as_slice(), 0, i);
            return Some(string_of(dir.as_slice()));
        }
        n = n - 1;
    }
    None
}

/// Directory that relative tool paths are resolved against, if the scope has one.
pub fn scope_path_for_tools(scope: &ChatScope) -> (r: Option<String>)
    ensures
        r matches Some(s) ==> tool_root(*scope) == Some(s@),
        r is None ==> tool_root(*scope) is None,
{
    match scope {
        ChatScope::Folder { path, .. } => {
            let v = chars_of(path.as_str());
            let t = trim_vec(v.as_slice());
            let p = trim_char_vec(t.as_slice(), '/');
            assert(tool_root(*scope) == (if p@.len() == 0 || p@ == "."@ { None } else { Some(p@) }));
            if p.len() == 0 || (p.len() == 1 && p[0] == '.') {
                assert(p.len() == 1 && p[0] == '.' ==> p@ =~= "."@) by {
                    reveal_strlit(".");
                }
                return None;
            }
            proof {
                reveal_strlit(".");
                if p@ == "."@ {
                    assert(p@.len() == 1 && p@[0] == '.');
                }
            }
            Some(string_of(p.as_slice()))
        },
        ChatScope::File { path, .. } => parent_dir(path.as_str()),
        _ => None,
    }
}

/// One `- name — description` line per tool, after an `Available tools:` heading.
pub open spec fn tool_lines(tools: Seq<ToolDefinition>, n: int) -> Seq<char>
    decreases n,
{
    if n <= 0 || n > tools.len() {
        "\n\nAvailable tools:\n"@
    } else {
        tool_lines(tools, n - 1) + "- "@ + tools[n - 1].name@ + " — "@ + tools[n - 1].description@
            + "\n"@
    }
}

/// The tool list for formats without native declarations.
pub fn available_tools_block(tools: &[ToolDefinition]) -> (r: String)
    ensures
        r@ == tool_lines(tools@, tools.len() as int),
{
    let mut v: Vec<char> = Vec::new();
    append_str(&mut v, "\n\nAvailable tools:\n");
    let mut i: usize = 0;
    while i < tools.len()
        invariant
            i <= tools.len(),
            v@ == tool_lines(tools@, i as int),
        decreases tools.len() - i,
    {
        append_str(&mut v, "- ");
        append_str(&mut v, tools[i].name.as_str());
        append_str(&mut v, " — ");
        append_str(&mut v, tools[i].description.as_str());
        append_str(&mut v, "\n");
        i = i + 1;
    }
    string_of(v.as_slice())
}

/// The tool block of a format: Gemma 4 gets native tool declarations, other formats an
/// `Available tools` list.
pub open spec fn tools_listing(prompt_format_id: Seq<char>, tools: Seq<ToolDefinition>) -> Seq<char> {
    if prompt_format_id == "gemma4"@ {
        tool_declarations(tools)
    } else {
        tool_lines(tools, tools.len() as int)
    }
}

/// A system prompt with a block appended after a blank line (the block alone when the
/// prompt is missing or blank).
pub open spec fn with_block(system: Option<String>, block: Seq<char>) -> Seq<char> {
    match system {
        Some(s) => if is_blank(s@) {
            s@ + block
        } else {
            s@ + "\n\n"@ + block
        },
        None => block,
    }
}

/// Appends a block to an optional system prompt.
pub fn append_system_block(system: &mut Option<String>, block: &str)
    ensures
        *final(system) matches Some(s) && s@ == with_block(*old(system), block@),
{
    let mut sys = match system.take() {
        Some(s) => s,
        None => String::new(),
    };
    let sv = chars_of(sys.as_str());
    let mut v = sv;
    if !is_blank_exec(v.as_slice()) {
        append_str(&mut v, "\n\n");
    }
    append_str(&mut v, block);
    sys = string_of(v.as_slice());
    *system = Some(sys);
}

/// Appends the tool protocol and the rendered tool list (native declarations for Gemma 4,
/// an `Available tools` list otherwise) when the scope uses tools.
pub fn augment_system_for_tools(
    system: &mut Option<String>,
    prompt_format_id: &str,
    scope: &ChatScope,
    tools: &[ToolDefinition],
)
    ensures
        !tools_scope(*scope) ==> *final(system) == *old(system),
        tools_scope(*scope) ==> (*final(system) matches Some(s) && s@ == with_block(
            *old(system),
            WORKSPACE_TOOLS_PROTOCOL@ + tools_listing(prompt_format_id@, tools@),
        )),
{
    if !scope_enables_tools(scope) {
        return;
    }
    if !resolve(prompt_format_id).supports_tool_calling() {
        return;
    }
    let mut block = chars_of(WORKSPACE_TOOLS_PROTOCOL);
    let listing = if crate::text::str_eq(prompt_format_id, "gemma4") {
        format_tool_declarations(tools)
    } else {
        available_tools_block(tools)
    };
    crate::text::append_str(&mut block, listing.as_str());
    let b = string_of(block.as_slice());
    append_system_block(system, b.as_str());
}

/// The follow-up text cut to 24 000 characters, with a note when cut.
pub open spec fn capped_followup(body: Seq<char>) -> Seq<char> {
    if body.len() <= 24_000 {
        body
    } else {
        take_chars(body, 24_000) + "\n… [tool results truncated for context — re-read with lines/ranges if needed]"@
    }
}

/// Caps the text of all tool results of one follow-up turn.
pub fn cap_tool_followup_turn_text(body: String) -> (r: String)
    ensures
        r@ == capped_followup(body@),
{
    let v = chars_of(body.as_str());
    if v.len() <= TOOL_RESULT_TURN_MAX_CHARS {
        return body;
    }
    let mut t = take_vec(v.as_slice(), TOOL_RESULT_TURN_MAX_CHARS);
    append_str(&mut t, "\n… [tool results truncated for context — re-read with lines/ranges if needed]");
    string_of(t.as_slice())
}

/// Where a cut-off tool follow-up stopped.
pub fn tool_continuation_context(text: &str) -> (r: ContinuationContext)
    ensures
        context_view(r) == cut_point(text@),
{
    continuation_context(text)
}

/// The user turn that continues a cut-off tool follow-up.
pub fn tool_continuation_prompt(ctx: &ContinuationContext) -> (r: String)
    ensures
        r@ == continue_prompt(context_view(*ctx)),
{
    continuation_prompt(ctx)
}

/// Joins the parts of a tool follow-up, dropping a repeated overlap.
pub fn stitch_tool_continuation(accumulated: &str, next: &str) -> (r: String)
    ensures
        r@ == stitched(accumulated@, next@),
{
    stitch_continuation(accumulated, next)
}

/// Marks a tool follow-up as truncated when it hit the output limit.
pub fn apply_tool_output_truncation(result: &mut CompletionResult, max_output: u32)
    ensures
        *final(result) == (CompletionResult {
            output_truncated: hit_output_limit(*old(result), max_output),
            ..*old(result)
        }),
{
    apply_output_truncation(result, max_output)
}

/// Whether a tool follow-up should be continued.
pub fn should_continue_tool_completion(result: &CompletionResult, accumulated_text: &str) -> (r: bool)
    ensures
        r == wants_continuation(result.output_truncated, accumulated_text@),
{
    should_auto_continue_completion(result, accumulated_text)
}

/// Messages of the next tool follow-up continuation request.
pub fn tool_continuation_messages(base: &[ChatMessage], accumulated: &str) -> (r: Vec<ChatMessage>)
    ensures
        views(r@) == views(base@) + seq![
            MessageView { role: "assistant"@, content: tail_of(accumulated@, 6000), images: Seq::empty() },
            MessageView { role: "user"@, content: continue_prompt(cut_point(accumulated@)), images: Seq::empty() },
        ],
{
    continuation_messages(base, accumulated)
}

} // verus!
