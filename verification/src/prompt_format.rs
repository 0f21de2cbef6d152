//! Registry of chat prompt formats: which format an id names and what it supports.
use vstd::prelude::*;

use crate::json_value::{Json, JsonValue};
use crate::text::str_eq;

verus! {

/// A tool call read from model text.
#[derive(Debug)]
pub struct ParsedToolCall {
    pub name: String,
    pub arguments: JsonValue,
}

impl View for ParsedToolCall {
    type V = (Seq<char>, Json);

    open spec fn view(&self) -> (Seq<char>, Json) {
        (self.name@, self.arguments@)
    }
}

pub open spec fn calls_view(s: Seq<ParsedToolCall>) -> Seq<(Seq<char>, Json)> {
    Seq::new(s.len(), |i: int| s[i]@)
}

pub proof fn lemma_calls_view_push(s: Seq<ParsedToolCall>, c: ParsedToolCall)
    ensures
        calls_view(s.push(c)) == calls_view(s).push(c@),
{
    assert(calls_view(s.push(c)) =~= calls_view(s).push(c@));
}


/// Who speaks in a canonical message.
#[derive(Debug, Clone, Copy, PartialEq, Eq, Structural)]
pub enum CanonicalRole {
    System,
    User,
    Assistant,
}

/// A tool call carried by an assistant message.
#[derive(Debug)]
pub struct ToolCall {
    pub name: String,
    pub arguments: JsonValue,
}

/// A tool result carried by an assistant message.
#[derive(Debug)]
pub struct ToolResponse {
    pub name: String,
    pub response: JsonValue,
}

/// A tool offered to the model: name, description and JSON-schema parameters.
#[derive(Debug)]
pub struct ToolDefinition {
    pub name: String,
    pub description: String,
    pub parameters: JsonValue,
}

/// A chat message in the form templates render.
#[derive(Debug)]
pub struct CanonicalMessage {
    pub role: CanonicalRole,
    pub content: Option<String>,
    pub tool_calls: Vec<ToolCall>,
    pub tool_responses: Vec<ToolResponse>,
}

/// Everything a template renders: system line, messages, tools, and whether to open the
/// model's turn at the end.
#[derive(Debug)]
pub struct PromptFormatContext {
    pub system: Option<String>,
    pub messages: Vec<CanonicalMessage>,
    pub tools: Vec<ToolDefinition>,
    pub add_generation_prompt: bool,
}

/// Role a chat message's role name maps to: `system`, `assistant`, anything else a user.
pub open spec fn role_of(name: Seq<char>) -> CanonicalRole {
    if name == "system"@ {
        CanonicalRole::System
    } else if name == "assistant"@ {
        CanonicalRole::Assistant
    } else {
        CanonicalRole::User
    }
}

/// `ctx` is the render context of these messages: roles by name, empty contents absent,
/// no tool calls or responses.
pub open spec fn built_context(
    ctx: PromptFormatContext,
    system: Option<String>,
    messages: Seq<crate::models::ChatMessage>,
    tools: Seq<ToolDefinition>,
    add_generation_prompt: bool,
) -> bool {
    &&& ctx.system == system
    &&& ctx.tools@ == tools
    &&& ctx.add_generation_prompt == add_generation_prompt
    &&& ctx.messages@.len() == messages.len()
    &&& forall|i: int|
        0 <= i < messages.len() ==> {
            let m = #[trigger] ctx.messages@[i];
            &&& m.role == role_of(messages[i].role@)
            &&& m.content matches Some(c) ==> c@ == messages[i].content@ && c@.len() > 0
            &&& m.content is None ==> messages[i].content@.len() == 0
            &&& m.tool_calls@.len() == 0
            &&& m.tool_responses@.len() == 0
        }
}

/// Maps API chat messages and an optional system line into a render context: roles by
/// name, empty contents absent, no tool calls or responses.
pub fn build_context(
    system: Option<String>,
    messages: &[crate::models::ChatMessage],
    tools: Vec<ToolDefinition>,
    add_generation_prompt: bool,
) -> (r: PromptFormatContext)
    ensures
        built_context(r, system, messages@, tools@, add_generation_prompt),
{
    let mut canonical: Vec<CanonicalMessage> = Vec::new();
    let mut i: usize = 0;
    while i < messages.len()
        invariant
            i <= messages.len(),
            canonical@.len() == i,
            forall|j: int|
                0 <= j < i ==> {
                    let m = #[trigger] canonical@[j];
                    &&& m.role == role_of(messages@[j].role@)
                    &&& m.content matches Some(c) ==> c@ == messages@[j].content@ && c@.len() > 0
                    &&& m.content is None ==> messages@[j].content@.len() == 0
                    &&& m.tool_calls@.len() == 0
                    &&& m.tool_responses@.len() == 0
                },
        decreases messages.len() - i,
    {
        let m = &messages[i];
        let role = if str_eq(m.role.as_str(), "system") {
            CanonicalRole::System
        } else if str_eq(m.role.as_str(), "assistant") {
            CanonicalRole::Assistant
        } else {
            CanonicalRole::User
        };
        let n = crate::text::char_count(m.content.as_str());
        let content = if n == 0 {
            None
        } else {
            Some(crate::text::copy_string(&m.content))
        };
        canonical.push(
            CanonicalMessage { role, content, tool_calls: Vec::new(), tool_responses: Vec::new() },
        );
        i = i + 1;
    }
    PromptFormatContext { system, messages: canonical, tools, add_generation_prompt }
}

/// A chat prompt format: its identity, what it supports, and how it reads tool calls out
/// of model output.
pub trait ChatPromptFormat {
    fn id(&self) -> &'static str;

    fn display_name(&self) -> &'static str;

    fn description(&self) -> &'static str;

    fn supports_tool_calling(&self) -> bool;

    /// Whether requests send wire `messages` JSON rather than a rendered prompt.
    fn uses_wire_messages(&self) -> bool;

    /// The prompt text for `/completions`; empty when the format sends wire messages.
    fn render(&self, ctx: &PromptFormatContext) -> String;

    fn parse_tool_calls(&self, output: &str) -> Vec<ParsedToolCall>;
}

/// A chat prompt format known to the app.
#[derive(Debug, Clone, Copy, PartialEq, Eq, Structural)]
pub enum PromptFormatKind {
    /// OpenAI-style wire messages; the server applies its own template.
    OpenAiMessages,
    /// Local Gemma 4 template rendered by the app.
    Gemma4,
}

/// Summary of a format for settings screens.
#[derive(Debug, Clone)]
pub struct PromptFormatInfo {
    pub id: String,
    pub label: String,
    pub description: String,
    pub supports_tool_calling: bool,
    pub uses_wire_messages: bool,
}

/// Id of a format.
pub open spec fn format_id(k: PromptFormatKind) -> Seq<char> {
    match k {
        PromptFormatKind::OpenAiMessages => "openai_messages"@,
        PromptFormatKind::Gemma4 => "gemma4"@,
    }
}

/// Name of a format in settings.
pub open spec fn format_label(k: PromptFormatKind) -> Seq<char> {
    match k {
        PromptFormatKind::OpenAiMessages => "OpenAI messages (JSON)"@,
        PromptFormatKind::Gemma4 => "Gemma 4 (turn template)"@,
    }
}

/// Description of a format in settings.
pub open spec fn format_description(k: PromptFormatKind) -> Seq<char> {
    match k {
        PromptFormatKind::OpenAiMessages => "Default for OpenAI-compatible APIs. The server applies its own chat template."@,
        PromptFormatKind::Gemma4 => "Local `<|turn|>` template for Gemma 4-it. Supports tool declarations, tool_call, and tool_response turns."@,
    }
}

/// Format named by an id; unknown ids fall back to OpenAI messages.
pub open spec fn resolved_format(id: Seq<char>) -> PromptFormatKind {
    if id == "gemma4"@ {
        PromptFormatKind::Gemma4
    } else {
        PromptFormatKind::OpenAiMessages
    }
}

impl PromptFormatKind {
    /// Stable id stored with connections.
    pub fn id(self) -> (r: &'static str)
        ensures
            r@ == format_id(self),
    {
        match self {
            PromptFormatKind::OpenAiMessages => "openai_messages",
            PromptFormatKind::Gemma4 => "gemma4",
        }
    }

    /// Name shown in settings.
    pub fn display_name(self) -> (r: &'static str)
        ensures
            r@ == format_label(self),
    {
        match self {
            PromptFormatKind::OpenAiMessages => "OpenAI messages (JSON)",
            PromptFormatKind::Gemma4 => "Gemma 4 (turn template)",
        }
    }

    /// One-line description shown in settings.
    pub fn description(self) -> (r: &'static str)
        ensures
            r@ == format_description(self),
    {
        match self {
            PromptFormatKind::OpenAiMessages => "Default for OpenAI-compatible APIs. The server applies its own chat template.",
            PromptFormatKind::Gemma4 => "Local `<|turn|>` template for Gemma 4-it. Supports tool declarations, tool_call, and tool_response turns.",
        }
    }

    /// Both formats carry workspace tool calls.
    pub fn supports_tool_calling(self) -> (r: bool)
        ensures
            r,
    {
        true
    }

    /// Whether requests send wire `messages` JSON rather than a rendered prompt.
    pub fn uses_wire_messages(self) -> (r: bool)
        ensures
            r == (self is OpenAiMessages),
    {
        match self {
            PromptFormatKind::OpenAiMessages => true,
            PromptFormatKind::Gemma4 => false,
        }
    }

    /// The prompt text of this format: the Gemma 4 template, or nothing for wire messages.
    pub fn render(self, ctx: &PromptFormatContext) -> (r: String)
        ensures
            self is Gemma4 ==> r@ == crate::gemma4::gemma_render(*ctx),
            self is OpenAiMessages ==> r@.len() == 0,
    {
        match self {
            PromptFormatKind::OpenAiMessages => crate::openai_messages::OpenAiMessagesFormat.render(ctx),
            PromptFormatKind::Gemma4 => crate::gemma4::Gemma4Format.render(ctx),
        }
    }

    /// The tool calls this format reads in model output.
    pub fn parse_tool_calls(self, output: &str) -> (r: Vec<ParsedToolCall>)
        ensures
            self is Gemma4 ==> calls_view(r@) == crate::tool_call_parse::all_calls(output@),
            self is OpenAiMessages ==> calls_view(r@) == crate::openai_messages::openai_calls(
                output@,
            ),
    {
        match self {
            PromptFormatKind::OpenAiMessages => crate::openai_messages::OpenAiMessagesFormat.parse_tool_calls(output),
            PromptFormatKind::Gemma4 => crate::gemma4::Gemma4Format.parse_tool_calls(output),
        }
    }
}

/// The format an id names; unknown ids fall back to OpenAI messages.
pub fn resolve(id: &str) -> (r: PromptFormatKind)
    ensures
        r == resolved_format(id@),
{
    if str_eq(id, "gemma4") {
        PromptFormatKind::Gemma4
    } else {
        PromptFormatKind::OpenAiMessages
    }
}

/// Id of the default format.
pub fn default_format_id() -> (r: &'static str)
    ensures
        r@ == "openai_messages"@,
{
    "openai_messages"
}

/// Info of one format.
fn format_info(k: PromptFormatKind) -> (r: PromptFormatInfo)
    ensures
        r.id@ == format_id(k),
        r.label@ == format_label(k),
        r.description@ == format_description(k),
        r.supports_tool_calling,
        r.uses_wire_messages == (k is OpenAiMessages),
{
    PromptFormatInfo {
        id: k.id().to_string(),
        label: k.display_name().to_string(),
        description: k.description().to_string(),
        supports_tool_calling: k.supports_tool_calling(),
        uses_wire_messages: k.uses_wire_messages(),
    }
}

/// All registered formats, OpenAI messages first.
pub fn list_formats() -> (r: Vec<PromptFormatInfo>)
    ensures
        r@.len() == 2,
        r@[0].id@ == "openai_messages"@,
        r@[1].id@ == "gemma4"@,
        forall|i: int| 0 <= i < 2 ==> {
            let k = if i == 0 { PromptFormatKind::OpenAiMessages } else { PromptFormatKind::Gemma4 };
            let f = #[trigger] r@[i];
            &&& f.id@ == format_id(k)
            &&& f.label@ == format_label(k)
            &&& f.description@ == format_description(k)
            &&& f.supports_tool_calling
            &&& f.uses_wire_messages == (k is OpenAiMessages)
        },
{
    let mut v: Vec<PromptFormatInfo> = Vec::new();
    v.push(format_info(PromptFormatKind::OpenAiMessages));
    v.push(format_info(PromptFormatKind::Gemma4));
    v
}

/// A request to preview how a format serializes a conversation.
pub struct RenderPromptFormatInput {
    pub format_id: String,
    pub system: Option<String>,
    pub messages: Vec<crate::models::ChatMessage>,
    pub tools: Vec<ToolDefinition>,
    pub add_generation_prompt: bool,
}

/// The preview: the resolved format, whether it sends wire messages, and the rendered
/// prompt (empty for wire messages).
pub struct RenderPromptFormatResult {
    pub format_id: String,
    pub uses_wire_messages: bool,
    pub rendered: String,
    pub tool_calls: Vec<ParsedToolCall>,
}

/// Preview how a format serializes the system line, messages and tools.
pub fn render_prompt_format(input: RenderPromptFormatInput) -> (r: RenderPromptFormatResult)
    ensures
        r.format_id@ == format_id(resolved_format(input.format_id@)),
        r.uses_wire_messages == (resolved_format(input.format_id@) is OpenAiMessages),
        resolved_format(input.format_id@) is OpenAiMessages ==> r.rendered@.len() == 0,
        resolved_format(input.format_id@) is Gemma4 ==> exists|ctx: PromptFormatContext|
            built_context(ctx, input.system, input.messages@, input.tools@, input.add_generation_prompt)
                && r.rendered@ == crate::gemma4::gemma_render(ctx),
        r.tool_calls@.len() == 0,
{
    let format = resolve(input.format_id.as_str());
    let ctx = build_context(input.system, input.messages.as_slice(), input.tools, input.add_generation_prompt);
    let rendered = format.render(&ctx);
    RenderPromptFormatResult {
        format_id: format.id().to_string(),
        uses_wire_messages: format.uses_wire_messages(),
        rendered,
        tool_calls: Vec::new(),
    }
}

} // verus!
