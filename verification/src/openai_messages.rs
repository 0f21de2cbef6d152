//! The OpenAI-messages wire format: roles travel as JSON `messages`, so nothing is rendered
//! locally; tool calls are still read from Gemma blocks and relaxed `<tool_call>` blocks.
use vstd::prelude::*;

use crate::gemma4::{gemma_calls, parse_gemma4_tool_calls};
use crate::json_value::{Json, JsonValue};
use crate::prompt_format::{
    calls_view, lemma_calls_view_push, ChatPromptFormat, ParsedToolCall, PromptFormatContext,
};
use crate::relaxed_args::{relaxed_args, parse_relaxed_args};
use crate::text::{chars_of, find, find_exec, lemma_found, slice_of, starts_with_str, string_of, trim, trim_vec};
use crate::tool_call_parse::{append_calls, without_call_prefix};

verus! {

/// The OpenAI-compatible format.
pub struct OpenAiMessagesFormat;

/// A relaxed `<tool_call>` segment in this format's plainer reading: the name before `{`
/// (after an optional `call:`), and everything from `{` on as relaxed arguments whose
/// quoted values keep their text; arguments that do not read become an empty object.
pub open spec fn plain_segment(segment: Seq<char>) -> Option<(Seq<char>, Json)> {
    let seg = without_call_prefix(trim(segment));
    match find(seg, seq!['{']) {
        None => None,
        Some(b) => {
            let name = trim(seg.subrange(0, b));
            if name.len() == 0 {
                None
            } else {
                Some(
                    (
                        name,
                        match relaxed_args(trim(seg.subrange(b, seg.len() as int)), false) {
                            Some(a) => a,
                            None => Json::Object(Seq::empty()),
                        },
                    ),
                )
            }
        },
    }
}

/// Calls in `<tool_call>...</tool_call>` blocks; scanning stops at an unclosed block.
pub open spec fn plain_block_calls(rest: Seq<char>) -> Seq<(Seq<char>, Json)>
    decreases rest.len(),
{
    let open = "<tool_call>"@;
    let close = "</tool_call>"@;
    if open.len() == 0 {
        Seq::empty()
    } else {
        match find(rest, open) {
            None => Seq::empty(),
            Some(start) => {
                proof {
                    lemma_found(rest, open, start);
                }
                let after = rest.subrange(start + open.len(), rest.len() as int);
                match find(after, close) {
                    None => Seq::empty(),
                    Some(ci) => {
                        proof {
                            lemma_found(after, close, ci);
                        }
                        let here = match plain_segment(after.subrange(0, ci)) {
                            Some(c) => seq![c],
                            None => Seq::empty(),
                        };
                        here + plain_block_calls(after.subrange(ci + close.len(), after.len() as int))
                    },
                }
            },
        }
    }
}

/// What this format reads as tool calls: Gemma blocks, then relaxed blocks.
pub open spec fn openai_calls(text: Seq<char>) -> Seq<(Seq<char>, Json)> {
    gemma_calls(text) + plain_block_calls(text)
}

fn parse_relaxed_call_segment(segment: &[char]) -> (r: Option<ParsedToolCall>)
    ensures
        r matches Some(c) ==> plain_segment(segment@) == Some(c@),
        r is None ==> plain_segment(segment@) is None,
{
    proof {
        reveal_strlit("call:");
    }
    let t = trim_vec(segment);
    let stripped = if starts_with_str(t.as_slice(), "call:") {
        slice_of(t.as_slice(), 5, t.len())
    } else {
        slice_of(t.as_slice(), 0, t.len())
    };
    assert(t@.subrange(0, t@.len() as int) =~= t@);
    let seg = trim_vec(stripped.as_slice());
    let ob = vec!['{'];
    assert(ob@ =~= seq!['{']);
    let b = match find_exec(seg.as_slice(), ob.as_slice()) {
        None => {
            return None;
        },
        Some(b) => b,
    };
    proof {
        lemma_found(seg@, ob@, b as int);
    }
    let nraw = slice_of(seg.as_slice(), 0, b);
    let name = trim_vec(nraw.as_slice());
    if name.len() == 0 {
        return None;
    }
    let araw = slice_of(seg.as_slice(), b, seg.len());
    let args = trim_vec(araw.as_slice());
    let arguments = match parse_relaxed_args(args.as_slice(), false) {
        Some(a) => a,
        None => JsonValue::empty_object(),
    };
    Some(ParsedToolCall { name: string_of(name.as_slice()), arguments })
}

fn parse_relaxed_tool_calls(text: &str) -> (r: Vec<ParsedToolCall>)
    ensures
        calls_view(r@) == plain_block_calls(text@),
{
    proof {
        reveal_strlit("<tool_call>");
        reveal_strlit("</tool_call>");
    }
    let open = chars_of("<tool_call>");
    let close = chars_of("</tool_call>");
    let mut out: Vec<ParsedToolCall> = Vec::new();
    let mut rest = chars_of(text);
    let ghost t = text@;
    assert(calls_view(out@) =~= Seq::<(Seq<char>, Json)>::empty());
    loop
        invariant_except_break
            calls_view(out@) + plain_block_calls(rest@) == plain_block_calls(t),
        invariant
            open@ == "<tool_call>"@,
            close@ == "</tool_call>"@,
            open@.len() == 11,
            close@.len() == 12,
        ensures
            calls_view(out@) == plain_block_calls(t),
        decreases rest.len(),
    {
        let ghost o0 = calls_view(out@);
        let start = match find_exec(rest.as_slice(), open.as_slice()) {
            None => {
                assert(calls_view(out@) + Seq::<(Seq<char>, Json)>::empty() =~= calls_view(out@));
                break;
            },
            Some(s) => s,
        };
        proof {
            lemma_found(rest@, open@, start as int);
        }
        let after = slice_of(rest.as_slice(), start + 11, rest.len());
        let ci = match find_exec(after.as_slice(), close.as_slice()) {
            None => {
                assert(calls_view(out@) + Seq::<(Seq<char>, Json)>::empty() =~= calls_view(out@));
                break;
            },
            Some(c) => c,
        };
        proof {
            lemma_found(after@, close@, ci as int);
        }
        let segment = slice_of(after.as_slice(), 0, ci);
        let next = slice_of(after.as_slice(), ci + 12, after.len());
        let ghost here = match plain_segment(segment@) {
            Some(c) => seq![c],
            None => Seq::<(Seq<char>, Json)>::empty(),
        };
        match parse_relaxed_call_segment(segment.as_slice()) {
            Some(c) => {
                proof {
                    lemma_calls_view_push(out@, c);
                }
                out.push(c);
            },
            None => {},
        }
        assert(calls_view(out@) == o0 + here);
        assert(calls_view(out@) + plain_block_calls(next@) =~= o0 + (here + plain_block_calls(next@)));
        rest = next;
    }
    out
}

impl ChatPromptFormat for OpenAiMessagesFormat {
    fn id(&self) -> &'static str {
        "openai_messages"
    }

    fn display_name(&self) -> &'static str {
        "OpenAI messages (JSON)"
    }

    fn description(&self) -> &'static str {
        "Default for OpenAI-compatible APIs. The server applies its own chat template."
    }

    fn supports_tool_calling(&self) -> bool {
        true
    }

    fn uses_wire_messages(&self) -> bool {
        true
    }

    /// Nothing is rendered: the server applies its own template to the wire messages.
    fn render(&self, ctx: &PromptFormatContext) -> (r: String)
        ensures
            r@.len() == 0,
    {
        String::new()
    }

    fn parse_tool_calls(&self, output: &str) -> (r: Vec<ParsedToolCall>)
        ensures
            calls_view(r@) == openai_calls(output@),
    {
        let mut calls = parse_gemma4_tool_calls(output);
        append_calls(&mut calls, parse_relaxed_tool_calls(output));
        calls
    }
}

} // verus!
