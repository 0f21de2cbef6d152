//! Tool calls in model text, in every wire format models emit whatever template the
//! connection names: Gemma `<|tool_call>`, Qwen `<|tool_call|>` markers, relaxed
//! `<tool_call>` blocks, bare `call:name{...}` segments, and patch edits written as
//! `file:` fences or lines.
use vstd::prelude::*;


use crate::gemma4::{gemma_calls, parse_gemma4_tool_calls};
use crate::json_value::{
    get_key, insert_member, insert_member_exec, json_eq, json_parse, lemma_members_of, lookup,
    members_of, parse_json, Json, JsonValue,
};
use crate::prompt_format::{calls_view, lemma_calls_view_push, ParsedToolCall};
use crate::relaxed_args::{
    matching_end, matching_close_end, relaxed_args, parse_relaxed_args,
};
use crate::text::{
    chars_of, find, find_exec, find_from, find_from_exec, lemma_find_from_sound, lemma_found,
    lemma_trim_start_len, lower_seq, lower_vec, replace_all, replace_vec, seq_eq_exec, slice_of,
    starts_with, starts_with_str, str_eq, string_of, trim, trim_start, trim_start_index, trim_vec,
    utf8_len, utf8_len_below,
};
use crate::harness::{fence_header_path, fence_header_path_exec};
use crate::tool_markup::{
    earliest_exec, earliest_upto, fence_end, fence_end_exec, lemma_fence_end_bounds,
    strip_calls, strip_tool_call_markup, stripped_calls,
};

verus! {

// ---------------------------------------------------------------------------------------
// One call segment.
/// Value under the first of three keys that is present.
pub open spec fn first_present(
    m: Seq<(Seq<char>, Json)>,
    a: Seq<char>,
    b: Seq<char>,
    c: Seq<char>,
) -> Option<Json> {
    if lookup(m, a) is Some {
        lookup(m, a)
    } else if lookup(m, b) is Some {
        lookup(m, b)
    } else {
        lookup(m, c)
    }
}

/// A call written as a JSON object at the start of the trimmed segment: its name under
/// `name` (or `tool`, or `function`) must be a non-blank string, kept trimmed; its
/// arguments are under `arguments` (or `parameters`, or `args`), an empty object if none.
pub open spec fn json_call(segment: Seq<char>) -> Option<(Seq<char>, Json)> {
    let seg = trim(segment);
    if seg.len() > 0 && seg[0] == '{' {
        match matching_end(seg, 0, '{', '}') {
            None => None,
            Some(e) => match json_parse(trim(seg.subrange(0, e))) {
                Some(Json::Object(m)) => match first_present(m, "name"@, "tool"@, "function"@) {
                    Some(Json::Str(n)) => if trim(n).len() > 0 {
                        Some(
                            (
                                trim(n),
                                match first_present(m, "arguments"@, "parameters"@, "args"@) {
                                    Some(a) => a,
                                    None => Json::Object(Seq::empty()),
                                },
                            ),
                        )
                    } else {
                        None
                    },
                    _ => None,
                },
                _ => None,
            },
        }
    } else {
        None
    }
}

/// The segment with a leading `call:` removed, trimmed.
pub open spec fn without_call_prefix(seg: Seq<char>) -> Seq<char> {
    trim(
        if starts_with(seg, "call:"@) {
            seg.subrange("call:"@.len() as int, seg.len() as int)
        } else {
            seg
        },
    )
}

/// One call segment: a JSON call object, optionally after `call:`; otherwise
/// `name{relaxed args}` (the braced run after the name, itself tried as a JSON call first).
pub open spec fn call_segment(segment: Seq<char>) -> Option<(Seq<char>, Json)> {
    let seg = trim(segment);
    if json_call(seg) is Some {
        json_call(seg)
    } else {
        let seg2 = without_call_prefix(seg);
        if json_call(seg2) is Some {
            json_call(seg2)
        } else {
            match find(seg2, seq!['{']) {
                None => None,
                Some(brace) => {
                    let name = trim(seg2.subrange(0, brace));
                    if name.len() == 0 {
                        None
                    } else {
                        match matching_end(seg2, brace, '{', '}') {
                            None => None,
                            Some(e) => {
                                let args = trim(seg2.subrange(brace, e));
                                if json_call(args) is Some {
                                    json_call(args)
                                } else {
                                    Some(
                                        (
                                            name,
                                            match relaxed_args(args, true) {
                                                Some(a) => a,
                                                None => Json::Object(Seq::empty()),
                                            },
                                        ),
                                    )
                                }
                            },
                        }
                    }
                },
            }
        }
    }
}

/// Reads a JSON call object (see `json_call`).
fn parse_json_tool_call(segment: &[char]) -> (r: Option<ParsedToolCall>)
    ensures
        r matches Some(c) ==> json_call(segment@) == Some(c@),
        r is None ==> json_call(segment@) is None,
{
    let seg = trim_vec(segment);
    if !(seg.len() > 0 && seg[0] == '{') {
        return None;
    }
    let e = match matching_close_end(seg.as_slice(), 0, '{', '}') {
        None => {
            return None;
        },
        Some(e) => e,
    };
    let head = slice_of(seg.as_slice(), 0, e);
    let body = trim_vec(head.as_slice());
    let text = string_of(body.as_slice());
    let v = match parse_json(text.as_str()) {
        None => {
            return None;
        },
        Some(v) => v,
    };
    match &v {
        JsonValue::Object(_) => {},
        _ => {
            return None;
        },
    }
    let nv = match v.get("name") {
        Some(x) => Some(x),
        None => match v.get("tool") {
            Some(x) => Some(x),
            None => v.get("function"),
        },
    };
    let name = match nv {
        None => {
            return None;
        },
        Some(x) => match x.as_str() {
            None => {
                return None;
            },
            Some(s) => {
                let sv = chars_of(s);
                trim_vec(sv.as_slice())
            },
        },
    };
    if name.len() == 0 {
        return None;
    }
    let av = match v.get("arguments") {
        Some(x) => Some(x),
        None => match v.get("parameters") {
            Some(x) => Some(x),
            None => v.get("args"),
        },
    };
    let arguments = match av {
        Some(x) => x.deep_clone(),
        None => JsonValue::empty_object(),
    };
    Some(ParsedToolCall { name: string_of(name.as_slice()), arguments })
}

/// Reads one call segment (see `call_segment`).
pub fn parse_call_segment(segment: &[char]) -> (r: Option<ParsedToolCall>)
    ensures
        r matches Some(c) ==> call_segment(segment@) == Some(c@),
        r is None ==> call_segment(segment@) is None,
{
    proof {
        reveal_strlit("call:");
    }
    let seg = trim_vec(segment);
    match parse_json_tool_call(seg.as_slice()) {
        Some(c) => {
            return Some(c);
        },
        None => {},
    }
    let stripped = if starts_with_str(seg.as_slice(), "call:") {
        slice_of(seg.as_slice(), 5, seg.len())
    } else {
        slice_of(seg.as_slice(), 0, seg.len())
    };
    assert(seg@.subrange(0, seg@.len() as int) =~= seg@);
    let seg2 = trim_vec(stripped.as_slice());
    match parse_json_tool_call(seg2.as_slice()) {
        Some(c) => {
            return Some(c);
        },
        None => {},
    }
    let ob = vec!['{'];
    assert(ob@ =~= seq!['{']);
    let brace = match find_exec(seg2.as_slice(), ob.as_slice()) {
        None => {
            return None;
        },
        Some(b) => b,
    };
    proof {
        lemma_found(seg2@, ob@, brace as int);
    }
    let nraw = slice_of(seg2.as_slice(), 0, brace);
    let name = trim_vec(nraw.as_slice());
    if name.len() == 0 {
        return None;
    }
    let e = match matching_close_end(seg2.as_slice(), brace, '{', '}') {
        None => {
            return None;
        },
        Some(e) => e,
    };
    let araw = slice_of(seg2.as_slice(), brace, e);
    let args = trim_vec(araw.as_slice());
    match parse_json_tool_call(args.as_slice()) {
        Some(c) => {
            return Some(c);
        },
        None => {},
    }
    let arguments = match parse_relaxed_args(args.as_slice(), true) {
        Some(a) => a,
        None => JsonValue::empty_object(),
    };
    Some(ParsedToolCall { name: string_of(name.as_slice()), arguments })
}

/// How far a bare `call:name{...}` segment reaches: leading whitespace, the optional
/// `call:`, and the name through its balanced braces.
pub open spec fn segment_len(segment: Seq<char>) -> Option<int> {
    let trimmed = trim_start(segment);
    let offset = segment.len() - trimmed.len();
    let after = if starts_with(trimmed, "call:"@) {
        trimmed.subrange("call:"@.len() as int, trimmed.len() as int)
    } else {
        trimmed
    };
    let prefix = trimmed.len() - after.len();
    match find(after, seq!['{']) {
        None => None,
        Some(b) => match matching_end(after, b, '{', '}') {
            None => None,
            Some(e) => Some(offset + prefix + e),
        },
    }
}

pub proof fn lemma_matching_end_bounds(s: Seq<char>, i: int, open: char, close: char)
    ensures
        matching_end(s, i, open, close) matches Some(e) ==> 0 <= i < e <= s.len(),
{
    if 0 <= i <= s.len() {
        crate::relaxed_args::lemma_close_scan_bounds(
            s.subrange(i, s.len() as int),
            0,
            0,
            None,
            open,
            close,
        );
    }
}

pub proof fn lemma_segment_len_bounds(segment: Seq<char>)
    ensures
        segment_len(segment) matches Some(l) ==> 0 < l <= segment.len(),
{
    reveal_strlit("call:");
    let trimmed = trim_start(segment);
    lemma_trim_start_len(segment);
    let after = if starts_with(trimmed, "call:"@) {
        trimmed.subrange(5, trimmed.len() as int)
    } else {
        trimmed
    };
    match find(after, seq!['{']) {
        None => {},
        Some(b) => {
            lemma_found(after, seq!['{'], b);
            lemma_matching_end_bounds(after, b, '{', '}');
        },
    }
}

/// Measures a bare call segment (see `segment_len`).
fn call_segment_byte_len(segment: &[char]) -> (r: Option<usize>)
    ensures
        r matches Some(l) ==> segment_len(segment@) == Some(l as int),
        r is None ==> segment_len(segment@) is None,
{
    proof {
        reveal_strlit("call:");
        lemma_trim_start_len(segment@);
    }
    let offset = trim_start_index(segment);
    let trimmed = slice_of(segment, offset, segment.len());
    let after = if starts_with_str(trimmed.as_slice(), "call:") {
        slice_of(trimmed.as_slice(), 5, trimmed.len())
    } else {
        slice_of(trimmed.as_slice(), 0, trimmed.len())
    };
    assert(trimmed@.subrange(0, trimmed@.len() as int) =~= trimmed@);
    let prefix = trimmed.len() - after.len();
    let ob = vec!['{'];
    assert(ob@ =~= seq!['{']);
    match find_exec(after.as_slice(), ob.as_slice()) {
        None => None,
        Some(b) => {
            proof {
                lemma_found(after@, ob@, b as int);
            }
            match matching_close_end(after.as_slice(), b, '{', '}') {
                None => None,
                Some(e) => Some(offset + prefix + e),
            }
        },
    }
}

// ---------------------------------------------------------------------------------------
// Marker-delimited blocks.
/// Calls in blocks that start at `open` and end at the nearest of `closes` (or at the end
/// of the text); blocks whose segment does not read are skipped.
pub open spec fn marker_calls(rest: Seq<char>, open: Seq<char>, closes: Seq<Seq<char>>) -> Seq<
    (Seq<char>, Json),
>
    decreases rest.len(),
{
    if open.len() == 0 {
        Seq::empty()
    } else {
        match find(rest, open) {
            None => Seq::empty(),
            Some(start) => {
                proof {
                    lemma_found(rest, open, start);
                }
                let after = rest.subrange(start + open.len(), rest.len() as int);
                let seg_next = match earliest_upto(after, closes, closes.len() as int) {
                    Some(p) => (after.subrange(0, p.0), p.0 + p.1),
                    None => (after, after.len() as int),
                };
                let here = match call_segment(seg_next.0) {
                    Some(c) => seq![c],
                    None => Seq::empty(),
                };
                proof {
                    lemma_earliest_in_bounds(after, closes, closes.len() as int);
                }
                here + marker_calls(after.subrange(seg_next.1, after.len() as int), open, closes)
            },
        }
    }
}

pub proof fn lemma_earliest_in_bounds(h: Seq<char>, ms: Seq<Seq<char>>, k: int)
    ensures
        earliest_upto(h, ms, k) matches Some(p) ==> 0 <= p.0 && p.0 + p.1 <= h.len() && p.1 >= 0,
    decreases k,
{
    if 0 < k <= ms.len() {
        lemma_earliest_in_bounds(h, ms, k - 1);
        match find(h, ms[k - 1]) {
            Some(i) => {
                lemma_found(h, ms[k - 1], i);
            },
            None => {},
        }
    }
}

/// Reads the calls of marker-delimited blocks (see `marker_calls`).
fn parse_marker_tool_calls(text: &[char], open: &str, closes: &[&str]) -> (r: Vec<ParsedToolCall>)
    requires
        open@.len() > 0,
    ensures
        calls_view(r@) == marker_calls(text@, open@, crate::text::strs_view(closes@)),
{
    let ov = chars_of(open);
    let ghost cs = crate::text::strs_view(closes@);
    let mut out: Vec<ParsedToolCall> = Vec::new();
    let mut rest = slice_of(text, 0, text.len());
    assert(rest@ =~= text@);
    assert(calls_view(out@) =~= Seq::<(Seq<char>, Json)>::empty());
    loop
        invariant_except_break
            calls_view(out@) + marker_calls(rest@, open@, cs) == marker_calls(text@, open@, cs),
        invariant
            ov@ == open@,
            ov@.len() > 0,
            cs == crate::text::strs_view(closes@),
            cs.len() == closes@.len(),
        ensures
            calls_view(out@) == marker_calls(text@, open@, cs),
        decreases rest.len(),
    {
        let start = match find_exec(rest.as_slice(), ov.as_slice()) {
            None => {
                assert(calls_view(out@) + Seq::<(Seq<char>, Json)>::empty() =~= calls_view(out@));
                break;
            },
            Some(s) => s,
        };
        proof {
            lemma_found(rest@, ov@, start as int);
        }
        let after = slice_of(rest.as_slice(), start + ov.len(), rest.len());
        let (segment, next) = match earliest_exec(after.as_slice(), closes) {
            Some(p) => {
                proof {
                    lemma_earliest_in_bounds(after@, cs, cs.len() as int);
                }
                (slice_of(after.as_slice(), 0, p.0), p.0 + p.1)
            },
            None => (slice_of(after.as_slice(), 0, after.len()), after.len()),
        };
        assert(after@.subrange(0, after@.len() as int) =~= after@);
        let ghost o0 = calls_view(out@);
        match parse_call_segment(segment.as_slice()) {
            Some(c) => {
                proof {
                    lemma_calls_view_push(out@, c);
                }
                out.push(c);
            },
            None => {},
        }
        let nrest = slice_of(after.as_slice(), next, after.len());
        proof {
            let here = match call_segment(segment@) {
                Some(c) => seq![c],
                None => Seq::<(Seq<char>, Json)>::empty(),
            };
            assert(calls_view(out@) == o0 + here);
            assert(marker_calls(rest@, open@, cs) == here + marker_calls(nrest@, open@, cs));
            assert(o0 + (here + marker_calls(nrest@, open@, cs)) =~= calls_view(out@) + marker_calls(nrest@, open@, cs));
        }
        rest = nrest;
    }
    out
}

pub open spec fn qwen_closes() -> Seq<Seq<char>> {
    seq![
        "</|tool_call|>"@,
        "</|tool_call>"@,
        "<|tool_call|>"@,
        "</tool_call>"@,
        "<|tool_call>"@,
        "|tool_call|>"@,
    ]
}

pub open spec fn qwen_list_closes() -> Seq<Seq<char>> {
    seq!["</|tool_calls|>"@, "</|tool_calls>"@, "<|tool_calls|>"@]
}

pub open spec fn relaxed_closes() -> Seq<Seq<char>> {
    seq!["</tool_call>"@, "<|tool_call|>"@, "<|tool_call>"@, "<tool_calls>"@, "</tool_calls>"@]
}

/// Qwen / LM Studio blocks: `<|tool_call|>...` then `<|tool_calls|>...`.
pub open spec fn qwen_calls(t: Seq<char>) -> Seq<(Seq<char>, Json)> {
    marker_calls(t, "<|tool_call|>"@, qwen_closes()) + marker_calls(
        t,
        "<|tool_calls|>"@,
        qwen_list_closes(),
    )
}

/// Relaxed `<tool_call>...` blocks.
pub open spec fn relaxed_calls(t: Seq<char>) -> Seq<(Seq<char>, Json)> {
    marker_calls(t, "<tool_call>"@, relaxed_closes())
}

/// Qwen / LM Studio piped markers: `<|tool_call|>call:name{args}</|tool_call|>` (and the
/// `<|tool_calls|>` list form).
pub fn parse_qwen_piped_tool_calls(text: &str) -> (r: Vec<ParsedToolCall>)
    ensures
        calls_view(r@) == qwen_calls(text@),
{
    proof {
        reveal_strlit("<|tool_call|>");
        reveal_strlit("<|tool_calls|>");
    }
    let t = chars_of(text);
    let c1: Vec<&str> = vec![
        "</|tool_call|>",
        "</|tool_call>",
        "<|tool_call|>",
        "</tool_call>",
        "<|tool_call>",
        "|tool_call|>",
    ];
    assert(crate::text::strs_view(c1@) =~= qwen_closes());
    let c2: Vec<&str> = vec!["</|tool_calls|>", "</|tool_calls>", "<|tool_calls|>"];
    assert(crate::text::strs_view(c2@) =~= qwen_list_closes());
    let mut out = parse_marker_tool_calls(t.as_slice(), "<|tool_call|>", c1.as_slice());
    let more = parse_marker_tool_calls(t.as_slice(), "<|tool_calls|>", c2.as_slice());
    append_calls(&mut out, more);
    out
}

/// Relaxed `<tool_call>call:name{args}</tool_call>` blocks.
pub fn parse_relaxed_tool_calls(text: &str) -> (r: Vec<ParsedToolCall>)
    ensures
        calls_view(r@) == relaxed_calls(text@),
{
    proof {
        reveal_strlit("<tool_call>");
    }
    let t = chars_of(text);
    let c: Vec<&str> = vec!["</tool_call>", "<|tool_call|>", "<|tool_call>", "<tool_calls>", "</tool_calls>"];
    assert(crate::text::strs_view(c@) =~= relaxed_closes());
    parse_marker_tool_calls(t.as_slice(), "<tool_call>", c.as_slice())
}

/// Moves the calls of `more` to the end of `out`.
pub fn append_calls(out: &mut Vec<ParsedToolCall>, more: Vec<ParsedToolCall>)
    ensures
        calls_view(final(out)@) == calls_view(old(out)@) + calls_view(more@),
{
    let ghost o0 = out@;
    let ghost m0 = more@;
    let mut more = more;
    out.append(&mut more);
    assert(calls_view(out@) =~= calls_view(o0) + calls_view(m0));
}


// ---------------------------------------------------------------------------------------
// Bare `call:` segments.
/// Calls written bare as `call:name{args}` anywhere from `from` on: after a call, scanning
/// resumes past its braces; after a `call:` that does not read, five characters on.
pub open spec fn bare_calls_from(t: Seq<char>, from: int) -> Seq<(Seq<char>, Json)>
    decreases t.len() - from,
{
    match find_from(t, "call:"@, from) {
        None => Seq::empty(),
        Some(start) => {
            proof {
                reveal_strlit("call:");
                lemma_find_from_sound(t, "call:"@, from);
            }
            let slice = t.subrange(start, t.len() as int);
            match call_segment(slice) {
                Some(c) => {
                    let step = match segment_len(slice) {
                        Some(l) => l,
                        None => 5,
                    };
                    proof {
                        lemma_segment_len_bounds(slice);
                    }
                    seq![c] + bare_calls_from(t, start + step)
                },
                None => bare_calls_from(t, start + 5),
            }
        },
    }
}

/// Bare `call:name{args}` calls outside any marker (see `bare_calls_from`).
pub fn parse_bare_call_tool_calls(text: &str) -> (r: Vec<ParsedToolCall>)
    ensures
        calls_view(r@) == bare_calls_from(text@, 0),
{
    proof {
        reveal_strlit("call:");
    }
    let t = chars_of(text);
    let needle = chars_of("call:");
    let mut out: Vec<ParsedToolCall> = Vec::new();
    let mut from: usize = 0;
    assert(calls_view(out@) =~= Seq::<(Seq<char>, Json)>::empty());
    loop
        invariant_except_break
            calls_view(out@) + bare_calls_from(t@, from as int) == bare_calls_from(t@, 0),
        invariant
            needle@ == "call:"@,
            needle@.len() == 5,
            from <= t.len(),
        ensures
            calls_view(out@) == bare_calls_from(t@, 0),
        decreases t.len() - from,
    {
        let ghost o0 = calls_view(out@);
        let start = match find_from_exec(t.as_slice(), needle.as_slice(), from) {
            None => {
                assert(calls_view(out@) + Seq::<(Seq<char>, Json)>::empty() =~= calls_view(out@));
                break;
            },
            Some(s) => s,
        };
        proof {
            lemma_find_from_sound(t@, needle@, from as int);
        }
        let slice = slice_of(t.as_slice(), start, t.len());
        match parse_call_segment(slice.as_slice()) {
            Some(c) => {
                let step = match call_segment_byte_len(slice.as_slice()) {
                    Some(l) => l,
                    None => 5,
                };
                proof {
                    lemma_segment_len_bounds(slice@);
                    lemma_calls_view_push(out@, c);
                }
                out.push(c);
                assert(calls_view(out@) + bare_calls_from(t@, start + step) =~= o0 + (seq![c@]
                    + bare_calls_from(t@, start + step)));
                from = start + step;
            },
            None => {
                from = start + 5;
            },
        }
    }
    out
}

// ---------------------------------------------------------------------------------------
// Patch edits in `file:` fences and lines.
/// The JSON array after `edits:` (or `edits :`): the balanced `[...]` run from the first
/// `[`, read as JSON.
pub open spec fn edits_field(content: Seq<char>) -> Option<Json> {
    let c = trim(content);
    let rest = if starts_with(c, "edits:"@) {
        Some(c.subrange("edits:"@.len() as int, c.len() as int))
    } else if starts_with(c, "edits :"@) {
        Some(c.subrange("edits :"@.len() as int, c.len() as int))
    } else {
        None
    };
    match rest {
        None => None,
        Some(r) => {
            let s = trim(r);
            match find(s, seq!['[']) {
                None => None,
                Some(st) => match matching_end(s, st, '[', ']') {
                    None => None,
                    Some(e) => json_parse(s.subrange(st, e)),
                },
            }
        },
    }
}

/// Reads the `edits:` array (see `edits_field`).
fn parse_edits_field(content: &[char]) -> (r: Option<JsonValue>)
    ensures
        r matches Some(v) ==> edits_field(content@) == Some(v@),
        r is None ==> edits_field(content@) is None,
{
    proof {
        reveal_strlit("edits:");
        reveal_strlit("edits :");
    }
    let c = trim_vec(content);
    let r = if starts_with_str(c.as_slice(), "edits:") {
        slice_of(c.as_slice(), 6, c.len())
    } else if starts_with_str(c.as_slice(), "edits :") {
        slice_of(c.as_slice(), 7, c.len())
    } else {
        return None;
    };
    let s = trim_vec(r.as_slice());
    let ob = vec!['['];
    assert(ob@ =~= seq!['[']);
    let st = match find_exec(s.as_slice(), ob.as_slice()) {
        None => {
            return None;
        },
        Some(x) => x,
    };
    proof {
        lemma_found(s@, ob@, st as int);
    }
    let e = match matching_close_end(s.as_slice(), st, '[', ']') {
        None => {
            return None;
        },
        Some(e) => e,
    };
    let arr = slice_of(s.as_slice(), st, e);
    let text = string_of(arr.as_slice());
    parse_json(text.as_str())
}

/// Arguments of an `apply_patch` call made from a path and an edits array (inserted as
/// `path`, then `edits`).
pub open spec fn patch_args(path: Seq<char>, edits: Json) -> Json {
    Json::Object(insert_member(insert_member(Seq::empty(), "path"@, Json::Str(path)), "edits"@, edits))
}

fn apply_patch_call(path: &[char], edits: JsonValue) -> (r: ParsedToolCall)
    ensures
        r@ == ("apply_patch"@, patch_args(path@, edits@)),
{
    let mut m: Vec<(String, JsonValue)> = Vec::new();
    proof {
        lemma_members_of(m@);
        assert(members_of(m@) =~= Seq::<(Seq<char>, Json)>::empty());
    }
    insert_member_exec(&mut m, "path".to_string(), JsonValue::Str(string_of(path)));
    insert_member_exec(&mut m, "edits".to_string(), edits);
    ParsedToolCall { name: "apply_patch".to_string(), arguments: JsonValue::Object(m) }
}

/// The `apply_patch` call of a fence whose header names a file and whose body is an
/// `edits:` array.
pub open spec fn file_edits_call(header: Seq<char>, content: Seq<char>) -> Option<
    (Seq<char>, Json),
> {
    match fence_header_path(header) {
        None => None,
        Some(path) => match edits_field(content) {
            None => None,
            Some(e) => Some(("apply_patch"@, patch_args(path, e))),
        },
    }
}

/// Calls from markdown fences from `from` on: each ```` ``` ```` with a header line, its
/// body up to the next ```` ``` ```` or `</file>`; scanning stops at a fence without a
/// header line.
pub open spec fn fence_calls_from(t: Seq<char>, from: int) -> Seq<(Seq<char>, Json)>
    decreases t.len() - from,
{
    match find_from(t, "```"@, from) {
        None => Seq::empty(),
        Some(fs) => {
            proof {
                lemma_find_from_sound(t, "```"@, from);
            }
            match find_from(t, seq!['\n'], fs + 3) {
                None => Seq::empty(),
                Some(he) => {
                    proof {
                        lemma_find_from_sound(t, seq!['\n'], fs + 3);
                    }
                    let header = trim(t.subrange(fs + 3, he));
                    let cs = he + 1;
                    let slice = t.subrange(cs, t.len() as int);
                    let ce = fence_end(slice);
                    proof {
                        lemma_fence_end_bounds(slice);
                    }
                    let content = t.subrange(cs, cs + ce.0);
                    let here = match file_edits_call(header, content) {
                        Some(c) => seq![c],
                        None => Seq::empty(),
                    };
                    here + fence_calls_from(t, cs + ce.0 + ce.1)
                },
            }
        },
    }
}

/// Patch edits written inside a markdown file fence instead of a tool call (see
/// `fence_calls_from`).
pub fn parse_file_edits_fence_tool_calls(text: &str) -> (r: Vec<ParsedToolCall>)
    ensures
        calls_view(r@) == fence_calls_from(text@, 0),
{
    proof {
        reveal_strlit("```");
    }
    let t = chars_of(text);
    let ticks = chars_of("```");
    let nl = vec!['\n'];
    assert(nl@ =~= seq!['\n']);
    let mut out: Vec<ParsedToolCall> = Vec::new();
    let mut from: usize = 0;
    assert(calls_view(out@) =~= Seq::<(Seq<char>, Json)>::empty());
    loop
        invariant_except_break
            calls_view(out@) + fence_calls_from(t@, from as int) == fence_calls_from(t@, 0),
        invariant
            ticks@ == "```"@,
            ticks@.len() == 3,
            nl@ == seq!['\n'],
            from <= t.len(),
        ensures
            calls_view(out@) == fence_calls_from(t@, 0),
        decreases t.len() - from,
    {
        let ghost o0 = calls_view(out@);
        let fs = match find_from_exec(t.as_slice(), ticks.as_slice(), from) {
            None => {
                assert(calls_view(out@) + Seq::<(Seq<char>, Json)>::empty() =~= calls_view(out@));
                break;
            },
            Some(x) => x,
        };
        proof {
            lemma_find_from_sound(t@, ticks@, from as int);
        }
        let he = match find_from_exec(t.as_slice(), nl.as_slice(), fs + 3) {
            None => {
                assert(calls_view(out@) + Seq::<(Seq<char>, Json)>::empty() =~= calls_view(out@));
                break;
            },
            Some(x) => x,
        };
        proof {
            lemma_find_from_sound(t@, nl@, fs + 3);
        }
        let hraw = slice_of(t.as_slice(), fs + 3, he);
        let header = trim_vec(hraw.as_slice());
        let cs = he + 1;
        let slice = slice_of(t.as_slice(), cs, t.len());
        let (ce, cl) = fence_end_exec(slice.as_slice());
        proof {
            lemma_fence_end_bounds(slice@);
        }
        let content = slice_of(t.as_slice(), cs, cs + ce);
        let ghost here = match file_edits_call(header@, content@) {
            Some(c) => seq![c],
            None => Seq::<(Seq<char>, Json)>::empty(),
        };
        match fence_header_path_exec(header.as_slice()) {
            None => {},
            Some(path) => {
                match parse_edits_field(content.as_slice()) {
                    None => {},
                    Some(e) => {
                        let c = apply_patch_call(path.as_slice(), e);
                        proof {
                            lemma_calls_view_push(out@, c);
                        }
                        out.push(c);
                    },
                }
            },
        }
        assert(calls_view(out@) == o0 + here);
        assert(calls_view(out@) + fence_calls_from(t@, cs + ce + cl) =~= o0 + (here
            + fence_calls_from(t@, cs + ce + cl)));
        from = cs + ce + cl;
    }
    out
}

/// `file:path` lines followed by an `edits:` array (no fence) from `from` on, found in any
/// ASCII case; a line that names no path or is not followed by edits is passed over.
pub open spec fn inline_calls_from(t: Seq<char>, from: int) -> Seq<(Seq<char>, Json)>
    decreases t.len() - from,
{
    match find_from(lower_seq(t), "file:"@, from) {
        None => Seq::empty(),
        Some(at) => {
            proof {
                reveal_strlit("file:");
                lemma_find_from_sound(lower_seq(t), "file:"@, from);
            }
            let line_end = match find_from(t, seq!['\n'], at) {
                Some(i) => i,
                None => t.len() as int,
            };
            proof {
                lemma_find_from_sound(t, seq!['\n'], at);
            }
            let header_line = trim(t.subrange(at, line_end));
            let path = if starts_with(header_line, "file:"@) {
                trim(header_line.subrange(5, header_line.len() as int))
            } else {
                Seq::empty()
            };
            let after_line = line_end + 1;
            if path.len() == 0 || after_line >= t.len() {
                inline_calls_from(t, at + 5)
            } else {
                match edits_field(t.subrange(after_line, t.len() as int)) {
                    None => inline_calls_from(t, at + 5),
                    Some(e) => seq![("apply_patch"@, patch_args(path, e))] + inline_calls_from(
                        t,
                        after_line + 1,
                    ),
                }
            }
        },
    }
}

/// `file:path` plus `edits:[...]` without markdown fences (see `inline_calls_from`).
pub fn parse_inline_file_edits_tool_calls(text: &str) -> (r: Vec<ParsedToolCall>)
    ensures
        calls_view(r@) == inline_calls_from(text@, 0),
{
    proof {
        reveal_strlit("file:");
    }
    let t = chars_of(text);
    let lower = lower_vec(t.as_slice());
    let needle = chars_of("file:");
    let nl = vec!['\n'];
    assert(nl@ =~= seq!['\n']);
    let mut out: Vec<ParsedToolCall> = Vec::new();
    let mut from: usize = 0;
    assert(calls_view(out@) =~= Seq::<(Seq<char>, Json)>::empty());
    loop
        invariant_except_break
            calls_view(out@) + inline_calls_from(t@, from as int) == inline_calls_from(t@, 0),
        invariant
            lower@ == lower_seq(t@),
            lower@.len() == t@.len(),
            needle@ == "file:"@,
            needle@.len() == 5,
            nl@ == seq!['\n'],
            from <= t.len(),
        ensures
            calls_view(out@) == inline_calls_from(t@, 0),
        decreases t.len() - from,
    {
        let ghost o0 = calls_view(out@);
        let at = match find_from_exec(lower.as_slice(), needle.as_slice(), from) {
            None => {
                assert(calls_view(out@) + Seq::<(Seq<char>, Json)>::empty() =~= calls_view(out@));
                break;
            },
            Some(x) => x,
        };
        proof {
            lemma_find_from_sound(lower@, needle@, from as int);
            lemma_find_from_sound(t@, nl@, at as int);
        }
        let line_end = match find_from_exec(t.as_slice(), nl.as_slice(), at) {
            Some(i) => i,
            None => t.len(),
        };
        let hraw = slice_of(t.as_slice(), at, line_end);
        let header_line = trim_vec(hraw.as_slice());
        let path = if starts_with_str(header_line.as_slice(), "file:") {
            let pr = slice_of(header_line.as_slice(), 5, header_line.len());
            trim_vec(pr.as_slice())
        } else {
            Vec::new()
        };
        if path.len() == 0 || t.len() == 0 || line_end >= t.len() - 1 {
            from = at + 5;
        } else {
            let after_line = line_end + 1;
            let region = slice_of(t.as_slice(), after_line, t.len());
            match parse_edits_field(region.as_slice()) {
                None => {
                    from = at + 5;
                },
                Some(e) => {
                    let c = apply_patch_call(path.as_slice(), e);
                    proof {
                        lemma_calls_view_push(out@, c);
                    }
                    out.push(c);
                    assert(calls_view(out@) + inline_calls_from(t@, after_line + 1) =~= o0 + (
                    seq![c@] + inline_calls_from(t@, after_line + 1)));
                    from = after_line + 1;
                },
            }
        }
    }
    out
}

// ---------------------------------------------------------------------------------------
// Whole-text parsing.
/// Calls without repeats: a call equal (name and arguments) to an earlier one is dropped.
pub open spec fn dedupe(calls: Seq<(Seq<char>, Json)>) -> Seq<(Seq<char>, Json)>
    decreases calls.len(),
{
    if calls.len() == 0 {
        Seq::empty()
    } else {
        let prev = dedupe(calls.drop_last());
        if prev.contains(calls.last()) {
            prev
        } else {
            prev.push(calls.last())
        }
    }
}

/// Drops repeated calls, keeping the first of each (see `dedupe`).
pub fn dedupe_tool_calls(calls: Vec<ParsedToolCall>) -> (r: Vec<ParsedToolCall>)
    ensures
        calls_view(r@) == dedupe(calls_view(calls@)),
{
    let ghost cv = calls_view(calls@);
    let mut calls = calls;
    let mut rev: Vec<ParsedToolCall> = Vec::new();
    while calls.len() > 0
        invariant
            calls_view(calls@) + calls_view(rev@).reverse() == cv,
        decreases calls.len(),
    {
        let ghost before = calls@;
        let ghost r0 = rev@;
        let c = calls.pop().unwrap();
        proof {
            lemma_calls_view_push(rev@, c);
        }
        rev.push(c);
        proof {
            assert(before == calls@.push(c));
            assert(calls_view(before) =~= calls_view(calls@).push(c@));
            assert(calls_view(rev@).reverse() =~= seq![c@] + calls_view(r0).reverse());
            assert(calls_view(calls@) + calls_view(rev@).reverse() =~= calls_view(before)
                + calls_view(r0).reverse());
        }
    }
    assert(calls_view(calls@) =~= Seq::<(Seq<char>, Json)>::empty());
    assert(calls_view(rev@).reverse() =~= cv);
    let mut out: Vec<ParsedToolCall> = Vec::new();
    let ghost mut done: Seq<(Seq<char>, Json)> = Seq::empty();
    assert(calls_view(out@) =~= dedupe(done));
    while rev.len() > 0
        invariant
            done + calls_view(rev@).reverse() == cv,
            calls_view(out@) == dedupe(done),
        decreases rev.len(),
    {
        let ghost before = rev@;
        let c = rev.pop().unwrap();
        proof {
            assert(before == rev@.push(c));
            assert(calls_view(before) =~= calls_view(rev@).push(c@));
            assert(calls_view(before).reverse() =~= seq![c@] + calls_view(rev@).reverse());
        }
        let mut seen = false;
        let mut j: usize = 0;
        while j < out.len()
            invariant
                j <= out.len(),
                seen == (exists|k: int| 0 <= k < j && calls_view(out@)[k] == c@),
            decreases out.len() - j,
        {
            let same = str_eq(out[j].name.as_str(), c.name.as_str()) && json_eq(
                &out[j].arguments,
                &c.arguments,
            );
            proof {
                assert(calls_view(out@)[j as int] == out@[j as int]@);
                if same {
                    assert(calls_view(out@)[j as int] == c@);
                }
            }
            seen = seen || same;
            j = j + 1;
        }
        let ghost d0 = done;
        proof {
            done = done.push(c@);
            assert(done.drop_last() == d0);
            assert(done.last() == c@);
            assert(dedupe(d0).contains(c@) == seen) by {
                if dedupe(d0).contains(c@) {
                    let k = choose|k: int| 0 <= k < dedupe(d0).len() && dedupe(d0)[k] == c@;
                    assert(calls_view(out@)[k] == c@);
                }
            }
            assert(d0 + (seq![c@] + calls_view(rev@).reverse()) =~= done + calls_view(rev@).reverse());
        }
        if !seen {
            proof {
                lemma_calls_view_push(out@, c);
            }
            out.push(c);
        }
    }
    assert(calls_view(rev@).reverse() =~= Seq::<(Seq<char>, Json)>::empty());
    assert(done + Seq::<(Seq<char>, Json)>::empty() =~= done);
    out
}

/// Model text with LM Studio / Qwen token variants and HTML entities normalized:
/// fullwidth and double vertical bars become `|`, then `&lt;`, `&gt;`, `&amp;` decode.
pub open spec fn normalized(t: Seq<char>) -> Seq<char> {
    let a = replace_all(t, seq!['\u{FF5C}'], seq!['|']);
    let b = replace_all(a, seq!['\u{2016}'], seq!['|']);
    let c = replace_all(b, seq!['<', '\u{FF5C}'], seq!['<', '|']);
    let d = replace_all(c, seq!['\u{FF5C}', '>'], seq!['|', '>']);
    let e = replace_all(d, "&lt;"@, "<"@);
    let f = replace_all(e, "&gt;"@, ">"@);
    replace_all(f, "&amp;"@, "&"@)
}

fn normalize_tool_call_text(text: &str) -> (r: String)
    ensures
        r@ == normalized(text@),
{
    proof {
        reveal_strlit("\u{FF5C}");
        reveal_strlit("\u{2016}");
        reveal_strlit("<\u{FF5C}");
        reveal_strlit("\u{FF5C}>");
        reveal_strlit("&lt;");
        reveal_strlit("&gt;");
        reveal_strlit("&amp;");
        reveal_strlit("|");
        reveal_strlit("<|");
        reveal_strlit("|>");
    }
    let t = chars_of(text);
    let a = replace_vec(t.as_slice(), "\u{FF5C}", "|");
    let b = replace_vec(a.as_slice(), "\u{2016}", "|");
    let c = replace_vec(b.as_slice(), "<\u{FF5C}", "<|");
    let d = replace_vec(c.as_slice(), "\u{FF5C}>", "|>");
    let e = replace_vec(d.as_slice(), "&lt;", "<");
    let f = replace_vec(e.as_slice(), "&gt;", ">");
    let g = replace_vec(f.as_slice(), "&amp;", "&");
    assert("|"@ == seq!['|']);
    assert("<|"@ == seq!['<', '|']);
    assert("|>"@ == seq!['|', '>']);
    assert("\u{FF5C}"@ == seq!['\u{FF5C}']);
    assert("\u{2016}"@ == seq!['\u{2016}']);
    assert("<\u{FF5C}"@ == seq!['<', '\u{FF5C}']);
    assert("\u{FF5C}>"@ == seq!['\u{FF5C}', '>']);
    string_of(g.as_slice())
}

/// Every supported wire format, in order (Gemma, Qwen piped, relaxed blocks, bare calls,
/// patch fences, inline patch lines), over the normalized text, repeats dropped.
pub open spec fn all_calls(text: Seq<char>) -> Seq<(Seq<char>, Json)> {
    let t = normalized(text);
    dedupe(
        gemma_calls(t) + qwen_calls(t) + relaxed_calls(t) + bare_calls_from(t, 0) + fence_calls_from(
            t,
            0,
        ) + inline_calls_from(t, 0),
    )
}

/// All tool calls in model text, whatever template the connection names (see `all_calls`).
pub fn parse_all_tool_calls(text: &str) -> (r: Vec<ParsedToolCall>)
    ensures
        calls_view(r@) == all_calls(text@),
{
    let t = normalize_tool_call_text(text);
    let mut out = parse_gemma4_tool_calls(t.as_str());
    append_calls(&mut out, parse_qwen_piped_tool_calls(t.as_str()));
    append_calls(&mut out, parse_relaxed_tool_calls(t.as_str()));
    append_calls(&mut out, parse_bare_call_tool_calls(t.as_str()));
    append_calls(&mut out, parse_file_edits_fence_tool_calls(t.as_str()));
    append_calls(&mut out, parse_inline_file_edits_tool_calls(t.as_str()));
    dedupe_tool_calls(out)
}

/// Last-resort extraction when markers are malformed: the same reading as
/// `parse_all_tool_calls`.
pub fn parse_loose_tool_calls(text: &str) -> (r: Vec<ParsedToolCall>)
    ensures
        calls_view(r@) == all_calls(text@),
{
    parse_all_tool_calls(text)
}

/// Assistant text that is only tool wire markup: nothing but blanks once the markup is
/// removed, or at least one call with under 24 bytes of other text.
pub open spec fn tool_call_only(text: Seq<char>) -> bool {
    let trimmed = trim(text);
    let rest = trim(strip_calls(trimmed));
    trimmed.len() > 0 && (rest.len() == 0 || (all_calls(trimmed).len() > 0 && utf8_len(rest) < 24))
}

/// Whether assistant text is only tool wire markup (no user-facing answer).
pub fn is_tool_call_only(text: &str) -> (r: bool)
    ensures
        r == tool_call_only(text@),
{
    let tv = chars_of(text);
    let trimmed = trim_vec(tv.as_slice());
    if trimmed.len() == 0 {
        return false;
    }
    let raw = crate::tool_markup::strip_call_markup_vec(trimmed.as_slice());
    let st = trim_vec(raw.as_slice());
    if st.len() == 0 {
        return true;
    }
    let ts = string_of(trimmed.as_slice());
    let calls = parse_all_tool_calls(ts.as_str());
    calls.len() > 0 && utf8_len_below(st.as_slice(), 24)
}

/// The arguments of one edit of a multi-edit patch: the patch's `path` and
/// `expected_hash` when present, and the edit's `old_text` and `new_text` when present.
pub open spec fn edit_args(args: Json, edit: Json) -> Json {
    let m1 = match get_key(args, "path"@) {
        Some(p) => insert_member(Seq::empty(), "path"@, p),
        None => Seq::empty(),
    };
    let m2 = match get_key(args, "expected_hash"@) {
        Some(h) => insert_member(m1, "expected_hash"@, h),
        None => m1,
    };
    let m3 = match get_key(edit, "old_text"@) {
        Some(v) => insert_member(m2, "old_text"@, v),
        None => m2,
    };
    let m4 = match get_key(edit, "new_text"@) {
        Some(v) => insert_member(m3, "new_text"@, v),
        None => m3,
    };
    Json::Object(m4)
}

/// One call after expansion: an `apply_patch` with several `edits` becomes one call per
/// edit; any other call stays as it is.
pub open spec fn expand_one(c: (Seq<char>, Json)) -> Seq<(Seq<char>, Json)> {
    if c.0 == "apply_patch"@ {
        match get_key(c.1, "edits"@) {
            Some(Json::Array(edits)) => if edits.len() <= 1 {
                seq![c]
            } else {
                Seq::new(edits.len(), |i: int| ("apply_patch"@, edit_args(c.1, edits[i])))
            },
            _ => seq![c],
        }
    } else {
        seq![c]
    }
}

pub open spec fn expand_calls(calls: Seq<(Seq<char>, Json)>) -> Seq<(Seq<char>, Json)>
    decreases calls.len(),
{
    if calls.len() == 0 {
        Seq::empty()
    } else {
        expand_calls(calls.drop_last()) + expand_one(calls.last())
    }
}

/// Inserts a copy of `v` under `key` when `v` is present.
fn insert_opt(m: &mut Vec<(String, JsonValue)>, key: &str, v: Option<&JsonValue>)
    ensures
        members_of(final(m)@) == match v {
            Some(x) => insert_member(members_of(old(m)@), key@, x@),
            None => members_of(old(m)@),
        },
{
    match v {
        Some(x) => {
            let c = x.deep_clone();
            insert_member_exec(m, key.to_string(), c);
        },
        None => {},
    }
}

fn edit_args_exec(args: &JsonValue, edit: &JsonValue) -> (r: JsonValue)
    ensures
        r@ == edit_args(args@, edit@),
{
    let mut m: Vec<(String, JsonValue)> = Vec::new();
    proof {
        lemma_members_of(m@);
        assert(members_of(m@) =~= Seq::<(Seq<char>, Json)>::empty());
    }
    insert_opt(&mut m, "path", args.get("path"));
    insert_opt(&mut m, "expected_hash", args.get("expected_hash"));
    insert_opt(&mut m, "old_text", edit.get("old_text"));
    insert_opt(&mut m, "new_text", edit.get("new_text"));
    JsonValue::Object(m)
}

/// Splits each multi-edit `apply_patch` into one call per edit, so edits apply one by one
/// (see `expand_one`).
pub fn expand_apply_patch_calls(calls: Vec<ParsedToolCall>) -> (r: Vec<ParsedToolCall>)
    ensures
        calls_view(r@) == expand_calls(calls_view(calls@)),
{
    proof {
        reveal_strlit("apply_patch");
    }
    let mut out: Vec<ParsedToolCall> = Vec::new();
    let mut i: usize = 0;
    let ghost cv = calls_view(calls@);
    assert(calls_view(out@) =~= expand_calls(cv.subrange(0, 0)));
    while i < calls.len()
        invariant
            i <= calls.len(),
            cv == calls_view(calls@),
            calls_view(out@) == expand_calls(cv.subrange(0, i as int)),
        decreases calls.len() - i,
    {
        let c = &calls[i];
        let ghost ps = cv.subrange(0, i + 1);
        assert(ps.drop_last() =~= cv.subrange(0, i as int));
        assert(ps.last() == c@);
        let ghost o0 = calls_view(out@);
        let mut expanded = false;
        if str_eq(c.name.as_str(), "apply_patch") {
            match c.arguments.get("edits") {
                Some(ev) => match ev.as_array() {
                    Some(edits) => {
                        if edits.len() > 1 {
                            proof {
                                crate::json_value::lemma_jsons_of(edits@);
                            }
                            let ghost ej = crate::json_value::jsons_of(edits@);
                            assert(get_key(c.arguments@, "edits"@) == Some(Json::Array(ej)));
                            let mut j: usize = 0;
                            assert(calls_view(out@) =~= o0 + Seq::new(
                                0 as nat,
                                |k: int| ("apply_patch"@, edit_args(c.arguments@, ej[k])),
                            ));
                            while j < edits.len()
                                invariant
                                    j <= edits.len(),
                                    ej == crate::json_value::jsons_of(edits@),
                                    ej.len() == edits@.len(),
                                    forall|k: int| 0 <= k < edits@.len() ==> #[trigger] ej[k] == edits@[k]@,
                                    calls_view(out@) == o0 + Seq::new(
                                        j as nat,
                                        |k: int| ("apply_patch"@, edit_args(c.arguments@, ej[k])),
                                    ),
                                decreases edits.len() - j,
                            {
                                let a = edit_args_exec(&c.arguments, &edits[j]);
                                let nc = ParsedToolCall { name: "apply_patch".to_string(), arguments: a };
                                proof {
                                    lemma_calls_view_push(out@, nc);
                                }
                                out.push(nc);
                                assert(calls_view(out@) =~= o0 + Seq::new(
                                    (j + 1) as nat,
                                    |k: int| ("apply_patch"@, edit_args(c.arguments@, ej[k])),
                                ));
                                j = j + 1;
                            }
                            assert(calls_view(out@) =~= o0 + expand_one(c@));
                            expanded = true;
                        } else {
                            proof {
                                crate::json_value::lemma_jsons_of(edits@);
                            }
                            assert(expand_one(c@) == seq![c@]);
                        }
                    },
                    None => {
                        assert(expand_one(c@) == seq![c@]);
                    },
                },
                None => {
                    assert(expand_one(c@) == seq![c@]);
                },
            }
        } else {
            assert(expand_one(c@) == seq![c@]);
        }
        if !expanded {
            let nc = ParsedToolCall { name: copy_name(&c.name), arguments: c.arguments.deep_clone() };
            proof {
                lemma_calls_view_push(out@, nc);
            }
            out.push(nc);
        }
        assert(calls_view(out@) =~= o0 + expand_one(c@));
        i = i + 1;
    }
    assert(cv.subrange(0, calls.len() as int) =~= cv);
    out
}

fn copy_name(s: &String) -> (r: String)
    ensures
        r@ == s@,
{
    s.clone()
}

/// No call occurs twice in the sequence.
pub open spec fn no_repeated_calls(s: Seq<(Seq<char>, Json)>) -> bool {
    forall|i: int, j: int| 0 <= i < j < s.len() ==> s[i] != s[j]
}

proof fn lemma_dedupe(calls: Seq<(Seq<char>, Json)>)
    ensures
        no_repeated_calls(dedupe(calls)),
        forall|x: (Seq<char>, Json)| calls.contains(x) <==> #[trigger] dedupe(calls).contains(x),
    decreases calls.len(),
{
    if calls.len() > 0 {
        let prev = dedupe(calls.drop_last());
        lemma_dedupe(calls.drop_last());
        assert forall|x: (Seq<char>, Json)| calls.contains(x) <==> calls.drop_last().contains(x) || x == calls.last() by {
            if calls.contains(x) {
                let k = choose|k: int| 0 <= k < calls.len() && calls[k] == x;
                if k < calls.len() - 1 {
                    assert(calls.drop_last()[k] == x);
                }
            }
            if calls.drop_last().contains(x) {
                let k = choose|k: int| 0 <= k < calls.drop_last().len() && calls.drop_last()[k] == x;
                assert(calls[k] == x);
            }
            if x == calls.last() {
                assert(calls[calls.len() - 1] == x);
            }
        }
        if !prev.contains(calls.last()) {
            let next = prev.push(calls.last());
            assert forall|x: (Seq<char>, Json)| next.contains(x) <==> prev.contains(x) || x == calls.last() by {
                if next.contains(x) {
                    let k = choose|k: int| 0 <= k < next.len() && next[k] == x;
                    if k < prev.len() {
                        assert(prev[k] == x);
                    }
                }
                if prev.contains(x) {
                    let k = choose|k: int| 0 <= k < prev.len() && prev[k] == x;
                    assert(next[k] == x);
                }
                if x == calls.last() {
                    assert(next[prev.len() as int] == x);
                }
            }
            assert forall|i: int, j: int| 0 <= i < j < next.len() implies next[i] != next[j] by {
                if j == prev.len() {
                    assert(prev[i] == next[i]);
                }
            }
        }
    }
}

proof fn lemma_dedupe_of_distinct(s: Seq<(Seq<char>, Json)>)
    requires
        no_repeated_calls(s),
    ensures
        dedupe(s) == s,
    decreases s.len(),
{
    if s.len() > 0 {
        let d = s.drop_last();
        assert(no_repeated_calls(d)) by {
            assert forall|i: int, j: int| 0 <= i < j < d.len() implies d[i] != d[j] by {
                assert(d[i] == s[i] && d[j] == s[j]);
            }
        }
        lemma_dedupe_of_distinct(d);
        assert(!d.contains(s.last())) by {
            if d.contains(s.last()) {
                let k = choose|k: int| 0 <= k < d.len() && d[k] == s.last();
                assert(s[k] == s[s.len() - 1]);
            }
        }
        assert(d.push(s.last()) =~= s);
    }
}

/// Dropping repeated calls leaves no call twice, keeps every call that occurred, and
/// changes nothing when applied again.
pub proof fn law_dedupe_keeps_each_call_once(calls: Seq<(Seq<char>, Json)>)
    ensures
        no_repeated_calls(dedupe(calls)),
        forall|x: (Seq<char>, Json)| calls.contains(x) <==> #[trigger] dedupe(calls).contains(x),
        dedupe(dedupe(calls)) == dedupe(calls),
{
    lemma_dedupe(calls);
    lemma_dedupe_of_distinct(dedupe(calls));
}

} // verus!
