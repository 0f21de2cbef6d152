//! The Gemma 4 turn template: tool calls written as `<|tool_call>call:name{key:value}<|tool_call|>`
//! with `<|"|>`-quoted strings, and the rendering of chats, tool declarations, calls and
//! responses into that template.
use vstd::prelude::*;

use crate::json_value::{
    get_key, float_literal, json_number_text, json_number_text_exec, float_special, i64_literal, insert_member, insert_member_exec, int_text,
    is_float_literal, is_float_special, jsons_of, lemma_jsons_of, lemma_members_of, members_of,
    parse_i64_chars, push_int_text, Json, JsonValue,
};
use crate::prompt_format::{
    calls_view, lemma_calls_view_push, CanonicalMessage, CanonicalRole, ChatPromptFormat,
    ParsedToolCall, PromptFormatContext, ToolCall, ToolDefinition, ToolResponse,
};
use crate::relaxed_args::{
    gemma_q, split_colon,
};
use crate::text::{
    append_chars, append_str, is_blank, is_blank_exec, join, join_vec, lower_seq, lower_vec, matches_at, chars_of, ends_with, ends_with_str, find, find_exec, lemma_found, lemma_trim_len,
    replace_all, replace_vec, seq_eq_exec, slice_of, starts_with, starts_with_str, string_of,
    trim, trim_char, trim_char_vec, trim_vec, vv,
};

verus! {

/// Top-level comma split of Gemma argument text: a `<|"|>`-quoted string (closed by a
/// `<|"|>` that no backslash precedes) is opaque, brackets nest, and each part is trimmed;
/// a trailing empty remainder gives no part.
pub open spec fn gsplit_scan(
    s: Seq<char>,
    k: int,
    depth: int,
    in_str: bool,
    start: int,
    parts: Seq<Seq<char>>,
) -> Seq<Seq<char>>
    decreases s.len() - k,
{
    if k < 0 || k >= s.len() {
        if start < s.len() {
            parts.push(trim(s.subrange(start, s.len() as int)))
        } else {
            parts
        }
    } else if in_str {
        if matches_at(s, gemma_q(), k) && !(k > 0 && s[k - 1] == '\\') {
            gsplit_scan(s, k + gemma_q().len(), depth, false, start, parts)
        } else {
            gsplit_scan(s, k + 1, depth, true, start, parts)
        }
    } else if matches_at(s, gemma_q(), k) {
        gsplit_scan(s, k + gemma_q().len(), depth, true, start, parts)
    } else {
        let ch = s[k];
        if ch == '{' || ch == '[' {
            gsplit_scan(s, k + 1, depth + 1, false, start, parts)
        } else if ch == '}' || ch == ']' {
            gsplit_scan(s, k + 1, depth - 1, false, start, parts)
        } else if ch == ',' && depth == 0 {
            gsplit_scan(s, k + 1, depth, false, k + 1, parts.push(trim(s.subrange(start, k))))
        } else {
            gsplit_scan(s, k + 1, depth, false, start, parts)
        }
    }
}

pub open spec fn gsplit(s: Seq<char>) -> Seq<Seq<char>> {
    gsplit_scan(s, 0, 0, false, 0, Seq::empty())
}

pub proof fn lemma_gsplit_scan_len(
    s: Seq<char>,
    k: int,
    depth: int,
    in_str: bool,
    start: int,
    parts: Seq<Seq<char>>,
)
    requires
        0 <= start <= k,
        forall|i: int| 0 <= i < parts.len() ==> (#[trigger] parts[i]).len() <= s.len(),
    ensures
        forall|i: int|
            0 <= i < gsplit_scan(s, k, depth, in_str, start, parts).len() ==> (
            #[trigger] gsplit_scan(s, k, depth, in_str, start, parts)[i]).len() <= s.len(),
    decreases s.len() - k,
{
    let r = gsplit_scan(s, k, depth, in_str, start, parts);
    let q = gemma_q();
    if k >= s.len() {
        if start < s.len() {
            lemma_trim_len(s.subrange(start, s.len() as int));
            let p1 = parts.push(trim(s.subrange(start, s.len() as int)));
            assert(r == p1);
            assert forall|i: int| 0 <= i < p1.len() implies (#[trigger] p1[i]).len() <= s.len() by {
                if i < parts.len() {
                    assert(p1[i] == parts[i]);
                } else {
                    assert(p1[i] == trim(s.subrange(start, s.len() as int)));
                }
            }
        } else {
            assert(r == parts);
        }
    } else if in_str {
        if matches_at(s, q, k) && !(k > 0 && s[k - 1] == '\\') {
            lemma_gsplit_scan_len(s, k + q.len(), depth, false, start, parts);
            assert(r == gsplit_scan(s, k + q.len(), depth, false, start, parts));
        } else {
            lemma_gsplit_scan_len(s, k + 1, depth, true, start, parts);
            assert(r == gsplit_scan(s, k + 1, depth, true, start, parts));
        }
    } else if matches_at(s, q, k) {
        lemma_gsplit_scan_len(s, k + q.len(), depth, true, start, parts);
        assert(r == gsplit_scan(s, k + q.len(), depth, true, start, parts));
    } else {
        let ch = s[k];
        if ch == '{' || ch == '[' {
            lemma_gsplit_scan_len(s, k + 1, depth + 1, false, start, parts);
            assert(r == gsplit_scan(s, k + 1, depth + 1, false, start, parts));
        } else if ch == '}' || ch == ']' {
            lemma_gsplit_scan_len(s, k + 1, depth - 1, false, start, parts);
            assert(r == gsplit_scan(s, k + 1, depth - 1, false, start, parts));
        } else if ch == ',' && depth == 0 {
            lemma_trim_len(s.subrange(start, k));
            let p2 = parts.push(trim(s.subrange(start, k)));
            assert forall|i: int| 0 <= i < p2.len() implies (#[trigger] p2[i]).len() <= s.len() by {
                if i < parts.len() {
                    assert(p2[i] == parts[i]);
                } else {
                    assert(p2[i] == trim(s.subrange(start, k)));
                }
            }
            lemma_gsplit_scan_len(s, k + 1, depth, false, k + 1, p2);
            assert(r == gsplit_scan(s, k + 1, depth, false, k + 1, p2));
        } else {
            lemma_gsplit_scan_len(s, k + 1, depth, false, start, parts);
            assert(r == gsplit_scan(s, k + 1, depth, false, start, parts));
        }
    }
}

/// Every part of a Gemma split is at most as long as the text.
pub proof fn lemma_gsplit_len(s: Seq<char>)
    ensures
        forall|i: int| 0 <= i < gsplit(s).len() ==> (#[trigger] gsplit(s)[i]).len() <= s.len(),
{
    lemma_gsplit_scan_len(s, 0, 0, false, 0, Seq::empty());
}

/// Splits Gemma argument text at top-level commas (see `gsplit_scan`).
pub fn split_top_level(s: &[char]) -> (r: Vec<Vec<char>>)
    ensures
        vv(r@) == gsplit(s@),
{
    proof {
        reveal_strlit("<|\"|>");
    }
    let q = chars_of("<|\"|>");
    assert(q@ == gemma_q());
    let mut parts: Vec<Vec<char>> = Vec::new();
    let mut depth: i128 = 0;
    let mut in_str = false;
    let mut start: usize = 0;
    let mut k: usize = 0;
    assert(vv(parts@) =~= Seq::<Seq<char>>::empty());
    while k < s.len()
        invariant
            k <= s.len(),
            start <= k,
            q@ == gemma_q(),
            q@.len() == 5,
            -(k as int) <= depth <= k,
            gsplit(s@) == gsplit_scan(s@, k as int, depth as int, in_str, start as int, vv(parts@)),
        decreases s.len() - k,
    {
        let at_q = crate::text::matches_at_exec(s, q.as_slice(), k);
        if in_str {
            if at_q && !(k > 0 && s[k - 1] == '\\') {
                in_str = false;
                k = k + 5;
            } else {
                k = k + 1;
            }
        } else if at_q {
            in_str = true;
            k = k + 5;
        } else {
            let ch = s[k];
            if ch == '{' || ch == '[' {
                depth = depth + 1;
            } else if ch == '}' || ch == ']' {
                depth = depth - 1;
            } else if ch == ',' && depth == 0 {
                let piece = slice_of(s, start, k);
                let p = trim_vec(piece.as_slice());
                proof {
                    crate::text::lemma_vv_push(parts@, p);
                }
                parts.push(p);
                start = k + 1;
            }
            k = k + 1;
        }
    }
    if start < s.len() {
        let piece = slice_of(s, start, s.len());
        let p = trim_vec(piece.as_slice());
        proof {
            crate::text::lemma_vv_push(parts@, p);
        }
        parts.push(p);
    }
    parts
}

/// A Gemma argument value: `<|"|>`-quoted strings (with `\<` unescaped), bracketed lists
/// (items that do not read are dropped), braced objects, `true`/`false`/`null`, integers,
/// other decimal literals (numbers keeping their text), and bare strings. `None` for a
/// broken quote, an object that does not read, or a float word with no JSON number.
pub open spec fn gemma_value(raw: Seq<char>) -> Option<Json>
    decreases raw.len(), 2nat,
{
    if starts_with(raw, seq!['<', '|', '"']) {
        if starts_with(raw, gemma_q()) && ends_with(raw.subrange(5, raw.len() as int), gemma_q()) {
            Some(
                Json::Str(
                    replace_all(raw.subrange(5, raw.len() - 5), seq!['\\', '<'], seq!['<']),
                ),
            )
        } else {
            None
        }
    } else if raw.len() >= 2 && raw[0] == '[' && raw.last() == ']' {
        Some(
            Json::Array(
                gemma_items(gsplit(raw.subrange(1, raw.len() - 1)), raw.len() - 1),
            ),
        )
    } else if raw.len() >= 2 && raw[0] == '{' && raw.last() == '}' {
        gemma_object(raw)
    } else if raw == "true"@ {
        Some(Json::Bool(true))
    } else if raw == "false"@ {
        Some(Json::Bool(false))
    } else if raw == "null"@ {
        Some(Json::Null)
    } else if i64_literal(raw) is Some {
        Some(Json::Number(int_text(i64_literal(raw).unwrap())))
    } else if float_literal(raw) {
        Some(Json::Number(json_number_text(raw)))
    } else if float_special(raw) {
        None
    } else {
        Some(Json::Str(raw))
    }
}

/// List items: each part read as a value, the unreadable ones dropped. Parts are shorter
/// than `bound`.
pub open spec fn gemma_items(parts: Seq<Seq<char>>, bound: int) -> Seq<Json>
    decreases bound, parts.len(),
{
    if parts.len() == 0 {
        Seq::empty()
    } else {
        let prev = gemma_items(parts.drop_last(), bound);
        let p = trim(parts.last());
        if 0 <= p.len() < bound {
            match gemma_value(p) {
                Some(v) => prev.push(v),
                None => prev,
            }
        } else {
            prev
        }
    }
}

/// Object members from `key:value` parts: `None` when a part has no colon or its value
/// does not read. Keys lose surrounding `"`.
pub open spec fn gemma_members(parts: Seq<Seq<char>>, bound: int) -> Option<
    Seq<(Seq<char>, Json)>,
>
    decreases bound, parts.len(),
{
    if parts.len() == 0 {
        Some(Seq::empty())
    } else {
        match gemma_members(parts.drop_last(), bound) {
            None => None,
            Some(m) => match split_colon(parts.last()) {
                None => None,
                Some(kv) => {
                    let key = trim_char(trim(kv.0), '"');
                    let v = trim(kv.1);
                    if 0 <= v.len() < bound {
                        match gemma_value(v) {
                            None => None,
                            Some(x) => Some(insert_member(m, key, x)),
                        }
                    } else {
                        None
                    }
                },
            },
        }
    }
}

/// A braced Gemma object `{key:value,...}` (parts split at top-level commas, quotes not
/// special).
pub open spec fn gemma_object(body0: Seq<char>) -> Option<Json>
    decreases body0.len(), 1nat,
{
    let body = trim(body0);
    if body.len() >= 2 && body[0] == '{' && body.last() == '}' {
        proof {
            lemma_trim_len(body0);
        }
        match gemma_members(gsplit(body.subrange(1, body.len() - 1)), body.len() - 1) {
            Some(m) => Some(Json::Object(m)),
            None => None,
        }
    } else {
        None
    }
}

/// Reads a Gemma value (see `gemma_value`).
pub fn parse_gemma_value(raw: &[char]) -> (r: Option<JsonValue>)
    ensures
        r matches Some(v) ==> gemma_value(raw@) == Some(v@),
        r is None ==> gemma_value(raw@) is None,
    decreases raw@.len(), 2nat,
{
    proof {
        reveal_strlit("<|\"|>");
        reveal_strlit("<|\"");
        reveal_strlit("\\<");
        reveal_strlit("<");
        reveal_strlit("true");
        reveal_strlit("false");
        reveal_strlit("null");
    }
    assert("<|\"|>"@ == gemma_q());
    assert("<|\""@ == seq!['<', '|', '"']);
    assert("\\<"@ == seq!['\\', '<']);
    assert("<"@ == seq!['<']);
    let n = raw.len();
    if starts_with_str(raw, "<|\"") {
        if starts_with_str(raw, "<|\"|>") {
            let rest = slice_of(raw, 5, n);
            if ends_with_str(rest.as_slice(), "<|\"|>") {
                let inner = slice_of(raw, 5, n - 5);
                let d = replace_vec(inner.as_slice(), "\\<", "<");
                return Some(JsonValue::Str(string_of(d.as_slice())));
            }
        }
        return None;
    }
    if n >= 2 && raw[0] == '[' && raw[n - 1] == ']' {
        let inner = slice_of(raw, 1, n - 1);
        let parts = split_top_level(inner.as_slice());
        proof {
            lemma_gsplit_len(inner@);
        }
        let bound = n - 1;
        let mut items: Vec<JsonValue> = Vec::new();
        let mut i: usize = 0;
        proof {
            lemma_jsons_of(items@);
            assert(jsons_of(items@) =~= gemma_items(vv(parts@).subrange(0, 0), bound as int));
        }
        while i < parts.len()
            invariant
                i <= parts.len(),
                bound == n - 1,
                n == raw@.len(),
                n >= 2,
                raw@[0] == '[',
                raw@.last() == ']',
                inner@ == raw@.subrange(1, n - 1),
                vv(parts@) == gsplit(inner@),
                inner@.len() == n - 2,
                forall|j: int| 0 <= j < vv(parts@).len() ==> (#[trigger] vv(parts@)[j]).len() <= inner@.len(),
                jsons_of(items@) == gemma_items(vv(parts@).subrange(0, i as int), bound as int),
            decreases parts.len() - i,
        {
            let ghost ps = vv(parts@).subrange(0, i + 1);
            assert(ps.drop_last() =~= vv(parts@).subrange(0, i as int));
            assert(ps.last() == parts@[i as int]@);
            let p = trim_vec(parts[i].as_slice());
            proof {
                lemma_trim_len(parts@[i as int]@);
                assert(vv(parts@)[i as int] == parts@[i as int]@);
            }
            if p.len() < bound {
                match parse_gemma_value(p.as_slice()) {
                    Some(v) => {
                        let ghost it0 = items@;
                        items.push(v);
                        proof {
                            lemma_jsons_of(it0);
                            lemma_jsons_of(items@);
                            assert(items@.drop_last() == it0);
                        }
                    },
                    None => {},
                }
            }
            i = i + 1;
        }
        assert(vv(parts@).subrange(0, parts.len() as int) =~= vv(parts@));
        return Some(JsonValue::Array(items));
    }
    if n >= 2 && raw[0] == '{' && raw[n - 1] == '}' {
        return parse_gemma_inline_object(raw);
    }
    if seq_eq_exec(raw, chars_of("true").as_slice()) {
        return Some(JsonValue::Bool(true));
    }
    if seq_eq_exec(raw, chars_of("false").as_slice()) {
        return Some(JsonValue::Bool(false));
    }
    if seq_eq_exec(raw, chars_of("null").as_slice()) {
        return Some(JsonValue::Null);
    }
    match parse_i64_chars(raw) {
        Some(v) => {
            let mut out: Vec<char> = Vec::new();
            push_int_text(&mut out, v);
            assert(out@ =~= int_text(v as int));
            return Some(JsonValue::Number(string_of(out.as_slice())));
        },
        None => {},
    }
    if is_float_literal(raw) {
        let n = json_number_text_exec(raw);
        return Some(JsonValue::Number(string_of(n.as_slice())));
    }
    if is_float_special(raw) {
        return None;
    }
    Some(JsonValue::Str(string_of(raw)))
}

/// Reads a braced Gemma object (see `gemma_object`).
pub fn parse_gemma_inline_object(body0: &[char]) -> (r: Option<JsonValue>)
    ensures
        r matches Some(v) ==> gemma_object(body0@) == Some(v@),
        r is None ==> gemma_object(body0@) is None,
    decreases body0@.len(), 1nat,
{
    let body = trim_vec(body0);
    proof {
        lemma_trim_len(body0@);
    }
    let n = body.len();
    if !(n >= 2 && body[0] == '{' && body[n - 1] == '}') {
        return None;
    }
    let inner = slice_of(body.as_slice(), 1, n - 1);
    let parts = split_top_level(inner.as_slice());
    proof {
        lemma_gsplit_len(inner@);
    }
    let bound = n - 1;
    let mut m: Vec<(String, JsonValue)> = Vec::new();
    let mut i: usize = 0;
    proof {
        lemma_members_of(m@);
        assert(members_of(m@) =~= Seq::<(Seq<char>, Json)>::empty());
        assert(vv(parts@).subrange(0, 0) =~= Seq::<Seq<char>>::empty());
    }
    while i < parts.len()
        invariant
            i <= parts.len(),
            bound == n - 1,
            n == body@.len(),
            n <= body0@.len(),
            n >= 2,
            body@ == trim(body0@),
            body@[0] == '{',
            body@.last() == '}',
            inner@ == body@.subrange(1, n - 1),
            vv(parts@) == gsplit(inner@),
            inner@.len() == n - 2,
            forall|j: int| 0 <= j < vv(parts@).len() ==> (#[trigger] vv(parts@)[j]).len() <= inner@.len(),
            gemma_members(vv(parts@).subrange(0, i as int), bound as int) == Some(members_of(m@)),
        decreases parts.len() - i,
    {
        let ghost ps = vv(parts@).subrange(0, i + 1);
        assert(ps.drop_last() =~= vv(parts@).subrange(0, i as int));
        let part = &parts[i];
        assert(ps.last() == part@);
        assert(vv(parts@)[i as int] == part@);
        let colon = vec![':'];
        assert(colon@ =~= seq![':']);
        match find_exec(part.as_slice(), colon.as_slice()) {
            None => {
                proof {
                    gemma_members_none_extends(vv(parts@), i as int + 1, bound as int);
                }
                return None;
            },
            Some(c) => {
                proof {
                    lemma_found(part@, colon@, c as int);
                }
                let plen = part.len();
                let kraw = slice_of(part.as_slice(), 0, c);
                let vraw = slice_of(part.as_slice(), c + 1, plen);
                let k1 = trim_vec(kraw.as_slice());
                let key = trim_char_vec(k1.as_slice(), '"');
                let v = trim_vec(vraw.as_slice());
                proof {
                    lemma_trim_len(vraw@);
                }
                if v.len() >= bound {
                    proof {
                        gemma_members_none_extends(vv(parts@), i as int + 1, bound as int);
                    }
                    return None;
                }
                match parse_gemma_value(v.as_slice()) {
                    None => {
                        proof {
                            gemma_members_none_extends(vv(parts@), i as int + 1, bound as int);
                        }
                        return None;
                    },
                    Some(x) => {
                        insert_member_exec(&mut m, string_of(key.as_slice()), x);
                    },
                }
            },
        }
        i = i + 1;
    }
    assert(vv(parts@).subrange(0, parts.len() as int) =~= vv(parts@));
    Some(JsonValue::Object(m))
}


pub open spec fn gemma_call_open() -> Seq<char> {
    "<|tool_call>call:"@
}

pub open spec fn gemma_call_close() -> Seq<char> {
    "<|tool_call|>"@
}

/// Calls written `<|tool_call>call:name{args}<|tool_call|>`: scanning stops at an unclosed
/// block; a block without `{` is skipped; arguments that do not read become an empty
/// object; a blank name drops the call.
pub open spec fn gemma_calls(rest: Seq<char>) -> Seq<(Seq<char>, Json)>
    decreases rest.len(),
{
    let open = gemma_call_open();
    let close = gemma_call_close();
    if open.len() == 0 || close.len() == 0 {
        Seq::empty()
    } else {
        match find(rest, open) {
            None => Seq::empty(),
            Some(start) => {
                proof {
                    lemma_found(rest, open, start);
                }
                let after = rest.subrange(start + open.len(), rest.len() as int);
                match find(after, close) {
                    None => Seq::empty(),
                    Some(ci) => {
                        proof {
                            lemma_found(after, close, ci);
                        }
                        let segment = after.subrange(0, ci);
                        let next = after.subrange(ci + close.len(), after.len() as int);
                        match find(segment, seq!['{']) {
                            None => gemma_calls(next),
                            Some(b) => {
                                let name = trim(segment.subrange(0, b));
                                let args = match gemma_object(segment.subrange(b, segment.len() as int)) {
                                    Some(v) => v,
                                    None => Json::Object(Seq::empty()),
                                };
                                if name.len() > 0 {
                                    seq![(name, args)] + gemma_calls(next)
                                } else {
                                    gemma_calls(next)
                                }
                            },
                        }
                    },
                }
            },
        }
    }
}

/// Gemma 4 tool calls in model output (see `gemma_calls`).
pub fn parse_gemma4_tool_calls(text: &str) -> (r: Vec<ParsedToolCall>)
    ensures
        calls_view(r@) == gemma_calls(text@),
{
    proof {
        reveal_strlit("<|tool_call>call:");
        reveal_strlit("<|tool_call|>");
    }
    let open = chars_of("<|tool_call>call:");
    let close = chars_of("<|tool_call|>");
    let ob = vec!['{'];
    assert(ob@ =~= seq!['{']);
    let mut out: Vec<ParsedToolCall> = Vec::new();
    let mut rest = chars_of(text);
    assert(calls_view(out@) =~= Seq::<(Seq<char>, Json)>::empty());
    let ghost t = text@;
    loop
        invariant_except_break
            calls_view(out@) + gemma_calls(rest@) == gemma_calls(t),
        invariant
            open@ == gemma_call_open(),
            close@ == gemma_call_close(),
            open@.len() == 17,
            close@.len() == 13,
            ob@ == seq!['{'],
        ensures
            calls_view(out@) == gemma_calls(t),
        decreases rest.len(),
    {
        let ghost r0 = rest@;
        let ghost o0 = calls_view(out@);
        let start = match find_exec(rest.as_slice(), open.as_slice()) {
            None => {
                assert(calls_view(out@) + Seq::<(Seq<char>, Json)>::empty() =~= calls_view(out@));
                break;
            },
            Some(s) => s,
        };
        proof {
            lemma_found(rest@, open@, start as int);
        }
        let after = slice_of(rest.as_slice(), start + 17, rest.len());
        let ci = match find_exec(after.as_slice(), close.as_slice()) {
            None => {
                assert(calls_view(out@) + Seq::<(Seq<char>, Json)>::empty() =~= calls_view(out@));
                break;
            },
            Some(c) => c,
        };
        proof {
            lemma_found(after@, close@, ci as int);
        }
        let segment = slice_of(after.as_slice(), 0, ci);
        let next = slice_of(after.as_slice(), ci + 13, after.len());
        match find_exec(segment.as_slice(), ob.as_slice()) {
            None => {},
            Some(b) => {
                proof {
                    lemma_found(segment@, ob@, b as int);
                }
                let nraw = slice_of(segment.as_slice(), 0, b);
                let name = trim_vec(nraw.as_slice());
                let body = slice_of(segment.as_slice(), b, segment.len());
                let arguments = match parse_gemma_inline_object(body.as_slice()) {
                    Some(v) => v,
                    None => JsonValue::empty_object(),
                };
                if name.len() > 0 {
                    let c = ParsedToolCall { name: string_of(name.as_slice()), arguments };
                    proof {
                        lemma_calls_view_push(out@, c);
                    }
                    out.push(c);
                    assert(calls_view(out@) + gemma_calls(next@) =~= o0 + (seq![c@] + gemma_calls(next@)));
                }
            },
        }
        rest = next;
    }
    out
}

// ---------------------------------------------------------------------------------------
// Rendering.
/// A Gemma string: `<|"|>`-quoted, with `<` escaped as `\<`.
pub open spec fn gemma_quoted(s: Seq<char>) -> Seq<char> {
    gemma_q() + replace_all(s, seq!['<'], seq!['\\', '<']) + gemma_q()
}

fn gemma_quote(out: &mut Vec<char>, s: &[char])
    ensures
        final(out)@ == old(out)@ + gemma_quoted(s@),
{
    proof {
        reveal_strlit("<|\"|>");
        reveal_strlit("<");
        reveal_strlit("\\<");
    }
    assert("<|\"|>"@ == gemma_q());
    assert("<"@ == seq!['<']);
    assert("\\<"@ == seq!['\\', '<']);
    let e = replace_vec(s, "<", "\\<");
    let ghost o0 = out@;
    append_str(out, "<|\"|>");
    append_chars(out, e.as_slice());
    append_str(out, "<|\"|>");
    assert(out@ =~= o0 + gemma_quoted(s@));
}

/// Gemma's name for a JSON-schema type (any ASCII case); unknown types are strings.
pub open spec fn gemma_type(ty: Seq<char>) -> Seq<char> {
    let l = lower_seq(ty);
    if l == "string"@ {
        "STRING"@
    } else if l == "integer"@ {
        "INTEGER"@
    } else if l == "number"@ {
        "NUMBER"@
    } else if l == "boolean"@ {
        "BOOLEAN"@
    } else if l == "array"@ {
        "ARRAY"@
    } else if l == "object"@ {
        "OBJECT"@
    } else {
        "STRING"@
    }
}

fn json_type_to_gemma(ty: &[char]) -> (r: &'static str)
    ensures
        r@ == gemma_type(ty@),
{
    let l = lower_vec(ty);
    let ls = l.as_slice();
    if seq_eq_exec(ls, chars_of("string").as_slice()) {
        "STRING"
    } else if seq_eq_exec(ls, chars_of("integer").as_slice()) {
        "INTEGER"
    } else if seq_eq_exec(ls, chars_of("number").as_slice()) {
        "NUMBER"
    } else if seq_eq_exec(ls, chars_of("boolean").as_slice()) {
        "BOOLEAN"
    } else if seq_eq_exec(ls, chars_of("array").as_slice()) {
        "ARRAY"
    } else if seq_eq_exec(ls, chars_of("object").as_slice()) {
        "OBJECT"
    } else {
        "STRING"
    }
}

/// The string elements of a list, each Gemma-quoted; other elements are left out.
pub open spec fn quoted_strings(vals: Seq<Json>) -> Seq<Seq<char>>
    decreases vals.len(),
{
    if vals.len() == 0 {
        Seq::empty()
    } else {
        let prev = quoted_strings(vals.drop_last());
        match vals.last() {
            Json::Str(x) => prev.push(gemma_quoted(x)),
            _ => prev,
        }
    }
}

fn quoted_strings_exec(vals: &Vec<JsonValue>) -> (r: Vec<Vec<char>>)
    ensures
        vv(r@) == quoted_strings(jsons_of(vals@)),
{
    proof {
        lemma_jsons_of(vals@);
    }
    let mut out: Vec<Vec<char>> = Vec::new();
    let mut i: usize = 0;
    assert(jsons_of(vals@).subrange(0, 0) =~= Seq::<Json>::empty());
    assert(vv(out@) =~= Seq::<Seq<char>>::empty());
    while i < vals.len()
        invariant
            i <= vals.len(),
            jsons_of(vals@).len() == vals@.len(),
            forall|j: int| 0 <= j < vals@.len() ==> #[trigger] jsons_of(vals@)[j] == vals@[j]@,
            vv(out@) == quoted_strings(jsons_of(vals@).subrange(0, i as int)),
        decreases vals.len() - i,
    {
        let ghost ps = jsons_of(vals@).subrange(0, i + 1);
        assert(ps.drop_last() =~= jsons_of(vals@).subrange(0, i as int));
        assert(ps.last() == vals@[i as int]@);
        match vals[i].as_str() {
            Some(x) => {
                let mut q: Vec<char> = Vec::new();
                let xv = chars_of(x);
                gemma_quote(&mut q, xv.as_slice());
                assert(q@ =~= gemma_quoted(x@));
                proof {
                    crate::text::lemma_vv_push(out@, q);
                }
                out.push(q);
            },
            None => {},
        }
        i = i + 1;
    }
    assert(jsons_of(vals@).subrange(0, vals.len() as int) =~= jsons_of(vals@));
    out
}

/// A list entry `label[a,b,...]` of the quoted string elements, when there are any.
pub open spec fn quoted_list_entry(label: Seq<char>, v: Option<Json>) -> Seq<Seq<char>> {
    match v {
        Some(Json::Array(vals)) => if quoted_strings(vals).len() > 0 {
            seq![label + "["@ + join(quoted_strings(vals), ","@) + "]"@]
        } else {
            Seq::empty()
        },
        _ => Seq::empty(),
    }
}

fn quoted_list_entry_exec(parts: &mut Vec<Vec<char>>, label: &str, v: Option<&JsonValue>)
    ensures
        vv(final(parts)@) == vv(old(parts)@) + quoted_list_entry(
            label@,
            match v {
                Some(x) => Some(x@),
                None => None,
            },
        ),
{
    match v {
        Some(x) => match x.as_array() {
            Some(vals) => {
                let items = quoted_strings_exec(vals);
                if items.len() > 0 {
                    let mut e: Vec<char> = Vec::new();
                    append_str(&mut e, label);
                    append_str(&mut e, "[");
                    let j = join_vec(items.as_slice(), chars_of(",").as_slice());
                    append_chars(&mut e, j.as_slice());
                    append_str(&mut e, "]");
                    assert(e@ =~= label@ + "["@ + join(vv(items@), ","@) + "]"@);
                    proof {
                        crate::text::lemma_vv_push(parts@, e);
                    }
                    parts.push(e);
                } else {
                    assert(vv(parts@) + Seq::<Seq<char>>::empty() =~= vv(parts@));
                }
            },
            None => {
                assert(vv(parts@) + Seq::<Seq<char>>::empty() =~= vv(parts@));
            },
        },
        None => {
            assert(vv(parts@) + Seq::<Seq<char>>::empty() =~= vv(parts@));
        },
    }
}

/// `{part,part,...}`.
pub open spec fn braced(parts: Seq<Seq<char>>) -> Seq<char> {
    "{"@ + join(parts, ","@) + "}"@
}

fn braced_exec(parts: &Vec<Vec<char>>) -> (r: Vec<char>)
    ensures
        r@ == braced(vv(parts@)),
{
    let mut e: Vec<char> = Vec::new();
    append_str(&mut e, "{");
    let j = join_vec(parts.as_slice(), chars_of(",").as_slice());
    append_chars(&mut e, j.as_slice());
    append_str(&mut e, "}");
    assert(e@ =~= "{"@ + join(vv(parts@), ","@) + "}"@);
    e
}

/// A property schema: its description, its string enum values and its Gemma type
/// (strings by default).
pub open spec fn schema_property(prop: Json) -> Seq<char> {
    let d = match get_key(prop, "description"@) {
        Some(Json::Str(x)) => seq!["description:"@ + gemma_quoted(x)],
        _ => Seq::empty(),
    };
    let e = quoted_list_entry("enum:"@, get_key(prop, "enum"@));
    let t = match get_key(prop, "type"@) {
        Some(Json::Str(x)) => gemma_type(x),
        _ => "STRING"@,
    };
    braced(d + e + seq!["type:"@ + gemma_quoted(t)])
}

fn type_entry_exec(parts: &mut Vec<Vec<char>>, v: Option<&JsonValue>, default: &'static str)
    ensures
        vv(final(parts)@) == vv(old(parts)@).push(
            "type:"@ + gemma_quoted(
                match v {
                    Some(x) => match x@ {
                        Json::Str(t) => gemma_type(t),
                        _ => default@,
                    },
                    None => default@,
                },
            ),
        ),
{
    let t: &str = match v {
        Some(x) => match x.as_str() {
            Some(ts) => {
                let tv = chars_of(ts);
                json_type_to_gemma(tv.as_slice())
            },
            None => default,
        },
        None => default,
    };
    let mut e: Vec<char> = Vec::new();
    append_str(&mut e, "type:");
    let tv = chars_of(t);
    gemma_quote(&mut e, tv.as_slice());
    proof {
        crate::text::lemma_vv_push(parts@, e);
    }
    parts.push(e);
}

fn encode_schema_property(prop: &JsonValue) -> (r: Vec<char>)
    ensures
        r@ == schema_property(prop@),
{
    let mut parts: Vec<Vec<char>> = Vec::new();
    assert(vv(parts@) =~= Seq::<Seq<char>>::empty());
    let ghost d = match get_key(prop@, "description"@) {
        Some(Json::Str(x)) => seq!["description:"@ + gemma_quoted(x)],
        _ => Seq::<Seq<char>>::empty(),
    };
    match prop.get("description") {
        Some(x) => match x.as_str() {
            Some(ds) => {
                let mut e: Vec<char> = Vec::new();
                append_str(&mut e, "description:");
                let dv = chars_of(ds);
                gemma_quote(&mut e, dv.as_slice());
                proof {
                    crate::text::lemma_vv_push(parts@, e);
                }
                parts.push(e);
                assert(vv(parts@) =~= d);
            },
            None => {},
        },
        None => {},
    }
    assert(vv(parts@) == d);
    let ev = prop.get("enum");
    assert(match ev {
        Some(x) => Some(x@),
        None => None,
    } == get_key(prop@, "enum"@));
    quoted_list_entry_exec(&mut parts, "enum:", ev);
    let tv = prop.get("type");
    assert(match tv {
        Some(x) => match x@ {
            Json::Str(t) => gemma_type(t),
            _ => "STRING"@,
        },
        None => "STRING"@,
    } == match get_key(prop@, "type"@) {
        Some(Json::Str(x)) => gemma_type(x),
        _ => "STRING"@,
    });
    let ghost p2 = vv(parts@);
    type_entry_exec(&mut parts, tv, "STRING");
    let ghost t = match get_key(prop@, "type"@) {
        Some(Json::Str(x)) => gemma_type(x),
        _ => "STRING"@,
    };
    assert(vv(parts@) =~= d + quoted_list_entry("enum:"@, get_key(prop@, "enum"@)) + seq![
        "type:"@ + gemma_quoted(t),
    ]);
    braced_exec(&parts)
}

/// The entries `key:<property schema>` of a properties object.
pub open spec fn property_entries(m: Seq<(Seq<char>, Json)>) -> Seq<Seq<char>> {
    Seq::new(m.len(), |i: int| m[i].0 + ":"@ + schema_property(m[i].1))
}

/// An object schema: its properties, its required names and its Gemma type (object by
/// default).
pub open spec fn schema_object(schema: Json) -> Seq<char> {
    let p = match get_key(schema, "properties"@) {
        Some(Json::Object(m)) => seq!["properties:"@ + braced(property_entries(m))],
        _ => Seq::empty(),
    };
    let r = quoted_list_entry("required:"@, get_key(schema, "required"@));
    let t = match get_key(schema, "type"@) {
        Some(Json::Str(x)) => gemma_type(x),
        _ => "OBJECT"@,
    };
    braced(p + r + seq!["type:"@ + gemma_quoted(t)])
}

fn encode_schema_object(schema: &JsonValue) -> (r: Vec<char>)
    ensures
        r@ == schema_object(schema@),
{
    let mut parts: Vec<Vec<char>> = Vec::new();
    assert(vv(parts@) =~= Seq::<Seq<char>>::empty());
    match schema.get("properties") {
        Some(JsonValue::Object(m)) => {
            proof {
                lemma_members_of(m@);
            }
            let mut entries: Vec<Vec<char>> = Vec::new();
            let mut i: usize = 0;
            while i < m.len()
                invariant
                    i <= m.len(),
                    members_of(m@).len() == m@.len(),
                    forall|j: int| 0 <= j < m@.len() ==> #[trigger] members_of(m@)[j] == (m@[j].0@, m@[j].1@),
                    vv(entries@) =~= property_entries(members_of(m@)).subrange(0, i as int),
                decreases m.len() - i,
            {
                let mut e: Vec<char> = Vec::new();
                append_str(&mut e, m[i].0.as_str());
                append_str(&mut e, ":");
                let sp = encode_schema_property(&m[i].1);
                append_chars(&mut e, sp.as_slice());
                proof {
                    crate::text::lemma_vv_push(entries@, e);
                }
                entries.push(e);
                i = i + 1;
            }
            assert(property_entries(members_of(m@)).subrange(0, m.len() as int) =~= property_entries(members_of(m@)));
            assert(get_key(schema@, "properties"@) == Some(Json::Object(members_of(m@))));
            let b = braced_exec(&entries);
            let mut e: Vec<char> = Vec::new();
            append_str(&mut e, "properties:");
            append_chars(&mut e, b.as_slice());
            proof {
                crate::text::lemma_vv_push(parts@, e);
            }
            parts.push(e);
        },
        _ => {},
    }
    let ghost p = match get_key(schema@, "properties"@) {
        Some(Json::Object(m)) => seq!["properties:"@ + braced(property_entries(m))],
        _ => Seq::<Seq<char>>::empty(),
    };
    assert(vv(parts@) =~= p);
    let rv = schema.get("required");
    assert(match rv {
        Some(x) => Some(x@),
        None => None,
    } == get_key(schema@, "required"@));
    quoted_list_entry_exec(&mut parts, "required:", rv);
    let tv = schema.get("type");
    assert(match tv {
        Some(x) => match x@ {
            Json::Str(t) => gemma_type(t),
            _ => "OBJECT"@,
        },
        None => "OBJECT"@,
    } == match get_key(schema@, "type"@) {
        Some(Json::Str(x)) => gemma_type(x),
        _ => "OBJECT"@,
    });
    type_entry_exec(&mut parts, tv, "OBJECT");
    let ghost t = match get_key(schema@, "type"@) {
        Some(Json::Str(x)) => gemma_type(x),
        _ => "OBJECT"@,
    };
    assert(vv(parts@) =~= p + quoted_list_entry("required:"@, get_key(schema@, "required"@)) + seq![
        "type:"@ + gemma_quoted(t),
    ]);
    braced_exec(&parts)
}

/// A tool's schema: its description and its parameters (an object schema, or a bare
/// object type when the parameters are not an object).
pub open spec fn tool_schema(name: Seq<char>, description: Seq<char>, parameters: Json) -> Seq<char> {
    braced(
        seq![
            "description:"@ + gemma_quoted(description),
            if parameters is Object {
                "parameters:"@ + schema_object(parameters)
            } else {
                "parameters:{type:<|\"|>OBJECT<|\"|>}"@
            },
        ],
    )
}

/// `<|tool>declaration:name{schema}<|tool|>`.
pub open spec fn tool_declaration(t: ToolDefinition) -> Seq<char> {
    "<|tool>declaration:"@ + t.name@ + tool_schema(t.name@, t.description@, t.parameters@)
        + "<|tool|>"@
}

fn format_tool_declaration(out: &mut Vec<char>, t: &ToolDefinition)
    ensures
        final(out)@ == old(out)@ + tool_declaration(*t),
{
    let mut parts: Vec<Vec<char>> = Vec::new();
    let mut d: Vec<char> = Vec::new();
    append_str(&mut d, "description:");
    let dv = chars_of(t.description.as_str());
    gemma_quote(&mut d, dv.as_slice());
    parts.push(d);
    let mut p: Vec<char> = Vec::new();
    match &t.parameters {
        JsonValue::Object(_) => {
            append_str(&mut p, "parameters:");
            let so = encode_schema_object(&t.parameters);
            append_chars(&mut p, so.as_slice());
        },
        _ => {
            append_str(&mut p, "parameters:{type:<|\"|>OBJECT<|\"|>}");
        },
    }
    parts.push(p);
    assert(vv(parts@) =~= seq![
        "description:"@ + gemma_quoted(t.description@),
        if t.parameters@ is Object {
            "parameters:"@ + schema_object(t.parameters@)
        } else {
            "parameters:{type:<|\"|>OBJECT<|\"|>}"@
        },
    ]);
    let body = braced_exec(&parts);
    let ghost o0 = out@;
    append_str(out, "<|tool>declaration:");
    append_str(out, t.name.as_str());
    append_chars(out, body.as_slice());
    append_str(out, "<|tool|>");
    assert(out@ =~= o0 + tool_declaration(*t));
}

/// Declarations of all tools, one after another.
pub open spec fn tool_declarations(tools: Seq<ToolDefinition>) -> Seq<char>
    decreases tools.len(),
{
    if tools.len() == 0 {
        Seq::empty()
    } else {
        tool_declarations(tools.drop_last()) + tool_declaration(tools.last())
    }
}

fn tool_declarations_into(out: &mut Vec<char>, tools: &[ToolDefinition])
    ensures
        final(out)@ == old(out)@ + tool_declarations(tools@),
{
    let ghost o0 = out@;
    let mut i: usize = 0;
    assert(tools@.subrange(0, 0) =~= Seq::<ToolDefinition>::empty());
    while i < tools.len()
        invariant
            i <= tools.len(),
            out@ == o0 + tool_declarations(tools@.subrange(0, i as int)),
        decreases tools.len() - i,
    {
        let ghost ts = tools@.subrange(0, i + 1);
        assert(ts.drop_last() =~= tools@.subrange(0, i as int));
        let ghost o1 = out@;
        format_tool_declaration(out, &tools[i]);
        assert(out@ =~= o0 + tool_declarations(ts));
        i = i + 1;
    }
    assert(tools@.subrange(0, tools.len() as int) =~= tools@);
}

/// Concatenated Gemma 4 tool declaration blocks, for the system turn.
pub fn format_tool_declarations(tools: &[ToolDefinition]) -> (r: String)
    ensures
        r@ == tool_declarations(tools@),
{
    let mut out: Vec<char> = Vec::new();
    tool_declarations_into(&mut out, tools);
    assert(out@ =~= tool_declarations(tools@));
    string_of(out.as_slice())
}

/// `key:value` in Gemma's inline syntax: strings quoted, numbers by their text, lists of
/// inline scalars, nested objects braced.
pub open spec fn enc_pair(key: Seq<char>, v: Json) -> Seq<char>
    decreases v, 0nat,
{
    match v {
        Json::Str(x) => key + ":"@ + gemma_quoted(x),
        Json::Number(n) => key + ":"@ + n,
        Json::Bool(b) => key + ":"@ + (if b {
            "true"@
        } else {
            "false"@
        }),
        Json::Null => key + ":null"@,
        Json::Array(a) => key + ":["@ + enc_items(a) + "]"@,
        Json::Object(m) => key + ":{"@ + enc_pairs(m) + "}"@,
    }
}

/// List items, comma-separated.
pub open spec fn enc_items(a: Seq<Json>) -> Seq<char>
    decreases a, 0nat,
{
    if a.len() == 0 {
        Seq::empty()
    } else if a.len() == 1 {
        enc_scalar(a[0])
    } else {
        enc_items(a.drop_last()) + ","@ + enc_scalar(a.last())
    }
}

/// Object members, comma-separated.
pub open spec fn enc_pairs(m: Seq<(Seq<char>, Json)>) -> Seq<char>
    decreases m, 0nat,
{
    if m.len() == 0 {
        Seq::empty()
    } else if m.len() == 1 {
        enc_pair(m[0].0, m[0].1)
    } else {
        enc_pairs(m.drop_last()) + ","@ + enc_pair(m.last().0, m.last().1)
    }
}

/// A list item: scalars inline, lists and objects as inline objects.
pub open spec fn enc_scalar(v: Json) -> Seq<char>
    decreases v, 2nat,
{
    match v {
        Json::Str(x) => gemma_quoted(x),
        Json::Number(n) => n,
        Json::Bool(b) => if b {
            "true"@
        } else {
            "false"@
        },
        Json::Null => "null"@,
        _ => enc_inline(v),
    }
}

/// An inline object: an object's members braced, `{}` for null, and any other value as
/// the single member `_`.
pub open spec fn enc_inline(v: Json) -> Seq<char>
    decreases v, 1nat,
{
    match v {
        Json::Object(m) => "{"@ + enc_pairs(m) + "}"@,
        Json::Null => "{}"@,
        _ => "{"@ + enc_pair("_"@, v) + "}"@,
    }
}

fn encode_value_pair(out: &mut Vec<char>, key: &str, v: &JsonValue)
    ensures
        final(out)@ == old(out)@ + enc_pair(key@, v@),
    decreases v, 0nat,
{
    let ghost o0 = out@;
    append_str(out, key);
    match v {
        JsonValue::Str(x) => {
            append_str(out, ":");
            let xv = chars_of(x.as_str());
            gemma_quote(out, xv.as_slice());
        },
        JsonValue::Number(n) => {
            append_str(out, ":");
            append_str(out, n.as_str());
        },
        JsonValue::Bool(b) => {
            append_str(out, ":");
            if *b {
                append_str(out, "true");
            } else {
                append_str(out, "false");
            }
        },
        JsonValue::Null => {
            append_str(out, ":null");
        },
        JsonValue::Array(a) => {
            append_str(out, ":[");
            proof {
                assert(decreases_to!(*v => (*v)->Array_0));
            }
            encode_items(out, a);
            append_str(out, "]");
        },
        JsonValue::Object(m) => {
            append_str(out, ":{");
            proof {
                assert(decreases_to!(*v => (*v)->Object_0));
            }
            encode_map_pairs(out, m);
            append_str(out, "}");
        },
    }
    assert(out@ =~= o0 + enc_pair(key@, v@));
}

fn encode_items(out: &mut Vec<char>, a: &Vec<JsonValue>)
    ensures
        final(out)@ == old(out)@ + enc_items(jsons_of(a@)),
    decreases a, 0nat,
{
    proof {
        lemma_jsons_of(a@);
    }
    let ghost o0 = out@;
    let ghost av = jsons_of(a@);
    let mut i: usize = 0;
    assert(av.subrange(0, 0) =~= Seq::<Json>::empty());
    while i < a.len()
        invariant
            i <= a.len(),
            av == jsons_of(a@),
            av.len() == a@.len(),
            forall|j: int| 0 <= j < a@.len() ==> #[trigger] av[j] == a@[j]@,
            out@ == o0 + enc_items(av.subrange(0, i as int)),
        decreases a.len() - i,
    {
        let ghost ps = av.subrange(0, i + 1);
        assert(ps.drop_last() =~= av.subrange(0, i as int));
        assert(ps.last() == a@[i as int]@);
        let ghost o1 = out@;
        if i > 0 {
            append_str(out, ",");
        }
        proof {
            let e = a@[i as int];
            assert(decreases_to!(*a => a@));
            assert(decreases_to!(a@ => e));
        }
        encode_scalar_or_quoted(out, &a[i]);
        proof {
            if i == 0 {
                assert(ps =~= seq![a@[0]@]);
            }
        }
        assert(out@ =~= o0 + enc_items(ps));
        i = i + 1;
    }
    assert(av.subrange(0, a.len() as int) =~= av);
}

fn encode_map_pairs(out: &mut Vec<char>, m: &Vec<(String, JsonValue)>)
    ensures
        final(out)@ == old(out)@ + enc_pairs(members_of(m@)),
    decreases m, 0nat,
{
    proof {
        lemma_members_of(m@);
    }
    let ghost o0 = out@;
    let ghost mv = members_of(m@);
    let mut i: usize = 0;
    assert(mv.subrange(0, 0) =~= Seq::<(Seq<char>, Json)>::empty());
    while i < m.len()
        invariant
            i <= m.len(),
            mv == members_of(m@),
            mv.len() == m@.len(),
            forall|j: int| 0 <= j < m@.len() ==> #[trigger] mv[j] == (m@[j].0@, m@[j].1@),
            out@ == o0 + enc_pairs(mv.subrange(0, i as int)),
        decreases m.len() - i,
    {
        let ghost ps = mv.subrange(0, i + 1);
        assert(ps.drop_last() =~= mv.subrange(0, i as int));
        assert(ps.last() == (m@[i as int].0@, m@[i as int].1@));
        if i > 0 {
            append_str(out, ",");
        }
        proof {
            let e = m@[i as int];
            assert(decreases_to!(*m => m@));
            assert(decreases_to!(m@ => e));
            assert(decreases_to!(e => e.1));
        }
        encode_value_pair(out, m[i].0.as_str(), &m[i].1);
        proof {
            if i == 0 {
                assert(ps =~= seq![(m@[0].0@, m@[0].1@)]);
            }
        }
        assert(out@ =~= o0 + enc_pairs(ps));
        i = i + 1;
    }
    assert(mv.subrange(0, m.len() as int) =~= mv);
}

fn encode_scalar_or_quoted(out: &mut Vec<char>, v: &JsonValue)
    ensures
        final(out)@ == old(out)@ + enc_scalar(v@),
    decreases v, 2nat,
{
    let ghost o0 = out@;
    match v {
        JsonValue::Str(x) => {
            let xv = chars_of(x.as_str());
            gemma_quote(out, xv.as_slice());
        },
        JsonValue::Number(n) => {
            append_str(out, n.as_str());
        },
        JsonValue::Bool(b) => {
            if *b {
                append_str(out, "true");
            } else {
                append_str(out, "false");
            }
        },
        JsonValue::Null => {
            append_str(out, "null");
        },
        _ => {
            encode_inline_object(out, v);
        },
    }
    assert(out@ =~= o0 + enc_scalar(v@));
}

fn encode_inline_object(out: &mut Vec<char>, v: &JsonValue)
    ensures
        final(out)@ == old(out)@ + enc_inline(v@),
    decreases v, 1nat,
{
    let ghost o0 = out@;
    match v {
        JsonValue::Object(m) => {
            append_str(out, "{");
            proof {
                assert(decreases_to!(*v => (*v)->Object_0));
            }
            encode_map_pairs(out, m);
            append_str(out, "}");
        },
        JsonValue::Null => {
            append_str(out, "{}");
        },
        _ => {
            append_str(out, "{");
            encode_value_pair(out, "_", v);
            append_str(out, "}");
        },
    }
    assert(out@ =~= o0 + enc_inline(v@));
}

/// `<|tool_call>call:name{args}<|tool_call|>`.
pub open spec fn tool_call_text(name: Seq<char>, arguments: Json) -> Seq<char> {
    "<|tool_call>call:"@ + name + enc_inline(arguments) + "<|tool_call|>"@
}

/// `<|tool_response>response:name{response}<|tool_response|>`.
pub open spec fn tool_response_text(name: Seq<char>, response: Json) -> Seq<char> {
    "<|tool_response>response:"@ + name + enc_inline(response) + "<|tool_response|>"@
}

/// A tool call in Gemma's wire form.
pub fn format_tool_call(name: &str, arguments: &JsonValue) -> (r: String)
    ensures
        r@ == tool_call_text(name@, arguments@),
{
    let mut out: Vec<char> = Vec::new();
    append_str(&mut out, "<|tool_call>call:");
    append_str(&mut out, name);
    encode_inline_object(&mut out, arguments);
    append_str(&mut out, "<|tool_call|>");
    assert(out@ =~= tool_call_text(name@, arguments@));
    string_of(out.as_slice())
}

/// A tool response in Gemma's wire form.
pub fn format_tool_response(name: &str, response: &JsonValue) -> (r: String)
    ensures
        r@ == tool_response_text(name@, response@),
{
    let mut out: Vec<char> = Vec::new();
    append_str(&mut out, "<|tool_response>response:");
    append_str(&mut out, name);
    encode_inline_object(&mut out, response);
    append_str(&mut out, "<|tool_response|>");
    assert(out@ =~= tool_response_text(name@, response@));
    string_of(out.as_slice())
}

/// System texts of the context: the system line, then the system messages' contents,
/// each non-blank one trimmed.
pub open spec fn system_parts(ctx: PromptFormatContext) -> Seq<Seq<char>> {
    (match ctx.system {
        Some(x) => if !is_blank(x@) {
            seq![trim(x@)]
        } else {
            Seq::empty()
        },
        None => Seq::empty(),
    }) + message_system_parts(ctx.messages@)
}

pub open spec fn message_system_parts(ms: Seq<CanonicalMessage>) -> Seq<Seq<char>>
    decreases ms.len(),
{
    if ms.len() == 0 {
        Seq::empty()
    } else {
        let prev = message_system_parts(ms.drop_last());
        let m = ms.last();
        if m.role == CanonicalRole::System && m.content is Some && !is_blank(m.content.unwrap()@) {
            prev.push(trim(m.content.unwrap()@))
        } else {
            prev
        }
    }
}

pub open spec fn calls_text(cs: Seq<ToolCall>) -> Seq<char>
    decreases cs.len(),
{
    if cs.len() == 0 {
        Seq::empty()
    } else {
        calls_text(cs.drop_last()) + tool_call_text(cs.last().name@, cs.last().arguments@)
    }
}

pub open spec fn responses_text(rs: Seq<ToolResponse>) -> Seq<char>
    decreases rs.len(),
{
    if rs.len() == 0 {
        Seq::empty()
    } else {
        responses_text(rs.drop_last()) + tool_response_text(rs.last().name@, rs.last().response@)
    }
}

/// One message's turn: nothing for system messages (they go to the system turn); a user
/// turn with the trimmed content; a model turn with its tool calls, tool responses and
/// content.
pub open spec fn message_turn(m: CanonicalMessage) -> Seq<char> {
    match m.role {
        CanonicalRole::System => Seq::empty(),
        CanonicalRole::User => "<|turn>user\n"@ + trim(
            match m.content {
                Some(c) => c@,
                None => Seq::empty(),
            },
        ) + "<|turn|>"@,
        CanonicalRole::Assistant => "<|turn>model\n"@ + calls_text(m.tool_calls@) + responses_text(
            m.tool_responses@,
        ) + (match m.content {
            Some(c) => c@,
            None => Seq::empty(),
        }) + "<|turn|>"@,
    }
}

pub open spec fn message_turns(ms: Seq<CanonicalMessage>) -> Seq<char>
    decreases ms.len(),
{
    if ms.len() == 0 {
        Seq::empty()
    } else {
        message_turns(ms.drop_last()) + message_turn(ms.last())
    }
}

/// The Gemma 4 prompt: `<bos>`; a system turn when there are system texts or tools (the
/// texts joined by blank lines, then the tool declarations); every message's turn; and an
/// open model turn when asked for.
pub open spec fn gemma_render(ctx: PromptFormatContext) -> Seq<char> {
    let parts = system_parts(ctx);
    "<bos>"@ + (if parts.len() > 0 || ctx.tools@.len() > 0 {
        "<|turn>system\n"@ + join(parts, "\n\n"@) + tool_declarations(ctx.tools@) + "<|turn|>"@
    } else {
        Seq::empty()
    }) + message_turns(ctx.messages@) + (if ctx.add_generation_prompt {
        "<|turn>model\n"@
    } else {
        Seq::empty()
    })
}

fn message_turn_into(out: &mut Vec<char>, m: &CanonicalMessage)
    ensures
        final(out)@ == old(out)@ + message_turn(*m),
{
    let ghost o0 = out@;
    match m.role {
        CanonicalRole::System => {},
        CanonicalRole::User => {
            append_str(out, "<|turn>user\n");
            match &m.content {
                Some(c) => {
                    let cv = chars_of(c.as_str());
                    let t = trim_vec(cv.as_slice());
                    append_chars(out, t.as_slice());
                },
                None => {
                    assert(trim(Seq::<char>::empty()) =~= Seq::<char>::empty()) by {
                        crate::text::lemma_trim_len(Seq::<char>::empty());
                    }
                },
            }
            append_str(out, "<|turn|>");
        },
        CanonicalRole::Assistant => {
            append_str(out, "<|turn>model\n");
            let ghost o1 = out@;
            let mut i: usize = 0;
            assert(m.tool_calls@.subrange(0, 0) =~= Seq::<ToolCall>::empty());
            while i < m.tool_calls.len()
                invariant
                    i <= m.tool_calls.len(),
                    out@ == o1 + calls_text(m.tool_calls@.subrange(0, i as int)),
                decreases m.tool_calls.len() - i,
            {
                let ghost ps = m.tool_calls@.subrange(0, i + 1);
                assert(ps.drop_last() =~= m.tool_calls@.subrange(0, i as int));
                let c = &m.tool_calls[i];
                let f = format_tool_call(c.name.as_str(), &c.arguments);
                append_str(out, f.as_str());
                assert(out@ =~= o1 + calls_text(ps));
                i = i + 1;
            }
            assert(m.tool_calls@.subrange(0, m.tool_calls.len() as int) =~= m.tool_calls@);
            let ghost o2 = out@;
            let mut j: usize = 0;
            assert(m.tool_responses@.subrange(0, 0) =~= Seq::<ToolResponse>::empty());
            while j < m.tool_responses.len()
                invariant
                    j <= m.tool_responses.len(),
                    out@ == o2 + responses_text(m.tool_responses@.subrange(0, j as int)),
                decreases m.tool_responses.len() - j,
            {
                let ghost ps = m.tool_responses@.subrange(0, j + 1);
                assert(ps.drop_last() =~= m.tool_responses@.subrange(0, j as int));
                let r = &m.tool_responses[j];
                let f = format_tool_response(r.name.as_str(), &r.response);
                append_str(out, f.as_str());
                assert(out@ =~= o2 + responses_text(ps));
                j = j + 1;
            }
            assert(m.tool_responses@.subrange(0, m.tool_responses.len() as int) =~= m.tool_responses@);
            match &m.content {
                Some(c) => {
                    append_str(out, c.as_str());
                },
                None => {},
            }
            append_str(out, "<|turn|>");
        },
    }
    assert(out@ =~= o0 + message_turn(*m));
}

/// Renders a chat into the Gemma 4 turn template (see `gemma_render`).
pub fn render_gemma4(ctx: &PromptFormatContext) -> (r: String)
    ensures
        r@ == gemma_render(*ctx),
{
    let mut parts: Vec<Vec<char>> = Vec::new();
    assert(vv(parts@) =~= Seq::<Seq<char>>::empty());
    match &ctx.system {
        Some(x) => {
            let xv = chars_of(x.as_str());
            if !is_blank_exec(xv.as_slice()) {
                let t = trim_vec(xv.as_slice());
                proof {
                    crate::text::lemma_vv_push(parts@, t);
                }
                parts.push(t);
            }
        },
        None => {},
    }
    let ghost first = vv(parts@);
    let mut i: usize = 0;
    assert(ctx.messages@.subrange(0, 0) =~= Seq::<CanonicalMessage>::empty());
    assert(vv(parts@) =~= first + message_system_parts(ctx.messages@.subrange(0, 0)));
    while i < ctx.messages.len()
        invariant
            i <= ctx.messages.len(),
            vv(parts@) == first + message_system_parts(ctx.messages@.subrange(0, i as int)),
        decreases ctx.messages.len() - i,
    {
        let ghost ps = ctx.messages@.subrange(0, i + 1);
        assert(ps.drop_last() =~= ctx.messages@.subrange(0, i as int));
        let m = &ctx.messages[i];
        if m.role == CanonicalRole::System {
            match &m.content {
                Some(c) => {
                    let cv = chars_of(c.as_str());
                    if !is_blank_exec(cv.as_slice()) {
                        let t = trim_vec(cv.as_slice());
                        proof {
                            crate::text::lemma_vv_push(parts@, t);
                        }
                        parts.push(t);
                    }
                },
                None => {},
            }
        }
        assert(vv(parts@) =~= first + message_system_parts(ps));
        i = i + 1;
    }
    assert(ctx.messages@.subrange(0, ctx.messages.len() as int) =~= ctx.messages@);
    assert(vv(parts@) == system_parts(*ctx));
    let mut out: Vec<char> = Vec::new();
    append_str(&mut out, "<bos>");
    let ghost o1 = out@;
    if parts.len() > 0 || ctx.tools.len() > 0 {
        append_str(&mut out, "<|turn>system\n");
        let j = join_vec(parts.as_slice(), chars_of("\n\n").as_slice());
        append_chars(&mut out, j.as_slice());
        tool_declarations_into(&mut out, ctx.tools.as_slice());
        append_str(&mut out, "<|turn|>");
    }
    let ghost o2 = out@;
    let mut k: usize = 0;
    assert(ctx.messages@.subrange(0, 0) =~= Seq::<CanonicalMessage>::empty());
    while k < ctx.messages.len()
        invariant
            k <= ctx.messages.len(),
            out@ == o2 + message_turns(ctx.messages@.subrange(0, k as int)),
        decreases ctx.messages.len() - k,
    {
        let ghost ps = ctx.messages@.subrange(0, k + 1);
        assert(ps.drop_last() =~= ctx.messages@.subrange(0, k as int));
        message_turn_into(&mut out, &ctx.messages[k]);
        assert(out@ =~= o2 + message_turns(ps));
        k = k + 1;
    }
    assert(ctx.messages@.subrange(0, ctx.messages.len() as int) =~= ctx.messages@);
    if ctx.add_generation_prompt {
        append_str(&mut out, "<|turn>model\n");
    }
    assert(out@ =~= gemma_render(*ctx));
    string_of(out.as_slice())
}

/// The Gemma 4 turn template.
pub struct Gemma4Format;

impl ChatPromptFormat for Gemma4Format {
    fn id(&self) -> &'static str {
        "gemma4"
    }

    fn display_name(&self) -> &'static str {
        "Gemma 4 (turn template)"
    }

    fn description(&self) -> &'static str {
        "Local `<|turn|>` template for Gemma 4-it. Supports tool declarations, tool_call, and tool_response turns."
    }

    fn supports_tool_calling(&self) -> bool {
        true
    }

    fn uses_wire_messages(&self) -> bool {
        false
    }

    fn render(&self, ctx: &PromptFormatContext) -> (r: String)
        ensures
            r@ == gemma_render(*ctx),
    {
        render_gemma4(ctx)
    }

    /// Every wire format is tried: models often ignore the template the connection names.
    fn parse_tool_calls(&self, output: &str) -> (r: Vec<ParsedToolCall>)
        ensures
            calls_view(r@) == crate::tool_call_parse::all_calls(output@),
    {
        crate::tool_call_parse::parse_all_tool_calls(output)
    }
}

/// Once a prefix of the parts fails to read, every longer prefix fails too.
pub proof fn gemma_members_none_extends(parts: Seq<Seq<char>>, i: int, bound: int)
    requires
        0 <= i <= parts.len(),
        gemma_members(parts.subrange(0, i), bound) is None,
    ensures
        gemma_members(parts, bound) is None,
    decreases parts.len() - i,
{
    if i < parts.len() {
        assert(parts.subrange(0, i + 1).drop_last() =~= parts.subrange(0, i));
        gemma_members_none_extends(parts, i + 1, bound);
    } else {
        assert(parts.subrange(0, i) =~= parts);
    }
}

/// Booleans and `null` survive a round trip through the Gemma encoding: an argument
/// value rendered for the prompt reads back as the same JSON value, not as a string.
pub proof fn law_gemma_scalars_round_trip(b: bool)
    ensures
        gemma_value(enc_scalar(Json::Bool(b))) == Some(Json::Bool(b)),
        gemma_value(enc_scalar(Json::Null)) == Some(Json::Null),
{
    reveal_strlit("true");
    reveal_strlit("false");
    reveal_strlit("null");
    let t = enc_scalar(Json::Bool(b));
    assert(!starts_with(t, seq!['<', '|', '"']));
    assert(!starts_with("null"@, seq!['<', '|', '"']));
}

pub proof fn lemma_decimal_digits(k: nat)
    ensures
        crate::text::decimal(k).len() > 0,
        crate::text::all_digits(crate::text::decimal(k)),
        crate::text::digits_value(crate::text::decimal(k)) == k,
    decreases k,
{
    let j = (k % 10) as int;
    assert(0 <= j < 10);
    assert((crate::text::digit_char(j) as u32) == 48 + j);
    if k < 10 {
        assert(crate::text::decimal(k) == seq![crate::text::digit_char(k as int)]);
        let e = seq![crate::text::digit_char(k as int)];
        assert(e.drop_last() =~= Seq::<char>::empty());
        assert(j == k);
        assert(crate::text::digits_value(e) == crate::text::digits_value(e.drop_last()) * 10 + ((e.last() as u32) - 48));
        assert(crate::text::digits_value(Seq::<char>::empty()) == 0);
        assert(forall|i: int| 0 <= i < e.len() ==> '0' <= #[trigger] e[i] <= '9');
    }
    if k >= 10 {
        lemma_decimal_digits(k / 10);
        assert(k == (k / 10) * 10 + j);
        let d = crate::text::decimal(k / 10);
        let e = d.push(crate::text::digit_char((k % 10) as int));
        assert(e.drop_last() == d);
        assert(crate::text::decimal(k) == e);
        assert(e.last() == crate::text::digit_char(j));
        assert(crate::text::digits_value(e) == crate::text::digits_value(d) * 10 + ((e.last() as u32) - 48));
        assert(crate::text::digits_value(e) == (k / 10) * 10 + j);
        assert forall|i: int| 0 <= i < e.len() implies '0' <= #[trigger] e[i] <= '9' by {
            if i < d.len() {
                assert(e[i] == d[i]);
            }
        }
    }
}

/// Integers survive a round trip through the Gemma encoding as the same number.
pub proof fn law_gemma_integers_round_trip(n: i64)
    ensures
        gemma_value(enc_scalar(Json::Number(int_text(n as int)))) == Some(Json::Number(int_text(n as int))),
{
    let t = int_text(n as int);
    let k: nat = if n < 0 { (-(n as int)) as nat } else { n as nat };
    lemma_decimal_digits(k);
    let d = crate::text::decimal(k);
    assert(d[0] != '-' && d[0] != '+' && d[0] != '<' && d[0] != '[' && d[0] != '{');
    if n < 0 {
        assert(t == seq!['-'] + d);
        assert(t.drop_first() =~= d);
    }
    assert(crate::json_value::i64_literal(t) == Some(n as int));
    reveal_strlit("true");
    reveal_strlit("false");
    reveal_strlit("null");
    assert(t.subrange(0, 1)[0] == t[0]);
    if t.len() >= 3 {
        assert(t.subrange(0, 3)[0] == t[0]);
    }
    assert(t != "true"@ && t != "false"@ && t != "null"@) by {
        assert("true"@[0] == 't' && "false"@[0] == 'f' && "null"@[0] == 'n');
    }
    assert(!starts_with(t, seq!['<', '|', '"']));
}

} // verus!
