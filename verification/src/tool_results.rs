//! Results of workspace tool calls in chat: how they are capped before the follow-up turn,
//! written back to the model, shown to the user, and noted in session memory.
use vstd::prelude::*;

use crate::agent_tools::{cap_tool_followup_turn_text, capped_followup};
use crate::gemma4::{format_tool_response, tool_response_text};
use crate::json_value::{
    get_key, insert_member, insert_member_exec, jsons_of, lemma_jsons_of, lemma_members_of,
    members_of, Json, JsonValue,
};
use crate::vector_memory::{chunk_content_hash, chunk_key_bytes, compact_excerpt, excerpt, sha256_hex};
use crate::text::{
    is_blank, decimal, eq_ignore_case, is_blank_exec, lower_vec, push_decimal, seq_eq_exec, trim, trim_vec, utf8_len, utf8_len_below, all_digits, append_chars, append_str, chars_of, digits_value, join, join_vec, slice_of,
    starts_with, starts_with_str, str_eq, string_of, take_chars, take_vec, vv,
};

verus! {

/// What running one tool call gave: whether it succeeded, its JSON output and a message.
#[derive(Debug)]
pub struct ToolExecutionResult {
    pub name: String,
    pub ok: bool,
    pub output: JsonValue,
    pub message: String,
}

/// Mathematical view of a tool result.
pub struct ToolResultView {
    pub name: Seq<char>,
    pub ok: bool,
    pub output: Json,
    pub message: Seq<char>,
}

impl View for ToolExecutionResult {
    type V = ToolResultView;

    open spec fn view(&self) -> ToolResultView {
        ToolResultView {
            name: self.name@,
            ok: self.ok,
            output: self.output@,
            message: self.message@,
        }
    }
}

pub open spec fn results_view(rs: Seq<ToolExecutionResult>) -> Seq<ToolResultView> {
    Seq::new(rs.len(), |i: int| rs[i]@)
}

// ---------------------------------------------------------------------------------------
// JSON text.
/// What `serde_json::to_string` writes for a value (compact JSON).
pub uninterp spec fn json_text(v: Json) -> Seq<char>;

/// What `serde_json::to_string_pretty` writes for a value.
pub uninterp spec fn json_pretty_text(v: Json) -> Seq<char>;

#[verifier::external_type_specification]
#[verifier::external_body]
pub struct ExSerdeJsonNumber(serde_json::Number);

/// Converts to a serde_json value, element for element and member for member; a number
/// text that serde_json does not read as a number is kept as a string.
#[verifier::external_body]
fn to_serde(v: &JsonValue) -> serde_json::Value {
    match v {
        JsonValue::Null => serde_json::Value::Null,
        JsonValue::Bool(b) => serde_json::Value::Bool(*b),
        JsonValue::Number(n) => n.parse::<serde_json::Number>().map(serde_json::Value::Number)
            .unwrap_or_else(|_| serde_json::Value::String(n.clone())),
        JsonValue::Str(s) => serde_json::Value::String(s.clone()),
        JsonValue::Array(a) => serde_json::Value::Array(a.iter().map(to_serde).collect()),
        JsonValue::Object(m) => serde_json::Value::Object(
            m.iter().map(|(k, x)| (k.clone(), to_serde(x))).collect(),
        ),
    }
}

/// `serde_json::to_string`: compact JSON text of the value, named by `json_text`.
#[verifier::external_body]
fn json_to_text(v: &JsonValue) -> (r: String)
    ensures
        r@ == json_text(v@),
{
    serde_json::to_string(&to_serde(v)).unwrap_or_default()
}

/// `serde_json::to_string_pretty`: indented JSON text of the value, named by
/// `json_pretty_text`.
#[verifier::external_body]
fn json_to_pretty_text(v: &JsonValue) -> (r: String)
    ensures
        r@ == json_pretty_text(v@),
{
    serde_json::to_string_pretty(&to_serde(v)).unwrap_or_default()
}

// ---------------------------------------------------------------------------------------
// Capping tool output for the follow-up turn.
/// The value, or null when absent.
pub open spec fn or_null(v: Option<Json>) -> Json {
    match v {
        Some(x) => x,
        None => Json::Null,
    }
}

/// The member under `a`, else the one under `b`.
pub open spec fn get_either(o: Json, a: Seq<char>, b: Seq<char>) -> Option<Json> {
    if get_key(o, a) is Some {
        get_key(o, a)
    } else {
        get_key(o, b)
    }
}

/// Members inserted one after another into an empty object.
pub open spec fn obj2(k1: Seq<char>, v1: Json, k2: Seq<char>, v2: Json) -> Seq<(Seq<char>, Json)> {
    insert_member(insert_member(Seq::empty(), k1, v1), k2, v2)
}

pub open spec fn obj3(
    k1: Seq<char>,
    v1: Json,
    k2: Seq<char>,
    v2: Json,
    k3: Seq<char>,
    v3: Json,
) -> Seq<(Seq<char>, Json)> {
    insert_member(obj2(k1, v1, k2, v2), k3, v3)
}

pub open spec fn obj4(
    k1: Seq<char>,
    v1: Json,
    k2: Seq<char>,
    v2: Json,
    k3: Seq<char>,
    v3: Json,
    k4: Seq<char>,
    v4: Json,
) -> Seq<(Seq<char>, Json)> {
    insert_member(obj3(k1, v1, k2, v2, k3, v3), k4, v4)
}

/// Output that is too large is replaced by a preview of its JSON text (12 000 characters)
/// and a hint.
pub open spec fn cap_generic(o: Json) -> Json {
    let s = json_text(o);
    if s.len() <= 12_000 {
        o
    } else {
        Json::Object(
            obj3(
                "truncated"@,
                Json::Bool(true),
                "preview"@,
                Json::Str(take_chars(s, 12_000)),
                "hint"@,
                Json::Str("output too large for follow-up — use narrower tool args"@),
            ),
        )
    }
}

/// A `read_file` result keeps at most 12 000 characters of content, with a note and a
/// `truncated` flag when cut; output without string content is capped generically.
pub open spec fn cap_read_file(o: Json) -> Json {
    match get_key(o, "content"@) {
        Some(Json::Str(c)) => if c.len() <= 12_000 {
            o
        } else {
            match o {
                Json::Object(m) => Json::Object(
                    insert_member(
                        insert_member(
                            m,
                            "content"@,
                            Json::Str(
                                take_chars(c, 12_000)
                                    + "\n… [truncated — use read_file with lines:[start,end] for more]"@,
                            ),
                        ),
                        "truncated"@,
                        Json::Bool(true),
                    ),
                ),
                _ => o,
            }
        },
        _ => cap_generic(o),
    }
}

/// An `apply_patch` result reduced to its path, content hash, edit count, line count and
/// success (camelCase keys preferred over snake_case ones; absent ones null).
pub open spec fn summarize_patch(o: Json) -> Json {
    Json::Object(
        insert_member(
            obj4(
                "path"@,
                or_null(get_key(o, "path"@)),
                "contentHash"@,
                or_null(get_either(o, "contentHash"@, "content_hash"@)),
                "editsApplied"@,
                or_null(get_either(o, "editsApplied"@, "edits_applied"@)),
                "lineCount"@,
                or_null(get_either(o, "lineCount"@, "line_count"@)),
            ),
            "ok"@,
            Json::Bool(true),
        ),
    )
}

/// A `write_file` result reduced to its path, content hash, line count and whether the
/// file was created (true when not said).
pub open spec fn summarize_write(o: Json) -> Json {
    Json::Object(
        obj4(
            "path"@,
            or_null(get_key(o, "path"@)),
            "contentHash"@,
            or_null(get_either(o, "contentHash"@, "content_hash"@)),
            "lineCount"@,
            or_null(get_either(o, "lineCount"@, "line_count"@)),
            "created"@,
            match get_key(o, "created"@) {
                Some(x) => x,
                None => Json::Bool(true),
            },
        ),
    )
}

/// Tool output as the follow-up turn shows it: failures as they are; otherwise capped by
/// tool (`read_file`, `apply_patch`, `write_file`, or generically).
pub open spec fn capped_output(name: Seq<char>, o: Json, ok: bool) -> Json {
    if !ok {
        o
    } else if name == "read_file"@ {
        cap_read_file(o)
    } else if name == "apply_patch"@ {
        summarize_patch(o)
    } else if name == "write_file"@ {
        summarize_write(o)
    } else {
        cap_generic(o)
    }
}

/// A copy of the value, or null when absent.
fn or_null_exec(v: Option<&JsonValue>) -> (r: JsonValue)
    ensures
        r@ == or_null(
            match v {
                Some(x) => Some(x@),
                None => None,
            },
        ),
{
    match v {
        Some(x) => x.deep_clone(),
        None => JsonValue::Null,
    }
}

/// The member under `a`, else the one under `b`.
fn get_either_exec<'a>(o: &'a JsonValue, a: &str, b: &str) -> (r: Option<&'a JsonValue>)
    ensures
        (match r {
            Some(x) => Some(x@),
            None => None,
        }) == get_either(o@, a@, b@),
{
    match o.get(a) {
        Some(x) => Some(x),
        None => o.get(b),
    }
}

fn cap_generic_tool_output(o: &JsonValue) -> (r: JsonValue)
    ensures
        r@ == cap_generic(o@),
{
    let s = json_to_text(o);
    let sv = chars_of(s.as_str());
    if sv.len() <= 12_000 {
        return o.deep_clone();
    }
    let preview = take_vec(sv.as_slice(), 12_000);
    let mut m: Vec<(String, JsonValue)> = Vec::new();
    proof {
        lemma_members_of(m@);
        assert(members_of(m@) =~= Seq::<(Seq<char>, Json)>::empty());
    }
    insert_member_exec(&mut m, "truncated".to_string(), JsonValue::Bool(true));
    insert_member_exec(&mut m, "preview".to_string(), JsonValue::Str(string_of(preview.as_slice())));
    insert_member_exec(
        &mut m,
        "hint".to_string(),
        JsonValue::Str("output too large for follow-up — use narrower tool args".to_string()),
    );
    JsonValue::Object(m)
}

fn cap_read_file_tool_output(o: &JsonValue) -> (r: JsonValue)
    ensures
        r@ == cap_read_file(o@),
{
    let content = match o.get("content") {
        Some(x) => match x.as_str() {
            Some(c) => c,
            None => {
                return cap_generic_tool_output(o);
            },
        },
        None => {
            return cap_generic_tool_output(o);
        },
    };
    let cv = chars_of(content);
    if cv.len() <= 12_000 {
        return o.deep_clone();
    }
    let mut t = take_vec(cv.as_slice(), 12_000);
    append_str(&mut t, "\n… [truncated — use read_file with lines:[start,end] for more]");
    match o {
        JsonValue::Object(_) => {
            let c = o.deep_clone();
            match c {
                JsonValue::Object(mut m2) => {
                    insert_member_exec(&mut m2, "content".to_string(), JsonValue::Str(string_of(t.as_slice())));
                    insert_member_exec(&mut m2, "truncated".to_string(), JsonValue::Bool(true));
                    JsonValue::Object(m2)
                },
                _ => c,
            }
        },
        _ => o.deep_clone(),
    }
}

fn summarize_patch_tool_output(o: &JsonValue) -> (r: JsonValue)
    ensures
        r@ == summarize_patch(o@),
{
    let mut m: Vec<(String, JsonValue)> = Vec::new();
    proof {
        lemma_members_of(m@);
        assert(members_of(m@) =~= Seq::<(Seq<char>, Json)>::empty());
    }
    insert_member_exec(&mut m, "path".to_string(), or_null_exec(o.get("path")));
    insert_member_exec(&mut m, "contentHash".to_string(), or_null_exec(get_either_exec(o, "contentHash", "content_hash")));
    insert_member_exec(&mut m, "editsApplied".to_string(), or_null_exec(get_either_exec(o, "editsApplied", "edits_applied")));
    insert_member_exec(&mut m, "lineCount".to_string(), or_null_exec(get_either_exec(o, "lineCount", "line_count")));
    insert_member_exec(&mut m, "ok".to_string(), JsonValue::Bool(true));
    JsonValue::Object(m)
}

fn summarize_write_tool_output(o: &JsonValue) -> (r: JsonValue)
    ensures
        r@ == summarize_write(o@),
{
    let mut m: Vec<(String, JsonValue)> = Vec::new();
    proof {
        lemma_members_of(m@);
        assert(members_of(m@) =~= Seq::<(Seq<char>, Json)>::empty());
    }
    insert_member_exec(&mut m, "path".to_string(), or_null_exec(o.get("path")));
    insert_member_exec(&mut m, "contentHash".to_string(), or_null_exec(get_either_exec(o, "contentHash", "content_hash")));
    insert_member_exec(&mut m, "lineCount".to_string(), or_null_exec(get_either_exec(o, "lineCount", "line_count")));
    let created = match o.get("created") {
        Some(x) => x.deep_clone(),
        None => JsonValue::Bool(true),
    };
    insert_member_exec(&mut m, "created".to_string(), created);
    JsonValue::Object(m)
}

/// Shrinks tool output before it enters the follow-up user message (see `capped_output`).
pub fn cap_tool_output_for_followup(name: &str, output: &JsonValue, ok: bool) -> (r: JsonValue)
    ensures
        r@ == capped_output(name@, output@, ok),
{
    if !ok {
        return output.deep_clone();
    }
    if str_eq(name, "read_file") {
        cap_read_file_tool_output(output)
    } else if str_eq(name, "apply_patch") {
        summarize_patch_tool_output(output)
    } else if str_eq(name, "write_file") {
        summarize_write_tool_output(output)
    } else {
        cap_generic_tool_output(output)
    }
}

// ---------------------------------------------------------------------------------------
// Texts of tool results.
/// One result in the follow-up turn of the Gemma template: a tool response carrying the
/// capped output, or `{error, ok: false}` for a failure.
pub open spec fn gemma_followup_part(r: ToolResultView) -> Seq<char> {
    tool_response_text(
        r.name,
        if r.ok {
            capped_output(r.name, r.output, r.ok)
        } else {
            Json::Object(obj2("ok"@, Json::Bool(false), "error"@, Json::Str(r.message)))
        },
    )
}

/// One result in the follow-up turn of other formats: `[Tool result: name]`, then the
/// capped output as indented JSON (or `ERROR: message`), then a newline.
pub open spec fn plain_followup_part(r: ToolResultView) -> Seq<char> {
    "[Tool result: "@ + r.name + "]\n"@ + (if r.ok {
        json_pretty_text(capped_output(r.name, r.output, r.ok))
    } else {
        "ERROR: "@ + r.message
    }) + "\n"@
}

/// The user turn that hands tool results back to the model, capped as a whole: Gemma
/// tool responses one after another, or result blocks separated by blank lines.
pub open spec fn followup_message(prompt_format_id: Seq<char>, rs: Seq<ToolResultView>) -> Seq<char> {
    capped_followup(
        if prompt_format_id == "gemma4"@ {
            join(Seq::new(rs.len(), |i: int| gemma_followup_part(rs[i])), Seq::empty())
        } else {
            join(Seq::new(rs.len(), |i: int| plain_followup_part(rs[i])), "\n"@)
        },
    )
}

/// Builds the follow-up user message from tool results (see `followup_message`).
pub fn format_tool_followup_user_message(prompt_format_id: &str, results: &[ToolExecutionResult]) -> (r: String)
    ensures
        r@ == followup_message(prompt_format_id@, results_view(results@)),
{
    let gemma = str_eq(prompt_format_id, "gemma4");
    let mut parts: Vec<Vec<char>> = Vec::new();
    let mut i: usize = 0;
    let ghost rv = results_view(results@);
    while i < results.len()
        invariant
            i <= results.len(),
            rv == results_view(results@),
            gemma == (prompt_format_id@ == "gemma4"@),
            vv(parts@) =~= Seq::new(
                i as nat,
                |j: int| if gemma {
                    gemma_followup_part(rv[j])
                } else {
                    plain_followup_part(rv[j])
                },
            ),
        decreases results.len() - i,
    {
        let r = &results[i];
        assert(rv[i as int] == r@);
        let capped = cap_tool_output_for_followup(r.name.as_str(), &r.output, r.ok);
        let mut p: Vec<char> = Vec::new();
        if gemma {
            let body = if r.ok {
                capped
            } else {
                let mut m: Vec<(String, JsonValue)> = Vec::new();
                proof {
                    lemma_members_of(m@);
                    assert(members_of(m@) =~= Seq::<(Seq<char>, Json)>::empty());
                }
                insert_member_exec(&mut m, "ok".to_string(), JsonValue::Bool(false));
                insert_member_exec(&mut m, "error".to_string(), JsonValue::Str(crate::text::copy_string(&r.message)));
                JsonValue::Object(m)
            };
            let f = format_tool_response(r.name.as_str(), &body);
            append_str(&mut p, f.as_str());
            assert(p@ =~= gemma_followup_part(r@));
        } else {
            append_str(&mut p, "[Tool result: ");
            append_str(&mut p, r.name.as_str());
            append_str(&mut p, "]\n");
            if r.ok {
                let t = json_to_pretty_text(&capped);
                append_str(&mut p, t.as_str());
            } else {
                append_str(&mut p, "ERROR: ");
                append_str(&mut p, r.message.as_str());
            }
            append_str(&mut p, "\n");
            assert(p@ =~= plain_followup_part(r@));
        }
        proof {
            crate::text::lemma_vv_push(parts@, p);
        }
        parts.push(p);
        i = i + 1;
    }
    let sep = if gemma {
        Vec::new()
    } else {
        chars_of("\n")
    };
    let body = join_vec(parts.as_slice(), sep.as_slice());
    proof {
        if gemma {
            assert(vv(parts@) =~= Seq::new(rv.len(), |j: int| gemma_followup_part(rv[j])));
            assert(sep@ =~= Seq::<char>::empty());
        } else {
            assert(vv(parts@) =~= Seq::new(rv.len(), |j: int| plain_followup_part(rv[j])));
        }
    }
    cap_tool_followup_turn_text(string_of(body.as_slice()))
}

/// One result as the user sees it: `[name]` and the output as indented JSON, or
/// `[name] ERROR: message`.
pub open spec fn user_part(r: ToolResultView) -> Seq<char> {
    if r.ok {
        "["@ + r.name + "]\n"@ + json_pretty_text(r.output)
    } else {
        "["@ + r.name + "] ERROR: "@ + r.message
    }
}

/// Tool results as the user sees them, separated by blank lines.
pub open spec fn results_for_user(rs: Seq<ToolResultView>) -> Seq<char> {
    join(Seq::new(rs.len(), |i: int| user_part(rs[i])), "\n\n"@)
}

/// Tool results for the user when the model gave no usable answer (see
/// `results_for_user`).
pub fn format_tool_results_for_user(results: &[ToolExecutionResult]) -> (r: String)
    ensures
        r@ == results_for_user(results_view(results@)),
{
    let mut parts: Vec<Vec<char>> = Vec::new();
    let mut i: usize = 0;
    let ghost rv = results_view(results@);
    while i < results.len()
        invariant
            i <= results.len(),
            rv == results_view(results@),
            vv(parts@) =~= Seq::new(i as nat, |j: int| user_part(rv[j])),
        decreases results.len() - i,
    {
        let r = &results[i];
        assert(rv[i as int] == r@);
        let mut p: Vec<char> = Vec::new();
        append_str(&mut p, "[");
        append_str(&mut p, r.name.as_str());
        if r.ok {
            append_str(&mut p, "]\n");
            let t = json_to_pretty_text(&r.output);
            append_str(&mut p, t.as_str());
        } else {
            append_str(&mut p, "] ERROR: ");
            append_str(&mut p, r.message.as_str());
        }
        proof {
            crate::text::lemma_vv_push(parts@, p);
        }
        parts.push(p);
        i = i + 1;
    }
    let body = join_vec(parts.as_slice(), chars_of("\n\n").as_slice());
    assert(vv(parts@) =~= Seq::new(rv.len(), |j: int| user_part(rv[j])));
    string_of(body.as_slice())
}

/// One line per result for the memory summarizer: `[name] message`, or
/// `[name] ERROR: message`.
pub open spec fn trace_line(r: ToolResultView) -> Seq<char> {
    "["@ + r.name + (if r.ok {
        "] "@
    } else {
        "] ERROR: "@
    }) + r.message
}

pub open spec fn results_trace(rs: Seq<ToolResultView>) -> Seq<char> {
    join(Seq::new(rs.len(), |i: int| trace_line(rs[i])), "\n"@)
}

/// The tool trace handed to the memory summarizer (see `results_trace`).
pub fn format_tool_results_trace(results: &[ToolExecutionResult]) -> (r: String)
    ensures
        r@ == results_trace(results_view(results@)),
{
    let mut parts: Vec<Vec<char>> = Vec::new();
    let mut i: usize = 0;
    let ghost rv = results_view(results@);
    while i < results.len()
        invariant
            i <= results.len(),
            rv == results_view(results@),
            vv(parts@) =~= Seq::new(i as nat, |j: int| trace_line(rv[j])),
        decreases results.len() - i,
    {
        let r = &results[i];
        assert(rv[i as int] == r@);
        let mut p: Vec<char> = Vec::new();
        append_str(&mut p, "[");
        append_str(&mut p, r.name.as_str());
        if r.ok {
            append_str(&mut p, "] ");
        } else {
            append_str(&mut p, "] ERROR: ");
        }
        append_str(&mut p, r.message.as_str());
        proof {
            crate::text::lemma_vv_push(parts@, p);
        }
        parts.push(p);
        i = i + 1;
    }
    let body = join_vec(parts.as_slice(), chars_of("\n").as_slice());
    assert(vv(parts@) =~= Seq::new(rv.len(), |j: int| trace_line(rv[j])));
    string_of(body.as_slice())
}

// ---------------------------------------------------------------------------------------
// Session memory of tool results.
/// A string value's text; empty for anything else or nothing.
pub open spec fn str_or_empty(v: Option<Json>) -> Seq<char> {
    match v {
        Some(Json::Str(x)) => x,
        _ => Seq::empty(),
    }
}

fn str_or_empty_exec(v: Option<&JsonValue>) -> (r: Vec<char>)
    ensures
        r@ == str_or_empty(
            match v {
                Some(x) => Some(x@),
                None => None,
            },
        ),
{
    match v {
        Some(x) => match x.as_str() {
            Some(t) => chars_of(t),
            None => Vec::new(),
        },
        None => Vec::new(),
    }
}

/// `as_u64` of a number: a digit string within `u64`.
pub open spec fn json_u64(v: Option<Json>) -> Option<nat> {
    match v {
        Some(Json::Number(t)) => if t.len() > 0 && all_digits(t) && digits_value(t) <= u64::MAX {
            Some(digits_value(t) as nat)
        } else {
            None
        },
        _ => None,
    }
}

fn json_u64_exec(v: Option<&JsonValue>) -> (r: Option<u64>)
    ensures
        r matches Some(n) ==> json_u64(
            match v {
                Some(x) => Some(x@),
                None => None,
            },
        ) == Some(n as nat),
        r is None ==> json_u64(
            match v {
                Some(x) => Some(x@),
                None => None,
            },
        ) is None,
{
    match v {
        Some(JsonValue::Number(t)) => {
            let tv = chars_of(t.as_str());
            crate::text::parse_digits_u64(tv.as_slice())
        },
        _ => None,
    }
}

/// Preview lines of the edits of a patch: `  old → new` for each edit with a preview.
pub open spec fn edit_preview_lines(edits: Seq<Json>) -> Seq<Seq<char>>
    decreases edits.len(),
{
    if edits.len() == 0 {
        Seq::empty()
    } else {
        let prev = edit_preview_lines(edits.drop_last());
        let old = str_or_empty(get_key(edits.last(), "oldPreview"@));
        let new = str_or_empty(get_key(edits.last(), "newPreview"@));
        if old.len() > 0 || new.len() > 0 {
            prev.push("  "@ + old + " → "@ + new)
        } else {
            prev
        }
    }
}

/// The memory note of a patch: `PATCH: path`, then its edit previews, or the rest of a
/// `Patched ...` message when there are none; empty without a path.
pub open spec fn patch_memory_note(r: ToolResultView) -> Seq<char> {
    let path = str_or_empty(get_key(r.output, "path"@));
    if path.len() == 0 {
        Seq::empty()
    } else {
        let edit_lines = match get_key(r.output, "memoryEdits"@) {
            Some(Json::Array(es)) => edit_preview_lines(es),
            _ => Seq::empty(),
        };
        let lines = seq!["PATCH: "@ + path] + edit_lines;
        join(
            if edit_lines.len() == 0 && starts_with(r.message, "Patched "@) {
                lines.push("  "@ + r.message.subrange(8, r.message.len() as int))
            } else {
                lines
            },
            "\n"@,
        )
    }
}

/// Deterministic memory note of an `apply_patch` result (see `patch_memory_note`).
pub fn format_apply_patch_memory_note(r: &ToolExecutionResult) -> (s: String)
    ensures
        s@ == patch_memory_note(r@),
{
    proof {
        reveal_strlit("Patched ");
    }
    let path = str_or_empty_exec(r.output.get("path"));
    if path.len() == 0 {
        return String::new();
    }
    let mut lines: Vec<Vec<char>> = Vec::new();
    let mut first: Vec<char> = Vec::new();
    append_str(&mut first, "PATCH: ");
    append_chars(&mut first, path.as_slice());
    lines.push(first);
    let ghost head = vv(lines@);
    assert(head =~= seq!["PATCH: "@ + path@]);
    let mut n_edit_lines: usize = 0;
    match r.output.get("memoryEdits") {
        Some(ev) => match ev.as_array() {
            Some(es) => {
                proof {
                    lemma_jsons_of(es@);
                }
                let ghost esv = jsons_of(es@);
                let mut i: usize = 0;
                assert(esv.subrange(0, 0) =~= Seq::<Json>::empty());
                assert(vv(lines@) =~= head + edit_preview_lines(esv.subrange(0, 0)));
                while i < es.len()
                    invariant
                        i <= es.len(),
                        esv == jsons_of(es@),
                        esv.len() == es@.len(),
                        forall|j: int| 0 <= j < es@.len() ==> #[trigger] esv[j] == es@[j]@,
                        vv(lines@) == head + edit_preview_lines(esv.subrange(0, i as int)),
                        n_edit_lines == edit_preview_lines(esv.subrange(0, i as int)).len(),
                        n_edit_lines <= i,
                    decreases es.len() - i,
                {
                    let ghost ps = esv.subrange(0, i + 1);
                    assert(ps.drop_last() =~= esv.subrange(0, i as int));
                    assert(ps.last() == es@[i as int]@);
                    let old = str_or_empty_exec(es[i].get("oldPreview"));
                    let new = str_or_empty_exec(es[i].get("newPreview"));
                    if old.len() > 0 || new.len() > 0 {
                        let mut l: Vec<char> = Vec::new();
                        append_str(&mut l, "  ");
                        append_chars(&mut l, old.as_slice());
                        append_str(&mut l, " → ");
                        append_chars(&mut l, new.as_slice());
                        proof {
                            crate::text::lemma_vv_push(lines@, l);
                        }
                        lines.push(l);
                        n_edit_lines = n_edit_lines + 1;
                    }
                    assert(vv(lines@) =~= head + edit_preview_lines(ps));
                    i = i + 1;
                }
                assert(esv.subrange(0, es.len() as int) =~= esv);
            },
            None => {
                assert(vv(lines@) =~= head + Seq::<Seq<char>>::empty());
            },
        },
        None => {
            assert(vv(lines@) =~= head + Seq::<Seq<char>>::empty());
        },
    }
    let mv = chars_of(r.message.as_str());
    let ghost edit_lines = match get_key(r.output@, "memoryEdits"@) {
        Some(Json::Array(es)) => edit_preview_lines(es),
        _ => Seq::<Seq<char>>::empty(),
    };
    assert(vv(lines@) == head + edit_lines);
    assert(n_edit_lines == edit_lines.len());
    if n_edit_lines == 0 && starts_with_str(mv.as_slice(), "Patched ") {
        let rest = slice_of(mv.as_slice(), 8, mv.len());
        let mut l: Vec<char> = Vec::new();
        append_str(&mut l, "  ");
        append_chars(&mut l, rest.as_slice());
        proof {
            crate::text::lemma_vv_push(lines@, l);
        }
        lines.push(l);
    }
    let j = join_vec(lines.as_slice(), chars_of("\n").as_slice());
    string_of(j.as_slice())
}

/// The session-memory entry of one tool result, as (role, text): an outline as a symbol
/// index, a file or symbol read as a code excerpt (280 characters) with its line range, a
/// patch as its note; failures, results without the needed fields and other tools give
/// none.
pub open spec fn memory_entry(r: ToolResultView) -> Option<(Seq<char>, Seq<char>)> {
    let o = r.output;
    if !r.ok {
        None
    } else if r.name == "file_outline"@ {
        let path = str_or_empty(get_key(o, "path"@));
        let symbols = match get_key(o, "symbols"@) {
            Some(v) => json_text(v),
            None => Seq::empty(),
        };
        if path.len() == 0 {
            None
        } else {
            Some(("symbol-index"@, "REPO: "@ + path + "\nSYMBOLS:\n"@ + symbols))
        }
    } else if r.name == "read_file"@ || r.name == "read_symbol"@ {
        let path = str_or_empty(get_key(o, "path"@));
        let content = str_or_empty(get_key(o, "content"@));
        let symbol = str_or_empty(get_key(o, "symbol"@));
        if path.len() == 0 || content.len() == 0 {
            None
        } else {
            let header = if symbol.len() == 0 {
                "CODE: "@ + path
            } else {
                "CODE: "@ + path + " symbol="@ + symbol
            };
            let lines = match (json_u64(get_key(o, "lineStart"@)), json_u64(get_key(o, "lineEnd"@))) {
                (Some(a), Some(b)) => "\nLINES: "@ + decimal(a) + "-"@ + decimal(b),
                _ => Seq::empty(),
            };
            Some(("code-read"@, header + lines + "\n---\n"@ + excerpt(content, 280)))
        }
    } else if r.name == "apply_patch"@ {
        let note = patch_memory_note(r);
        if note.len() == 0 {
            None
        } else {
            Some(("memory-note"@, note))
        }
    } else {
        None
    }
}

/// Reads the session-memory entry of one tool result (see `memory_entry`).
pub fn tool_memory_entry(r: &ToolExecutionResult) -> (e: Option<(String, String)>)
    ensures
        e matches Some(p) ==> memory_entry(r@) == Some((p.0@, p.1@)),
        e is None ==> memory_entry(r@) is None,
{
    if !r.ok {
        return None;
    }
    let o = &r.output;
    if str_eq(r.name.as_str(), "file_outline") {
        let path = str_or_empty_exec(o.get("path"));
        if path.len() == 0 {
            return None;
        }
        let mut t: Vec<char> = Vec::new();
        append_str(&mut t, "REPO: ");
        append_chars(&mut t, path.as_slice());
        append_str(&mut t, "\nSYMBOLS:\n");
        match o.get("symbols") {
            Some(v) => {
                let sym = json_to_text(v);
                append_str(&mut t, sym.as_str());
            },
            None => {},
        }
        return Some(("symbol-index".to_string(), string_of(t.as_slice())));
    }
    if str_eq(r.name.as_str(), "read_file") || str_eq(r.name.as_str(), "read_symbol") {
        let path = str_or_empty_exec(o.get("path"));
        let content = str_or_empty_exec(o.get("content"));
        let symbol = str_or_empty_exec(o.get("symbol"));
        if path.len() == 0 || content.len() == 0 {
            return None;
        }
        let mut t: Vec<char> = Vec::new();
        append_str(&mut t, "CODE: ");
        append_chars(&mut t, path.as_slice());
        if symbol.len() > 0 {
            append_str(&mut t, " symbol=");
            append_chars(&mut t, symbol.as_slice());
        }
        let ls = json_u64_exec(o.get("lineStart"));
        let le = json_u64_exec(o.get("lineEnd"));
        match (ls, le) {
            (Some(a), Some(b)) => {
                append_str(&mut t, "\nLINES: ");
                push_decimal(&mut t, a);
                append_str(&mut t, "-");
                push_decimal(&mut t, b);
            },
            _ => {},
        }
        append_str(&mut t, "\n---\n");
        let cs = string_of(content.as_slice());
        let ex = compact_excerpt(cs.as_str(), 280);
        append_str(&mut t, ex.as_str());
        return Some(("code-read".to_string(), string_of(t.as_slice())));
    }
    if str_eq(r.name.as_str(), "apply_patch") {
        let note = format_apply_patch_memory_note(r);
        let nv = chars_of(note.as_str());
        if nv.len() == 0 {
            return None;
        }
        return Some(("memory-note".to_string(), note));
    }
    None
}

/// Entries of a batch of results not indexed yet, as (role, text, content hash), in order;
/// an entry whose hash is among `indexed` is skipped.
pub open spec fn pending_from(rs: Seq<ToolResultView>, indexed: Seq<Seq<char>>) -> Seq<
    (Seq<char>, Seq<char>, Seq<char>),
>
    decreases rs.len(),
{
    if rs.len() == 0 {
        Seq::empty()
    } else {
        let prev = pending_from(rs.drop_last(), indexed);
        match memory_entry(rs.last()) {
            Some(e) => {
                let h = sha256_hex(chunk_key_bytes(e.0, e.1));
                if indexed.contains(h) {
                    prev
                } else {
                    prev.push((e.0, e.1, h))
                }
            },
            None => prev,
        }
    }
}

/// What a tool batch adds to session memory; nothing for a blank session id.
pub open spec fn pending_chunks(
    session_id: Seq<char>,
    rs: Seq<ToolResultView>,
    indexed: Seq<Seq<char>>,
) -> Seq<(Seq<char>, Seq<char>, Seq<char>)> {
    if is_blank(session_id) {
        Seq::empty()
    } else {
        pending_from(rs, indexed)
    }
}

pub open spec fn strings_view(v: Seq<String>) -> Seq<Seq<char>> {
    Seq::new(v.len(), |i: int| v[i]@)
}

pub open spec fn triples_view(v: Seq<(String, String, String)>) -> Seq<(Seq<char>, Seq<char>, Seq<char>)> {
    Seq::new(v.len(), |i: int| (v[i].0@, v[i].1@, v[i].2@))
}

/// Whether a hash is among the indexed ones.
fn is_indexed(indexed: &[String], h: &str) -> (r: bool)
    ensures
        r == strings_view(indexed@).contains(h@),
{
    let mut i: usize = 0;
    while i < indexed.len()
        invariant
            i <= indexed.len(),
            forall|j: int| 0 <= j < i ==> indexed@[j]@ != h@,
        decreases indexed.len() - i,
    {
        if str_eq(indexed[i].as_str(), h) {
            assert(strings_view(indexed@)[i as int] == h@);
            return true;
        }
        i = i + 1;
    }
    proof {
        if strings_view(indexed@).contains(h@) {
            let k = choose|k: int| 0 <= k < strings_view(indexed@).len() && strings_view(indexed@)[k] == h@;
            assert(indexed@[k]@ == h@);
        }
    }
    false
}

/// The memory chunks a batch of tool results adds (see `pending_chunks`); indexing them
/// is left to the caller.
pub fn tool_memory_chunks(
    session_id: &str,
    results: &[ToolExecutionResult],
    indexed: &[String],
) -> (r: Vec<(String, String, String)>)
    ensures
        triples_view(r@) == pending_chunks(session_id@, results_view(results@), strings_view(indexed@)),
{
    let mut out: Vec<(String, String, String)> = Vec::new();
    let sv = chars_of(session_id);
    if is_blank_exec(sv.as_slice()) {
        assert(triples_view(out@) =~= Seq::<(Seq<char>, Seq<char>, Seq<char>)>::empty());
        return out;
    }
    let ghost rv = results_view(results@);
    let ghost iv = strings_view(indexed@);
    let mut i: usize = 0;
    assert(rv.subrange(0, 0) =~= Seq::<ToolResultView>::empty());
    assert(triples_view(out@) =~= pending_from(rv.subrange(0, 0), iv));
    while i < results.len()
        invariant
            i <= results.len(),
            rv == results_view(results@),
            iv == strings_view(indexed@),
            triples_view(out@) == pending_from(rv.subrange(0, i as int), iv),
        decreases results.len() - i,
    {
        let ghost ps = rv.subrange(0, i + 1);
        assert(ps.drop_last() =~= rv.subrange(0, i as int));
        assert(ps.last() == results@[i as int]@);
        let ghost o0 = triples_view(out@);
        match tool_memory_entry(&results[i]) {
            Some(e) => {
                let (role, text) = e;
                let h = chunk_content_hash(role.as_str(), text.as_str());
                if !is_indexed(indexed, h.as_str()) {
                    let ghost t = (role@, text@, h@);
                    out.push((role, text, h));
                    assert(triples_view(out@) =~= o0.push(t));
                }
            },
            None => {},
        }
        assert(triples_view(out@) == pending_from(ps, iv));
        i = i + 1;
    }
    assert(rv.subrange(0, results.len() as int) =~= rv);
    out
}

/// Whether a finished tool turn is summarized into memory: summaries are on, the session
/// has an id, tools ran, and one succeeded or the answer has at least 80 bytes.
pub open spec fn wants_turn_summary(
    session_id: Seq<char>,
    enabled: bool,
    rs: Seq<ToolResultView>,
    assistant: Seq<char>,
) -> bool {
    &&& !is_blank(session_id)
    &&& rs.len() > 0
    &&& enabled
    &&& ((exists|i: int| 0 <= i < rs.len() && #[trigger] rs[i].ok) || utf8_len(trim(assistant)) >= 80)
}

/// Whether to summarize a tool turn into memory (see `wants_turn_summary`).
pub fn should_summarize_turn_memory(
    session_id: &str,
    memory_llm_summarize: bool,
    results: &[ToolExecutionResult],
    assistant_text: &str,
) -> (r: bool)
    ensures
        r == wants_turn_summary(session_id@, memory_llm_summarize, results_view(results@), assistant_text@),
{
    let ghost rv = results_view(results@);
    let sv = chars_of(session_id);
    if is_blank_exec(sv.as_slice()) || results.len() == 0 || !memory_llm_summarize {
        return false;
    }
    let mut any_ok = false;
    let mut i: usize = 0;
    while i < results.len()
        invariant
            i <= results.len(),
            rv == results_view(results@),
            any_ok == (exists|j: int| 0 <= j < i && #[trigger] rv[j].ok),
        decreases results.len() - i,
    {
        assert(rv[i as int].ok == results@[i as int].ok);
        any_ok = any_ok || results[i].ok;
        i = i + 1;
    }
    if any_ok {
        return true;
    }
    let av = chars_of(assistant_text);
    let t = trim_vec(av.as_slice());
    !utf8_len_below(t.as_slice(), 80)
}

/// The note a turn summary gives, with its content hash: the trimmed summary, unless it
/// is empty or says `none` (any ASCII case).
pub open spec fn turn_note(summary: Seq<char>) -> Option<(Seq<char>, Seq<char>)> {
    let t = trim(summary);
    if t.len() == 0 || eq_ignore_case(t, "none"@) {
        None
    } else {
        Some((t, sha256_hex(chunk_key_bytes("memory-note"@, "turn-summary"@ + seq!['\0'] + t))))
    }
}

/// Reads a model's turn summary into a memory note and its hash (see `turn_note`).
pub fn turn_summary_note(summary: &str) -> (r: Option<(String, String)>)
    ensures
        r matches Some(p) ==> turn_note(summary@) == Some((p.0@, p.1@)),
        r is None ==> turn_note(summary@) is None,
{
    proof {
        reveal_strlit("turn-summary");
    }
    let sv = chars_of(summary);
    let t = trim_vec(sv.as_slice());
    if t.len() == 0 {
        return None;
    }
    let l = lower_vec(t.as_slice());
    let none = chars_of("none");
    let nl = lower_vec(none.as_slice());
    if seq_eq_exec(l.as_slice(), nl.as_slice()) {
        return None;
    }
    let mut key: Vec<char> = Vec::new();
    append_str(&mut key, "turn-summary");
    key.push('\0');
    append_chars(&mut key, t.as_slice());
    let ks = string_of(key.as_slice());
    let h = chunk_content_hash("memory-note", ks.as_str());
    assert(key@ =~= "turn-summary"@ + seq!['\0'] + t@);
    Some((string_of(t.as_slice()), h))
}

} // verus!
