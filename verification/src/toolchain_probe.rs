//! The tool-chain integration probe (write_file, apply_patch, negatives, wire parsing,
//! listing, reading, and a live model run): its step records and fixtures, and how each
//! step and the live run are judged.
use vstd::prelude::*;

use crate::json_value::{get_key, jsons_of, lemma_jsons_of, Json, JsonValue};
use crate::prompt_format::ParsedToolCall;
use crate::text::{
    append_chars, append_str, chars_of, contains, contains_str, ends_with, ends_with_str,
    join, join_vec, push_decimal, string_of, take_chars, take_vec, utf8_len, vv,
};

verus! {

/// Workspace folder the probe writes into.
pub const TOOLS_INTEGRATION_DIR: &'static str = "test/harness-tools";

/// Page the probe creates and patches.
pub const TOOLS_PAGE_REL: &'static str = "test/harness-tools/page.html";

/// Stylesheet the probe creates and patches.
pub const TOOLS_CSS_REL: &'static str = "test/harness-tools/style.css";

/// File the wire-parsed `write_file` creates.
pub const WIRE_WRITE_REL: &'static str = "test/harness-tools/from-wire.html";

/// Initial page body.
pub const STUB_HTML: &'static str = "<!DOCTYPE html>\n<html><head><title>Stub</title></head>\n<body><h1>Title Stub</h1></body></html>\n";

/// Initial stylesheet.
pub const STUB_CSS: &'static str = "body { margin: 0; }\n";

/// Wire-format `write_file` call the probe parses and runs.
pub const WIRE_WRITE_SAMPLE: &'static str = "<|tool_call|>call:write_file{path:test/harness-tools/from-wire.html,content:\"<html><body>Wire</body></html>\"}</|tool_call|>";

/// Wire-format `apply_patch` call the probe parses and runs.
pub const WIRE_PATCH_SAMPLE: &'static str = "<|tool_call|>call:apply_patch{path:test/harness-tools/page.html,old_text:Title Patched,new_text:Title Wire-Patched}</|tool_call|>";

/// One step of the deterministic probe.
#[derive(Debug, Clone)]
pub struct ToolchainStep {
    pub id: String,
    pub tool: String,
    pub pass: bool,
    pub detail: String,
}

/// All steps and whether every one passed.
#[derive(Debug, Clone)]
pub struct ToolchainDeterministicReport {
    pub steps: Vec<ToolchainStep>,
    pub all_pass: bool,
}

/// Which tool traces a live answer mentions.
#[derive(Debug, Clone, Copy)]
pub struct ToolMarkers {
    pub mentions_write_file: bool,
    pub mentions_apply_patch: bool,
    pub mentions_write_created: bool,
    pub mentions_patch_applied: bool,
}

/// Whether a file exists and holds the expected text.
#[derive(Debug, Clone)]
pub struct FileCheck {
    pub path: String,
    pub exists: bool,
    pub contains: Option<String>,
    pub found: bool,
}

/// Outcome of a live run.
#[derive(Debug, Clone)]
pub struct ToolchainLiveReport {
    pub tools_phase: bool,
    pub answer_preview: String,
    pub tool_markers: ToolMarkers,
    pub files: Vec<FileCheck>,
    pub verify: Option<bool>,
}

/// A step record.
pub fn step(id: &str, tool: &str, pass: bool, detail: String) -> (r: ToolchainStep)
    ensures
        r.id@ == id@,
        r.tool@ == tool@,
        r.pass == pass,
        r.detail == detail,
{
    ToolchainStep { id: id.to_string(), tool: tool.to_string(), pass, detail }
}

/// A step that expects the tool to refuse: it passes when the call errs or reports
/// failure, and shows the error or the tool's message.
pub fn rejection_step(id: &str, tool: &str, outcome: Result<(bool, String), String>) -> (r: ToolchainStep)
    ensures
        r.id@ == id@,
        r.tool@ == tool@,
        match outcome {
            Err(e) => r.pass && r.detail == e,
            Ok(o) => r.pass == !o.0 && r.detail == o.1,
        },
{
    match outcome {
        Err(e) => step(id, tool, true, e),
        Ok(o) => step(id, tool, !o.0, o.1),
    }
}

/// The first call a wire sample parses to, or the failed outcome `parse returned 0 calls`.
pub fn first_parsed_call(sample: &str) -> (r: Result<ParsedToolCall, (bool, String)>)
    ensures
        match r {
            Ok(c) => crate::tool_call_parse::all_calls(sample@).len() > 0
                && c@ == crate::tool_call_parse::all_calls(sample@)[0],
            Err(e) => crate::tool_call_parse::all_calls(sample@).len() == 0 && !e.0
                && e.1@ == "parse returned 0 calls"@,
        },
{
    let mut calls = crate::tool_call_parse::parse_all_tool_calls(sample);
    if calls.len() == 0 {
        return Err((false, "parse returned 0 calls".to_string()));
    }
    assert(crate::prompt_format::calls_view(calls@)[0] == calls@[0]@);
    Ok(calls.remove(0))
}

/// How running a parsed call is judged: the tool's own success with `name: message`, or
/// failure with the error.
pub fn parsed_call_outcome(call_name: &str, exec: Result<(bool, String), String>) -> (r: (bool, String))
    ensures
        match exec {
            Ok(o) => r.0 == o.0 && r.1@ == call_name@ + ": "@ + o.1@,
            Err(e) => !r.0 && r.1 == e,
        },
{
    match exec {
        Ok(o) => {
            let mut d: Vec<char> = Vec::new();
            append_str(&mut d, call_name);
            append_str(&mut d, ": ");
            append_str(&mut d, o.1.as_str());
            (o.0, string_of(d.as_slice()))
        },
        Err(e) => (false, e),
    }
}

/// The patched page must contain the wire-patched title.
pub fn page_step(page_body: &str) -> (r: ToolchainStep)
    ensures
        r.id@ == "disk_page_contains_wire_patch"@,
        r.tool@ == "verify"@,
        r.pass == contains(page_body@, "Title Wire-Patched"@),
        r.pass ==> r.detail@ == "page.html has patched title"@,
        !r.pass ==> r.detail@ == "unexpected body: "@ + take_chars(page_body@, 80) + "…"@,
{
    let bv = chars_of(page_body);
    if contains_str(bv.as_slice(), "Title Wire-Patched") {
        step("disk_page_contains_wire_patch", "verify", true, "page.html has patched title".to_string())
    } else {
        let mut d: Vec<char> = Vec::new();
        append_str(&mut d, "unexpected body: ");
        let t = take_vec(bv.as_slice(), 80);
        append_chars(&mut d, t.as_slice());
        append_str(&mut d, "…");
        step("disk_page_contains_wire_patch", "verify", false, string_of(d.as_slice()))
    }
}

/// The string entries of a listing, in order.
pub open spec fn entry_names(v: Option<Json>) -> Seq<Seq<char>> {
    match v {
        Some(Json::Array(es)) => string_elems(es),
        _ => Seq::empty(),
    }
}

pub open spec fn string_elems(es: Seq<Json>) -> Seq<Seq<char>>
    decreases es.len(),
{
    if es.len() == 0 {
        Seq::empty()
    } else {
        let prev = string_elems(es.drop_last());
        match es.last() {
            Json::Str(x) => prev.push(x),
            _ => prev,
        }
    }
}

/// Some name ends with the suffix.
pub open spec fn any_ends_with(names: Seq<Seq<char>>, suffix: Seq<char>) -> bool {
    exists|i: int| 0 <= i < names.len() && ends_with(#[trigger] names[i], suffix)
}

fn any_ends_with_exec(names: &Vec<Vec<char>>, suffix: &str) -> (r: bool)
    ensures
        r == any_ends_with(vv(names@), suffix@),
{
    let mut i: usize = 0;
    while i < names.len()
        invariant
            i <= names.len(),
            forall|j: int| 0 <= j < i ==> !ends_with(#[trigger] vv(names@)[j], suffix@),
        decreases names.len() - i,
    {
        assert(vv(names@)[i as int] == names@[i as int]@);
        if ends_with_str(names[i].as_slice(), suffix) {
            return true;
        }
        i = i + 1;
    }
    false
}

/// The listing must show the page, the stylesheet and the wire-written file.
pub fn list_dir_step(ok: bool, output: &JsonValue) -> (r: ToolchainStep)
    ensures
        r.id@ == "list_dir_sees_files"@,
        r.tool@ == "list_dir"@,
        r.pass == (ok && any_ends_with(entry_names(get_key(output@, "entries"@)), "page.html"@)
            && any_ends_with(entry_names(get_key(output@, "entries"@)), "style.css"@)
            && any_ends_with(entry_names(get_key(output@, "entries"@)), "from-wire.html"@)),
        r.detail@ == "entries: "@ + join(entry_names(get_key(output@, "entries"@)), ", "@),
{
    let mut names: Vec<Vec<char>> = Vec::new();
    let ghost ev = get_key(output@, "entries"@);
    match output.get("entries") {
        Some(v) => match v.as_array() {
            Some(es) => {
                proof {
                    lemma_jsons_of(es@);
                }
                let ghost esv = jsons_of(es@);
                let mut i: usize = 0;
                assert(vv(names@) =~= string_elems(esv.subrange(0, 0)));
                while i < es.len()
                    invariant
                        i <= es.len(),
                        esv == jsons_of(es@),
                        esv.len() == es@.len(),
                        forall|j: int| 0 <= j < es@.len() ==> #[trigger] esv[j] == es@[j]@,
                        vv(names@) == string_elems(esv.subrange(0, i as int)),
                    decreases es.len() - i,
                {
                    let ghost ps = esv.subrange(0, i + 1);
                    assert(ps.drop_last() =~= esv.subrange(0, i as int));
                    assert(ps.last() == es@[i as int]@);
                    match es[i].as_str() {
                        Some(t) => {
                            let tv = chars_of(t);
                            proof {
                                crate::text::lemma_vv_push(names@, tv);
                            }
                            names.push(tv);
                        },
                        None => {},
                    }
                    i = i + 1;
                }
                assert(esv.subrange(0, es.len() as int) =~= esv);
            },
            None => {
                assert(vv(names@) =~= Seq::<Seq<char>>::empty());
            },
        },
        None => {
            assert(vv(names@) =~= Seq::<Seq<char>>::empty());
        },
    }
    assert(vv(names@) == entry_names(ev));
    let listed = any_ends_with_exec(&names, "page.html") && any_ends_with_exec(&names, "style.css")
        && any_ends_with_exec(&names, "from-wire.html");
    let mut d: Vec<char> = Vec::new();
    append_str(&mut d, "entries: ");
    let j = join_vec(names.as_slice(), chars_of(", ").as_slice());
    append_chars(&mut d, j.as_slice());
    step("list_dir_sees_files", "list_dir", ok && listed, string_of(d.as_slice()))
}

/// Reading the page back must show the wire-patched title.
pub fn read_file_step(ok: bool, output: &JsonValue) -> (r: ToolchainStep)
    ensures
        r.id@ == "read_file_page"@,
        r.tool@ == "read_file"@,
        ({
            let body = match get_key(output@, "content"@) {
                Some(Json::Str(b)) => b,
                _ => Seq::empty(),
            };
            &&& r.pass == (ok && contains(body, "Title Wire-Patched"@))
            &&& contains(body, "Title Wire-Patched"@) ==> r.detail@ == "read "@ + crate::text::decimal(
                utf8_len(body),
            ) + " chars, title OK"@
            &&& !contains(body, "Title Wire-Patched"@) ==> r.detail@ == "unexpected: "@ + take_chars(
                body,
                60,
            ) + "…"@
        }),
{
    let body = match output.get("content") {
        Some(v) => match v.as_str() {
            Some(b) => chars_of(b),
            None => Vec::new(),
        },
        None => Vec::new(),
    };
    let mut d: Vec<char> = Vec::new();
    if contains_str(body.as_slice(), "Title Wire-Patched") {
        append_str(&mut d, "read ");
        let n = crate::text::utf8_len_exec(body.as_slice());
        crate::text::push_decimal_u128(&mut d, n);
        append_str(&mut d, " chars, title OK");
        step("read_file_page", "read_file", ok, string_of(d.as_slice()))
    } else {
        append_str(&mut d, "unexpected: ");
        let t = take_vec(body.as_slice(), 60);
        append_chars(&mut d, t.as_slice());
        append_str(&mut d, "…");
        step("read_file_page", "read_file", false, string_of(d.as_slice()))
    }
}

/// Report over the steps; `all_pass` when none failed.
pub fn deterministic_report(steps: Vec<ToolchainStep>) -> (r: ToolchainDeterministicReport)
    ensures
        r.steps == steps,
        r.all_pass == forall|i: int| 0 <= i < steps.len() ==> #[trigger] steps@[i].pass,
{
    let mut all = true;
    let mut i: usize = 0;
    while i < steps.len()
        invariant
            i <= steps.len(),
            all == forall|k: int| 0 <= k < i ==> #[trigger] steps@[k].pass,
        decreases steps.len() - i,
    {
        if !steps[i].pass {
            all = false;
        }
        i = i + 1;
    }
    ToolchainDeterministicReport { steps, all_pass: all }
}

/// Which tool traces a live answer mentions.
pub fn tool_markers(text: &str) -> (r: ToolMarkers)
    ensures
        r.mentions_write_file == (contains(text@, "write_file"@) || contains(
            text@,
            "[Tool result: write_file]"@,
        )),
        r.mentions_apply_patch == (contains(text@, "apply_patch"@) || contains(
            text@,
            "[Tool result: apply_patch]"@,
        )),
        r.mentions_write_created == contains(text@, "Created test/harness-tools"@),
        r.mentions_patch_applied == contains(text@, "Patched test/harness-tools"@),
{
    let t = chars_of(text);
    let ts = t.as_slice();
    ToolMarkers {
        mentions_write_file: contains_str(ts, "write_file") || contains_str(ts, "[Tool result: write_file]"),
        mentions_apply_patch: contains_str(ts, "apply_patch") || contains_str(ts, "[Tool result: apply_patch]"),
        mentions_write_created: contains_str(ts, "Created test/harness-tools"),
        mentions_patch_applied: contains_str(ts, "Patched test/harness-tools"),
    }
}

/// The check of one file from what was found on disk: with a needle, whether the body
/// holds it; without one, whether the file exists.
pub fn file_check(rel: &str, exists: bool, needle: Option<&str>, body: &str) -> (r: FileCheck)
    ensures
        r.path@ == rel@,
        r.exists == exists,
        match needle {
            Some(n) => r.contains matches Some(c) && c@ == n@ && r.found == contains(body@, n@),
            None => r.contains is None && r.found == exists,
        },
{
    match needle {
        Some(n) => {
            let bv = chars_of(body);
            let found = contains_str(bv.as_slice(), n);
            FileCheck { path: rel.to_string(), exists, contains: Some(n.to_string()), found }
        },
        None => FileCheck { path: rel.to_string(), exists, contains: None, found: exists },
    }
}

/// The check of a path: the first one listed for it.
pub open spec fn first_check(files: Seq<FileCheck>, path: Seq<char>) -> Option<FileCheck>
    decreases files.len(),
{
    if files.len() == 0 {
        None
    } else if files[0].path@ == path {
        Some(files[0])
    } else {
        first_check(files.drop_first(), path)
    }
}

/// The file under `path` was found with its expected content.
pub open spec fn file_ok(files: Seq<FileCheck>, path: Seq<char>) -> bool {
    first_check(files, path) matches Some(f) && f.exists && f.found
}

fn file_ok_exec(files: &Vec<FileCheck>, path: &str) -> (r: bool)
    ensures
        r == file_ok(files@, path@),
{
    let mut i: usize = 0;
    assert(files@.subrange(0, files@.len() as int) =~= files@);
    while i < files.len()
        invariant
            i <= files.len(),
            first_check(files@, path@) == first_check(files@.subrange(i as int, files@.len() as int), path@),
        decreases files.len() - i,
    {
        let ghost rest = files@.subrange(i as int, files@.len() as int);
        assert(rest[0] == files@[i as int]);
        assert(rest.drop_first() =~= files@.subrange(i + 1, files@.len() as int));
        if crate::text::str_eq(files[i].path.as_str(), path) {
            return files[i].exists && files[i].found;
        }
        i = i + 1;
    }
    false
}

/// The verdict of a live run: the tools phase ran, the page holds `Live Done`, the
/// stylesheet holds `#333`, and the verify step did not fail.
pub open spec fn live_verdict(report: ToolchainLiveReport) -> (bool, Seq<char>) {
    if !report.tools_phase {
        (false, "tools phase never ran"@)
    } else if !file_ok(report.files@, TOOLS_PAGE_REL@) {
        (false, "page.html missing or lacks Live Done"@)
    } else if !file_ok(report.files@, TOOLS_CSS_REL@) {
        (false, "style.css not created or lacks #333"@)
    } else if report.verify == Some(false) {
        (false, "run_verify file_contains failed"@)
    } else {
        (true, "live toolchain OK"@)
    }
}

/// Judges a live run (see `live_verdict`).
pub fn live_report_pass(report: &ToolchainLiveReport) -> (r: (bool, String))
    ensures
        r.0 == live_verdict(*report).0,
        r.1@ == live_verdict(*report).1,
{
    if !report.tools_phase {
        return (false, "tools phase never ran".to_string());
    }
    if !file_ok_exec(&report.files, TOOLS_PAGE_REL) {
        return (false, "page.html missing or lacks Live Done".to_string());
    }
    if !file_ok_exec(&report.files, TOOLS_CSS_REL) {
        return (false, "style.css not created or lacks #333".to_string());
    }
    match report.verify {
        Some(false) => (false, "run_verify file_contains failed".to_string()),
        _ => (true, "live toolchain OK".to_string()),
    }
}

/// The first 600 characters of a live answer.
pub fn answer_preview(text: &str) -> (r: String)
    ensures
        r@ == take_chars(text@, 600),
{
    let t = chars_of(text);
    let p = take_vec(t.as_slice(), 600);
    string_of(p.as_slice())
}

} // verus!
