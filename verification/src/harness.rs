//! Harness checks: generated-file fences in assistant text, check records and reports.
use vstd::prelude::*;

use crate::text::{
    chars_of, contains, contains_str, find_from, find_from_exec, lemma_find_from_sound, lower_seq,
    lower_vec, replace_all, replace_vec, slice_of, starts_with, starts_with_str, string_of, trim,
    trim_end, trim_vec,
};

verus! {

/// Workspace folder of the multi-step React scaffold scenario.
pub const REACT_SCAFFOLD_DIR: &'static str = "test/harness-react";

/// Session id of the audit probe.
pub const HARNESS_AUDIT_SESSION: &'static str = "harness-audit-probe";

/// Session id of the React scaffold probe.
pub const HARNESS_REACT_SESSION: &'static str = "harness-react-scaffold";

/// One named pass/fail check.
#[derive(Debug, Clone)]
pub struct HarnessCheck {
    pub id: String,
    pub pass: bool,
    pub detail: String,
}

/// All deterministic checks and whether every one passed.
#[derive(Debug, Clone)]
pub struct HarnessDeterministicReport {
    pub checks: Vec<HarnessCheck>,
    pub all_pass: bool,
}

/// Outcome of one step of the React scaffold scenario.
#[derive(Debug, Clone)]
pub struct ReactScaffoldStepReport {
    pub step: u8,
    pub tools_phase: bool,
    pub text_preview: String,
    pub raw_tool_markup_in_text: bool,
    pub files_expected: Vec<String>,
    pub files_present: Vec<String>,
    pub files_missing: Vec<String>,
}

/// A check record.
pub fn check(id: &str, pass: bool, detail: String) -> (r: HarnessCheck)
    ensures
        r.id@ == id@,
        r.pass == pass,
        r.detail == detail,
{
    HarnessCheck { id: id.to_string(), pass, detail }
}

impl HarnessDeterministicReport {
    /// Report over the given checks; `all_pass` when none failed.
    pub fn from_checks(checks: Vec<HarnessCheck>) -> (r: HarnessDeterministicReport)
        ensures
            r.checks == checks,
            r.all_pass == forall|i: int| 0 <= i < checks.len() ==> #[trigger] checks@[i].pass,
    {
        let mut all = true;
        let mut i: usize = 0;
        while i < checks.len()
            invariant
                i <= checks.len(),
                all == forall|k: int| 0 <= k < i ==> #[trigger] checks@[k].pass,
            decreases checks.len() - i,
        {
            if !checks[i].pass {
                all = false;
            }
            i = i + 1;
        }
        HarnessDeterministicReport { checks, all_pass: all }
    }
}

/// Qwen-piped `apply_patch` sample for the parser check.
pub const QWEN_PATCH_SAMPLE: &'static str = "<|tool_call|>call:apply_patch{path:vp/a.php,old_text:foreach ($projectUids as $id),new_text:foreach ($projectUuids as $id)}</|tool_call|>";

/// `old_text:`/`new_text:` fence sample for the parser check.
pub const OLD_NEW_FENCE_SAMPLE: &'static str = "```file:vp/a.php\nold_text:\nforeach ($projectUids as $x) {\nnew_text:\nforeach ($projectUuids as $x) {\n```";

/// Reply with wire markup for the stripping check.
pub const WIRE_REPLY_SAMPLE: &'static str = "Done.\n<|tool_call|>call:apply_patch{path:vp/a.php,old_text:foreach ($projectUids as $id),new_text:foreach ($projectUuids as $id)}</|tool_call|>\n```file:vp/a.php\nold_text:\nx\nnew_text:\ny\n```";

/// Number of `apply_patch` calls among parsed calls.
pub open spec fn patch_count(calls: Seq<(Seq<char>, crate::json_value::Json)>) -> nat
    decreases calls.len(),
{
    if calls.len() == 0 {
        0
    } else {
        patch_count(calls.drop_last()) + if calls.last().0 == "apply_patch"@ {
            1nat
        } else {
            0nat
        }
    }
}

/// Some parsed `apply_patch` call carries the given `old_text`.
pub open spec fn patch_with_old_text(calls: Seq<(Seq<char>, crate::json_value::Json)>, old: Seq<char>) -> bool {
    exists|i: int|
        0 <= i < calls.len() && #[trigger] calls[i].0 == "apply_patch"@ && crate::json_value::get_key(
            calls[i].1,
            "old_text"@,
        ) == Some(crate::json_value::Json::Str(old))
}

/// The parser checks of the deterministic harness: a Qwen `apply_patch` block reads as one
/// call, an `old_text`/`new_text` fence yields the patch, and wire markup is stripped from a
/// reply.
pub fn parser_checks() -> (r: Vec<HarnessCheck>)
    ensures
        r@.len() == 3,
        r@[0].id@ == "parser_qwen_apply_patch"@,
        r@[0].pass == (crate::tool_call_parse::all_calls(QWEN_PATCH_SAMPLE@).len() == 1
            && crate::tool_call_parse::all_calls(QWEN_PATCH_SAMPLE@)[0].0 == "apply_patch"@),
        r@[1].id@ == "parser_old_new_fence"@,
        r@[1].pass == patch_with_old_text(
            crate::tool_call_parse::all_calls(OLD_NEW_FENCE_SAMPLE@),
            "foreach ($projectUids as $x) {"@,
        ),
        r@[2].id@ == "strip_wire_markup"@,
        r@[2].pass == (!contains(crate::tool_markup::wire_stripped(WIRE_REPLY_SAMPLE@), "tool_call"@)
            && !contains(crate::tool_markup::wire_stripped(WIRE_REPLY_SAMPLE@), "old_text:"@)),
{
    let mut out: Vec<HarnessCheck> = Vec::new();
    let parsed = crate::tool_call_parse::parse_all_tool_calls(QWEN_PATCH_SAMPLE);
    let pass1 = parsed.len() == 1 && crate::text::str_eq(parsed[0].name.as_str(), "apply_patch");
    proof {
        if parsed.len() == 1 {
            assert(crate::prompt_format::calls_view(parsed@)[0] == parsed@[0]@);
        }
    }
    let mut d1: Vec<char> = Vec::new();
    crate::text::append_str(&mut d1, "parsed ");
    crate::text::push_decimal(&mut d1, parsed.len() as u64);
    crate::text::append_str(&mut d1, " call(s)");
    out.push(check("parser_qwen_apply_patch", pass1, string_of(d1.as_slice())));

    let fence_calls = crate::tool_call_parse::parse_all_tool_calls(OLD_NEW_FENCE_SAMPLE);
    let ghost fv = crate::prompt_format::calls_view(fence_calls@);
    let mut n: u64 = 0;
    let mut found = false;
    let mut i: usize = 0;
    while i < fence_calls.len()
        invariant
            i <= fence_calls.len(),
            fv == crate::prompt_format::calls_view(fence_calls@),
            n == patch_count(fv.subrange(0, i as int)),
            n <= i,
            found == (exists|j: int|
                0 <= j < i && #[trigger] fv[j].0 == "apply_patch"@ && crate::json_value::get_key(
                    fv[j].1,
                    "old_text"@,
                ) == Some(crate::json_value::Json::Str("foreach ($projectUids as $x) {"@))),
        decreases fence_calls.len() - i,
    {
        let c = &fence_calls[i];
        assert(fv[i as int] == c@);
        assert(fv.subrange(0, i + 1).drop_last() =~= fv.subrange(0, i as int));
        let ghost lit = "foreach ($projectUids as $x) {"@;
        let ghost here_spec = fv[i as int].0 == "apply_patch"@ && crate::json_value::get_key(
            fv[i as int].1,
            "old_text"@,
        ) == Some(crate::json_value::Json::Str(lit));
        let mut here = false;
        if crate::text::str_eq(c.name.as_str(), "apply_patch") {
            n = n + 1;
            match c.arguments.get("old_text") {
                Some(v) => match v.as_str() {
                    Some(t) => {
                        if crate::text::str_eq(t, "foreach ($projectUids as $x) {") {
                            here = true;
                        }
                    },
                    None => {},
                },
                None => {},
            }
        }
        assert(here == here_spec);
        let ghost found0 = found;
        found = found || here;
        proof {
            if here_spec {
                assert(0 <= i < i + 1 && fv[i as int].0 == "apply_patch"@);
            }
            if exists|j: int|
                0 <= j < i + 1 && #[trigger] fv[j].0 == "apply_patch"@ && crate::json_value::get_key(
                    fv[j].1,
                    "old_text"@,
                ) == Some(crate::json_value::Json::Str(lit)) {
                let j = choose|j: int|
                    0 <= j < i + 1 && #[trigger] fv[j].0 == "apply_patch"@ && crate::json_value::get_key(
                        fv[j].1,
                        "old_text"@,
                    ) == Some(crate::json_value::Json::Str(lit));
                if j < i {
                    assert(found0);
                } else {
                    assert(here_spec);
                }
            }
        }
        i = i + 1;
    }
    assert(fv.subrange(0, fence_calls.len() as int) =~= fv);
    let mut d2: Vec<char> = Vec::new();
    crate::text::append_str(&mut d2, "apply_patch from old_text/new_text fence (");
    crate::text::push_decimal(&mut d2, n);
    crate::text::append_str(&mut d2, " candidate(s))");
    out.push(check("parser_old_new_fence", found, string_of(d2.as_slice())));

    let stripped = crate::tool_markup::strip_assistant_wire_markup(WIRE_REPLY_SAMPLE);
    let sv = chars_of(stripped.as_str());
    let pass3 = !contains_str(sv.as_slice(), "tool_call") && !contains_str(sv.as_slice(), "old_text:");
    let preview = crate::text::take_vec(sv.as_slice(), 80);
    out.push(check("strip_wire_markup", pass3, string_of(preview.as_slice())));
    out
}

/// The tool-chain probe's steps as harness checks: `toolchain_<id>`, with `tool: detail`.
pub fn toolchain_checks(steps: &[crate::toolchain_probe::ToolchainStep]) -> (r: Vec<HarnessCheck>)
    ensures
        r@.len() == steps@.len(),
        forall|i: int|
            0 <= i < steps@.len() ==> {
                &&& (#[trigger] r@[i]).id@ == "toolchain_"@ + steps@[i].id@
                &&& r@[i].pass == steps@[i].pass
                &&& r@[i].detail@ == steps@[i].tool@ + ": "@ + steps@[i].detail@
            },
{
    let mut out: Vec<HarnessCheck> = Vec::new();
    let mut i: usize = 0;
    while i < steps.len()
        invariant
            i <= steps.len(),
            out@.len() == i,
            forall|k: int|
                0 <= k < i ==> {
                    &&& (#[trigger] out@[k]).id@ == "toolchain_"@ + steps@[k].id@
                    &&& out@[k].pass == steps@[k].pass
                    &&& out@[k].detail@ == steps@[k].tool@ + ": "@ + steps@[k].detail@
                },
        decreases steps.len() - i,
    {
        let s = &steps[i];
        let mut id: Vec<char> = Vec::new();
        crate::text::append_str(&mut id, "toolchain_");
        crate::text::append_str(&mut id, s.id.as_str());
        let mut d: Vec<char> = Vec::new();
        crate::text::append_str(&mut d, s.tool.as_str());
        crate::text::append_str(&mut d, ": ");
        crate::text::append_str(&mut d, s.detail.as_str());
        out.push(HarnessCheck { id: string_of(id.as_slice()), pass: s.pass, detail: string_of(d.as_slice()) });
        i = i + 1;
    }
    out
}

/// Path named by a fence header: `file:path` or `file path` (the word `file` in any ASCII case).
pub open spec fn fence_header_path(header: Seq<char>) -> Option<Seq<char>> {
    let h = trim(header);
    if starts_with(h, "file:"@) {
        let p = trim(h.subrange(5, h.len() as int));
        if p.len() > 0 {
            Some(p)
        } else {
            None
        }
    } else if starts_with(lower_seq(h), "file "@) {
        let p = trim(h.subrange(4, h.len() as int));
        if p.len() > 0 {
            Some(p)
        } else {
            None
        }
    } else {
        None
    }
}

/// Fence bodies that carry patch instructions rather than a whole file.
pub open spec fn is_patch_wire(content: Seq<char>) -> bool {
    let t = trim(content);
    ||| starts_with(t, "edits:"@)
    ||| (contains(t, "old_text:"@) && contains(t, "new_text:"@))
    ||| contains(t, "call:apply_patch"@)
}

/// Generated-file fences from position `search` on: each ```` ``` ```` opening with a header
/// line, its body up to the next ```` ``` ```` (or the end of the text), kept when the header
/// names a file and the body is not patch wire.
pub open spec fn fences_from(t: Seq<char>, search: int) -> Seq<(Seq<char>, Seq<char>)>
    decreases t.len() + 1 - search,
{
    if search < 0 || search > t.len() {
        Seq::empty()
    } else {
        match find_from(t, "```"@, search) {
            None => Seq::empty(),
            Some(start) => match find_from(t, seq!['\n'], start + 3) {
                None => Seq::empty(),
                Some(he) => {
                    proof {
                        reveal_strlit("```");
                        lemma_find_from_sound(t, "```"@, search);
                        lemma_find_from_sound(t, seq!['\n'], start + 3);
                        lemma_find_from_sound(t, "```"@, he + 1);
                    }
                    let header = trim(t.subrange(start + 3, he));
                    let close = find_from(t, "```"@, he + 1);
                    let end = match close {
                        Some(c) => c,
                        None => t.len() as int,
                    };
                    let content = trim_end(t.subrange(he + 1, end));
                    let next = match close {
                        Some(c) => c + 3,
                        None => t.len() as int,
                    };
                    let rest = fences_from(t, next);
                    match fence_header_path(header) {
                        Some(p) => if !is_patch_wire(content) {
                            seq![(p, content)] + rest
                        } else {
                            rest
                        },
                        None => rest,
                    }
                },
            },
        }
    }
}

/// View of extracted (path, body) pairs.
pub open spec fn pair_views(v: Seq<(String, String)>) -> Seq<(Seq<char>, Seq<char>)> {
    Seq::new(v.len(), |i: int| (v[i].0@, v[i].1@))
}

/// Trailing-whitespace-trimmed copy.
fn trim_end_vec(h: &[char]) -> (r: Vec<char>)
    ensures
        r@ == trim_end(h@),
{
    let mut b = h.len();
    assert(h@.subrange(0, h.len() as int) =~= h@);
    while b > 0 && crate::text::is_whitespace_char(h[b - 1])
        invariant
            b <= h.len(),
            trim_end(h@) == trim_end(h@.subrange(0, b as int)),
        decreases b,
    {
        assert(h@.subrange(0, b as int).drop_last() =~= h@.subrange(0, b - 1));
        b = b - 1;
    }
    slice_of(h, 0, b)
}

/// Path of a `file:path` / `file path` fence header.
pub fn fence_header_path_exec(header: &[char]) -> (r: Option<Vec<char>>)
    ensures
        r matches Some(p) ==> fence_header_path(header@) == Some(p@),
        r is None ==> fence_header_path(header@) is None,
{
    let h = trim_vec(header);
    proof {
        reveal_strlit("file:");
        reveal_strlit("file ");
    }
    if starts_with_str(h.as_slice(), "file:") {
        let rest = slice_of(h.as_slice(), 5, h.len());
        let p = trim_vec(rest.as_slice());
        if p.len() > 0 {
            return Some(p);
        }
        return None;
    }
    let lower = lower_vec(h.as_slice());
    if starts_with_str(lower.as_slice(), "file ") {
        let rest = slice_of(h.as_slice(), 4, h.len());
        let p = trim_vec(rest.as_slice());
        if p.len() > 0 {
            return Some(p);
        }
        return None;
    }
    None
}

/// Whether a fence body is patch wire.
fn is_patch_wire_exec(content: &[char]) -> (r: bool)
    ensures
        r == is_patch_wire(content@),
{
    let t = trim_vec(content);
    starts_with_str(t.as_slice(), "edits:") || (contains_str(t.as_slice(), "old_text:")
        && contains_str(t.as_slice(), "new_text:")) || contains_str(t.as_slice(), "call:apply_patch")
}

/// `(path, body)` of every ```` ```file:path ```` fence carrying a whole file.
pub fn extract_generated_file_fences(text: &str) -> (r: Vec<(String, String)>)
    ensures
        pair_views(r@) == fences_from(text@, 0),
{
    let t = chars_of(text);
    let ticks = chars_of("```");
    let nl: Vec<char> = vec!['\n'];
    assert(nl@ =~= seq!['\n']);
    proof {
        reveal_strlit("```");
    }
    let mut out: Vec<(String, String)> = Vec::new();
    let mut search: usize = 0;
    loop
        invariant
            search <= t.len(),
            t@ == text@,
            ticks@ == "```"@,
            ticks@.len() == 3,
            nl@ == seq!['\n'],
            pair_views(out@) + fences_from(t@, search as int) == fences_from(t@, 0),
        decreases t.len() - search,
    {
        let so = find_from_exec(t.as_slice(), ticks.as_slice(), search);
        if so.is_none() {
            assert(pair_views(out@) + Seq::empty() =~= pair_views(out@));
            return out;
        }
        let start = so.unwrap();
        proof {
            lemma_find_from_sound(t@, ticks@, search as int);
        }
        let ho = find_from_exec(t.as_slice(), nl.as_slice(), start + 3);
        if ho.is_none() {
            assert(pair_views(out@) + Seq::empty() =~= pair_views(out@));
            return out;
        }
        let he = ho.unwrap();
        proof {
            lemma_find_from_sound(t@, nl@, start + 3);
        }
        let head_raw = slice_of(t.as_slice(), start + 3, he);
        let header = trim_vec(head_raw.as_slice());
        let co = find_from_exec(t.as_slice(), ticks.as_slice(), he + 1);
        proof {
            lemma_find_from_sound(t@, ticks@, he + 1);
        }
        let end = match co {
            Some(c) => c,
            None => t.len(),
        };
        let body_raw = slice_of(t.as_slice(), he + 1, end);
        let content = trim_end_vec(body_raw.as_slice());
        let next = match co {
            Some(c) => c + 3,
            None => t.len(),
        };
        let ghost before = out@;
        match fence_header_path_exec(header.as_slice()) {
            Some(p) => {
                if !is_patch_wire_exec(content.as_slice()) {
                    let pair = (string_of(p.as_slice()), string_of(content.as_slice()));
                    out.push(pair);
                    assert(pair_views(out@) =~= pair_views(before) + seq![(p@, content@)]);
                }
            },
            None => {},
        }
        search = next;
    }
}

/// The relative path written with backslashes, as the workspace file checks join it.
pub fn workspace_relative_path(rel: &str) -> (r: String)
    ensures
        r@ == replace_all(rel@, "/"@, "\\"@),
{
    let v = chars_of(rel);
    proof {
        reveal_strlit("/");
    }
    let w = replace_vec(v.as_slice(), "/", "\\");
    string_of(w.as_slice())
}

/// Splits the relative paths into present and missing ones, given whether each is a file
/// (`is_file[i]` for `rel_paths[i]`); both lists keep the input order.
pub fn check_workspace_files(rel_paths: &[&str], is_file: &[bool]) -> (r: (Vec<String>, Vec<String>))
    requires
        rel_paths.len() == is_file.len(),
    ensures
        r.0@.len() + r.1@.len() == rel_paths.len(),
        r.0@.map_values(|s: String| s@) == present_paths(rel_paths@, is_file@, rel_paths.len() as int),
        r.1@.map_values(|s: String| s@) == missing_paths(rel_paths@, is_file@, rel_paths.len() as int),
{
    let mut present: Vec<String> = Vec::new();
    let mut missing: Vec<String> = Vec::new();
    let mut i: usize = 0;
    while i < rel_paths.len()
        invariant
            i <= rel_paths.len(),
            rel_paths.len() == is_file.len(),
            present@.len() + missing@.len() == i,
            present@.map_values(|s: String| s@) == present_paths(rel_paths@, is_file@, i as int),
            missing@.map_values(|s: String| s@) == missing_paths(rel_paths@, is_file@, i as int),
        decreases rel_paths.len() - i,
    {
        let s = rel_paths[i].to_string();
        if is_file[i] {
            let ghost p0 = present@;
            present.push(s);
            assert(present@.map_values(|s: String| s@) =~= p0.map_values(|s: String| s@).push(
                rel_paths@[i as int]@,
            ));
        } else {
            let ghost m0 = missing@;
            missing.push(s);
            assert(missing@.map_values(|s: String| s@) =~= m0.map_values(|s: String| s@).push(
                rel_paths@[i as int]@,
            ));
        }
        i = i + 1;
    }
    (present, missing)
}

/// The first `n` paths whose flag says they are files.
pub open spec fn present_paths(paths: Seq<&str>, flags: Seq<bool>, n: int) -> Seq<Seq<char>>
    decreases n,
{
    if n <= 0 {
        Seq::empty()
    } else if flags[n - 1] {
        present_paths(paths, flags, n - 1).push(paths[n - 1]@)
    } else {
        present_paths(paths, flags, n - 1)
    }
}

/// The first `n` paths whose flag says they are not files.
pub open spec fn missing_paths(paths: Seq<&str>, flags: Seq<bool>, n: int) -> Seq<Seq<char>>
    decreases n,
{
    if n <= 0 {
        Seq::empty()
    } else if !flags[n - 1] {
        missing_paths(paths, flags, n - 1).push(paths[n - 1]@)
    } else {
        missing_paths(paths, flags, n - 1)
    }
}


/// Every extracted fence names a file and carries a whole file body, never patch wire.
pub proof fn law_fences_are_whole_files(t: Seq<char>, search: int)
    ensures
        forall|k: int| 0 <= k < fences_from(t, search).len() ==> (#[trigger] fences_from(t, search)[k]).0.len() > 0
            && !is_patch_wire(fences_from(t, search)[k].1),
    decreases t.len() + 1 - search,
{
    if search < 0 || search > t.len() {
    } else {
        match find_from(t, "```"@, search) {
            None => {},
            Some(start) => match find_from(t, seq!['\n'], start + 3) {
                None => {},
                Some(he) => {
                    reveal_strlit("```");
                    lemma_find_from_sound(t, "```"@, search);
                    lemma_find_from_sound(t, seq!['\n'], start + 3);
                    lemma_find_from_sound(t, "```"@, he + 1);
                    let close = find_from(t, "```"@, he + 1);
                    let next = match close {
                        Some(c) => c + 3,
                        None => t.len() as int,
                    };
                    law_fences_are_whole_files(t, next);
                    let header = trim(t.subrange(start + 3, he));
                    let end = match close {
                        Some(c) => c,
                        None => t.len() as int,
                    };
                    let content = trim_end(t.subrange(he + 1, end));
                    let rest = fences_from(t, next);
                    match fence_header_path(header) {
                        Some(p) => if !is_patch_wire(content) {
                            assert forall|k: int| 0 <= k < fences_from(t, search).len() implies (#[trigger] fences_from(t, search)[k]).0.len() > 0
                                && !is_patch_wire(fences_from(t, search)[k].1) by {
                                if k > 0 {
                                    assert(fences_from(t, search)[k] == rest[k - 1]);
                                }
                            }
                        },
                        None => {},
                    }
                },
            },
        }
    }
}

} // verus!
