//! Provider-side helpers: local server detection, prompt-template failures, embedding models.
use vstd::prelude::*;

use crate::models::AppError;
use crate::text::{
    chars_of, contains, contains_str, ends_with, ends_with_str, find, find_exec, lemma_found,
    lower_seq, lower_vec, slice_of, starts_with, starts_with_str, string_of, take_chars, take_vec,
    trim, trim_vec, unicode_lowercase, unicode_lower_vec, utf8_len, utf8_len_below,
};

verus! {

/// Embedding model used when the connection names none that looks like one.
pub const DEFAULT_EMBED_MODEL: &'static str = "text-embedding-nomic-embed-text-v1.5";

/// The base URL points at a local LM Studio server (port 1234 on the loopback).
pub open spec fn lm_studio_url(base_url: Seq<char>) -> bool {
    let u = unicode_lowercase(base_url);
    contains(u, "localhost:1234"@) || contains(u, "127.0.0.1:1234"@)
}

/// Whether the base URL points at a local LM Studio server.
pub fn is_lm_studio_url(base_url: &str) -> (r: bool)
    ensures
        r == lm_studio_url(base_url@),
{
    let b = chars_of(base_url);
    let u = unicode_lower_vec(b.as_slice());
    contains_str(u.as_slice(), "localhost:1234") || contains_str(u.as_slice(), "127.0.0.1:1234")
}

/// Text without trailing copies of `c`.
pub open spec fn trim_end_char(s: Seq<char>, c: char) -> Seq<char>
    decreases s.len(),
{
    if s.len() > 0 && s.last() == c {
        trim_end_char(s.drop_last(), c)
    } else {
        s
    }
}

/// Server origin of an OpenAI-compatible base URL: trimmed, trailing slashes and a `/v1`
/// suffix removed; only `http://` and `https://` URLs have one.
pub open spec fn origin_of(base_url: Seq<char>) -> Option<Seq<char>> {
    let b0 = trim_end_char(trim(base_url), '/');
    let b = if ends_with(b0, "/v1"@) {
        trim_end_char(b0.subrange(0, b0.len() - 3), '/')
    } else {
        b0
    };
    if starts_with(b, "http://"@) || starts_with(b, "https://"@) {
        Some(b)
    } else {
        None
    }
}

/// Copy without trailing copies of `c`.
pub(crate) fn trim_end_char_vec(h: &[char], c: char) -> (r: Vec<char>)
    ensures
        r@ == trim_end_char(h@, c),
{
    let mut b = h.len();
    assert(h@.subrange(0, h.len() as int) =~= h@);
    while b > 0 && h[b - 1] == c
        invariant
            b <= h.len(),
            trim_end_char(h@, c) == trim_end_char(h@.subrange(0, b as int), c),
        decreases b,
    {
        assert(h@.subrange(0, b as int).drop_last() =~= h@.subrange(0, b - 1));
        b = b - 1;
    }
    slice_of(h, 0, b)
}

/// Server origin of a base URL (`http://localhost:1234/v1` → `http://localhost:1234`).
pub fn origin_from_base(base_url: &str) -> (r: Option<String>)
    ensures
        r matches Some(s) ==> origin_of(base_url@) == Some(s@),
        r is None ==> origin_of(base_url@) is None,
{
    let v = chars_of(base_url);
    let t = trim_vec(v.as_slice());
    let b0 = trim_end_char_vec(t.as_slice(), '/');
    proof {
        reveal_strlit("/v1");
    }
    let b = if ends_with_str(b0.as_slice(), "/v1") {
        let cut = slice_of(b0.as_slice(), 0, b0.len() - 3);
        trim_end_char_vec(cut.as_slice(), '/')
    } else {
        b0
    };
    if starts_with_str(b.as_slice(), "http://") || starts_with_str(b.as_slice(), "https://") {
        Some(string_of(b.as_slice()))
    } else {
        None
    }
}

/// An error that comes from a flaky prompt template of a local server.
pub open spec fn jinja_error(msg: Seq<char>) -> bool {
    let l = lower_seq(msg);
    contains(l, "jinja"@) || contains(l, "no user query found"@) || contains(l, "prompt template"@)
}

/// Whether the error is a prompt-template (Jinja) failure of a local server.
pub fn is_jinja_prompt_template_error(err: &AppError) -> (r: bool)
    ensures
        r == jinja_error(err.spec_message()),
{
    let m = err.message();
    let v = chars_of(m.as_str());
    let l = lower_vec(v.as_slice());
    contains_str(l.as_slice(), "jinja") || contains_str(l.as_slice(), "no user query found")
        || contains_str(l.as_slice(), "prompt template")
}

/// Short text of a prompt-template error: the first quoted phrase when it is non-blank and
/// at most 200 bytes; else the message from `jinja template` on; else the message, each cut
/// to 160 characters.
pub open spec fn template_error_summary(msg: Seq<char>) -> Seq<char> {
    let quoted = match find(msg, seq!['"']) {
        Some(s) => {
            let rest = msg.subrange(s + 1, msg.len() as int);
            match find(rest, seq!['"']) {
                Some(e) => {
                    let inner = trim(rest.subrange(0, e));
                    if inner.len() > 0 && utf8_len(inner) <= 200 {
                        Some(inner)
                    } else {
                        None
                    }
                },
                None => None,
            }
        },
        None => None,
    };
    match quoted {
        Some(q) => q,
        None => match find(lower_seq(msg), "jinja template"@) {
            Some(i) => take_chars(msg.subrange(i, msg.len() as int), 160),
            None => take_chars(msg, 160),
        },
    }
}

/// Short text of a prompt-template error for the UI while retrying.
pub fn prompt_template_error_summary(err: &AppError) -> (r: String)
    ensures
        r@ == template_error_summary(err.spec_message()),
{
    let m = err.message();
    let msg = chars_of(m.as_str());
    let q: Vec<char> = vec!['"'];
    assert(q@ =~= seq!['"']);
    match find_exec(msg.as_slice(), q.as_slice()) {
        Some(s) => {
            proof {
                lemma_found(msg@, q@, s as int);
            }
            let ml = msg.len();
            let rest = slice_of(msg.as_slice(), s + 1, ml);
            match find_exec(rest.as_slice(), q.as_slice()) {
                Some(e) => {
                    proof {
                        lemma_found(rest@, q@, e as int);
                    }
                    let raw = slice_of(rest.as_slice(), 0, e);
                    let inner = trim_vec(raw.as_slice());
                    if inner.len() > 0 && utf8_len_below(inner.as_slice(), 201) {
                        return string_of(inner.as_slice());
                    }
                },
                None => {},
            }
        },
        None => {},
    }
    let lower = lower_vec(msg.as_slice());
    let needle = chars_of("jinja template");
    match find_exec(lower.as_slice(), needle.as_slice()) {
        Some(i) => {
            proof {
                lemma_found(lower@, needle@, i as int);
            }
            let tail = slice_of(msg.as_slice(), i, msg.len());
            let t = take_vec(tail.as_slice(), 160);
            string_of(t.as_slice())
        },
        None => {
            let t = take_vec(msg.as_slice(), 160);
            string_of(t.as_slice())
        },
    }
}

/// Embedding model for a connection: its trimmed default when that names an embedding model
/// (`embed`, `nomic` or `bge`, ASCII case ignored), else the nomic default.
pub open spec fn embed_model(connection_default: Seq<char>) -> Seq<char> {
    let d = trim(connection_default);
    let l = lower_seq(d);
    if d.len() > 0 && (contains(l, "embed"@) || contains(l, "nomic"@) || contains(l, "bge"@)) {
        d
    } else {
        "text-embedding-nomic-embed-text-v1.5"@
    }
}

/// Best-effort embedding model of a connection.
pub fn resolve_embed_model(connection_default: &str) -> (r: String)
    ensures
        r@ == embed_model(connection_default@),
{
    let v = chars_of(connection_default);
    let d = trim_vec(v.as_slice());
    if d.len() == 0 {
        return DEFAULT_EMBED_MODEL.to_string();
    }
    let l = lower_vec(d.as_slice());
    if contains_str(l.as_slice(), "embed") || contains_str(l.as_slice(), "nomic") || contains_str(
        l.as_slice(),
        "bge",
    ) {
        return string_of(d.as_slice());
    }
    DEFAULT_EMBED_MODEL.to_string()
}

} // verus!
