//! Which inference calls must not overlap: local servers swap models when two requests
//! load different ones at once, cloud APIs do not. Calls to one endpoint share a key.
use vstd::prelude::*;

use crate::providers::{is_lm_studio_url, lm_studio_url, trim_end_char, trim_end_char_vec};
use crate::text::{
    chars_of, contains, contains_str, ends_with, ends_with_str, lower_seq, lower_vec, slice_of, string_of,
    trim, trim_vec,
};

verus! {

/// The rules by which inference calls are serialized per provider endpoint; the lock
/// table itself belongs to the asynchronous runtime that holds the permits.
pub struct InferenceGate;

/// Lower-case endpoint without surrounding blanks, trailing slashes and a `/v1`
/// suffix (compared without case), so OpenAI-compatible URLs share one key.
pub open spec fn endpoint_key_of(base_url: Seq<char>) -> Seq<char> {
    let s0 = trim_end_char(trim(base_url), '/');
    let s = if ends_with(lower_seq(s0), "/v1"@) {
        trim_end_char(s0.subrange(0, s0.len() - 3), '/')
    } else {
        s0
    };
    lower_seq(s)
}

/// A local server: LM Studio, or a loopback or wildcard host in the URL.
pub open spec fn exclusive_endpoint(base_url: Seq<char>) -> bool {
    let l = lower_seq(base_url);
    lm_studio_url(base_url) || contains(l, "localhost"@) || contains(l, "127.0.0.1"@) || contains(
        l,
        "[::1]"@,
    ) || contains(l, "0.0.0.0"@)
}

impl InferenceGate {
    /// The key under which calls to this endpoint are serialized.
    pub fn endpoint_key(base_url: &str) -> (r: String)
        ensures
            r@ == endpoint_key_of(base_url@),
    {
        let v = chars_of(base_url);
        let t = trim_vec(v.as_slice());
        let s0 = trim_end_char_vec(t.as_slice(), '/');
        let l0 = lower_vec(s0.as_slice());
        proof {
            reveal_strlit("/v1");
        }
        let s = if ends_with_str(l0.as_slice(), "/v1") {
            let cut = slice_of(s0.as_slice(), 0, s0.len() - 3);
            trim_end_char_vec(cut.as_slice(), '/')
        } else {
            s0
        };
        let l = lower_vec(s.as_slice());
        string_of(l.as_slice())
    }

    /// Whether calls to this endpoint must wait for one another.
    pub fn needs_exclusive_lock(base_url: &str) -> (r: bool)
        ensures
            r == exclusive_endpoint(base_url@),
    {
        if is_lm_studio_url(base_url) {
            return true;
        }
        let v = chars_of(base_url);
        let l = lower_vec(v.as_slice());
        contains_str(l.as_slice(), "localhost") || contains_str(l.as_slice(), "127.0.0.1")
            || contains_str(l.as_slice(), "[::1]") || contains_str(l.as_slice(), "0.0.0.0")
    }
}

} // verus!
