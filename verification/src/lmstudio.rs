//! LM Studio's native model listing: where a model's context window is read from.
//!
//! Chat goes to `{origin}/v1/*`, but the context length is only reported by the native
//! REST API (`/api/v1/models`, older servers `/api/v0/models`). Only local LM Studio
//! URLs are probed.
use vstd::prelude::*;

use crate::json_value::{get_key, json_i64, json_parse, lemma_jsons_of, lemma_members_of, members_of, jsons_of, parse_json, Json, JsonValue};
use crate::providers::{is_lm_studio_url, lm_studio_url, origin_from_base, origin_of};
use crate::text::{chars_of, seq_eq_exec, string_of};

verus! {

/// Members that hold a context length, in the order they are tried.
pub open spec fn context_keys() -> Seq<Seq<char>> {
    seq!["context_length"@, "max_context_length"@, "contextLength"@, "maxContextLength"@]
}

/// Members under which a model nests further descriptions, in the order they are tried.
pub open spec fn nested_keys() -> Seq<Seq<char>> {
    seq!["loaded_instances"@, "loadedModels"@, "load_config"@]
}

/// A positive `i64` held by a member value.
pub open spec fn positive_int(v: Option<Json>) -> Option<int> {
    match v {
        Some(x) => match json_i64(x) {
            Some(n) => if n > 0 {
                Some(n)
            } else {
                None
            },
            None => None,
        },
        None => None,
    }
}

/// The first of the context keys, from the `k`-th on, that holds a positive integer.
pub open spec fn direct_context(m: Json, k: int) -> Option<int>
    decreases 4 - k,
{
    if k < 0 || k >= 4 {
        None
    } else {
        match positive_int(get_key(m, context_keys()[k])) {
            Some(n) => Some(n),
            None => direct_context(m, k + 1),
        }
    }
}

/// Index of the first member named `key` at or after `i`.
pub open spec fn key_index(ms: Seq<(Seq<char>, Json)>, key: Seq<char>, i: int) -> Option<int>
    decreases ms.len() - i,
{
    if i < 0 || i >= ms.len() {
        None
    } else if ms[i].0 == key {
        Some(i)
    } else {
        key_index(ms, key, i + 1)
    }
}

/// Context length of a model description: one of its own context keys, else (in the
/// order of the nested keys) what the nested value or one of its elements reports.
pub open spec fn model_context(m: Json) -> Option<int>
    decreases m, 0int,
{
    match direct_context(m, 0) {
        Some(n) => Some(n),
        None => match m {
            Json::Object(ms) => nested_context(ms, 0),
            _ => None,
        },
    }
}

/// The nested value itself, then, for an array, its elements in order.
pub open spec fn child_context(c: Json) -> Option<int>
    decreases c, 1int,
{
    match model_context(c) {
        Some(n) => Some(n),
        None => match c {
            Json::Array(items) => items_context(items, 0),
            _ => None,
        },
    }
}

/// The nested keys from the `k`-th on.
pub open spec fn nested_context(ms: Seq<(Seq<char>, Json)>, k: int) -> Option<int>
    decreases ms, 3 - k,
{
    if k < 0 || k >= 3 {
        None
    } else {
        match key_index(ms, nested_keys()[k], 0) {
            Some(i) => if 0 <= i < ms.len() {
                proof {
                    assert(decreases_to!(ms => ms[i]));
                    assert(decreases_to!(ms[i] => ms[i].1));
                }
                match child_context(ms[i].1) {
                    Some(n) => Some(n),
                    None => nested_context(ms, k + 1),
                }
            } else {
                nested_context(ms, k + 1)
            },
            None => nested_context(ms, k + 1),
        }
    }
}

/// The first of `items[j..]` that reports a context length.
pub open spec fn items_context(items: Seq<Json>, j: int) -> Option<int>
    decreases items, items.len() - j,
{
    if j < 0 || j >= items.len() {
        None
    } else {
        match model_context(items[j]) {
            Some(n) => Some(n),
            None => items_context(items, j + 1),
        }
    }
}

/// Context length of a listing: the value read as a model, else the first model of
/// its `data` array, else the first model of the value itself when it is an array.
pub open spec fn listing_context(v: Json) -> Option<int> {
    match model_context(v) {
        Some(n) => Some(n),
        None => {
            let from_data = match get_key(v, "data"@) {
                Some(Json::Array(items)) => items_context(items, 0),
                _ => None,
            };
            match from_data {
                Some(n) => Some(n),
                None => match v {
                    Json::Array(items) => items_context(items, 0),
                    _ => None,
                },
            }
        },
    }
}

fn positive_member(m: &JsonValue, key: &str) -> (r: Option<i64>)
    ensures
        r matches Some(n) ==> positive_int(get_key(m@, key@)) == Some(n as int),
        r is None ==> positive_int(get_key(m@, key@)) is None,
{
    match m.get(key) {
        Some(v) => match v.as_i64() {
            Some(n) => if n > 0 {
                Some(n)
            } else {
                None
            },
            None => None,
        },
        None => None,
    }
}

fn direct_context_exec(m: &JsonValue) -> (r: Option<i64>)
    ensures
        r matches Some(n) ==> direct_context(m@, 0) == Some(n as int),
        r is None ==> direct_context(m@, 0) is None,
{
    proof {
        reveal_with_fuel(direct_context, 5);
    }
    if let Some(n) = positive_member(m, "context_length") {
        return Some(n);
    }
    if let Some(n) = positive_member(m, "max_context_length") {
        return Some(n);
    }
    if let Some(n) = positive_member(m, "contextLength") {
        return Some(n);
    }
    positive_member(m, "maxContextLength")
}

/// Index of the first member named `key`.
fn member_index(ms: &Vec<(String, JsonValue)>, key: &str) -> (r: Option<usize>)
    ensures
        r matches Some(i) ==> i < ms@.len() && key_index(members_of(ms@), key@, 0) == Some(i as int),
        r is None ==> key_index(members_of(ms@), key@, 0) is None,
{
    proof {
        lemma_members_of(ms@);
    }
    let k = chars_of(key);
    let mut i: usize = 0;
    while i < ms.len()
        invariant
            i <= ms.len(),
            k@ == key@,
            members_of(ms@).len() == ms@.len(),
            forall|j: int|
                0 <= j < ms@.len() ==> #[trigger] members_of(ms@)[j] == (ms@[j].0@, crate::json_value::json_of(ms@[j].1)),
            key_index(members_of(ms@), key@, 0) == key_index(members_of(ms@), key@, i as int),
        decreases ms.len() - i,
    {
        let mk = chars_of(ms[i].0.as_str());
        if seq_eq_exec(mk.as_slice(), k.as_slice()) {
            return Some(i);
        }
        i = i + 1;
    }
    None
}

/// Context length reported by one model description.
pub fn read_context_from_model(m: &JsonValue) -> (r: Option<i64>)
    ensures
        r matches Some(n) ==> model_context(m@) == Some(n as int),
        r is None ==> model_context(m@) is None,
    decreases m, 0int,
{
    if let Some(n) = direct_context_exec(m) {
        return Some(n);
    }
    match m {
        JsonValue::Object(ms) => {
            let keys: [&str; 3] = ["loaded_instances", "loadedModels", "load_config"];
            proof {
                lemma_members_of(ms@);
            }
            let ghost mv = members_of(ms@);
            assert(m@ == Json::Object(mv));
            let mut k: usize = 0;
            while k < 3
                invariant
                    *m == JsonValue::Object(*ms),
                    mv == members_of(ms@),
                    mv.len() == ms@.len(),
                    forall|j: int|
                        0 <= j < ms@.len() ==> #[trigger] mv[j] == (ms@[j].0@, crate::json_value::json_of(ms@[j].1)),
                    keys@.len() == 3,
                    forall|j: int| 0 <= j < 3 ==> #[trigger] keys@[j]@ == nested_keys()[j],
                    k <= 3,
                    m@ == Json::Object(mv),
                    model_context(m@) == nested_context(mv, 0),
                    nested_context(mv, 0) == nested_context(mv, k as int),
                decreases 3 - k,
            {
                match member_index(ms, keys[k]) {
                    Some(i) => {
                        proof {
                            let ghost e = ms@[i as int];
                            assert(decreases_to!(*m => (*m)->Object_0));
                            assert(decreases_to!(*ms => ms@));
                            assert(decreases_to!(ms@ => e));
                            assert(decreases_to!(e => e.1));
                            assert(decreases_to!(*m => e.1));
                        }
                        if let Some(n) = read_child_context(&ms[i].1) {
                            assert(mv[i as int].1 == ms@[i as int].1@);
                            assert(nested_context(mv, k as int) == Some(n as int));
                            return Some(n);
                        }
                    },
                    None => {},
                }
                k = k + 1;
            }
            None
        },
        _ => None,
    }
}

/// A nested value read as a model, then, for an array, its elements.
fn read_child_context(c: &JsonValue) -> (r: Option<i64>)
    ensures
        r matches Some(n) ==> child_context(c@) == Some(n as int),
        r is None ==> child_context(c@) is None,
    decreases c, 1int,
{
    if let Some(n) = read_context_from_model(c) {
        return Some(n);
    }
    match c {
        JsonValue::Array(items) => {
            proof {
                assert(decreases_to!(*c => (*c)->Array_0));
            }
            read_items_context(c, items)
        },
        _ => None,
    }
}

/// The first element of an array that reports a context length.
fn read_items_context(c: &JsonValue, items: &Vec<JsonValue>) -> (r: Option<i64>)
    requires
        *c == JsonValue::Array(*items),
    ensures
        r matches Some(n) ==> items_context(jsons_of(items@), 0) == Some(n as int),
        r is None ==> items_context(jsons_of(items@), 0) is None,
    decreases c, 0int,
{
    proof {
        lemma_jsons_of(items@);
    }
    let ghost iv = jsons_of(items@);
    let mut j: usize = 0;
    while j < items.len()
        invariant
            *c == JsonValue::Array(*items),
            iv == jsons_of(items@),
            iv.len() == items@.len(),
            forall|t: int| 0 <= t < items@.len() ==> #[trigger] iv[t] == crate::json_value::json_of(items@[t]),
            j <= items.len(),
            items_context(iv, 0) == items_context(iv, j as int),
        decreases items.len() - j,
    {
        proof {
            let ghost e = items@[j as int];
            assert(decreases_to!(*c => (*c)->Array_0));
            assert(decreases_to!(*items => items@));
            assert(decreases_to!(items@ => e));
            assert(decreases_to!(*c => e));
        }
        if let Some(n) = read_context_from_model(&items[j]) {
            return Some(n);
        }
        j = j + 1;
    }
    None
}

/// Context length from a model listing (see `listing_context`).
pub fn extract_context_length(json: &JsonValue) -> (r: Option<i64>)
    ensures
        r matches Some(n) ==> listing_context(json@) == Some(n as int),
        r is None ==> listing_context(json@) is None,
{
    if let Some(n) = read_context_from_model(json) {
        return Some(n);
    }
    if let Some(data) = json.get("data") {
        if let JsonValue::Array(items) = data {
            if let Some(n) = read_items_context(data, items) {
                return Some(n);
            }
        }
    }
    if let JsonValue::Array(items) = json {
        return read_items_context(json, items);
    }
    None
}

/// Context length from the body of a model listing response; `None` when the body is
/// no JSON or names no positive context length.
pub fn context_length_from_body(body: &str) -> (r: Option<i64>)
    ensures
        r matches Some(n) ==> json_parse(body@) matches Some(v) && listing_context(v) == Some(n as int),
        r is None ==> (json_parse(body@) matches Some(v) ==> listing_context(v) is None),
{
    match parse_json(body) {
        Some(v) => extract_context_length(&v),
        None => None,
    }
}

/// The listing URLs to ask, in order: none unless the base URL is a local LM Studio
/// server with an `http(s)` origin.
pub open spec fn probe_urls(base_url: Seq<char>) -> Seq<Seq<char>> {
    if !lm_studio_url(base_url) {
        Seq::empty()
    } else {
        match origin_of(base_url) {
            Some(o) => seq![o + "/api/v1/models"@, o + "/api/v0/models"@],
            None => Seq::empty(),
        }
    }
}

/// URLs of the native model listing for a base URL (see `probe_urls`).
pub fn context_probe_urls(base_url: &str) -> (r: Vec<String>)
    ensures
        r@.len() == probe_urls(base_url@).len(),
        forall|i: int| 0 <= i < r@.len() ==> #[trigger] r@[i]@ == probe_urls(base_url@)[i],
{
    let mut out: Vec<String> = Vec::new();
    if !is_lm_studio_url(base_url) {
        return out;
    }
    match origin_from_base(base_url) {
        Some(o) => {
            let mut a = chars_of(o.as_str());
            crate::text::append_str(&mut a, "/api/v1/models");
            let mut b = chars_of(o.as_str());
            crate::text::append_str(&mut b, "/api/v0/models");
            out.push(string_of(a.as_slice()));
            out.push(string_of(b.as_slice()));
            out
        },
        None => out,
    }
}

} // verus!
