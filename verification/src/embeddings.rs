//! Which embedding models to try for a connection, and in what order.
use vstd::prelude::*;

use crate::json_value::{get_key, json_parse, jsons_of, lemma_jsons_of, parse_json, Json, JsonValue};
use crate::providers::{embed_model, resolve_embed_model};
use crate::text::{chars_of, contains, contains_str, lower_seq, lower_vec, str_eq, string_of, trim, trim_vec};
use crate::tool_results::strings_view;

verus! {

/// Models tried after the connection's own and the discovered ones: the nomic model
/// under LM Studio's id, then Ollama's untagged and tagged names.
pub open spec fn fallback_embed_models() -> Seq<Seq<char>> {
    seq!["text-embedding-nomic-embed-text-v1.5"@, "nomic-embed-text"@, "nomic-embed-text:latest"@]
}

/// A model id that names an embedding model (`embed`, `nomic` or `bge`, ASCII case ignored).
pub open spec fn embedding_model_name(model: Seq<char>) -> bool {
    let l = lower_seq(model);
    contains(l, "embed"@) || contains(l, "nomic"@) || contains(l, "bge"@)
}

/// Whether a model id names an embedding model.
pub fn looks_like_embedding_model(model: &str) -> (r: bool)
    ensures
        r == embedding_model_name(model@),
{
    let v = chars_of(model);
    let l = lower_vec(v.as_slice());
    contains_str(l.as_slice(), "embed") || contains_str(l.as_slice(), "nomic") || contains_str(l.as_slice(), "bge")
}

/// The list with a candidate added: trimmed, and only when it is not blank and not
/// listed yet.
pub open spec fn with_candidate(out: Seq<Seq<char>>, candidate: Seq<char>) -> Seq<Seq<char>> {
    let c = trim(candidate);
    if c.len() == 0 || out.contains(c) {
        out
    } else {
        out.push(c)
    }
}

/// The candidates added one after another.
pub open spec fn candidates_from(out: Seq<Seq<char>>, names: Seq<Seq<char>>) -> Seq<Seq<char>>
    decreases names.len(),
{
    if names.len() == 0 {
        out
    } else {
        candidates_from(with_candidate(out, names[0]), names.drop_first())
    }
}

/// Adds a candidate model (see `with_candidate`).
pub fn push_candidate(out: &mut Vec<String>, candidate: &str)
    ensures
        strings_view(final(out)@) == with_candidate(strings_view(old(out)@), candidate@),
{
    let v = chars_of(candidate);
    let c = trim_vec(v.as_slice());
    if c.len() == 0 {
        return;
    }
    let cs = string_of(c.as_slice());
    let mut i: usize = 0;
    while i < out.len()
        invariant
            i <= out.len(),
            out@ == old(out)@,
            cs@ == trim(candidate@),
            forall|j: int| 0 <= j < i ==> #[trigger] out@[j]@ != cs@,
        decreases out.len() - i,
    {
        if str_eq(out[i].as_str(), cs.as_str()) {
            assert(strings_view(out@)[i as int] == cs@);
            return;
        }
        i = i + 1;
    }
    assert(!strings_view(out@).contains(cs@)) by {
        if strings_view(out@).contains(cs@) {
            let j = choose|j: int| 0 <= j < strings_view(out@).len() && strings_view(out@)[j] == cs@;
            assert(out@[j]@ == cs@);
        }
    }
    let ghost before = out@;
    out.push(cs);
    assert(strings_view(out@) =~= strings_view(before).push(trim(candidate@)));
}

/// Models to try, in order: the explicitly requested one alone when it is not blank;
/// else the connection's embedding model, the discovered ones, then the fallbacks, each
/// once.
pub open spec fn embed_candidates(explicit: Option<Seq<char>>, connection_default: Seq<char>, discovered: Seq<
    Seq<char>,
>) -> Seq<Seq<char>> {
    if explicit is Some && trim(explicit->0).len() > 0 {
        seq![trim(explicit->0)]
    } else {
        candidates_from(
            Seq::empty(),
            seq![embed_model(connection_default)] + discovered + fallback_embed_models(),
        )
    }
}

/// Embedding models to try for a connection (see `embed_candidates`); `discovered` is
/// what the server lists.
pub fn embed_model_candidates(explicit: Option<&str>, connection_default: &str, discovered: &[String]) -> (r: Vec<
    String,
>)
    ensures
        strings_view(r@) == embed_candidates(
            match explicit {
                Some(e) => Some(e@),
                None => None,
            },
            connection_default@,
            strings_view(discovered@),
        ),
{
    if let Some(e) = explicit {
        let v = chars_of(e);
        let t = trim_vec(v.as_slice());
        if t.len() > 0 {
            let mut out: Vec<String> = Vec::new();
            out.push(string_of(t.as_slice()));
            assert(strings_view(out@) =~= seq![trim(e@)]);
            return out;
        }
    }
    let mut names: Vec<String> = Vec::new();
    names.push(resolve_embed_model(connection_default));
    let mut k: usize = 0;
    while k < discovered.len()
        invariant
            k <= discovered.len(),
            strings_view(names@) =~= seq![embed_model(connection_default@)] + strings_view(discovered@).subrange(
                0,
                k as int,
            ),
        decreases discovered.len() - k,
    {
        let ghost n0 = names@;
        names.push(crate::text::copy_string(&discovered[k]));
        assert(strings_view(names@) =~= strings_view(n0).push(discovered@[k as int]@));
        assert(strings_view(discovered@).subrange(0, k + 1) =~= strings_view(discovered@).subrange(
            0,
            k as int,
        ).push(discovered@[k as int]@));
        k = k + 1;
    }
    assert(strings_view(discovered@).subrange(0, discovered.len() as int) =~= strings_view(discovered@));
    let ghost n0 = names@;
    names.push("text-embedding-nomic-embed-text-v1.5".to_string());
    names.push("nomic-embed-text".to_string());
    names.push("nomic-embed-text:latest".to_string());
    let ghost all = strings_view(names@);
    assert(all =~= strings_view(n0) + fallback_embed_models());
    assert(all =~= seq![embed_model(connection_default@)] + strings_view(discovered@) + fallback_embed_models());
    let mut out: Vec<String> = Vec::new();
    let mut i: usize = 0;
    assert(all.subrange(0, all.len() as int) =~= all);
    assert(strings_view(out@) =~= Seq::<Seq<char>>::empty());
    while i < names.len()
        invariant
            i <= names.len(),
            all == strings_view(names@),
            candidates_from(Seq::empty(), all) == candidates_from(
                strings_view(out@),
                all.subrange(i as int, all.len() as int),
            ),
        decreases names.len() - i,
    {
        let ghost rest = all.subrange(i as int, all.len() as int);
        assert(rest[0] == all[i as int]);
        assert(rest.drop_first() =~= all.subrange(i + 1, all.len() as int));
        push_candidate(&mut out, names[i].as_str());
        i = i + 1;
    }
    out
}

/// Ids of the embedding models in a `/models` listing: the string `id` of each element
/// of its `data` array that names an embedding model, in order.
pub open spec fn listed_embedding_ids(items: Seq<Json>) -> Seq<Seq<char>>
    decreases items.len(),
{
    if items.len() == 0 {
        Seq::empty()
    } else {
        let rest = listed_embedding_ids(items.drop_last());
        match get_key(items.last(), "id"@) {
            Some(Json::Str(s)) => if embedding_model_name(s) {
                rest.push(s)
            } else {
                rest
            },
            _ => rest,
        }
    }
}

pub open spec fn embedding_ids(listing: Json) -> Seq<Seq<char>> {
    match get_key(listing, "data"@) {
        Some(Json::Array(items)) => listed_embedding_ids(items),
        _ => Seq::empty(),
    }
}

/// Embedding model ids of a `/models` listing (see `embedding_ids`).
pub fn embedding_model_ids(listing: &JsonValue) -> (r: Vec<String>)
    ensures
        strings_view(r@) == embedding_ids(listing@),
{
    let mut out: Vec<String> = Vec::new();
    if let Some(data) = listing.get("data") {
        if let JsonValue::Array(items) = data {
            proof {
                lemma_jsons_of(items@);
            }
            let ghost iv = jsons_of(items@);
            let mut i: usize = 0;
            while i < items.len()
                invariant
                    i <= items.len(),
                    iv == jsons_of(items@),
                    iv.len() == items@.len(),
                    forall|t: int| 0 <= t < items@.len() ==> #[trigger] iv[t] == items@[t]@,
                    strings_view(out@) == listed_embedding_ids(iv.subrange(0, i as int)),
                decreases items.len() - i,
            {
                let ghost pre = iv.subrange(0, i + 1);
                assert(pre.drop_last() =~= iv.subrange(0, i as int));
                assert(pre.last() == items@[i as int]@);
                match items[i].get("id") {
                    Some(id) => match id.as_str() {
                        Some(s) => {
                            if looks_like_embedding_model(s) {
                                let ghost o0 = out@;
                                out.push(s.to_string());
                                assert(strings_view(out@) =~= strings_view(o0).push(s@));
                            }
                        },
                        None => {},
                    },
                    None => {},
                }
                i = i + 1;
            }
            assert(iv.subrange(0, items.len() as int) =~= iv);
        } else {
            assert(strings_view(out@) =~= Seq::<Seq<char>>::empty());
        }
    } else {
        assert(strings_view(out@) =~= Seq::<Seq<char>>::empty());
    }
    out
}

/// Embedding model ids from the body of a `/models` response; none when the body is no
/// JSON.
pub fn embedding_model_ids_from_body(body: &str) -> (r: Vec<String>)
    ensures
        json_parse(body@) matches Some(v) ==> strings_view(r@) == embedding_ids(v),
        json_parse(body@) is None ==> r@.len() == 0,
{
    match parse_json(body) {
        Some(v) => embedding_model_ids(&v),
        None => Vec::new(),
    }
}

} // verus!
