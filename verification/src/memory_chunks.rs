//! Stored chunks of a session's vector memory: which survive a compression (the canonical
//! plan), what text a compression reads, what replaces the compressed chunks, and which
//! row is the latest of a role.
use vstd::prelude::*;

use crate::memory_compress::{compression_target, compression_target_chars};
use crate::text::{
    append_chars, append_str, chars_of, join, join_vec, push_decimal, str_eq, string_of, trim,
    trim_vec, vv,
};
use crate::vector_memory::{char_chunks, chunk_content_hash, chunk_key_bytes, sha256_hex, split_text_chunks};

verus! {

/// Role of the canonical plan chunk, kept through compressions.
pub const PLAN_CANONICAL_ROLE: &'static str = "plan-canonical";

/// Most chunks a session keeps.
pub const MAX_SESSION_CHUNKS: i64 = 1_500;

/// Chunk count at which a session's memory is compressed (85 % of the maximum).
pub const VECTOR_COMPRESS_CHUNK_THRESHOLD: i64 = 1_275;

/// Longest stored chunk, in characters.
pub const CHUNK_MAX_CHARS: usize = 700;

/// A stored memory chunk (its embedding stays with the store).
#[derive(Debug, Clone)]
pub struct MemoryChunkRow {
    pub id: i64,
    pub role: String,
    pub content: String,
}

/// A chunk to store (its embedding is computed or carried over by the store).
#[derive(Debug, Clone)]
pub struct NewMemoryChunk {
    pub role: String,
    pub content: String,
    pub content_hash: String,
}

/// The canonical-plan rows, re-hashed for storing again after a compression.
pub open spec fn preserved(rows: Seq<MemoryChunkRow>) -> Seq<(Seq<char>, Seq<char>, Seq<char>)>
    decreases rows.len(),
{
    if rows.len() == 0 {
        Seq::empty()
    } else {
        let prev = preserved(rows.drop_last());
        let r = rows.last();
        if r.role@ == PLAN_CANONICAL_ROLE@ {
            prev.push((r.role@, r.content@, sha256_hex(chunk_key_bytes(PLAN_CANONICAL_ROLE@, r.content@))))
        } else {
            prev
        }
    }
}

pub open spec fn new_chunks_view(v: Seq<NewMemoryChunk>) -> Seq<(Seq<char>, Seq<char>, Seq<char>)> {
    Seq::new(v.len(), |i: int| (v[i].role@, v[i].content@, v[i].content_hash@))
}

/// The rows that are not the canonical plan, in order.
pub open spec fn compressible(rows: Seq<MemoryChunkRow>) -> Seq<(i64, Seq<char>, Seq<char>)>
    decreases rows.len(),
{
    if rows.len() == 0 {
        Seq::empty()
    } else {
        let prev = compressible(rows.drop_last());
        let r = rows.last();
        if r.role@ != PLAN_CANONICAL_ROLE@ {
            prev.push((r.id, r.role@, r.content@))
        } else {
            prev
        }
    }
}

pub open spec fn rows_view(v: Seq<MemoryChunkRow>) -> Seq<(i64, Seq<char>, Seq<char>)> {
    Seq::new(v.len(), |i: int| (v[i].id, v[i].role@, v[i].content@))
}

/// Canonical-plan rows to store again after a compression.
pub fn preserved_plan_canonical_chunks(chunks: &[MemoryChunkRow]) -> (r: Vec<NewMemoryChunk>)
    ensures
        new_chunks_view(r@) == preserved(chunks@),
{
    let mut out: Vec<NewMemoryChunk> = Vec::new();
    let mut i: usize = 0;
    assert(chunks@.subrange(0, 0) =~= Seq::<MemoryChunkRow>::empty());
    assert(new_chunks_view(out@) =~= preserved(chunks@.subrange(0, 0)));
    while i < chunks.len()
        invariant
            i <= chunks.len(),
            new_chunks_view(out@) == preserved(chunks@.subrange(0, i as int)),
        decreases chunks.len() - i,
    {
        let ghost ps = chunks@.subrange(0, i + 1);
        assert(ps.drop_last() =~= chunks@.subrange(0, i as int));
        let row = &chunks[i];
        if str_eq(row.role.as_str(), PLAN_CANONICAL_ROLE) {
            let h = chunk_content_hash(PLAN_CANONICAL_ROLE, row.content.as_str());
            let c = NewMemoryChunk {
                role: PLAN_CANONICAL_ROLE.to_string(),
                content: crate::text::copy_string(&row.content),
                content_hash: h,
            };
            let ghost o0 = new_chunks_view(out@);
            out.push(c);
            assert(new_chunks_view(out@) =~= o0.push((row.role@, row.content@, h@)));
        }
        i = i + 1;
    }
    assert(chunks@.subrange(0, chunks.len() as int) =~= chunks@);
    out
}

/// Rows a compression may replace: all but the canonical plan.
pub fn compressible_chunks(chunks: &[MemoryChunkRow]) -> (r: Vec<MemoryChunkRow>)
    ensures
        rows_view(r@) == compressible(chunks@),
{
    let mut out: Vec<MemoryChunkRow> = Vec::new();
    let mut i: usize = 0;
    assert(chunks@.subrange(0, 0) =~= Seq::<MemoryChunkRow>::empty());
    assert(rows_view(out@) =~= compressible(chunks@.subrange(0, 0)));
    while i < chunks.len()
        invariant
            i <= chunks.len(),
            rows_view(out@) == compressible(chunks@.subrange(0, i as int)),
        decreases chunks.len() - i,
    {
        let ghost ps = chunks@.subrange(0, i + 1);
        assert(ps.drop_last() =~= chunks@.subrange(0, i as int));
        let row = &chunks[i];
        if !str_eq(row.role.as_str(), PLAN_CANONICAL_ROLE) {
            let c = MemoryChunkRow {
                id: row.id,
                role: crate::text::copy_string(&row.role),
                content: crate::text::copy_string(&row.content),
            };
            let ghost o0 = rows_view(out@);
            out.push(c);
            assert(rows_view(out@) =~= o0.push((row.id, row.role@, row.content@)));
        }
        i = i + 1;
    }
    assert(chunks@.subrange(0, chunks.len() as int) =~= chunks@);
    out
}

/// One chunk in the text a compression reads: `[role] content`, both trimmed.
pub open spec fn chunk_line(r: (i64, Seq<char>, Seq<char>)) -> Seq<char> {
    "["@ + trim(r.1) + "] "@ + trim(r.2)
}

/// The chunks as one text, in order, separated by blank lines.
pub open spec fn compression_text(rows: Seq<(i64, Seq<char>, Seq<char>)>) -> Seq<char> {
    join(Seq::new(rows.len(), |i: int| chunk_line(rows[i])), "\n\n"@)
}

/// The text a compression reads (see `compression_text`).
pub fn format_chunks_for_compression(chunks: &[MemoryChunkRow]) -> (r: String)
    ensures
        r@ == compression_text(rows_view(chunks@)),
{
    let mut parts: Vec<Vec<char>> = Vec::new();
    let mut i: usize = 0;
    let ghost rv = rows_view(chunks@);
    while i < chunks.len()
        invariant
            i <= chunks.len(),
            rv == rows_view(chunks@),
            vv(parts@) =~= Seq::new(i as nat, |j: int| chunk_line(rv[j])),
        decreases chunks.len() - i,
    {
        let row = &chunks[i];
        let mut p: Vec<char> = Vec::new();
        append_str(&mut p, "[");
        let rc = chars_of(row.role.as_str());
        let rt = trim_vec(rc.as_slice());
        append_chars(&mut p, rt.as_slice());
        append_str(&mut p, "] ");
        let cc = chars_of(row.content.as_str());
        let ct = trim_vec(cc.as_slice());
        append_chars(&mut p, ct.as_slice());
        proof {
            crate::text::lemma_vv_push(parts@, p);
        }
        parts.push(p);
        i = i + 1;
    }
    let body = join_vec(parts.as_slice(), chars_of("\n\n").as_slice());
    assert(vv(parts@) =~= Seq::new(rv.len(), |j: int| chunk_line(rv[j])));
    string_of(body.as_slice())
}

/// The row of a role with the greatest id (the later one of equal ids).
pub open spec fn latest_of(rows: Seq<MemoryChunkRow>, role: Seq<char>) -> Option<int>
    decreases rows.len(),
{
    if rows.len() == 0 {
        None
    } else {
        let prev = latest_of(rows.drop_last(), role);
        let k = rows.len() - 1;
        if rows[k].role@ == role {
            match prev {
                Some(p) => if rows[k].id >= rows[p].id {
                    Some(k)
                } else {
                    prev
                },
                None => Some(k),
            }
        } else {
            prev
        }
    }
}

pub proof fn lemma_latest_of_bounds(rows: Seq<MemoryChunkRow>, role: Seq<char>)
    ensures
        latest_of(rows, role) matches Some(k) ==> 0 <= k < rows.len() && rows[k].role@ == role,
    decreases rows.len(),
{
    if rows.len() > 0 {
        lemma_latest_of_bounds(rows.drop_last(), role);
    }
}

/// The newest row of a role (see `latest_of`).
pub fn latest_role_row<'a>(rows: &'a [MemoryChunkRow], role: &str) -> (r: Option<&'a MemoryChunkRow>)
    ensures
        match latest_of(rows@, role@) {
            Some(k) => r matches Some(x) && *x == rows@[k],
            None => r is None,
        },
{
    let mut best: Option<usize> = None;
    let mut i: usize = 0;
    assert(rows@.subrange(0, 0) =~= Seq::<MemoryChunkRow>::empty());
    while i < rows.len()
        invariant
            i <= rows.len(),
            match latest_of(rows@.subrange(0, i as int), role@) {
                Some(k) => best == Some(k as usize),
                None => best is None,
            },
        decreases rows.len() - i,
    {
        let ghost ps = rows@.subrange(0, i + 1);
        assert(ps.drop_last() =~= rows@.subrange(0, i as int));
        proof {
            lemma_latest_of_bounds(rows@.subrange(0, i as int), role@);
        }
        if str_eq(rows[i].role.as_str(), role) {
            match best {
                Some(p) => {
                    if rows[i].id >= rows[p].id {
                        best = Some(i);
                    }
                },
                None => {
                    best = Some(i);
                },
            }
        }
        i = i + 1;
    }
    assert(rows@.subrange(0, rows.len() as int) =~= rows@);
    proof {
        lemma_latest_of_bounds(rows@, role@);
    }
    match best {
        Some(k) => Some(&rows[k]),
        None => None,
    }
}

/// The text and target size of a compression, or `None` when the session is under the
/// threshold, only the canonical plan is stored, or the text is under 320 characters.
pub open spec fn compression_job(count: i64, rows: Seq<MemoryChunkRow>) -> Option<(Seq<char>, int)> {
    let text = compression_text(compressible(rows));
    if count < VECTOR_COMPRESS_CHUNK_THRESHOLD || rows.len() == 0 || compressible(rows).len() == 0
        || text.len() < 320 {
        None
    } else {
        Some((text, compression_target(text.len() as int)))
    }
}

/// What a compression of the session's memory reads, and how short it should become (see
/// `compression_job`).
pub fn vector_compression_job(count: i64, chunks: &[MemoryChunkRow]) -> (r: Option<(String, usize)>)
    ensures
        match compression_job(count, chunks@) {
            Some(j) => r matches Some(p) && p.0@ == j.0 && p.1 as int == j.1,
            None => r is None,
        },
{
    if count < VECTOR_COMPRESS_CHUNK_THRESHOLD || chunks.len() == 0 {
        return None;
    }
    let compressible = compressible_chunks(chunks);
    if compressible.len() == 0 {
        return None;
    }
    let text = format_chunks_for_compression(compressible.as_slice());
    let n = chars_of(text.as_str()).len();
    if n < 320 {
        return None;
    }
    let target = compression_target_chars(n);
    Some((text, target))
}

/// The chunks that replace compressed memory: `COMPRESSED_MEMORY:` and the compressed
/// text, cut into 700-character pieces, each hashed with the session id and its index.
pub open spec fn compressed_chunks(session_id: Seq<char>, compressed: Seq<char>) -> Seq<
    (Seq<char>, Seq<char>, Seq<char>),
> {
    let parts = char_chunks(trim("COMPRESSED_MEMORY:\n"@ + compressed), 700);
    Seq::new(
        parts.len(),
        |i: int|
            (
                "compressed"@,
                parts[i],
                sha256_hex(
                    chunk_key_bytes(
                        "compressed"@,
                        session_id + ":"@ + crate::text::decimal(i as nat) + seq!['\0'] + parts[i],
                    ),
                ),
            ),
    )
}

/// Builds the chunks that replace compressed memory (see `compressed_chunks`).
pub fn compressed_memory_chunks(session_id: &str, compressed: &str) -> (r: Vec<NewMemoryChunk>)
    ensures
        new_chunks_view(r@) == compressed_chunks(session_id@, compressed@),
{
    let mut body: Vec<char> = Vec::new();
    append_str(&mut body, "COMPRESSED_MEMORY:\n");
    append_str(&mut body, compressed);
    let bs = string_of(body.as_slice());
    let parts = split_text_chunks(bs.as_str(), CHUNK_MAX_CHARS);
    let ghost pv = char_chunks(trim(body@), 700);
    let mut out: Vec<NewMemoryChunk> = Vec::new();
    let mut i: usize = 0;
    while i < parts.len()
        invariant
            i <= parts.len(),
            parts@.len() == pv.len(),
            pv == char_chunks(trim("COMPRESSED_MEMORY:\n"@ + compressed@), 700),
            forall|k: int| 0 <= k < parts@.len() ==> #[trigger] parts@[k]@ == pv[k],
            new_chunks_view(out@) =~= compressed_chunks(session_id@, compressed@).subrange(0, i as int),
        decreases parts.len() - i,
    {
        let mut key: Vec<char> = Vec::new();
        append_str(&mut key, session_id);
        append_str(&mut key, ":");
        push_decimal(&mut key, i as u64);
        key.push('\0');
        append_str(&mut key, parts[i].as_str());
        let ks = string_of(key.as_slice());
        let h = chunk_content_hash("compressed", ks.as_str());
        let ghost o0 = new_chunks_view(out@);
        out.push(NewMemoryChunk {
            role: "compressed".to_string(),
            content: crate::text::copy_string(&parts[i]),
            content_hash: h,
        });
        assert(key@ =~= session_id@ + ":"@ + crate::text::decimal(i as nat) + seq!['\0'] + pv[i as int]);
        let ghost cc = compressed_chunks(session_id@, compressed@);
        assert(cc.len() == pv.len());
        assert(cc[i as int] == ("compressed"@, pv[i as int], h@));
        assert(new_chunks_view(out@) =~= o0.push(("compressed"@, pv[i as int], h@)));
        assert(cc.subrange(0, i + 1) =~= cc.subrange(0, i as int).push(cc[i as int]));
        i = i + 1;
    }
    out
}

/// Whether a session holds more chunks than it keeps.
pub fn needs_prune(count: i64) -> (r: bool)
    ensures
        r == (count > MAX_SESSION_CHUNKS),
{
    count > MAX_SESSION_CHUNKS
}

} // verus!
