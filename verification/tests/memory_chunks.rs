use vibe_prompter::memory_chunks::{
    compressed_memory_chunks, compressible_chunks, format_chunks_for_compression, latest_role_row,
    needs_prune, preserved_plan_canonical_chunks, vector_compression_job, MemoryChunkRow,
    VECTOR_COMPRESS_CHUNK_THRESHOLD,
};
use vibe_prompter::vector_memory::chunk_content_hash;

fn row(id: i64, role: &str, content: &str) -> MemoryChunkRow {
    MemoryChunkRow { id, role: role.into(), content: content.into() }
}

#[test]
fn vector_compression_preserves_plan_canonical_sidecar() {
    let chunks = vec![
        row(1, "plan-canonical", "PLAN_CANONICAL v3\nstep: 3 / 7"),
        row(2, "user", "long narrative"),
    ];
    let preserved = preserved_plan_canonical_chunks(&chunks);
    let compressible = compressible_chunks(&chunks);
    assert_eq!(preserved.len(), 1);
    assert_eq!(preserved[0].role, "plan-canonical");
    assert_eq!(
        preserved[0].content_hash,
        chunk_content_hash("plan-canonical", "PLAN_CANONICAL v3\nstep: 3 / 7")
    );
    assert_eq!(compressible.len(), 1);
    assert_eq!(compressible[0].content, "long narrative");
}

#[test]
fn latest_role_row_prefers_newest_plan_canonical() {
    let chunks = vec![
        row(1, "plan-canonical", "PLAN_CANONICAL v1\nstep: 1 / 3"),
        row(4, "plan-canonical", "PLAN_CANONICAL v4\nstep: 4 / 5"),
        row(5, "plan-step", "PLAN_PROGRESS:\nstep: 2 / 5"),
    ];
    let latest = latest_role_row(&chunks, "plan-canonical").expect("latest");
    assert!(latest.content.contains("v4"));
    assert!(latest_role_row(&chunks, "user").is_none());
    let ties = vec![row(3, "r", "first"), row(3, "r", "second")];
    assert_eq!(latest_role_row(&ties, "r").unwrap().content, "second");
}

#[test]
fn format_chunks_for_compression_trims_roles_and_content_without_reordering() {
    let chunks = vec![
        row(10, " user ", " first\n"),
        row(11, "plan-step", "\nPLAN_PROGRESS:\nnext: tests "),
    ];
    assert_eq!(
        format_chunks_for_compression(&chunks),
        "[user] first\n\n[plan-step] PLAN_PROGRESS:\nnext: tests"
    );
}

#[test]
fn compression_job_needs_pressure_and_text() {
    let long = "x".repeat(400);
    let chunks = vec![row(1, "plan-canonical", "plan"), row(2, "user", &long)];
    assert!(vector_compression_job(VECTOR_COMPRESS_CHUNK_THRESHOLD - 1, &chunks).is_none());
    let (text, target) = vector_compression_job(VECTOR_COMPRESS_CHUNK_THRESHOLD, &chunks).unwrap();
    assert_eq!(text, format!("[user] {long}"));
    assert_eq!(target, 128);
    assert!(vector_compression_job(2000, &[row(1, "user", "short")]).is_none());
    assert!(vector_compression_job(2000, &[row(1, "plan-canonical", &long)]).is_none());
    assert!(needs_prune(1501));
    assert!(!needs_prune(1500));
}

#[test]
fn compressed_memory_is_cut_and_hashed_per_piece() {
    let compressed = "y".repeat(700);
    let chunks = compressed_memory_chunks("s1", &compressed);
    assert_eq!(chunks.len(), 2);
    assert_eq!(chunks[0].role, "compressed");
    assert_eq!(chunks[0].content.chars().count(), 700);
    assert!(chunks[0].content.starts_with("COMPRESSED_MEMORY:\nyyy"));
    assert_eq!(chunks[1].content, "y".repeat(19));
    assert_eq!(
        chunks[1].content_hash,
        chunk_content_hash("compressed", &format!("s1:1\0{}", "y".repeat(19)))
    );
}
