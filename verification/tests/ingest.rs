use aether::ingest::{
    chunk_point_id, chunk_text, document_chunks, is_ingestible_extension, CHUNK_CHARS, OVERLAP_CHARS,
};

#[test]
fn chunk_text_empty_returns_empty() {
    assert!(chunk_text("", 100, 10).is_empty());
}

#[test]
fn chunk_text_short_text_is_single_chunk() {
    let chunks = chunk_text("hello world", 100, 10);
    assert_eq!(chunks.len(), 1);
    assert_eq!(chunks[0], "hello world");
}

#[test]
fn chunk_text_produces_correct_count() {
    // 200 chars, chunk 100, overlap 20 → step 80 → ceil((200-100)/80)+1 = 3 chunks
    let text: String = "a".repeat(200);
    let chunks = chunk_text(&text, 100, 20);
    assert_eq!(chunks.len(), 3);
}

#[test]
fn chunk_text_overlap_is_present() {
    let text: String = (b'a'..=b'z').map(char::from).collect::<String>().repeat(4); // 104 chars
    let chunks = chunk_text(&text, 30, 10);
    let tail0: String =
        chunks[0].chars().rev().take(10).collect::<String>().chars().rev().collect();
    let head1: String = chunks[1].chars().take(10).collect();
    assert_eq!(tail0, head1, "overlap not preserved between chunk 0 and 1");
}

#[test]
fn chunk_text_no_data_loss() {
    let text = "The quick brown fox jumps over the lazy dog. ".repeat(10);
    let chunks = chunk_text(&text, 50, 10);
    assert!(!chunks.is_empty());
    assert_eq!(chunks[0].chars().count(), 50);
    assert!(chunks.last().unwrap().chars().count() <= 50);
}

#[test]
fn chunk_text_exact_fit_is_one_chunk() {
    let text: String = "x".repeat(100);
    let chunks = chunk_text(&text, 100, 10);
    assert_eq!(chunks.len(), 1);
}

#[test]
fn chunk_text_rebuilds_the_text_from_its_chunks() {
    let text = "The quick brown fox jumps over the lazy dog. ".repeat(10);
    let chunks = chunk_text(&text, 50, 10);
    let mut rebuilt: String = chunks[0].clone();
    for c in &chunks[1..] {
        rebuilt.extend(c.chars().skip(10));
    }
    assert_eq!(rebuilt, text);
}

#[test]
fn chunk_text_exact_windows() {
    let chunks = chunk_text("abcdefghij", 4, 1);
    assert_eq!(chunks, vec!["abcd", "defg", "ghij"]);
}

#[test]
fn chunk_text_counts_characters_not_bytes() {
    let chunks = chunk_text("ééééé", 3, 1);
    assert_eq!(chunks, vec!["ééé", "ééé"]);
}

#[test]
fn default_chunk_sizes() {
    assert_eq!(CHUNK_CHARS, 2048);
    assert_eq!(OVERLAP_CHARS, 256);
}

#[test]
fn chunk_point_ids_are_padded() {
    assert_eq!(chunk_point_id("notes.md", 7), "notes.md_000007");
}

#[test]
fn only_text_and_markdown_are_ingested() {
    assert!(is_ingestible_extension("txt"));
    assert!(is_ingestible_extension("md"));
    assert!(!is_ingestible_extension("pdf"));
    assert!(!is_ingestible_extension("TXT"));
}

#[test]
fn document_chunks_are_named_in_order() {
    let text = "z".repeat(2048 + 1000);
    let points = document_chunks("notes.md", &text);
    assert_eq!(points.len(), 2);
    assert_eq!(points[0].0, "notes.md_000000");
    assert_eq!(points[1].0, "notes.md_000001");
    assert_eq!(points[0].1.chars().count(), 2048);
    assert_eq!(points[1].1.chars().count(), 3048 - 1792);
}

use aether::ingest::ingested_total;

#[test]
fn directory_total_adds_the_files_that_were_stored() {
    assert_eq!(ingested_total(&[Some(3), None, Some(4), Some(0)]), 7);
    assert_eq!(ingested_total(&[]), 0);
    assert_eq!(ingested_total(&[None, None]), 0);
}
