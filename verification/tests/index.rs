use semcache::hash::{chunk_id, hash_bytes, hash_string};
use semcache::semantic::config::SemanticIndexConfig;
use semcache::semantic::embedding::{bearer_header, failure_message, order_embeddings, EmbeddingItem};
use semcache::semantic::index::{
    accept_embeddings, chunk_lines, chunk_texts, collect_hits, comparable, file_chunks,
    file_entry, finish_search, index_file, index_meta, indexable, query_embedding, rank_hits, ranks_before,
    score_rank, should_skip_entry, start_build, start_search, BuildState, Chunk, SearchHit,
    SemanticError, SCHEMA_VERSION,
};
use semcache::semantic::vector_store::{EmbeddingRecord, Timestamp};

fn bits(values: &[f32]) -> Vec<u32> {
    values.iter().map(|v| v.to_bits()).collect()
}

fn lines(texts: &[&str]) -> Vec<String> {
    texts.iter().map(|t| t.to_string()).collect()
}

fn chunk(start_line: usize, end_line: usize, text: &str) -> Chunk {
    Chunk { start_line, end_line, text: text.to_string() }
}

#[test]
fn cosine_similarity_returns_none_for_mismatch() {
    let a = bits(&[1.0_f32, 2.0_f32]);
    let b = bits(&[1.0_f32]);
    assert!(!comparable(&a, &b));
    assert!(!comparable(&[], &[]));
    assert!(comparable(&a, &a));
}

#[test]
fn chunking_keeps_a_short_last_window() {
    let chunks = chunk_lines(&lines(&["a", "b", "c", "d", "e"]), 2);
    assert_eq!(chunks, vec![chunk(1, 2, "a\nb"), chunk(3, 4, "c\nd"), chunk(5, 5, "e")]);
    assert_eq!(chunk_lines(&lines(&["a", "b"]), 5), vec![chunk(1, 2, "a\nb")]);
    assert_eq!(chunk_lines(&lines(&["a", "b", "c"]), 1), vec![chunk(1, 1, "a"), chunk(2, 2, "b"), chunk(3, 3, "c")]);
}

#[test]
fn chunking_drops_windows_of_white_space() {
    let chunks = chunk_lines(&lines(&["a", "b", "  ", "\t", "", "x"]), 2);
    assert_eq!(chunks, vec![chunk(1, 2, "a\nb"), chunk(5, 6, "\nx")]);
    assert_eq!(chunk_lines(&lines(&["", " "]), 2), vec![]);
}

#[test]
fn chunking_of_nothing_gives_nothing() {
    assert_eq!(chunk_lines(&[], 3), vec![]);
    assert_eq!(chunk_lines(&lines(&["a", "b"]), 0), vec![]);
    assert_eq!(chunk_lines(&lines(&["a"]), usize::MAX), vec![chunk(1, 1, "a")]);
}

#[test]
fn files_that_are_empty_or_binary_have_no_chunks() {
    assert!(!indexable(b""));
    assert!(!indexable(b"ab\0cd"));
    assert!(indexable(b"abcd"));
    assert_eq!(file_chunks(b"", 2), vec![]);
    assert_eq!(file_chunks(b"a\0b\n", 2), vec![]);
    assert_eq!(file_chunks(b"  \n\t\n", 2), vec![]);
    assert_eq!(
        file_chunks(b"one\r\ntwo\nthree\n", 2),
        vec![chunk(1, 2, "one\ntwo"), chunk(3, 3, "three")]
    );
    // Bytes that are no UTF-8 are read leniently.
    assert_eq!(file_chunks(b"a\xffb\n", 2), vec![chunk(1, 1, "a\u{fffd}b")]);
}

#[test]
fn file_entry_hashes_the_raw_bytes() {
    let entry = file_entry("src/a.rs", b"abc", 17, 3);
    assert_eq!(entry.path, "src/a.rs");
    assert_eq!(entry.content_hash, hash_bytes(b"abc"));
    assert_eq!(entry.mtime, 17);
    assert_eq!(entry.size, 3);
}

fn enabled_config() -> SemanticIndexConfig {
    SemanticIndexConfig::new("/work", None)
}

fn disabled_config() -> SemanticIndexConfig {
    let mut config = enabled_config();
    config.enabled = false;
    config
}

#[test]
fn a_build_fails_fast_where_the_index_is_off() {
    let err = start_build(&disabled_config()).expect_err("disabled");
    assert!(matches!(err, SemanticError::Disabled));
    assert_eq!(err.message(), "semantic index is disabled; enable it under [semantic_index]");
    assert_eq!(start_build(&enabled_config()).expect("state"), BuildState { embedding_dim: None });
}

#[test]
fn embeddings_become_chunk_entries() {
    let mut state = BuildState { embedding_dim: None };
    let chunks = vec![chunk(1, 2, "one\ntwo"), chunk(3, 4, "three\nfour")];
    let embeddings = vec![bits(&[1.0, 0.0, 0.5]), bits(&[0.0, 1.0, 0.5])];
    let at = Timestamp { secs: 5, nanos: 6 };
    let batch = accept_embeddings(&mut state, "src/a.rs", "/work/src/a.rs", &chunks, &embeddings, at);
    assert!(batch.failure.is_none());
    assert_eq!(state.embedding_dim, Some(3));
    assert_eq!(batch.entries.len(), 2);
    let first = &batch.entries[0];
    assert_eq!(first.file_path, "src/a.rs");
    assert_eq!((first.start_line, first.end_line), (1, 2));
    assert_eq!(first.text_hash, hash_string("one\ntwo"));
    assert_eq!(first.chunk_id, chunk_id("src/a.rs", 1, 2, &hash_string("one\ntwo")));
    assert_eq!(first.embedding, embeddings[0]);
    assert_eq!(first.updated_at, at);
    assert_eq!(batch.entries[1].embedding, embeddings[1]);
    assert_eq!(chunk_texts(&chunks), vec!["one\ntwo".to_string(), "three\nfour".to_string()]);
}

#[test]
fn a_wrong_number_of_embeddings_stops_the_build() {
    let mut state = BuildState { embedding_dim: Some(3) };
    let chunks = vec![chunk(1, 2, "one\ntwo"), chunk(3, 4, "three\nfour")];
    let embeddings = vec![bits(&[1.0, 0.0, 0.5])];
    let at = Timestamp { secs: 5, nanos: 6 };
    let batch = accept_embeddings(&mut state, "src/a.rs", "/work/src/a.rs", &chunks, &embeddings, at);
    assert!(batch.entries.is_empty());
    assert_eq!(state.embedding_dim, Some(3));
    let err = batch.failure.expect("failure");
    assert!(matches!(
        &err,
        SemanticError::EmbeddingCountMismatch { path, expected: 2, got: 1 } if path == "/work/src/a.rs"
    ));
    assert_eq!(err.message(), "embedding response mismatch for /work/src/a.rs (expected 2, got 1)");
}

#[test]
fn a_change_of_dimension_stops_the_build() {
    let mut state = BuildState { embedding_dim: None };
    let chunks = vec![chunk(1, 1, "a"), chunk(2, 2, "b"), chunk(3, 3, "c")];
    let embeddings = vec![bits(&[1.0, 0.0]), bits(&[1.0, 0.0, 0.0]), bits(&[1.0, 0.0])];
    let at = Timestamp { secs: 5, nanos: 6 };
    let batch = accept_embeddings(&mut state, "a", "/work/a", &chunks, &embeddings, at);
    assert_eq!(batch.entries.len(), 1);
    assert_eq!(state.embedding_dim, Some(2));
    let err = batch.failure.expect("failure");
    assert!(matches!(err, SemanticError::DimensionChanged { from: 2, to: 3 }));
    assert_eq!(err.message(), "embedding dimension changed from 2 to 3");

    // The dimension carries over from file to file.
    let mut state = BuildState { embedding_dim: Some(4) };
    let batch = accept_embeddings(&mut state, "a", "/work/a", &chunks[..1].to_vec(), &embeddings[..1].to_vec(), at);
    assert!(batch.entries.is_empty());
    assert!(matches!(batch.failure, Some(SemanticError::DimensionChanged { from: 4, to: 2 })));
}

#[test]
fn the_meta_row_names_the_build() {
    let config = enabled_config();
    let at = Timestamp { secs: 5, nanos: 6 };
    let meta = index_meta(&BuildState { embedding_dim: None }, &config, at, "/work");
    assert_eq!(meta.schema_version, SCHEMA_VERSION);
    assert_eq!(meta.schema_version, 1);
    assert_eq!(meta.embedding_model, config.embedding_model);
    assert_eq!(meta.dim, 0);
    assert_eq!(meta.chunk_size, 120);
    assert_eq!(meta.created_at, at);
    assert_eq!(meta.workspace_fingerprint, hash_string("/work"));
    let meta = index_meta(&BuildState { embedding_dim: Some(1536) }, &config, at, "/work");
    assert_eq!(meta.dim, 1536);
}

#[test]
fn the_walk_skips_the_index_and_version_control() {
    let root = "/work";
    let index = "/work/.index";
    assert!(should_skip_entry("/work/.index", root, index));
    assert!(should_skip_entry("/work/.index/index.sqlite", root, index));
    assert!(should_skip_entry("/work/.git", root, index));
    assert!(should_skip_entry("/work/sub/.git/config", root, index));
    assert!(!should_skip_entry("/work/.gitignore", root, index));
    assert!(!should_skip_entry("/work/src/a.rs", root, index));
    assert!(!should_skip_entry("/work/.indexed/a.rs", root, index));
    // A `.git` above the workspace does not count.
    assert!(!should_skip_entry("/x/.git/work/a.rs", "/x/.git/work", "/x/.git/work/.index"));
}

#[test]
fn messages_of_the_other_errors() {
    assert_eq!(SemanticError::MissingEmbedding.message(), "missing embedding result");
    assert_eq!(
        SemanticError::NotFound { path: "/w/.index/index.sqlite".to_string() }.message(),
        "semantic index not found at /w/.index/index.sqlite"
    );
}

#[test]
fn a_search_starts_by_its_query() {
    assert!(matches!(start_search(&disabled_config(), "x"), Err(SemanticError::Disabled)));
    assert!(matches!(start_search(&disabled_config(), " "), Err(SemanticError::Disabled)));
    assert!(matches!(start_search(&enabled_config(), ""), Ok(None)));
    assert!(matches!(start_search(&enabled_config(), " \t\n"), Ok(None)));
    assert_eq!(start_search(&enabled_config(), " find me ").expect("ok").as_deref(), Some(" find me "));
    assert!(matches!(query_embedding(&vec![]), Err(SemanticError::MissingEmbedding)));
    assert_eq!(query_embedding(&vec![vec![1, 2], vec![3]]).expect("first"), vec![1, 2]);
}

fn hit(path: &str, start_line: usize, score: f32, id: &str) -> SearchHit {
    SearchHit {
        file_path: path.to_string(),
        start_line,
        end_line: start_line + 1,
        score_bits: score.to_bits(),
        chunk_id: id.to_string(),
    }
}

fn ids(hits: &[SearchHit]) -> Vec<&str> {
    hits.iter().map(|h| h.chunk_id.as_str()).collect()
}

#[test]
fn hits_rank_by_score_then_path_then_line() {
    let hits = vec![
        hit("b.rs", 1, 0.5, "b1"),
        hit("a.rs", 9, 0.5, "a9"),
        hit("a.rs", 3, 0.5, "a3"),
        hit("z.rs", 1, 0.9, "z1"),
        hit("c.rs", 1, -0.2, "c1"),
        hit("d.rs", 1, 0.0, "d1"),
        hit("e.rs", 1, -0.9, "e1"),
    ];
    let best = rank_hits(&hits, 10);
    assert_eq!(ids(&best), vec!["z1", "a3", "a9", "b1", "d1", "c1", "e1"]);
    assert_eq!(ids(&rank_hits(&hits, 3)), vec!["z1", "a3", "a9"]);
    assert_eq!(ids(&rank_hits(&hits, 0)), Vec::<&str>::new());
    assert_eq!(ids(&rank_hits(&hits, 7)), vec!["z1", "a3", "a9", "b1", "d1", "c1", "e1"]);
}

#[test]
fn hits_of_the_same_rank_keep_their_order() {
    let hits = vec![hit("a.rs", 1, 0.5, "first"), hit("a.rs", 1, 0.5, "second"), hit("a.rs", 1, 0.5, "third")];
    assert_eq!(ids(&rank_hits(&hits, 10)), vec!["first", "second", "third"]);
    // Both zeros are the same score.
    let zeros = vec![hit("b.rs", 1, -0.0, "minus"), hit("a.rs", 1, 0.0, "plus")];
    assert_eq!(ids(&rank_hits(&zeros, 10)), vec!["plus", "minus"]);
}

#[test]
fn score_rank_rises_with_the_score() {
    let scores = [-1.0_f32, -0.5, -1e-30, 0.0, 1e-30, 0.25, 0.5, 1.0];
    for pair in scores.windows(2) {
        assert!(score_rank(pair[0].to_bits()) < score_rank(pair[1].to_bits()), "{pair:?}");
    }
    assert_eq!(score_rank(0.0_f32.to_bits()), score_rank((-0.0_f32).to_bits()));
    assert!(ranks_before(&hit("a", 1, 0.9, "x"), &hit("a", 1, 0.1, "y")));
    assert!(!ranks_before(&hit("a", 1, 0.1, "x"), &hit("a", 1, 0.9, "y")));
    assert!(ranks_before(&hit("a", 1, 0.5, "x"), &hit("b", 1, 0.5, "y")));
    assert!(ranks_before(&hit("a", 1, 0.5, "x"), &hit("a", 2, 0.5, "y")));
    assert!(!ranks_before(&hit("a", 1, 0.5, "x"), &hit("a", 1, 0.5, "y")));
}

fn record(path: &str, start_line: usize, id: &str) -> EmbeddingRecord {
    EmbeddingRecord {
        file_path: path.to_string(),
        chunk_id: id.to_string(),
        start_line,
        end_line: start_line + 2,
        embedding: bits(&[1.0]),
    }
}

#[test]
fn records_without_a_score_are_no_hits() {
    let query = bits(&[0.5]);
    let records = vec![record("a.rs", 1, "a"), record("b.rs", 1, "b"), record("c.rs", 1, "c")];
    let scores = vec![Some(0.1_f32.to_bits()), None, Some(0.7_f32.to_bits())];
    let hits = collect_hits(&query, &records, &scores);
    assert_eq!(ids(&hits), vec!["a", "c"]);
    assert_eq!(hits[0].end_line, 3);
    assert_eq!(hits[1].score_bits, 0.7_f32.to_bits());
    let best = finish_search(&query, &records, &scores, 1);
    assert_eq!(ids(&best), vec!["c"]);
    assert_eq!(ids(&finish_search(&query, &records, &vec![], 5)), Vec::<&str>::new());
}

#[test]
fn records_that_cannot_be_compared_are_no_hits() {
    let mut odd = record("b.rs", 1, "b");
    odd.embedding = bits(&[1.0, 2.0]);
    let mut empty = record("c.rs", 1, "c");
    empty.embedding = vec![];
    let records = vec![record("a.rs", 1, "a"), odd, empty];
    let scores = vec![Some(0.1_f32.to_bits()), Some(0.9_f32.to_bits()), Some(0.9_f32.to_bits())];
    assert_eq!(ids(&finish_search(&bits(&[0.5]), &records, &scores, 5)), vec!["a"]);
    assert_eq!(ids(&finish_search(&bits(&[0.5, 0.5]), &records, &scores, 5)), vec!["b"]);
    assert_eq!(ids(&finish_search(&[], &records, &scores, 5)), Vec::<&str>::new());
}

#[test]
fn embeddings_come_in_the_order_of_their_inputs() {
    let items = vec![
        EmbeddingItem { index: 2, embedding: vec![3] },
        EmbeddingItem { index: 0, embedding: vec![1] },
        EmbeddingItem { index: 1, embedding: vec![2] },
        EmbeddingItem { index: 1, embedding: vec![9] },
    ];
    assert_eq!(order_embeddings(&items), vec![vec![1], vec![2], vec![9], vec![3]]);
    assert_eq!(order_embeddings(&vec![]), Vec::<Vec<u32>>::new());
    assert_eq!(bearer_header("abc"), "Bearer abc");
    assert_eq!(
        failure_message("401 Unauthorized", "no key"),
        "embeddings request failed with 401 Unauthorized: no key"
    );
}

#[test]
fn a_file_without_chunks_is_not_indexed() {
    assert!(index_file("a.rs", b"", 1, 0, 2).is_none());
    assert!(index_file("a.rs", b"\0", 1, 1, 2).is_none());
    assert!(index_file("a.rs", b" \n \n", 1, 4, 2).is_none());
    assert!(index_file("a.rs", b"text", 1, 4, 0).is_none());
    let plan = index_file("a.rs", b"one\ntwo\nthree", 7, 13, 2).expect("plan");
    assert_eq!(plan.entry.path, "a.rs");
    assert_eq!(plan.entry.content_hash, hash_bytes(b"one\ntwo\nthree"));
    assert_eq!((plan.entry.mtime, plan.entry.size), (7, 13));
    assert_eq!(plan.chunks, vec![chunk(1, 2, "one\ntwo"), chunk(3, 3, "three")]);
}
