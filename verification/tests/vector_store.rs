use semcache::semantic::vector_store::{
    chunk_row, db_path, decode_embedding, embedding_record, encode_embedding, file_row, from_sql,
    index_report, meta_row, open_plan, stats_from_rows, to_sql, ChunkEntry, EmbeddingDecodeError, EmbeddingRow,
    FileEntry, IndexMeta, MetaSummaryRow, OpenPlan, StoreMode, Timestamp, DB_FILE_NAME,
};

fn bits(values: &[f32]) -> Vec<u32> {
    values.iter().map(|v| v.to_bits()).collect()
}

fn floats(bits: &[u32]) -> Vec<f32> {
    bits.iter().map(|b| f32::from_bits(*b)).collect()
}

#[test]
fn encode_decode_round_trip() {
    let values = vec![0.25_f32, -1.0_f32, 4.5_f32];
    let encoded = encode_embedding(&bits(&values));
    let decoded = decode_embedding(&encoded).expect("decode");
    assert_eq!(floats(&decoded), values);
}

#[test]
fn embedding_bytes_are_little_endian() {
    let values = vec![0.25_f32, -1.0_f32, 4.5_f32, f32::MAX, f32::MIN_POSITIVE, 0.0, -0.0];
    let mut expected = Vec::new();
    for v in &values {
        expected.extend_from_slice(&v.to_le_bytes());
    }
    assert_eq!(encode_embedding(&bits(&values)), expected);
    assert_eq!(encode_embedding(&[0x0403_0201]), vec![1, 2, 3, 4]);
    assert_eq!(decode_embedding(&[1, 2, 3, 4]), Ok(vec![0x0403_0201]));
    assert_eq!(encode_embedding(&[]), Vec::<u8>::new());
    assert_eq!(decode_embedding(&[]), Ok(vec![]));
    let nan = f32::NAN.to_bits();
    assert_eq!(decode_embedding(&encode_embedding(&[nan, u32::MAX])), Ok(vec![nan, u32::MAX]));
}

#[test]
fn blob_of_odd_length_is_refused() {
    for len in [1usize, 2, 3, 5, 7, 9] {
        let blob = vec![0u8; len];
        let err = decode_embedding(&blob).expect_err("refused");
        assert_eq!(err, EmbeddingDecodeError { len, element_size: 4 });
    }
    let err = EmbeddingDecodeError { len: 7, element_size: 4 };
    assert_eq!(err.message(), "embedding blob length 7 is not a multiple of 4");
}

#[test]
fn stats_empty_when_missing_meta() {
    let stats = stats_from_rows(0, 0, None);
    assert_eq!(stats.file_count, 0);
    assert_eq!(stats.chunk_count, 0);
    assert_eq!(stats.embedding_model, None);
    assert_eq!(stats.embedding_dim, None);
    assert_eq!(stats.created_at, None);
}

#[test]
fn stats_report_the_meta_row() {
    let row = MetaSummaryRow {
        embedding_model: "model-x".to_string(),
        dim: 3,
        created_at: "2024-05-06T07:08:09.5+00:00".to_string(),
    };
    let stats = stats_from_rows(2, 5, Some(row));
    assert_eq!(stats.file_count, 2);
    assert_eq!(stats.chunk_count, 5);
    assert_eq!(stats.embedding_model.as_deref(), Some("model-x"));
    assert_eq!(stats.embedding_dim, Some(3));
    assert_eq!(stats.created_at, Some(Timestamp { secs: 1714979289, nanos: 500_000_000 }));

    let unreadable = MetaSummaryRow {
        embedding_model: "m".to_string(),
        dim: 0,
        created_at: "yesterday".to_string(),
    };
    let stats = stats_from_rows(1, 1, Some(unreadable));
    assert_eq!(stats.embedding_dim, Some(0));
    assert_eq!(stats.created_at, None);
}

#[test]
fn timestamps_are_written_as_rfc3339() {
    let moment = Timestamp { secs: 1714979289, nanos: 0 };
    assert_eq!(moment.to_rfc3339().as_deref(), Some("2024-05-06T07:08:09+00:00"));
    assert_eq!(Timestamp::parse_rfc3339("2024-05-06T07:08:09+00:00"), Some(moment));
    assert_eq!(Timestamp::parse_rfc3339("2024-05-06T09:08:09+02:00"), Some(moment));
    assert_eq!(Timestamp::parse_rfc3339("2024-05-06T07:08:09Z"), Some(moment));
    assert_eq!(Timestamp::parse_rfc3339(""), None);
    assert_eq!(Timestamp { secs: 0, nanos: 0 }.to_rfc3339().as_deref(), Some("1970-01-01T00:00:00+00:00"));
    assert_eq!(Timestamp { secs: i64::MAX, nanos: 0 }.to_rfc3339(), None);
    assert_eq!(Timestamp { secs: 0, nanos: u32::MAX }.to_rfc3339(), None);
    let fine = Timestamp { secs: 1, nanos: 123_456_789 };
    let text = fine.to_rfc3339().expect("text");
    assert_eq!(Timestamp::parse_rfc3339(&text), Some(fine));
}

#[test]
fn rows_hold_what_the_entries_hold() {
    let at = Timestamp { secs: 1714979289, nanos: 0 };
    let meta = IndexMeta {
        schema_version: 1,
        embedding_model: "model-x".to_string(),
        dim: 3,
        chunk_size: 120,
        created_at: at,
        workspace_fingerprint: "f".to_string(),
    };
    let row = meta_row(&meta).expect("row");
    assert_eq!(row.schema_version, 1);
    assert_eq!(row.embedding_model, "model-x");
    assert_eq!(row.dim, 3);
    assert_eq!(row.chunk_size, 120);
    assert_eq!(row.created_at, "2024-05-06T07:08:09+00:00");
    assert_eq!(row.workspace_fingerprint, "f");
    assert!(meta_row(&IndexMeta { created_at: Timestamp { secs: i64::MIN, nanos: 0 }, ..meta }).is_none());

    let file = FileEntry { path: "a.rs".to_string(), content_hash: "h".to_string(), mtime: -5, size: 9 };
    let row = file_row(&file);
    assert_eq!((row.path.as_str(), row.content_hash.as_str(), row.mtime, row.size), ("a.rs", "h", -5, 9));
    assert_eq!(file_row(&FileEntry { size: u64::MAX, ..file }).size, i64::MAX);

    let chunk = ChunkEntry {
        file_path: "a.rs".to_string(),
        chunk_id: "id".to_string(),
        start_line: 1,
        end_line: 2,
        text_hash: "th".to_string(),
        embedding: bits(&[1.0, 2.0]),
        updated_at: at,
    };
    let row = chunk_row(&chunk).expect("row");
    assert_eq!(row.file_path, "a.rs");
    assert_eq!(row.chunk_id, "id");
    assert_eq!((row.start_line, row.end_line), (1, 2));
    assert_eq!(row.text_hash, "th");
    assert_eq!(row.embedding.len(), 8);
    assert_eq!(row.updated_at, "2024-05-06T07:08:09+00:00");

    let read = embedding_record(&EmbeddingRow {
        file_path: row.file_path.clone(),
        chunk_id: row.chunk_id.clone(),
        start_line: row.start_line,
        end_line: row.end_line,
        embedding: row.embedding.clone(),
    })
    .expect("record");
    assert_eq!(read.file_path, "a.rs");
    assert_eq!(read.chunk_id, "id");
    assert_eq!((read.start_line, read.end_line), (1, 2));
    assert_eq!(floats(&read.embedding), vec![1.0, 2.0]);

    let broken = embedding_record(&EmbeddingRow {
        file_path: "a.rs".to_string(),
        chunk_id: "id".to_string(),
        start_line: 1,
        end_line: 2,
        embedding: vec![1, 2, 3],
    });
    assert_eq!(broken.expect_err("refused"), EmbeddingDecodeError { len: 3, element_size: 4 });
}

#[test]
fn counts_pass_through_the_store() {
    assert_eq!(to_sql(0), 0);
    assert_eq!(to_sql(12), 12);
    assert_eq!(to_sql(usize::MAX), i64::MAX);
    assert_eq!(from_sql(12), 12);
    assert_eq!(from_sql(-1), 0);
    assert_eq!(from_sql(i64::MAX), i64::MAX as usize);
}

#[test]
fn open_modes_decide_what_happens_to_the_file() {
    assert_eq!(open_plan(StoreMode::Reset, true), OpenPlan::RemoveThenOpen);
    assert_eq!(open_plan(StoreMode::Reset, false), OpenPlan::Open);
    assert_eq!(open_plan(StoreMode::OpenExisting, true), OpenPlan::Open);
    assert_eq!(open_plan(StoreMode::OpenExisting, false), OpenPlan::NotFound);
    assert_eq!(open_plan(StoreMode::CreateOrOpen, true), OpenPlan::Open);
    assert_eq!(open_plan(StoreMode::CreateOrOpen, false), OpenPlan::Open);
    assert_eq!(db_path("/w/.index"), "/w/.index/index.sqlite");
    assert_eq!(DB_FILE_NAME, "index.sqlite");
}

#[test]
fn the_index_is_reported_in_lines() {
    let row = MetaSummaryRow {
        embedding_model: "model-x".to_string(),
        dim: 3,
        created_at: "2024-05-06T07:08:09+00:00".to_string(),
    };
    let stats = stats_from_rows(2, 5, Some(row));
    assert_eq!(
        index_report("/w/.index", &stats, false),
        vec!["Index dir: /w/.index", "Files: 2", "Chunks: 5", "Embedding model: model-x"]
    );
    assert_eq!(
        index_report("/w/.index", &stats, true),
        vec![
            "Index dir: /w/.index",
            "Files: 2",
            "Chunks: 5",
            "Embedding model: model-x",
            "Embedding dim: 3",
            "Created at: 2024-05-06T07:08:09+00:00"
        ]
    );
    let bare = stats_from_rows(0, 0, None);
    assert_eq!(index_report("d", &bare, true), vec!["Index dir: d", "Files: 0", "Chunks: 0"]);
}
