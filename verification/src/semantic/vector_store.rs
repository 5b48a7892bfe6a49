//! What the vector store holds and how it is written down: the rows of its
//! three tables, and embeddings as blobs of bytes.
use vstd::prelude::*;
use vstd::string::StringExecFns;
use crate::text::{decimal, push_decimal, views};

verus! {

/// The name of the file of the store in the directory of the index.
pub const DB_FILE_NAME: &'static str = "index.sqlite";

/// The number of bytes of one number of an embedding.
pub const ELEMENT_SIZE: usize = 4;

/// A moment as seconds since the Unix epoch and nanoseconds of the second.
#[derive(Debug, Clone, Copy, PartialEq, Eq, Structural)]
pub struct Timestamp {
    pub secs: i64,
    pub nanos: u32,
}

/// The one row that describes the index as a whole.
#[derive(Debug, Clone)]
pub struct IndexMeta {
    pub schema_version: i32,
    pub embedding_model: String,
    pub dim: usize,
    pub chunk_size: usize,
    pub created_at: Timestamp,
    pub workspace_fingerprint: String,
}

/// How much the index holds, and of what kind where it says so.
#[derive(Debug, Clone)]
pub struct IndexStats {
    pub file_count: usize,
    pub chunk_count: usize,
    pub embedding_model: Option<String>,
    pub embedding_dim: Option<usize>,
    pub created_at: Option<Timestamp>,
}

/// One indexed file.
#[derive(Debug, Clone)]
pub struct FileEntry {
    pub path: String,
    pub content_hash: String,
    pub mtime: i64,
    pub size: u64,
}

/// One chunk with its embedding. Each number of the embedding is held as
/// the 32 bits of its floating-point form.
#[derive(Debug, Clone)]
pub struct ChunkEntry {
    pub file_path: String,
    pub chunk_id: String,
    pub start_line: usize,
    pub end_line: usize,
    pub text_hash: String,
    pub embedding: Vec<u32>,
    pub updated_at: Timestamp,
}

/// What search reads of one chunk.
#[derive(Debug, Clone)]
pub struct EmbeddingRecord {
    pub file_path: String,
    pub chunk_id: String,
    pub start_line: usize,
    pub end_line: usize,
    pub embedding: Vec<u32>,
}

/// How a store is opened.
#[derive(Debug, Clone, Copy, PartialEq, Eq, Structural)]
pub enum StoreMode {
    /// The store must be there.
    OpenExisting,
    /// The store is made where it is missing.
    CreateOrOpen,
    /// A store that is there is deleted first.
    Reset,
}

/// What opening a store asks of the disk.
#[derive(Debug, Clone, Copy, PartialEq, Eq, Structural)]
pub enum OpenPlan {
    /// Open the file, making it where it is missing.
    Open,
    /// Delete the file, then open a new one.
    RemoveThenOpen,
    /// Give up: the store is missing.
    NotFound,
}

/// What opening in `mode` asks for, given whether the file exists.
pub open spec fn spec_open_plan(mode: StoreMode, exists: bool) -> OpenPlan {
    match mode {
        StoreMode::Reset => if exists {
            OpenPlan::RemoveThenOpen
        } else {
            OpenPlan::Open
        },
        StoreMode::OpenExisting => if exists {
            OpenPlan::Open
        } else {
            OpenPlan::NotFound
        },
        StoreMode::CreateOrOpen => OpenPlan::Open,
    }
}

/// What opening in `mode` asks for, given whether the file exists.
#[verifier::when_used_as_spec(spec_open_plan)]
pub fn open_plan(mode: StoreMode, exists: bool) -> (plan: OpenPlan)
    ensures
        plan == spec_open_plan(mode, exists),
{
    match mode {
        StoreMode::Reset => if exists {
            OpenPlan::RemoveThenOpen
        } else {
            OpenPlan::Open
        },
        StoreMode::OpenExisting => if exists {
            OpenPlan::Open
        } else {
            OpenPlan::NotFound
        },
        StoreMode::CreateOrOpen => OpenPlan::Open,
    }
}

/// The file of the store in the directory `dir`.
pub fn db_path(dir: &str) -> (path: String)
    ensures
        path@ == dir@ + "/"@ + DB_FILE_NAME@,
{
    String::from_str(dir).concat("/").concat(DB_FILE_NAME)
}

/// The four bytes of `bits`, the lowest first.
pub open spec fn le_bytes(bits: u32) -> Seq<u8> {
    seq![
        (bits & 0xff) as u8,
        ((bits >> 8) & 0xff) as u8,
        ((bits >> 16) & 0xff) as u8,
        ((bits >> 24) & 0xff) as u8,
    ]
}

/// The number whose four bytes, the lowest first, are `b0` to `b3`.
pub open spec fn from_le_bytes(b0: u8, b1: u8, b2: u8, b3: u8) -> u32 {
    (b0 as u32) | ((b1 as u32) << 8) | ((b2 as u32) << 16) | ((b3 as u32) << 24)
}

/// The blob of `embedding`: the bytes of each number, one number after the
/// other.
pub open spec fn encoded(embedding: Seq<u32>) -> Seq<u8>
    decreases embedding.len(),
{
    if embedding.len() == 0 {
        Seq::empty()
    } else {
        encoded(embedding.drop_last()) + le_bytes(embedding.last())
    }
}

/// The embedding of `blob`, whose length is a multiple of four.
pub open spec fn decoded(blob: Seq<u8>) -> Seq<u32>
    decreases blob.len(),
{
    if blob.len() < 4 {
        Seq::empty()
    } else {
        let n = blob.len() - 4;
        decoded(blob.subrange(0, n)).push(
            from_le_bytes(blob[n], blob[n + 1], blob[n + 2], blob[n + 3]),
        )
    }
}

/// A blob holds four bytes for each number.
pub proof fn lemma_encoded_len(embedding: Seq<u32>)
    ensures
        encoded(embedding).len() == 4 * embedding.len(),
    decreases embedding.len(),
{
    if embedding.len() > 0 {
        lemma_encoded_len(embedding.drop_last());
    }
}

/// The bytes of a number give the number back.
pub proof fn lemma_le_bytes_round_trip(bits: u32)
    ensures
        from_le_bytes(
            (bits & 0xff) as u8,
            ((bits >> 8) & 0xff) as u8,
            ((bits >> 16) & 0xff) as u8,
            ((bits >> 24) & 0xff) as u8,
        ) == bits,
{
    assert(((bits & 0xff) as u8 as u32) | ((((bits >> 8) & 0xff) as u8 as u32) << 8) | ((((bits
        >> 16) & 0xff) as u8 as u32) << 16) | ((((bits >> 24) & 0xff) as u8 as u32) << 24) == bits)
        by (bit_vector);
}

/// Decoding the blob of an embedding gives the embedding back.
pub proof fn lemma_decode_encode(embedding: Seq<u32>)
    ensures
        decoded(encoded(embedding)) == embedding,
        encoded(embedding).len() % 4 == 0,
    decreases embedding.len(),
{
    lemma_encoded_len(embedding);
    if embedding.len() > 0 {
        let head = embedding.drop_last();
        let blob = encoded(embedding);
        lemma_encoded_len(head);
        lemma_decode_encode(head);
        lemma_le_bytes_round_trip(embedding.last());
        let n = blob.len() - 4;
        assert(blob.subrange(0, n) == encoded(head));
        assert(blob[n] == le_bytes(embedding.last())[0]);
        assert(blob[n + 1] == le_bytes(embedding.last())[1]);
        assert(blob[n + 2] == le_bytes(embedding.last())[2]);
        assert(blob[n + 3] == le_bytes(embedding.last())[3]);
        assert(embedding == head.push(embedding.last()));
    }
}

/// The blob of `embedding`.
pub fn encode_embedding(embedding: &[u32]) -> (blob: Vec<u8>)
    ensures
        blob@ == encoded(embedding@),
{
    let mut blob: Vec<u8> = Vec::new();
    let mut i: usize = 0;
    while i < embedding.len()
        invariant
            i <= embedding@.len(),
            blob@ == encoded(embedding@.subrange(0, i as int)),
        decreases embedding@.len() - i,
    {
        let bits = embedding[i];
        assert(embedding@.subrange(0, i + 1).drop_last() == embedding@.subrange(0, i as int));
        let ghost before = blob@;
        blob.push((bits & 0xff) as u8);
        blob.push(((bits >> 8) & 0xff) as u8);
        blob.push(((bits >> 16) & 0xff) as u8);
        blob.push(((bits >> 24) & 0xff) as u8);
        assert(blob@ == before + le_bytes(bits));
        i += 1;
    }
    assert(embedding@.subrange(0, i as int) == embedding@);
    blob
}

/// Why a blob is no embedding: its length is no multiple of the size of one
/// number.
#[derive(Debug, Clone, Copy, PartialEq, Eq, Structural)]
pub struct EmbeddingDecodeError {
    pub len: usize,
    pub element_size: usize,
}

impl EmbeddingDecodeError {
    /// The error in words.
    pub fn message(&self) -> (text: String)
        ensures
            text@ == "embedding blob length "@ + decimal(self.len as nat)
                + " is not a multiple of "@ + decimal(self.element_size as nat),
    {
        let mut text = String::from_str("embedding blob length ");
        push_decimal(&mut text, self.len as u128);
        text.append(" is not a multiple of ");
        push_decimal(&mut text, self.element_size as u128);
        text
    }
}

/// The embedding of `blob`; an error where the length of the blob is no
/// multiple of four.
pub fn decode_embedding(blob: &[u8]) -> (embedding: Result<Vec<u32>, EmbeddingDecodeError>)
    ensures
        match embedding {
            Ok(values) => blob@.len() % 4 == 0 && values@ == decoded(blob@),
            Err(err) => blob@.len() % 4 != 0 && err == (EmbeddingDecodeError {
                len: blob@.len() as usize,
                element_size: 4,
            }),
        },
{
    if blob.len() % ELEMENT_SIZE != 0 {
        return Err(EmbeddingDecodeError { len: blob.len(), element_size: ELEMENT_SIZE });
    }
    let mut values: Vec<u32> = Vec::new();
    let mut i: usize = 0;
    while i < blob.len()
        invariant
            blob@.len() % 4 == 0,
            i % 4 == 0,
            i <= blob@.len(),
            values@ == decoded(blob@.subrange(0, i as int)),
        decreases blob@.len() - i,
    {
        let value = (blob[i] as u32) | ((blob[i + 1] as u32) << 8) | ((blob[i + 2] as u32) << 16)
            | ((blob[i + 3] as u32) << 24);
        let ghost next = blob@.subrange(0, i + 4);
        assert(next.subrange(0, next.len() - 4) == blob@.subrange(0, i as int));
        assert(next[i as int] == blob@[i as int]);
        values.push(value);
        i += 4;
    }
    assert(blob@.subrange(0, i as int) == blob@);
    Ok(values)
}

/// The moment `secs` seconds and `nanos` nanoseconds after the Unix epoch,
/// written as RFC 3339 demands; none for a moment outside the calendar.
pub uninterp spec fn rfc3339_text(secs: i64, nanos: u32) -> Option<Seq<char>>;

/// The moment that an RFC 3339 text names, as seconds and nanoseconds after
/// the Unix epoch; none for a text that names no moment.
pub uninterp spec fn rfc3339_moment(text: Seq<char>) -> Option<(i64, u32)>;

/// Writes a moment with `chrono::DateTime::from_timestamp` and
/// `chrono::DateTime::to_rfc3339`. The text is a function of the moment
/// alone; where `from_timestamp` takes the moment to lie outside the
/// calendar there is none.
#[verifier::external_body]
fn format_rfc3339(secs: i64, nanos: u32) -> (text: Option<String>)
    ensures
        match text {
            Some(written) => rfc3339_text(secs, nanos) == Some(written@),
            None => rfc3339_text(secs, nanos) is None,
        },
{
    match chrono::DateTime::from_timestamp(secs, nanos) {
        Some(moment) => Some(moment.to_rfc3339()),
        None => None,
    }
}

/// Reads a moment with `chrono::DateTime::parse_from_rfc3339`. The moment is
/// a function of the text alone; where the parser refuses the text there is
/// none.
#[verifier::external_body]
fn parse_rfc3339(text: &str) -> (moment: Option<(i64, u32)>)
    ensures
        moment == rfc3339_moment(text@),
{
    match chrono::DateTime::parse_from_rfc3339(text) {
        Ok(moment) => Some((moment.timestamp(), moment.timestamp_subsec_nanos())),
        Err(_) => None,
    }
}

impl Timestamp {
    /// The moment as RFC 3339 demands; none for a moment outside the
    /// calendar.
    pub fn to_rfc3339(&self) -> (text: Option<String>)
        ensures
            match text {
                Some(written) => rfc3339_text(self.secs, self.nanos) == Some(written@),
                None => rfc3339_text(self.secs, self.nanos) is None,
            },
    {
        format_rfc3339(self.secs, self.nanos)
    }

    /// The moment that `text` names; none where it names no moment.
    pub fn parse_rfc3339(text: &str) -> (moment: Option<Timestamp>)
        ensures
            moment == match rfc3339_moment(text@) {
                Some((secs, nanos)) => Some(Timestamp { secs, nanos }),
                None => None,
            },
    {
        match parse_rfc3339(text) {
            Some((secs, nanos)) => Some(Timestamp { secs, nanos }),
            None => None,
        }
    }
}

/// A count as the store holds it: the count itself, or the largest value of
/// a column where the count is beyond it.
pub open spec fn spec_to_sql(n: usize) -> i64 {
    if n > i64::MAX {
        i64::MAX
    } else {
        n as i64
    }
}

/// A count as the store holds it.
#[verifier::when_used_as_spec(spec_to_sql)]
pub fn to_sql(n: usize) -> (column: i64)
    ensures
        column == spec_to_sql(n),
{
    if n as u64 > i64::MAX as u64 {
        i64::MAX
    } else {
        n as i64
    }
}

/// The count that a column holds: zero below zero, and the largest count
/// beyond it.
pub open spec fn spec_from_sql(column: i64) -> usize {
    if column < 0 {
        0
    } else if column > usize::MAX {
        usize::MAX
    } else {
        column as usize
    }
}

/// The count that a column holds.
#[verifier::when_used_as_spec(spec_from_sql)]
pub fn from_sql(column: i64) -> (n: usize)
    ensures
        n == spec_from_sql(column),
{
    if column < 0 {
        0
    } else if column as u64 > usize::MAX as u64 {
        usize::MAX
    } else {
        column as usize
    }
}

/// The row of the table `meta`.
#[derive(Debug, Clone)]
pub struct MetaRow {
    pub schema_version: i32,
    pub embedding_model: String,
    pub dim: i64,
    pub chunk_size: i64,
    pub created_at: String,
    pub workspace_fingerprint: String,
}

/// A row of the table `files`.
#[derive(Debug, Clone)]
pub struct FileRow {
    pub path: String,
    pub content_hash: String,
    pub mtime: i64,
    pub size: i64,
}

/// A row of the table `chunks`.
#[derive(Debug, Clone)]
pub struct ChunkRow {
    pub file_path: String,
    pub chunk_id: String,
    pub start_line: i64,
    pub end_line: i64,
    pub text_hash: String,
    pub embedding: Vec<u8>,
    pub updated_at: String,
}

/// What search reads of a row of the table `chunks`.
#[derive(Debug, Clone)]
pub struct EmbeddingRow {
    pub file_path: String,
    pub chunk_id: String,
    pub start_line: i64,
    pub end_line: i64,
    pub embedding: Vec<u8>,
}

/// What `stats` reads of the row of the table `meta`.
#[derive(Debug, Clone)]
pub struct MetaSummaryRow {
    pub embedding_model: String,
    pub dim: i64,
    pub created_at: String,
}

/// The row that holds `meta`; none where the moment of its making lies
/// outside the calendar.
pub fn meta_row(meta: &IndexMeta) -> (row: Option<MetaRow>)
    ensures
        match row {
            Some(r) => {
                &&& rfc3339_text(meta.created_at.secs, meta.created_at.nanos) == Some(r.created_at@)
                &&& r.schema_version == meta.schema_version
                &&& r.embedding_model@ == meta.embedding_model@
                &&& r.dim == spec_to_sql(meta.dim)
                &&& r.chunk_size == spec_to_sql(meta.chunk_size)
                &&& r.workspace_fingerprint@ == meta.workspace_fingerprint@
            },
            None => rfc3339_text(meta.created_at.secs, meta.created_at.nanos) is None,
        },
{
    match meta.created_at.to_rfc3339() {
        Some(created_at) => Some(
            MetaRow {
                schema_version: meta.schema_version,
                embedding_model: meta.embedding_model.clone(),
                dim: to_sql(meta.dim),
                chunk_size: to_sql(meta.chunk_size),
                created_at,
                workspace_fingerprint: meta.workspace_fingerprint.clone(),
            },
        ),
        None => None,
    }
}

/// The size of a file as the store holds it.
pub open spec fn spec_size_to_sql(size: u64) -> i64 {
    if size > i64::MAX {
        i64::MAX
    } else {
        size as i64
    }
}

/// The row that holds `file`.
pub fn file_row(file: &FileEntry) -> (row: FileRow)
    ensures
        row.path@ == file.path@,
        row.content_hash@ == file.content_hash@,
        row.mtime == file.mtime,
        row.size == spec_size_to_sql(file.size),
{
    let size: i64 = if file.size > i64::MAX as u64 {
        i64::MAX
    } else {
        file.size as i64
    };
    FileRow {
        path: file.path.clone(),
        content_hash: file.content_hash.clone(),
        mtime: file.mtime,
        size,
    }
}

/// The row that holds `chunk`; none where the moment of its writing lies
/// outside the calendar.
pub fn chunk_row(chunk: &ChunkEntry) -> (row: Option<ChunkRow>)
    ensures
        match row {
            Some(r) => {
                &&& rfc3339_text(chunk.updated_at.secs, chunk.updated_at.nanos) == Some(
                    r.updated_at@,
                )
                &&& r.file_path@ == chunk.file_path@
                &&& r.chunk_id@ == chunk.chunk_id@
                &&& r.start_line == spec_to_sql(chunk.start_line)
                &&& r.end_line == spec_to_sql(chunk.end_line)
                &&& r.text_hash@ == chunk.text_hash@
                &&& r.embedding@ == encoded(chunk.embedding@)
            },
            None => rfc3339_text(chunk.updated_at.secs, chunk.updated_at.nanos) is None,
        },
{
    match chunk.updated_at.to_rfc3339() {
        Some(updated_at) => Some(
            ChunkRow {
                file_path: chunk.file_path.clone(),
                chunk_id: chunk.chunk_id.clone(),
                start_line: to_sql(chunk.start_line),
                end_line: to_sql(chunk.end_line),
                text_hash: chunk.text_hash.clone(),
                embedding: encode_embedding(chunk.embedding.as_slice()),
                updated_at,
            },
        ),
        None => None,
    }
}

/// What search reads of `row`; an error where its blob is no embedding.
pub fn embedding_record(row: &EmbeddingRow) -> (record: Result<EmbeddingRecord, EmbeddingDecodeError>)
    ensures
        match record {
            Ok(r) => {
                &&& row.embedding@.len() % 4 == 0
                &&& r.file_path@ == row.file_path@
                &&& r.chunk_id@ == row.chunk_id@
                &&& r.start_line == spec_from_sql(row.start_line)
                &&& r.end_line == spec_from_sql(row.end_line)
                &&& r.embedding@ == decoded(row.embedding@)
            },
            Err(err) => row.embedding@.len() % 4 != 0 && err == (EmbeddingDecodeError {
                len: row.embedding@.len() as usize,
                element_size: 4,
            }),
        },
{
    match decode_embedding(row.embedding.as_slice()) {
        Ok(embedding) => Ok(
            EmbeddingRecord {
                file_path: row.file_path.clone(),
                chunk_id: row.chunk_id.clone(),
                start_line: from_sql(row.start_line),
                end_line: from_sql(row.end_line),
                embedding,
            },
        ),
        Err(err) => Err(err),
    }
}

/// The report on a store with `file_count` files and `chunk_count` chunks,
/// and with `meta` as the row of its table `meta`, where it has one. Without
/// the row the report names no model, no dimension and no moment; with it,
/// the moment is there where the row holds one that can be read.
pub fn stats_from_rows(file_count: i64, chunk_count: i64, meta: Option<MetaSummaryRow>) -> (stats: IndexStats)
    ensures
        stats.file_count == spec_from_sql(file_count),
        stats.chunk_count == spec_from_sql(chunk_count),
        match meta {
            Some(row) => {
                &&& stats.embedding_model matches Some(model) && model@ == row.embedding_model@
                &&& stats.embedding_dim == Some(spec_from_sql(row.dim))
                &&& stats.created_at == match rfc3339_moment(row.created_at@) {
                    Some((secs, nanos)) => Some(Timestamp { secs, nanos }),
                    None => None,
                }
            },
            None => stats.embedding_model is None && stats.embedding_dim is None
                && stats.created_at is None,
        },
{
    match meta {
        Some(row) => {
            let created_at = Timestamp::parse_rfc3339(row.created_at.as_str());
            IndexStats {
                file_count: from_sql(file_count),
                chunk_count: from_sql(chunk_count),
                embedding_model: Some(row.embedding_model),
                embedding_dim: Some(from_sql(row.dim)),
                created_at,
            }
        },
        None => IndexStats {
            file_count: from_sql(file_count),
            chunk_count: from_sql(chunk_count),
            embedding_model: None,
            embedding_dim: None,
            created_at: None,
        },
    }
}

/// The line of a report that names the model, where the index names one.
pub open spec fn model_lines(stats: IndexStats) -> Seq<Seq<char>> {
    match stats.embedding_model {
        Some(model) => seq!["Embedding model: "@ + model@],
        None => Seq::empty(),
    }
}

/// The line of a report that names the number of numbers of an embedding,
/// where the index names one.
pub open spec fn dim_lines(stats: IndexStats) -> Seq<Seq<char>> {
    match stats.embedding_dim {
        Some(dim) => seq!["Embedding dim: "@ + decimal(dim as nat)],
        None => Seq::empty(),
    }
}

/// The line of a report that names the moment of the build, where the index
/// names one that the calendar holds.
pub open spec fn created_lines(stats: IndexStats) -> Seq<Seq<char>> {
    match stats.created_at {
        Some(moment) => match rfc3339_text(moment.secs, moment.nanos) {
            Some(text) => seq!["Created at: "@ + text],
            None => Seq::empty(),
        },
        None => Seq::empty(),
    }
}

/// The report on the index in the directory `dir`: the directory, the
/// number of files and of chunks and the model; in detail also the number
/// of numbers of an embedding and the moment of the build.
pub open spec fn index_report_lines(dir: Seq<char>, stats: IndexStats, detailed: bool) -> Seq<
    Seq<char>,
> {
    let head = seq![
        "Index dir: "@ + dir,
        "Files: "@ + decimal(stats.file_count as nat),
        "Chunks: "@ + decimal(stats.chunk_count as nat),
    ] + model_lines(stats);
    if detailed {
        head + dim_lines(stats) + created_lines(stats)
    } else {
        head
    }
}

/// The report on the index in the directory `dir`.
pub fn index_report(dir: &str, stats: &IndexStats, detailed: bool) -> (lines: Vec<String>)
    ensures
        views(lines@) == index_report_lines(dir@, *stats, detailed),
{
    let mut lines: Vec<String> = Vec::new();
    lines.push(String::from_str("Index dir: ").concat(dir));
    let mut files = String::from_str("Files: ");
    push_decimal(&mut files, stats.file_count as u128);
    lines.push(files);
    let mut chunks = String::from_str("Chunks: ");
    push_decimal(&mut chunks, stats.chunk_count as u128);
    lines.push(chunks);
    let ghost head = views(lines@);
    assert(head == seq![
        "Index dir: "@ + dir@,
        "Files: "@ + decimal(stats.file_count as nat),
        "Chunks: "@ + decimal(stats.chunk_count as nat),
    ]);
    if let Some(model) = &stats.embedding_model {
        lines.push(String::from_str("Embedding model: ").concat(model.as_str()));
    }
    assert(views(lines@) == head + model_lines(*stats));
    if detailed {
        let ghost before = views(lines@);
        if let Some(dim) = stats.embedding_dim {
            let mut line = String::from_str("Embedding dim: ");
            push_decimal(&mut line, dim as u128);
            lines.push(line);
        }
        assert(views(lines@) == before + dim_lines(*stats));
        let ghost with_dim = views(lines@);
        if let Some(moment) = stats.created_at {
            if let Some(text) = moment.to_rfc3339() {
                lines.push(String::from_str("Created at: ").concat(text.as_str()));
            }
        }
        assert(views(lines@) == with_dim + created_lines(*stats));
    }
    lines
}

} // verus!
