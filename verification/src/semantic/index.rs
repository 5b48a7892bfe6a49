//! Building the index and searching it, without the disk and the network:
//! how a file is cut into chunks, what is stored of it, and how hits are
//! ranked.
use vstd::prelude::*;
use vstd::utf8::encode_utf8;
use crate::json::{
    key_before, key_less, lemma_bytes_before_transitive, lemma_key_order,
};
use crate::order::{in_order, lemma_insert_by_at, lemma_stable_sort, ranks, stable_sort};
use vstd::slice::slice_to_vec;
use vstd::string::StringExecFns;
use vstd::string::StringSliceAdditionalSpecFns;
use crate::hash::{
    chunk_id, chunk_id_input, fingerprint_workspace, hash_bytes, hash_string, sha256_hex_digest,
};
use crate::paths::{contains_segment, has_segment, lies_below, relative_path, relative_to, starts_with};
use crate::semantic::config::SemanticIndexConfig;
use crate::semantic::vector_store::{ChunkEntry, EmbeddingRecord, FileEntry, IndexMeta, Timestamp};
use crate::text::{
    blank, chars_of, decimal, from_utf8_lossy, is_blank, join_lines, join_range, lines_of,
    push_decimal, split_lines, utf8_lossy, views,
};

verus! {

/// A run of lines of one file. Lines count from one, and `end_line` is the
/// last line of the run.
#[derive(Debug, Clone, PartialEq, Eq)]
pub struct Chunk {
    pub start_line: usize,
    pub end_line: usize,
    pub text: String,
}

/// A chunk as contracts see it.
pub struct ChunkView {
    pub start_line: nat,
    pub end_line: nat,
    pub text: Seq<char>,
}

impl View for Chunk {
    type V = ChunkView;

    open spec fn view(&self) -> ChunkView {
        ChunkView {
            start_line: self.start_line as nat,
            end_line: self.end_line as nat,
            text: self.text@,
        }
    }
}

/// The views of `chunks`.
pub open spec fn chunk_views(chunks: Seq<Chunk>) -> Seq<ChunkView> {
    Seq::new(chunks.len(), |i: int| chunks[i]@)
}

/// Where the window that starts behind line `from` ends.
pub open spec fn window_end(len: nat, max_lines: nat, from: nat) -> nat {
    if from + max_lines < len {
        from + max_lines
    } else {
        len
    }
}

/// The chunks of the lines behind line `from`: windows of `max_lines` lines,
/// the last one shorter where the lines run out, each with its lines joined
/// by newlines; a window of nothing but white space is left out.
pub open spec fn chunked_from(lines: Seq<Seq<char>>, max_lines: nat, from: nat) -> Seq<ChunkView>
    decreases lines.len() - from,
{
    if max_lines == 0 || from >= lines.len() {
        Seq::empty()
    } else {
        let to = window_end(lines.len(), max_lines, from);
        let text = join_lines(lines.subrange(from as int, to as int));
        let rest = chunked_from(lines, max_lines, to);
        if is_blank(text) {
            rest
        } else {
            seq![ChunkView { start_line: from + 1, end_line: to, text }] + rest
        }
    }
}

/// The chunks of `lines`; none where `max_lines` is zero.
pub open spec fn chunked(lines: Seq<Seq<char>>, max_lines: nat) -> Seq<ChunkView> {
    chunked_from(lines, max_lines, 0)
}

/// Cuts `lines` into chunks of at most `max_lines` lines.
pub fn chunk_lines(lines: &[String], max_lines: usize) -> (chunks: Vec<Chunk>)
    ensures
        chunk_views(chunks@) == chunked(views(lines@), max_lines as nat),
{
    let mut chunks: Vec<Chunk> = Vec::new();
    if max_lines == 0 {
        return chunks;
    }
    let mut from: usize = 0;
    while from < lines.len()
        invariant
            max_lines > 0,
            from <= lines@.len(),
            chunk_views(chunks@) + chunked_from(views(lines@), max_lines as nat, from as nat)
                == chunked(views(lines@), max_lines as nat),
        decreases lines@.len() - from,
    {
        let to = if lines.len() - from > max_lines {
            from + max_lines
        } else {
            lines.len()
        };
        assert(to == window_end(lines@.len(), max_lines as nat, from as nat));
        let text = join_range(lines, from, to);
        let text_chars = chars_of(text.as_str());
        if !blank(text_chars.as_slice()) {
            let ghost done = chunk_views(chunks@);
            let chunk = Chunk { start_line: from + 1, end_line: to, text };
            chunks.push(chunk);
            assert(chunk_views(chunks@) == done + seq![chunk@]);
        }
        from = to;
    }
    chunks
}

/// One chunk that a search found. The score is held as the 32 bits of its
/// floating-point form.
#[derive(Debug, Clone, PartialEq, Eq)]
pub struct SearchHit {
    pub file_path: String,
    pub start_line: usize,
    pub end_line: usize,
    pub score_bits: u32,
    pub chunk_id: String,
}

/// A hit as contracts see it.
pub struct HitView {
    pub file_path: Seq<char>,
    pub start_line: nat,
    pub end_line: nat,
    pub score_bits: u32,
    pub chunk_id: Seq<char>,
}

impl View for SearchHit {
    type V = HitView;

    open spec fn view(&self) -> HitView {
        HitView {
            file_path: self.file_path@,
            start_line: self.start_line as nat,
            end_line: self.end_line as nat,
            score_bits: self.score_bits,
            chunk_id: self.chunk_id@,
        }
    }
}

/// The views of `hits`.
pub open spec fn hit_views(hits: Seq<SearchHit>) -> Seq<HitView> {
    Seq::new(hits.len(), |i: int| hits[i]@)
}

/// A number that rises with the score whose bits are `bits`. Scores above
/// zero rise with their bits, scores below zero fall with them, and both
/// zeros are the same.
pub open spec fn score_key(bits: u32) -> int {
    if bits == 0x8000_0000 {
        0x8000_0000
    } else if bits < 0x8000_0000 {
        bits + 0x8000_0000
    } else {
        0xFFFF_FFFF - bits
    }
}

/// A number that rises with the score whose bits are `bits`.
pub fn score_rank(bits: u32) -> (rank: u64)
    ensures
        rank == score_key(bits),
{
    if bits == 0x8000_0000 {
        0x8000_0000
    } else if bits < 0x8000_0000 {
        bits as u64 + 0x8000_0000
    } else {
        0xFFFF_FFFF - bits as u64
    }
}

/// Whether `a` ranks before `b`: by the higher score; at the same score by
/// the path that comes first; on the same path by the line that comes
/// first.
pub open spec fn hit_before(a: HitView, b: HitView) -> bool {
    if score_key(a.score_bits) != score_key(b.score_bits) {
        score_key(a.score_bits) > score_key(b.score_bits)
    } else if a.file_path != b.file_path {
        key_before(a.file_path, b.file_path)
    } else {
        a.start_line < b.start_line
    }
}

/// Whether `a` ranks before `b`.
pub fn ranks_before(a: &SearchHit, b: &SearchHit) -> (before: bool)
    ensures
        before == hit_before(a@, b@),
{
    let ka = score_rank(a.score_bits);
    let kb = score_rank(b.score_bits);
    if ka != kb {
        return ka > kb;
    }
    proof {
        lemma_key_order(a.file_path@, b.file_path@);
    }
    if key_less(a.file_path.as_str(), b.file_path.as_str()) {
        return true;
    }
    if key_less(b.file_path.as_str(), a.file_path.as_str()) {
        return false;
    }
    a.start_line < b.start_line
}

/// The order of hits ranks them.
pub proof fn lemma_hit_before_ranks()
    ensures
        ranks(|a: HitView, b: HitView| hit_before(a, b)),
{
    let before = |a: HitView, b: HitView| hit_before(a, b);
    assert forall|a: HitView, b: HitView| #[trigger] before(a, b) implies !before(b, a) by {
        lemma_key_order(a.file_path, b.file_path);
    }
    assert forall|a: HitView, b: HitView, c: HitView|
        !(#[trigger] before(a, b)) && !(#[trigger] before(b, c)) implies !before(a, c) by {
        lemma_key_order(a.file_path, b.file_path);
        lemma_key_order(b.file_path, c.file_path);
        lemma_key_order(a.file_path, c.file_path);
        if key_before(a.file_path, c.file_path) && key_before(c.file_path, b.file_path) {
            lemma_bytes_before_transitive(
                encode_utf8(a.file_path),
                encode_utf8(c.file_path),
                encode_utf8(b.file_path),
            );
        }
        if key_before(b.file_path, a.file_path) && key_before(a.file_path, c.file_path) {
            lemma_bytes_before_transitive(
                encode_utf8(b.file_path),
                encode_utf8(a.file_path),
                encode_utf8(c.file_path),
            );
        }
        if key_before(c.file_path, b.file_path) && key_before(b.file_path, a.file_path) {
            lemma_bytes_before_transitive(
                encode_utf8(c.file_path),
                encode_utf8(b.file_path),
                encode_utf8(a.file_path),
            );
        }
    }
}

/// The first `top_k` of `hits` in the order of their rank; hits of the same
/// rank keep their order.
pub open spec fn ranked(hits: Seq<HitView>, top_k: nat) -> Seq<HitView> {
    let sorted = stable_sort(hits, |a: HitView, b: HitView| hit_before(a, b));
    if top_k < sorted.len() {
        sorted.take(top_k as int)
    } else {
        sorted
    }
}

/// What a search returns is in order: no hit ranks before one that stands
/// earlier. So of two hits with the same score the one on the earlier path
/// stands first, and on the same path the one that starts earlier. And
/// nothing is returned that was not found.
pub proof fn lemma_ranked_in_order(hits: Seq<HitView>, top_k: nat)
    ensures
        in_order(ranked(hits, top_k), |a: HitView, b: HitView| hit_before(a, b)),
        ranked(hits, top_k).len() == if top_k < hits.len() {
            top_k
        } else {
            hits.len()
        },
        forall|i: int|
            0 <= i < ranked(hits, top_k).len() ==> hits.contains(#[trigger] ranked(hits, top_k)[i]),
{
    let before = |a: HitView, b: HitView| hit_before(a, b);
    lemma_hit_before_ranks();
    lemma_stable_sort(hits, before);
    let sorted = stable_sort(hits, before);
    let out = ranked(hits, top_k);
    assert forall|i: int, j: int| 0 <= i < j < out.len() implies !before(
        #[trigger] out[j],
        #[trigger] out[i],
    ) by {
        assert(out[i] == sorted[i] && out[j] == sorted[j]);
    }
    assert forall|i: int| 0 <= i < out.len() implies hits.contains(#[trigger] out[i]) by {
        assert(out[i] == sorted[i]);
        vstd::seq_lib::to_multiset_contains(sorted, sorted[i]);
        vstd::seq_lib::to_multiset_contains(hits, sorted[i]);
        assert(sorted.contains(sorted[i]));
    }
}

/// A copy of `hit`.
fn copy_hit(hit: &SearchHit) -> (copy: SearchHit)
    ensures
        copy@ == hit@,
{
    SearchHit {
        file_path: hit.file_path.clone(),
        start_line: hit.start_line,
        end_line: hit.end_line,
        score_bits: hit.score_bits,
        chunk_id: hit.chunk_id.clone(),
    }
}

/// The first `top_k` of `hits` in the order of their rank.
pub fn rank_hits(hits: &Vec<SearchHit>, top_k: usize) -> (best: Vec<SearchHit>)
    ensures
        hit_views(best@) == ranked(hit_views(hits@), top_k as nat),
{
    let ghost before = |a: HitView, b: HitView| hit_before(a, b);
    let ghost all = hit_views(hits@);
    let mut sorted: Vec<SearchHit> = Vec::new();
    let mut i: usize = 0;
    while i < hits.len()
        invariant
            i <= hits@.len(),
            all == hit_views(hits@),
            before == (|a: HitView, b: HitView| hit_before(a, b)),
            hit_views(sorted@) == stable_sort(all.subrange(0, i as int), before),
        decreases hits@.len() - i,
    {
        let hit = copy_hit(&hits[i]);
        let ghost done = hit_views(sorted@);
        assert(all.subrange(0, i + 1).drop_last() == all.subrange(0, i as int));
        assert(all.subrange(0, i + 1).last() == hit@);
        let mut at: usize = sorted.len();
        while at > 0 && ranks_before(&hit, &sorted[at - 1])
            invariant
                at <= sorted@.len(),
                done == hit_views(sorted@),
                before == (|a: HitView, b: HitView| hit_before(a, b)),
                forall|j: int| at <= j < done.len() ==> before(hit@, #[trigger] done[j]),
            decreases at,
        {
            at -= 1;
            assert(done[at as int] == sorted@[at as int]@);
        }
        proof {
            if at > 0 {
                assert(done[at - 1] == sorted@[at - 1]@);
            }
            lemma_insert_by_at(done, hit@, before, at as int);
        }
        sorted.insert(at, hit);
        assert(hit_views(sorted@) == done.insert(at as int, hit@));
        i += 1;
    }
    assert(all.subrange(0, i as int) == all);
    if top_k < sorted.len() {
        let ghost full = hit_views(sorted@);
        sorted.truncate(top_k);
        assert(hit_views(sorted@) == full.take(top_k as int));
    }
    sorted
}

/// The version of the layout of the store.
pub const SCHEMA_VERSION: i32 = 1;

/// Why the index could not do what was asked.
#[derive(Debug, Clone)]
pub enum SemanticError {
    /// The index is switched off.
    Disabled,
    /// The provider gave `got` embeddings for the `expected` chunks of the
    /// file at `path`.
    EmbeddingCountMismatch { path: String, expected: usize, got: usize },
    /// An embedding has `to` numbers where the earlier ones have `from`.
    DimensionChanged { from: usize, to: usize },
    /// The provider gave no embedding for the query.
    MissingEmbedding,
    /// There is no store at `path`.
    NotFound { path: String },
}

impl SemanticError {
    /// The error in words.
    pub open spec fn spec_message(&self) -> Seq<char> {
        match self {
            SemanticError::Disabled => "semantic index is disabled; enable it under [semantic_index]"@,
            SemanticError::EmbeddingCountMismatch { path, expected, got } =>
                "embedding response mismatch for "@ + path@ + " (expected "@ + decimal(
                    *expected as nat,
                ) + ", got "@ + decimal(*got as nat) + ")"@,
            SemanticError::DimensionChanged { from, to } => "embedding dimension changed from "@
                + decimal(*from as nat) + " to "@ + decimal(*to as nat),
            SemanticError::MissingEmbedding => "missing embedding result"@,
            SemanticError::NotFound { path } => "semantic index not found at "@ + path@,
        }
    }

    /// The error in words.
    pub fn message(&self) -> (text: String)
        ensures
            text@ == self.spec_message(),
    {
        match self {
            SemanticError::Disabled => String::from_str(
                "semantic index is disabled; enable it under [semantic_index]",
            ),
            SemanticError::EmbeddingCountMismatch { path, expected, got } => {
                let mut text = String::from_str("embedding response mismatch for ");
                text.append(path.as_str());
                text.append(" (expected ");
                push_decimal(&mut text, *expected as u128);
                text.append(", got ");
                push_decimal(&mut text, *got as u128);
                text.append(")");
                text
            },
            SemanticError::DimensionChanged { from, to } => {
                let mut text = String::from_str("embedding dimension changed from ");
                push_decimal(&mut text, *from as u128);
                text.append(" to ");
                push_decimal(&mut text, *to as u128);
                text
            },
            SemanticError::MissingEmbedding => String::from_str("missing embedding result"),
            SemanticError::NotFound { path } => {
                let mut text = String::from_str("semantic index not found at ");
                text.append(path.as_str());
                text
            },
        }
    }
}

/// Whether the walk leaves `path` out: the directory of the index and what
/// lies below it, and whatever has `.git` among its segments below the root
/// of the workspace.
pub open spec fn is_skipped(path: Seq<char>, workspace_root: Seq<char>, index_dir: Seq<char>) -> bool {
    ||| lies_below(path, index_dir)
    ||| lies_below(path, workspace_root) && has_segment(relative_to(path, workspace_root), ".git"@)
}

/// Whether the walk leaves `path` out.
pub fn should_skip_entry(path: &str, workspace_root: &str, index_dir: &str) -> (skip: bool)
    ensures
        skip == is_skipped(path@, workspace_root@, index_dir@),
{
    if starts_with(path, index_dir) {
        return true;
    }
    if starts_with(path, workspace_root) {
        let relative = relative_path(path, workspace_root);
        if contains_segment(relative.as_str(), ".git") {
            return true;
        }
    }
    false
}

/// Whether a file with the content `bytes` is indexed: it is not empty and
/// holds no zero byte.
pub open spec fn is_indexable(bytes: Seq<u8>) -> bool {
    bytes.len() > 0 && !bytes.contains(0u8)
}

/// Whether a file with the content `bytes` is indexed.
pub fn indexable(bytes: &[u8]) -> (wanted: bool)
    ensures
        wanted == is_indexable(bytes@),
{
    if bytes.len() == 0 {
        return false;
    }
    let mut i: usize = 0;
    while i < bytes.len()
        invariant
            i <= bytes@.len(),
            forall|j: int| 0 <= j < i ==> #[trigger] bytes@[j] != 0,
        decreases bytes@.len() - i,
    {
        if bytes[i] == 0 {
            return false;
        }
        i += 1;
    }
    true
}

/// The chunks of a file with the content `bytes`: none for a file that is
/// not indexed, else the chunks of the lines of its text, read leniently.
pub fn file_chunks(bytes: &[u8], max_lines: usize) -> (chunks: Vec<Chunk>)
    ensures
        chunk_views(chunks@) == if is_indexable(bytes@) {
            chunked(split_lines(utf8_lossy(bytes@)), max_lines as nat)
        } else {
            Seq::empty()
        },
{
    if !indexable(bytes) {
        let chunks: Vec<Chunk> = Vec::new();
        assert(chunk_views(chunks@) == Seq::<ChunkView>::empty());
        return chunks;
    }
    let contents = from_utf8_lossy(bytes);
    let lines = lines_of(contents.as_str());
    chunk_lines(lines.as_slice(), max_lines)
}

/// What the store holds of the file at `path` with the content `bytes`.
pub fn file_entry(path: &str, bytes: &[u8], mtime: i64, size: u64) -> (entry: FileEntry)
    ensures
        entry.path@ == path@,
        entry.content_hash@ == sha256_hex_digest(bytes@),
        entry.mtime == mtime,
        entry.size == size,
{
    FileEntry { path: String::from_str(path), content_hash: hash_bytes(bytes), mtime, size }
}

/// What is indexed of one file: its row, and its chunks, at least one.
#[derive(Debug)]
pub struct FilePlan {
    pub entry: FileEntry,
    pub chunks: Vec<Chunk>,
}

/// What is indexed of the file at `path` with the content `bytes`: nothing
/// where the file has no chunks, because it is empty, holds a zero byte or
/// nothing but white space.
pub fn index_file(path: &str, bytes: &[u8], mtime: i64, size: u64, max_lines: usize) -> (plan: Option<
    FilePlan,
>)
    ensures
        match plan {
            Some(wanted) => {
                &&& is_indexable(bytes@)
                &&& wanted.chunks@.len() > 0
                &&& chunk_views(wanted.chunks@) == chunked(
                    split_lines(utf8_lossy(bytes@)),
                    max_lines as nat,
                )
                &&& wanted.entry.path@ == path@
                &&& wanted.entry.content_hash@ == sha256_hex_digest(bytes@)
                &&& wanted.entry.mtime == mtime
                &&& wanted.entry.size == size
            },
            None => !is_indexable(bytes@) || chunked(
                split_lines(utf8_lossy(bytes@)),
                max_lines as nat,
            ).len() == 0,
        },
{
    let chunks = file_chunks(bytes, max_lines);
    assert(chunk_views(chunks@).len() == chunks@.len());
    if chunks.len() == 0 {
        return None;
    }
    Some(FilePlan { entry: file_entry(path, bytes, mtime, size), chunks })
}

/// The texts of `chunks`, in order.
pub fn chunk_texts(chunks: &Vec<Chunk>) -> (texts: Vec<String>)
    ensures
        texts@.len() == chunks@.len(),
        forall|i: int| 0 <= i < texts@.len() ==> (#[trigger] texts@[i])@ == chunks@[i].text@,
{
    let mut texts: Vec<String> = Vec::new();
    let mut i: usize = 0;
    while i < chunks.len()
        invariant
            i <= chunks@.len(),
            texts@.len() == i,
            forall|j: int| 0 <= j < i ==> (#[trigger] texts@[j])@ == chunks@[j].text@,
        decreases chunks@.len() - i,
    {
        texts.push(chunks[i].text.clone());
        i += 1;
    }
    texts
}

/// What a build remembers from file to file: the number of numbers of the
/// embeddings seen so far.
#[derive(Debug, Clone, Copy, PartialEq, Eq, Structural)]
pub struct BuildState {
    pub embedding_dim: Option<usize>,
}

/// The chunks of one file that are to be stored, and why the build stops
/// behind them, if it does.
#[derive(Debug)]
pub struct ChunkBatch {
    pub entries: Vec<ChunkEntry>,
    pub failure: Option<SemanticError>,
}

/// Whether `entry` is what the store holds of `chunk` of the file at `path`
/// with `embedding`, written at `at`.
pub open spec fn is_entry_of(
    entry: ChunkEntry,
    path: Seq<char>,
    chunk: Chunk,
    embedding: Seq<u32>,
    at: Timestamp,
) -> bool {
    &&& entry.file_path@ == path
    &&& entry.start_line == chunk.start_line
    &&& entry.end_line == chunk.end_line
    &&& entry.text_hash@ == sha256_hex_digest(encode_utf8(chunk.text@))
    &&& entry.chunk_id@ == sha256_hex_digest(
        encode_utf8(
            chunk_id_input(
                path,
                chunk.start_line as nat,
                chunk.end_line as nat,
                sha256_hex_digest(encode_utf8(chunk.text@)),
            ),
        ),
    )
    &&& entry.embedding@ == embedding
    &&& entry.updated_at == at
}

/// The number of numbers that the embeddings of a build have: the one seen
/// before, or that of the first of `embeddings`.
pub open spec fn expected_dim(state: BuildState, embeddings: Seq<Vec<u32>>) -> usize {
    match state.embedding_dim {
        Some(dim) => dim,
        None => embeddings[0]@.len() as usize,
    }
}

/// Starts a build: an error where the index is switched off.
pub fn start_build(config: &SemanticIndexConfig) -> (state: Result<BuildState, SemanticError>)
    ensures
        match state {
            Ok(fresh) => config.enabled && fresh.embedding_dim is None,
            Err(err) => !config.enabled && err is Disabled,
        },
{
    if !config.enabled {
        return Err(SemanticError::Disabled);
    }
    Ok(BuildState { embedding_dim: None })
}

/// Takes the embeddings that the provider gave for the chunks of one file.
/// Where their number is not that of the chunks, nothing is stored and the
/// build stops. Else each chunk is stored with its embedding, in order, up
/// to the first embedding whose length is not that of those before it:
/// there the build stops.
pub fn accept_embeddings(
    state: &mut BuildState,
    relative_path: &str,
    full_path: &str,
    chunks: &Vec<Chunk>,
    embeddings: &Vec<Vec<u32>>,
    created_at: Timestamp,
) -> (batch: ChunkBatch)
    ensures
        embeddings@.len() != chunks@.len() ==> {
            &&& batch.entries@.len() == 0
            &&& *final(state) == *old(state)
            &&& batch.failure matches Some(
                SemanticError::EmbeddingCountMismatch { path, expected, got },
            )
            &&& path@ == full_path@
            &&& expected == chunks@.len()
            &&& got == embeddings@.len()
        },
        embeddings@.len() == chunks@.len() ==> {
            &&& batch.entries@.len() <= chunks@.len()
            &&& forall|j: int|
                0 <= j < batch.entries@.len() ==> (#[trigger] embeddings@[j])@.len()
                    == expected_dim(*old(state), embeddings@)
            &&& forall|j: int|
                0 <= j < batch.entries@.len() ==> is_entry_of(
                    #[trigger] batch.entries@[j],
                    relative_path@,
                    chunks@[j],
                    embeddings@[j]@,
                    created_at,
                )
            &&& if batch.entries@.len() < chunks@.len() {
                &&& batch.failure matches Some(SemanticError::DimensionChanged { from, to })
                &&& from == expected_dim(*old(state), embeddings@)
                &&& to == embeddings@[batch.entries@.len() as int]@.len()
                &&& to != from
            } else {
                batch.failure is None
            }
            &&& final(state).embedding_dim == if chunks@.len() > 0 {
                Some(expected_dim(*old(state), embeddings@))
            } else {
                old(state).embedding_dim
            }
        },
{
    let mut entries: Vec<ChunkEntry> = Vec::new();
    if embeddings.len() != chunks.len() {
        return ChunkBatch {
            entries,
            failure: Some(
                SemanticError::EmbeddingCountMismatch {
                    path: String::from_str(full_path),
                    expected: chunks.len(),
                    got: embeddings.len(),
                },
            ),
        };
    }
    let mut i: usize = 0;
    while i < chunks.len()
        invariant
            i <= chunks@.len(),
            embeddings@.len() == chunks@.len(),
            entries@.len() == i,
            state.embedding_dim == if i > 0 {
                Some(expected_dim(*old(state), embeddings@))
            } else {
                old(state).embedding_dim
            },
            forall|j: int|
                0 <= j < i ==> (#[trigger] embeddings@[j])@.len() == expected_dim(
                    *old(state),
                    embeddings@,
                ),
            forall|j: int|
                0 <= j < i ==> is_entry_of(
                    #[trigger] entries@[j],
                    relative_path@,
                    chunks@[j],
                    embeddings@[j]@,
                    created_at,
                ),
        decreases chunks@.len() - i,
    {
        let chunk = &chunks[i];
        let embedding = &embeddings[i];
        match state.embedding_dim {
            Some(dim) => {
                if dim != embedding.len() {
                    return ChunkBatch {
                        entries,
                        failure: Some(
                            SemanticError::DimensionChanged { from: dim, to: embedding.len() },
                        ),
                    };
                }
            },
            None => {
                state.embedding_dim = Some(embedding.len());
            },
        }
        let text_hash = hash_string(chunk.text.as_str());
        let id = chunk_id(relative_path, chunk.start_line, chunk.end_line, text_hash.as_str());
        entries.push(
            ChunkEntry {
                file_path: String::from_str(relative_path),
                chunk_id: id,
                start_line: chunk.start_line,
                end_line: chunk.end_line,
                text_hash,
                embedding: slice_to_vec(embedding.as_slice()),
                updated_at: created_at,
            },
        );
        i += 1;
    }
    ChunkBatch { entries, failure: None }
}

/// The row that describes the index once all files are in: the model, the
/// number of numbers of the embeddings, or zero where none was seen, the
/// size of the chunks, the moment of the build and the fingerprint of the
/// workspace.
pub fn index_meta(
    state: &BuildState,
    config: &SemanticIndexConfig,
    created_at: Timestamp,
    workspace_root: &str,
) -> (meta: IndexMeta)
    ensures
        meta.schema_version == SCHEMA_VERSION,
        meta.embedding_model@ == config.embedding_model@,
        meta.dim == match state.embedding_dim {
            Some(dim) => dim,
            None => 0,
        },
        meta.chunk_size == config.chunk.max_lines,
        meta.created_at == created_at,
        meta.workspace_fingerprint@ == sha256_hex_digest(encode_utf8(workspace_root@)),
{
    IndexMeta {
        schema_version: SCHEMA_VERSION,
        embedding_model: config.embedding_model.clone(),
        dim: match state.embedding_dim {
            Some(dim) => dim,
            None => 0,
        },
        chunk_size: config.chunk.max_lines,
        created_at,
        workspace_fingerprint: fingerprint_workspace(workspace_root),
    }
}

/// How a search starts: with an error where the index is switched off,
/// with no text for a query of nothing but white space, which finds
/// nothing, and else with the text that is to be embedded: the query as it
/// stands.
pub fn start_search(config: &SemanticIndexConfig, query: &str) -> (text: Result<
    Option<String>,
    SemanticError,
>)
    ensures
        match text {
            Err(err) => !config.enabled && err is Disabled,
            Ok(None) => config.enabled && is_blank(query@),
            Ok(Some(wanted)) => config.enabled && !is_blank(query@) && wanted@ == query@,
        },
{
    if !config.enabled {
        return Err(SemanticError::Disabled);
    }
    let chars = chars_of(query);
    if blank(chars.as_slice()) {
        return Ok(None);
    }
    Ok(Some(String::from_str(query)))
}

/// The embedding of the query among what the provider gave: the first one;
/// an error where there is none.
pub fn query_embedding(embeddings: &Vec<Vec<u32>>) -> (embedding: Result<Vec<u32>, SemanticError>)
    ensures
        match embedding {
            Ok(first) => embeddings@.len() > 0 && first@ == embeddings@[0]@,
            Err(err) => embeddings@.len() == 0 && err is MissingEmbedding,
        },
{
    if embeddings.len() == 0 {
        return Err(SemanticError::MissingEmbedding);
    }
    Ok(slice_to_vec(embeddings[0].as_slice()))
}

/// Whether two embeddings can be compared: they have the same number of
/// numbers, and more than none.
pub open spec fn can_compare(query: Seq<u32>, other: Seq<u32>) -> bool {
    query.len() == other.len() && query.len() > 0
}

/// Whether two embeddings can be compared. Where they cannot, a chunk has
/// no score and is no hit.
pub fn comparable(query: &[u32], other: &[u32]) -> (yes: bool)
    ensures
        yes == can_compare(query@, other@),
{
    query.len() == other.len() && query.len() > 0
}

/// The hit that `record` makes with the score whose bits are `score_bits`.
pub open spec fn hit_of(record: EmbeddingRecord, score_bits: u32) -> HitView {
    HitView {
        file_path: record.file_path@,
        start_line: record.start_line as nat,
        end_line: record.end_line as nat,
        score_bits,
        chunk_id: record.chunk_id@,
    }
}

/// The hits among the first `n` of `records` for the query embedding
/// `query`: those that can be compared with the query and have a score, in
/// order. `scores[i]` is the score of `records[i]`.
pub open spec fn scored_hits(
    query: Seq<u32>,
    records: Seq<EmbeddingRecord>,
    scores: Seq<Option<u32>>,
    n: int,
) -> Seq<HitView>
    decreases n,
{
    if n <= 0 || n > records.len() || n > scores.len() {
        Seq::empty()
    } else {
        let rest = scored_hits(query, records, scores, n - 1);
        match scores[n - 1] {
            Some(bits) => if can_compare(query, records[n - 1].embedding@) {
                rest.push(hit_of(records[n - 1], bits))
            } else {
                rest
            },
            None => rest,
        }
    }
}

/// The number of records that have a score to stand beside them.
pub open spec fn paired(records: Seq<EmbeddingRecord>, scores: Seq<Option<u32>>) -> int {
    if records.len() <= scores.len() {
        records.len() as int
    } else {
        scores.len() as int
    }
}

/// The hits among `records` for the query embedding `query`. A record
/// whose embedding is empty or has not as many numbers as the query is
/// dropped, whatever its score, and so is one without a score.
pub fn collect_hits(query: &[u32], records: &Vec<EmbeddingRecord>, scores: &Vec<Option<u32>>) -> (hits:
    Vec<SearchHit>)
    ensures
        hit_views(hits@) == scored_hits(query@, records@, scores@, paired(records@, scores@)),
{
    let mut hits: Vec<SearchHit> = Vec::new();
    let mut i: usize = 0;
    while i < records.len() && i < scores.len()
        invariant
            i <= records@.len(),
            i <= scores@.len(),
            hit_views(hits@) == scored_hits(query@, records@, scores@, i as int),
        decreases records@.len() - i,
    {
        let record = &records[i];
        match scores[i] {
            Some(bits) => {
                if comparable(query, record.embedding.as_slice()) {
                    let ghost done = hit_views(hits@);
                    hits.push(
                        SearchHit {
                            file_path: record.file_path.clone(),
                            start_line: record.start_line,
                            end_line: record.end_line,
                            score_bits: bits,
                            chunk_id: record.chunk_id.clone(),
                        },
                    );
                    assert(hit_views(hits@) == done.push(hit_of(records@[i as int], bits)));
                }
            },
            None => {},
        }
        i += 1;
    }
    hits
}

/// What a search returns: of the records that can be compared with the
/// query and have a score, the `top_k` that rank first, in the order of
/// their rank.
pub fn finish_search(
    query: &[u32],
    records: &Vec<EmbeddingRecord>,
    scores: &Vec<Option<u32>>,
    top_k: usize,
) -> (best: Vec<SearchHit>)
    ensures
        hit_views(best@) == ranked(
            scored_hits(query@, records@, scores@, paired(records@, scores@)),
            top_k as nat,
        ),
{
    let hits = collect_hits(query, records, scores);
    rank_hits(&hits, top_k)
}

} // verus!
