//! The search for files that hold a pattern: what is asked of the search
//! program, what is made of its answer, and under which key the answer is
//! cached.
use vstd::prelude::*;
use vstd::slice::slice_subrange;
use vstd::string::StringExecFns;
use vstd::string::StrSliceExecFns;
use vstd::string::StringSliceAdditionalSpecFns;
use vstd::utf8::{decode_utf8, valid_utf8};
use vstd::utf8::encode_utf8;
use crate::cache::config::DEFAULT_CACHE_GREP_FILES_TTL_SECS;
use crate::cache::tool_cache::{normalize_path, normalized_path};
use crate::hash::{hash_string, sha256_hex_digest};
use crate::json::{canonical, canonical_json, json_text, to_json_text, Json, JsonMember, JsonValue};
use crate::paths::is_rooted;
use crate::text::{
    chars_of, decimal, decimal_string, from_utf8, from_utf8_lossy, join_lines, join_range,
    lines_of, split_lines, string_of, trim_chars, trimmed, utf8_lossy, views,
};

verus! {

/// The tool that searches files for a pattern.
#[derive(Debug, Clone, Copy, PartialEq, Eq, Structural)]
pub struct GrepFilesHandler;

/// The number of files that are listed where no limit is given.
pub const DEFAULT_LIMIT: usize = 100;

/// The largest number of files that are listed.
pub const MAX_LIMIT: usize = 2000;

/// The number of seconds after which the search program is given up.
pub const COMMAND_TIMEOUT_SECS: u64 = 30;

/// The number of files that are listed where no limit is given.
pub fn default_limit() -> (limit: usize)
    ensures
        limit == DEFAULT_LIMIT,
{
    DEFAULT_LIMIT
}

/// The arguments of a call as the caller wrote them.
#[derive(Debug, Clone)]
pub struct GrepFilesArgs {
    pub pattern: String,
    pub glob: Option<String>,
    pub path: Option<String>,
    pub limit: usize,
}

/// The arguments of a call once they were checked.
#[derive(Debug, Clone)]
pub struct GrepRequest {
    pub pattern: String,
    pub glob: Option<String>,
    pub path: Option<String>,
    pub limit: usize,
}

/// Why a call is refused.
#[derive(Debug, Clone, Copy, PartialEq, Eq, Structural)]
pub enum GrepArgsError {
    EmptyPattern,
    ZeroLimit,
}

impl GrepArgsError {
    /// The refusal in words.
    pub fn message(&self) -> (text: String)
        ensures
            text@ == match self {
                GrepArgsError::EmptyPattern => "pattern must not be empty"@,
                GrepArgsError::ZeroLimit => "limit must be greater than zero"@,
            },
    {
        match self {
            GrepArgsError::EmptyPattern => String::from_str("pattern must not be empty"),
            GrepArgsError::ZeroLimit => String::from_str("limit must be greater than zero"),
        }
    }
}

/// `limit`, or the largest limit where it is beyond it.
pub open spec fn capped_limit(limit: usize) -> usize {
    if limit > MAX_LIMIT {
        MAX_LIMIT
    } else {
        limit
    }
}

/// The filter that `glob` asks for: its text without the white space
/// around it, and none where nothing is left.
pub open spec fn wanted_glob(glob: Option<String>) -> Option<Seq<char>> {
    match glob {
        Some(text) => if trimmed(text@).len() == 0 {
            None
        } else {
            Some(trimmed(text@))
        },
        None => None,
    }
}

/// Checks the arguments of a call. A pattern of nothing but white space is
/// refused, and so is a limit of zero, in this order. Else the pattern and
/// the filter lose the white space around them, a filter of which nothing
/// is left is dropped, and the limit is capped.
pub fn check_args(args: &GrepFilesArgs) -> (request: Result<GrepRequest, GrepArgsError>)
    ensures
        match request {
            Err(GrepArgsError::EmptyPattern) => trimmed(args.pattern@).len() == 0,
            Err(GrepArgsError::ZeroLimit) => trimmed(args.pattern@).len() != 0 && args.limit == 0,
            Ok(checked) => {
                &&& trimmed(args.pattern@).len() != 0
                &&& args.limit != 0
                &&& checked.pattern@ == trimmed(args.pattern@)
                &&& checked.limit == capped_limit(args.limit)
                &&& match wanted_glob(args.glob) {
                    Some(filter) => checked.glob matches Some(kept) && kept@ == filter,
                    None => checked.glob is None,
                }
                &&& match args.path {
                    Some(path) => checked.path matches Some(kept) && kept@ == path@,
                    None => checked.path is None,
                }
            },
        },
{
    let pattern_chars = chars_of(args.pattern.as_str());
    let pattern = trim_chars(pattern_chars.as_slice());
    if pattern.len() == 0 {
        return Err(GrepArgsError::EmptyPattern);
    }
    if args.limit == 0 {
        return Err(GrepArgsError::ZeroLimit);
    }
    let limit = if args.limit > MAX_LIMIT {
        MAX_LIMIT
    } else {
        args.limit
    };
    let glob = match &args.glob {
        Some(text) => {
            let chars = chars_of(text.as_str());
            let kept = trim_chars(chars.as_slice());
            if kept.len() == 0 {
                None
            } else {
                Some(string_of(kept.as_slice()))
            }
        },
        None => None,
    };
    let path = match &args.path {
        Some(path) => Some(path.clone()),
        None => None,
    };
    Ok(GrepRequest { pattern: string_of(pattern.as_slice()), glob, path, limit })
}

/// The arguments with which the search program is called: it lists the
/// files that match, the newest first, takes the pattern as a regular
/// expression, keeps quiet about files that it cannot read, filters by
/// `glob` where there is one, and searches `search_path`.
pub open spec fn rg_arguments(pattern: Seq<char>, glob: Option<Seq<char>>, search_path: Seq<char>) -> Seq<
    Seq<char>,
> {
    let head = seq![
        "--files-with-matches"@,
        "--sortr=modified"@,
        "--regexp"@,
        pattern,
        "--no-messages"@,
    ];
    let filter = match glob {
        Some(wanted) => seq!["--glob"@, wanted],
        None => Seq::empty(),
    };
    head + filter + seq!["--"@, search_path]
}

/// The arguments with which the search program is called.
pub fn search_arguments(pattern: &str, glob: Option<&str>, search_path: &str) -> (arguments: Vec<
    String,
>)
    ensures
        views(arguments@) == rg_arguments(
            pattern@,
            match glob {
                Some(wanted) => Some(wanted@),
                None => None,
            },
            search_path@,
        ),
{
    let mut arguments: Vec<String> = Vec::new();
    arguments.push(String::from_str("--files-with-matches"));
    arguments.push(String::from_str("--sortr=modified"));
    arguments.push(String::from_str("--regexp"));
    arguments.push(String::from_str(pattern));
    arguments.push(String::from_str("--no-messages"));
    if let Some(wanted) = glob {
        arguments.push(String::from_str("--glob"));
        arguments.push(String::from_str(wanted));
    }
    arguments.push(String::from_str("--"));
    arguments.push(String::from_str(search_path));
    assert(views(arguments@) =~= rg_arguments(
        pattern@,
        match glob {
            Some(wanted) => Some(wanted@),
            None => None,
        },
        search_path@,
    ));
    arguments
}

/// Where the first newline byte of `bytes` stands; their number where
/// there is none.
pub open spec fn first_newline_byte(bytes: Seq<u8>) -> int
    decreases bytes.len(),
{
    if bytes.len() == 0 || bytes[0] == 10 {
        0
    } else {
        1 + first_newline_byte(bytes.drop_first())
    }
}

/// The paths that the output `stdout` lists, when `taken` were taken
/// before: one for each line that is not empty and is UTF-8, up to the one
/// that makes their number `limit`. A limit of zero stops nothing.
pub open spec fn listed_paths(stdout: Seq<u8>, limit: nat, taken: nat) -> Seq<Seq<char>>
    decreases stdout.len(),
{
    let n = first_newline_byte(stdout);
    let line = stdout.subrange(0, n);
    let counts = line.len() > 0 && valid_utf8(line);
    let here = if counts {
        seq![decode_utf8(line)]
    } else {
        Seq::empty()
    };
    if counts && taken + 1 == limit {
        here
    } else if 0 <= n < stdout.len() {
        here + listed_paths(
            stdout.subrange(n + 1, stdout.len() as int),
            limit,
            if counts {
                taken + 1
            } else {
                taken
            },
        )
    } else {
        here
    }
}

/// The first newline byte stands behind bytes that are none.
pub proof fn lemma_first_newline_byte(bytes: Seq<u8>, n: int)
    requires
        0 <= n <= bytes.len(),
        forall|i: int| 0 <= i < n ==> #[trigger] bytes[i] != 10,
        n < bytes.len() ==> bytes[n] == 10,
    ensures
        first_newline_byte(bytes) == n,
    decreases bytes.len(),
{
    if n > 0 {
        let rest = bytes.drop_first();
        assert forall|i: int| 0 <= i < n - 1 implies #[trigger] rest[i] != 10 by {
            assert(rest[i] == bytes[i + 1]);
        }
        lemma_first_newline_byte(rest, n - 1);
    }
}

/// The paths that the output of the search program lists, `limit` at most.
pub fn parse_results(stdout: &[u8], limit: usize) -> (results: Vec<String>)
    ensures
        views(results@) == listed_paths(stdout@, limit as nat, 0),
{
    let mut results: Vec<String> = Vec::new();
    let mut start: usize = 0;
    let mut i: usize = 0;
    assert(stdout@.subrange(0, stdout@.len() as int) == stdout@);
    loop
        invariant_except_break
            forall|j: int| start <= j < i ==> #[trigger] stdout@[j] != 10,
            views(results@) + listed_paths(
                stdout@.subrange(start as int, stdout@.len() as int),
                limit as nat,
                results@.len() as nat,
            ) == listed_paths(stdout@, limit as nat, 0),
        invariant
            start <= i <= stdout@.len(),
        ensures
            views(results@) == listed_paths(stdout@, limit as nat, 0),
        decreases stdout@.len() - i,
    {
        if i == stdout.len() || stdout[i] == 10 {
            let ghost rest = stdout@.subrange(start as int, stdout@.len() as int);
            let ghost done = views(results@);
            proof {
                assert forall|j: int| 0 <= j < i - start implies #[trigger] rest[j] != 10 by {
                    assert(rest[j] == stdout@[start + j]);
                }
                lemma_first_newline_byte(rest, i - start);
                assert(rest.subrange(0, i - start) == stdout@.subrange(start as int, i as int));
                if i < stdout@.len() {
                    assert(rest.subrange(i - start + 1, rest.len() as int) == stdout@.subrange(
                        i + 1,
                        stdout@.len() as int,
                    ));
                }
            }
            let ghost line = rest.subrange(0, i - start);
            let ghost counts = line.len() > 0 && valid_utf8(line);
            let ghost here = if counts {
                seq![decode_utf8(line)]
            } else {
                Seq::<Seq<char>>::empty()
            };
            let mut full = false;
            if i > start {
                if let Some(text) = from_utf8(slice_subrange(stdout, start, i)) {
                    results.push(text);
                    assert(views(results@) == done + seq![text@]);
                    full = results.len() == limit;
                }
            }
            assert(views(results@) == done + here);
            if full || i == stdout.len() {
                assert(listed_paths(rest, limit as nat, done.len()) == here);
                break ;
            }
            assert(listed_paths(rest, limit as nat, done.len()) == here + listed_paths(
                stdout@.subrange(i + 1, stdout@.len() as int),
                limit as nat,
                results@.len() as nat,
            ));
            start = i + 1;
        }
        i += 1;
    }
    results
}

/// What the caller is told of a search: that nothing was found, or the
/// paths, one on each line; and whether anything was found.
pub fn render_results(results: &Vec<String>) -> (answer: (String, Option<bool>))
    ensures
        answer.0@ == if results@.len() == 0 {
            "No matches found."@
        } else {
            join_lines(views(results@))
        },
        answer.1 == Some(results@.len() != 0),
{
    if results.len() == 0 {
        (String::from_str("No matches found."), Some(false))
    } else {
        let text = join_range(results.as_slice(), 0, results.len());
        assert(views(results@).subrange(0, results@.len() as int) == views(results@));
        (text, Some(true))
    }
}

/// Why a search failed.
#[derive(Debug, Clone)]
pub enum GrepRunError {
    /// The search program did not end in time.
    TimedOut,
    /// The search program ended with a status that is neither that of a
    /// match nor that of none; the text is what it wrote of its failure.
    Failed(String),
}

impl GrepRunError {
    /// The failure in words.
    pub fn message(&self) -> (text: String)
        ensures
            text@ == match self {
                GrepRunError::TimedOut => "rg timed out after 30 seconds"@,
                GrepRunError::Failed(stderr) => "rg failed: "@ + stderr@,
            },
    {
        match self {
            GrepRunError::TimedOut => String::from_str("rg timed out after 30 seconds"),
            GrepRunError::Failed(stderr) => String::from_str("rg failed: ").concat(stderr.as_str()),
        }
    }
}

/// What is made of the end of the search program. With the status zero its
/// output lists the paths. With the status one it found nothing, which is
/// no failure. Any other end is a failure that carries what the program
/// wrote of it, read leniently.
pub fn read_outcome(code: Option<i32>, stdout: &[u8], stderr: &[u8], limit: usize) -> (results:
    Result<Vec<String>, GrepRunError>)
    ensures
        match code {
            Some(0) => results matches Ok(paths) && views(paths@) == listed_paths(
                stdout@,
                limit as nat,
                0,
            ),
            Some(1) => results matches Ok(paths) && paths@.len() == 0,
            _ => results matches Err(GrepRunError::Failed(text)) && text@ == utf8_lossy(stderr@),
        },
{
    match code {
        Some(0) => Ok(parse_results(stdout, limit)),
        Some(1) => Ok(Vec::new()),
        _ => Err(GrepRunError::Failed(from_utf8_lossy(stderr))),
    }
}

/// The time-to-live of a cached search: the configured one where the state
/// of the repository is part of the key, else no more than the default of
/// the category.
pub open spec fn spec_cache_ttl(configured: u64, has_repo_state: bool) -> u64 {
    if has_repo_state || configured <= DEFAULT_CACHE_GREP_FILES_TTL_SECS {
        configured
    } else {
        DEFAULT_CACHE_GREP_FILES_TTL_SECS
    }
}

/// What of a repository is part of the key of a cached search: the text of
/// its head and the time of the last change of its index, in nanoseconds
/// since the Unix epoch, as far as they can be read.
#[derive(Debug, Clone, PartialEq, Eq)]
pub struct RepoState {
    pub head_ref: Option<String>,
    pub index_mtime_nanos: Option<u128>,
}

/// The time-to-live of a cached search.
pub fn cache_ttl_for_repo_state(configured: u64, repo_state: Option<&RepoState>) -> (ttl: u64)
    ensures
        ttl == spec_cache_ttl(configured, repo_state is Some),
{
    if repo_state.is_some() {
        return configured;
    }
    if configured <= DEFAULT_CACHE_GREP_FILES_TTL_SECS {
        configured
    } else {
        DEFAULT_CACHE_GREP_FILES_TTL_SECS
    }
}

/// The head of a repository as its file holds it: the content without the
/// white space around it, and none where nothing is left or the file could
/// not be read.
pub open spec fn head_of(head_file: Option<String>) -> Option<Seq<char>> {
    match head_file {
        Some(content) => if trimmed(content@).len() == 0 {
            None
        } else {
            Some(trimmed(content@))
        },
        None => None,
    }
}

/// The state of a repository from the content of the file of its head and
/// the time of the last change of its index, each as far as it could be
/// read; none where neither tells anything.
pub fn repo_state_from(head_file: Option<String>, index_mtime_nanos: Option<u128>) -> (state: Option<
    RepoState,
>)
    ensures
        match state {
            Some(found) => {
                &&& found.index_mtime_nanos == index_mtime_nanos
                &&& match head_of(head_file) {
                    Some(head) => found.head_ref matches Some(kept) && kept@ == head,
                    None => found.head_ref is None,
                }
                &&& !(head_of(head_file) is None && index_mtime_nanos is None)
            },
            None => head_of(head_file) is None && index_mtime_nanos is None,
        },
{
    let head_ref = match head_file {
        Some(content) => {
            let chars = chars_of(content.as_str());
            let kept = trim_chars(chars.as_slice());
            if kept.len() == 0 {
                None
            } else {
                Some(string_of(kept.as_slice()))
            }
        },
        None => None,
    };
    if head_ref.is_none() && index_mtime_nanos.is_none() {
        return None;
    }
    Some(RepoState { head_ref, index_mtime_nanos })
}

/// What a line of a `.git` file says of the place of the repository: none
/// where the line, without the white space around it, does not start with
/// `gitdir:`; else what follows, without the white space around it.
pub open spec fn gitdir_of_line(line: Seq<char>) -> Option<Seq<char>> {
    let text = trimmed(line);
    let mark = "gitdir:"@;
    if text.len() >= mark.len() && text.subrange(0, mark.len() as int) == mark {
        Some(trimmed(text.subrange(mark.len() as int, text.len() as int)))
    } else {
        None
    }
}

/// The place of the repository that the first `n` of `lines` name, seen
/// from `repo_root`: that of the first line that names one. A place that
/// starts at the root of the file system stands, any other lies below
/// `repo_root`. A line that names the empty place ends the search with
/// nothing.
pub open spec fn gitdir_in(lines: Seq<Seq<char>>, repo_root: Seq<char>) -> Option<Seq<char>>
    decreases lines.len(),
{
    if lines.len() == 0 {
        None
    } else {
        match gitdir_of_line(lines[0]) {
            Some(place) => if place.len() == 0 {
                None
            } else if is_rooted(place) {
                Some(place)
            } else {
                Some(repo_root + "/"@ + place)
            },
            None => gitdir_in(lines.drop_first(), repo_root),
        }
    }
}

/// What one line of a `.git` file says of the place of the repository.
fn gitdir_line(line: &str) -> (place: Option<Vec<char>>)
    ensures
        match place {
            Some(named) => gitdir_of_line(line@) == Some(named@),
            None => gitdir_of_line(line@) is None,
        },
{
    let chars = chars_of(line);
    let text = trim_chars(chars.as_slice());
    let mark = chars_of("gitdir:");
    if text.len() < mark.len() {
        return None;
    }
    let mut i: usize = 0;
    while i < mark.len()
        invariant
            i <= mark@.len() <= text@.len(),
            mark@ == "gitdir:"@,
            text@ == trimmed(line@),
            text@.subrange(0, i as int) == mark@.subrange(0, i as int),
        decreases mark@.len() - i,
    {
        if text[i] != mark[i] {
            assert(text@.subrange(0, mark@.len() as int)[i as int] != mark@[i as int]);
            return None;
        }
        assert(text@.subrange(0, i + 1) == text@.subrange(0, i as int).push(text@[i as int]));
        assert(mark@.subrange(0, i + 1) == mark@.subrange(0, i as int).push(mark@[i as int]));
        i += 1;
    }
    assert(mark@.subrange(0, i as int) == mark@);
    Some(trim_chars(slice_subrange(text.as_slice(), mark.len(), text.len())))
}

/// The place of the repository that a `.git` file with the content
/// `contents` names, seen from `repo_root`.
pub fn parse_gitdir_file(contents: &str, repo_root: &str) -> (place: Option<String>)
    ensures
        match place {
            Some(named) => gitdir_in(split_lines(contents@), repo_root@) == Some(named@),
            None => gitdir_in(split_lines(contents@), repo_root@) is None,
        },
{
    let lines = lines_of(contents);
    let ghost all = split_lines(contents@);
    let mut i: usize = 0;
    assert(all.subrange(0, all.len() as int) == all);
    while i < lines.len()
        invariant
            i <= lines@.len(),
            views(lines@) == all,
            all == split_lines(contents@),
            gitdir_in(all.subrange(i as int, all.len() as int), repo_root@) == gitdir_in(
                all,
                repo_root@,
            ),
        decreases lines@.len() - i,
    {
        let ghost rest = all.subrange(i as int, all.len() as int);
        assert(rest[0] == lines@[i as int]@);
        assert(rest.drop_first() == all.subrange(i + 1, all.len() as int));
        match gitdir_line(lines[i].as_str()) {
            Some(named) => {
                assert(gitdir_of_line(rest[0]) == Some(named@));
                if named.len() == 0 {
                    assert(gitdir_in(rest, repo_root@) is None);
                    return None;
                }
                if named[0] == '/' {
                    assert(gitdir_in(rest, repo_root@) == Some(named@));
                    return Some(string_of(named.as_slice()));
                }
                let place = string_of(named.as_slice());
                assert(gitdir_in(rest, repo_root@) == Some(repo_root@ + "/"@ + named@));
                return Some(String::from_str(repo_root).concat("/").concat(place.as_str()));
            },
            None => {
                assert(gitdir_in(rest, repo_root@) == gitdir_in(rest.drop_first(), repo_root@));
            },
        }
        i += 1;
    }
    None
}

/// What a look at `.git` in a directory found.
#[derive(Debug, Clone, Copy, PartialEq, Eq, Structural)]
pub enum GitProbe {
    /// A directory: the repository itself.
    Directory,
    /// A file that names the place of the repository.
    File,
    /// Something that is neither.
    Other,
    /// Nothing.
    Missing,
    /// The look failed for another reason.
    Failed,
}

/// What to do after a look at `.git`.
#[derive(Debug, Clone, Copy, PartialEq, Eq, Structural)]
pub enum GitStep {
    /// The repository is found: it is what was looked at.
    Found,
    /// Read the file; it names the place of the repository.
    ReadFile,
    /// Look in the directory above, and give up where there is none.
    Ascend,
    /// Give up.
    GiveUp,
}

/// What to do after a look at `.git` found `probe`.
pub open spec fn spec_git_step(probe: GitProbe) -> GitStep {
    match probe {
        GitProbe::Directory => GitStep::Found,
        GitProbe::File => GitStep::ReadFile,
        GitProbe::Other => GitStep::Ascend,
        GitProbe::Missing => GitStep::Ascend,
        GitProbe::Failed => GitStep::GiveUp,
    }
}

/// What to do after a look at `.git` found `probe`.
#[verifier::when_used_as_spec(spec_git_step)]
pub fn git_step(probe: GitProbe) -> (step: GitStep)
    ensures
        step == spec_git_step(probe),
{
    match probe {
        GitProbe::Directory => GitStep::Found,
        GitProbe::File => GitStep::ReadFile,
        GitProbe::Other => GitStep::Ascend,
        GitProbe::Missing => GitStep::Ascend,
        GitProbe::Failed => GitStep::GiveUp,
    }
}

/// What the key of a cached search is made of.
#[derive(Debug, Clone, Copy)]
pub struct GrepCacheKeyInputs<'a> {
    pub workspace_root: &'a str,
    pub search_path: &'a str,
    pub pattern: &'a str,
    pub glob: Option<&'a str>,
    pub limit: usize,
    pub repo_state: Option<&'a RepoState>,
}

/// A text, or null where there is none.
pub open spec fn text_or_null(text: Option<Seq<char>>) -> Json {
    match text {
        Some(value) => Json::Text(value),
        None => Json::Null,
    }
}

/// The state of a repository as a JSON value; null where there is none.
pub open spec fn repo_state_json(state: Option<RepoState>) -> Json {
    match state {
        Some(found) => Json::Object(
            seq![
                (
                    "head"@,
                    text_or_null(
                        match found.head_ref {
                            Some(head) => Some(head@),
                            None => None,
                        },
                    ),
                ),
                (
                    "index_mtime"@,
                    match found.index_mtime_nanos {
                        Some(nanos) => Json::Number(decimal(nanos as nat)),
                        None => Json::Null,
                    },
                ),
            ],
        ),
        None => Json::Null,
    }
}

/// The JSON value whose canonical text is hashed for the key of a cached
/// search.
pub open spec fn grep_fingerprint(
    workspace_root: Seq<char>,
    search_path: Seq<char>,
    pattern: Seq<char>,
    glob: Option<Seq<char>>,
    limit: usize,
    repo_state: Option<RepoState>,
) -> Json {
    Json::Object(
        seq![
            ("tool"@, Json::Text("grep_files"@)),
            ("workspace"@, Json::Text(normalized_path(workspace_root))),
            ("path"@, Json::Text(normalized_path(search_path))),
            ("pattern"@, Json::Text(pattern)),
            ("glob"@, text_or_null(glob)),
            ("limit"@, Json::Number(decimal(limit as nat))),
            ("git"@, repo_state_json(repo_state)),
        ],
    )
}

/// A member of an object.
fn member(key: &str, value: JsonValue) -> (made: JsonMember)
    ensures
        made.key@ == key@,
        made.value == value,
{
    JsonMember { key: String::from_str(key), value }
}

/// The state of a repository as a JSON value.
fn repo_state_value(state: Option<&RepoState>) -> (value: JsonValue)
    ensures
        value@ == repo_state_json(
            match state {
                Some(found) => Some(*found),
                None => None,
            },
        ),
{
    match state {
        Some(found) => {
            let head = match &found.head_ref {
                Some(head) => JsonValue::Text(head.clone()),
                None => JsonValue::Null,
            };
            let index_mtime = match found.index_mtime_nanos {
                Some(nanos) => JsonValue::Number(decimal_string(nanos)),
                None => JsonValue::Null,
            };
            let mut members: Vec<JsonMember> = Vec::new();
            members.push(member("head", head));
            members.push(member("index_mtime", index_mtime));
            let value = JsonValue::Object(members);
            proof {
                let held = value@->Object_0;
                let wanted = repo_state_json(Some(*found))->Object_0;
                assert(held.len() == 2);
                assert(held[0] == (members@[0].key@, members@[0].value@));
                assert(held[1] == (members@[1].key@, members@[1].value@));
                assert(held[0] == wanted[0]);
                assert(held[1] == wanted[1]);
                assert(held =~= wanted);
            }
            value
        },
        None => JsonValue::Null,
    }
}

/// The key under which a search is cached: the hash of the canonical text
/// of everything that the answer depends on, the state of the repository
/// among it where it is known.
pub fn build_grep_cache_key(inputs: &GrepCacheKeyInputs<'_>) -> (key: String)
    ensures
        key@ == sha256_hex_digest(
            encode_utf8(
                json_text(
                    canonical(
                        grep_fingerprint(
                            inputs.workspace_root@,
                            inputs.search_path@,
                            inputs.pattern@,
                            match inputs.glob {
                                Some(wanted) => Some(wanted@),
                                None => None,
                            },
                            inputs.limit,
                            match inputs.repo_state {
                                Some(found) => Some(*found),
                                None => None,
                            },
                        ),
                    ),
                ),
            ),
        ),
{
    let glob = match inputs.glob {
        Some(wanted) => JsonValue::Text(String::from_str(wanted)),
        None => JsonValue::Null,
    };
    let mut members: Vec<JsonMember> = Vec::new();
    members.push(member("tool", JsonValue::Text(String::from_str("grep_files"))));
    members.push(member("workspace", JsonValue::Text(normalize_path(inputs.workspace_root))));
    members.push(member("path", JsonValue::Text(normalize_path(inputs.search_path))));
    members.push(member("pattern", JsonValue::Text(String::from_str(inputs.pattern))));
    members.push(member("glob", glob));
    members.push(member("limit", JsonValue::Number(decimal_string(inputs.limit as u128))));
    members.push(member("git", repo_state_value(inputs.repo_state)));
    let fingerprint = JsonValue::Object(members);
    proof {
        let wanted = grep_fingerprint(
            inputs.workspace_root@,
            inputs.search_path@,
            inputs.pattern@,
            match inputs.glob {
                Some(wanted) => Some(wanted@),
                None => None,
            },
            inputs.limit,
            match inputs.repo_state {
                Some(found) => Some(*found),
                None => None,
            },
        );
        let held = fingerprint@->Object_0;
        let parts = wanted->Object_0;
        assert(held.len() == 7);
        assert(held[0] == (members@[0].key@, members@[0].value@));
        assert(held[1] == (members@[1].key@, members@[1].value@));
        assert(held[2] == (members@[2].key@, members@[2].value@));
        assert(held[3] == (members@[3].key@, members@[3].value@));
        assert(held[4] == (members@[4].key@, members@[4].value@));
        assert(held[5] == (members@[5].key@, members@[5].value@));
        assert(held[6] == (members@[6].key@, members@[6].value@));
        assert(held[0] == parts[0]);
        assert(held[1] == parts[1]);
        assert(held[2] == parts[2]);
        assert(held[3] == parts[3]);
        assert(held[4] == parts[4]);
        assert(held[5] == parts[5]);
        assert(held[6] == parts[6]);
        assert(held =~= parts);
    }
    let ordered = canonical_json(&fingerprint);
    let serialized = to_json_text(&ordered);
    hash_string(serialized.as_str())
}

/// A cached answer of the search.
#[derive(Debug, Clone)]
pub struct CachedGrepOutput {
    pub content: String,
    pub success: Option<bool>,
}

/// What a cached value holds. Where it was read as an answer, it is that
/// answer. Else, where its bytes are text, the text is the content of an
/// answer that counts as a success. Bytes that are neither hold nothing.
pub fn decode_cached_output(parsed: Option<CachedGrepOutput>, bytes: &[u8]) -> (output: Option<
    CachedGrepOutput,
>)
    ensures
        match parsed {
            Some(answer) => output == Some(answer),
            None => if valid_utf8(bytes@) {
                &&& output matches Some(answer)
                &&& answer.content@ == decode_utf8(bytes@)
                &&& answer.success == Some(true)
            } else {
                output is None
            },
        },
{
    match parsed {
        Some(answer) => Some(answer),
        None => match from_utf8(bytes) {
            Some(content) => Some(CachedGrepOutput { content, success: Some(true) }),
            None => None,
        },
    }
}

/// The kinds of tools.
#[derive(Debug, Clone, Copy, PartialEq, Eq, Structural)]
pub enum ToolKind {
    /// A tool that is called with arguments and answers with text.
    Function,
}

/// Under which key and for how long an answer is cached.
#[derive(Debug, Clone)]
pub struct CachePlan {
    pub key: String,
    pub ttl_secs: u64,
}

impl GrepFilesHandler {
    /// The kind of the tool.
    pub fn kind(&self) -> (kind: ToolKind)
        ensures
            kind == ToolKind::Function,
    {
        ToolKind::Function
    }

    /// Whether and how the answer to a call is cached: not at all where the
    /// cache is switched off; else under the key of `inputs`, for the
    /// time-to-live of the category, capped where the state of the
    /// repository is unknown.
    pub fn cache_plan(&self, cache_enabled: bool, inputs: &GrepCacheKeyInputs<'_>, configured_ttl: u64) -> (plan:
        Option<CachePlan>)
        ensures
            match plan {
                None => !cache_enabled,
                Some(cached) => {
                    &&& cache_enabled
                    &&& cached.ttl_secs == spec_cache_ttl(configured_ttl, inputs.repo_state is Some)
                    &&& cached.key@ == sha256_hex_digest(
                        encode_utf8(
                            json_text(
                                canonical(
                                    grep_fingerprint(
                                        inputs.workspace_root@,
                                        inputs.search_path@,
                                        inputs.pattern@,
                                        match inputs.glob {
                                            Some(wanted) => Some(wanted@),
                                            None => None,
                                        },
                                        inputs.limit,
                                        match inputs.repo_state {
                                            Some(found) => Some(*found),
                                            None => None,
                                        },
                                    ),
                                ),
                            ),
                        ),
                    )
                },
            },
    {
        if !cache_enabled {
            return None;
        }
        Some(
            CachePlan {
                key: build_grep_cache_key(inputs),
                ttl_secs: cache_ttl_for_repo_state(configured_ttl, inputs.repo_state),
            },
        )
    }

    /// What is cached of an answer: its encoding where there is one, else
    /// the bytes of its content.
    pub fn cache_payload(&self, encoded: Option<Vec<u8>>, content: &str) -> (payload: Vec<u8>)
        ensures
            payload@ == match encoded {
                Some(bytes) => bytes@,
                None => encode_utf8(content@),
            },
    {
        match encoded {
            Some(bytes) => bytes,
            None => content.as_bytes_vec(),
        }
    }
}

} // verus!
