//! What a search shows: for each hit the lines that it spans, cut to a
//! budget of characters, and the report made of them.
use vstd::prelude::*;
use vstd::slice::slice_subrange;
use vstd::string::StringExecFns;
use vstd::string::StringSliceAdditionalSpecFns;
use vstd::utf8::encode_utf8;
use crate::text::{
    chars_of, decimal, decimal_string, from_utf8_lossy, join_with, joined, lines_of,
    push_decimal, split_lines, string_of, trim_chars, trimmed, utf8_lossy, views,
};

verus! {

/// One line of a snippet, with its number in the file.
#[derive(Debug, Clone, PartialEq, Eq)]
pub struct SnippetLine {
    pub line_number: usize,
    pub text: String,
}

/// One hit as it is shown. The score is held as it is to be printed.
#[derive(Debug, Clone, PartialEq, Eq)]
pub struct SearchResult {
    pub file_path: String,
    pub start_line: usize,
    pub end_line: usize,
    pub score: String,
    pub snippet: Vec<SnippetLine>,
    pub snippet_error: Option<String>,
}

/// The views of `lines`.
pub open spec fn snippet_views(lines: Seq<SnippetLine>) -> Seq<(nat, Seq<char>)> {
    Seq::new(lines.len(), |i: int| (lines[i].line_number as nat, lines[i].text@))
}

/// What is shown of `line` with `remaining` characters left: all of it
/// where there is no budget or its bytes fit, else its first characters.
pub open spec fn shown(line: Seq<char>, remaining: nat, unlimited: bool) -> Seq<char> {
    if unlimited || encode_utf8(line).len() <= remaining {
        line
    } else if remaining < line.len() {
        line.take(remaining as int)
    } else {
        line
    }
}

/// What is left of the budget once `text` is shown.
pub open spec fn left_after(text: Seq<char>, remaining: nat, unlimited: bool) -> nat {
    if unlimited {
        remaining
    } else if encode_utf8(text).len() >= remaining {
        0
    } else {
        (remaining - encode_utf8(text).len()) as nat
    }
}

/// The lines of a snippet from line `k + 1` on, up to line `end`, with
/// `remaining` characters left: each line as far as the budget reaches,
/// and no line behind the one that uses the budget up.
pub open spec fn snippet_from(
    lines: Seq<Seq<char>>,
    k: nat,
    end: nat,
    remaining: nat,
    unlimited: bool,
) -> Seq<(nat, Seq<char>)>
    decreases lines.len() - k,
{
    if k >= lines.len() || k + 1 > end {
        Seq::empty()
    } else {
        let text = shown(lines[k as int], remaining, unlimited);
        let left = left_after(text, remaining, unlimited);
        if !unlimited && left == 0 {
            seq![(k + 1, text)]
        } else {
            seq![(k + 1, text)] + snippet_from(lines, k + 1, end, left, unlimited)
        }
    }
}

/// The first line of a snippet: `start_line`, but no earlier than one.
pub open spec fn first_line(start_line: usize) -> nat {
    if start_line < 1 {
        1
    } else {
        start_line as nat
    }
}

/// The last line of a snippet: `end_line`, but no earlier than the first.
pub open spec fn last_line(start_line: usize, end_line: usize) -> nat {
    if end_line < first_line(start_line) {
        first_line(start_line)
    } else {
        end_line as nat
    }
}

/// Whether a budget of `max_chars` is none at all.
pub open spec fn no_budget(max_chars: usize) -> bool {
    max_chars == 0 || max_chars == usize::MAX
}

/// The snippet of a file with the content `bytes` for the lines from
/// `start_line` to `end_line`, under a budget of `max_chars` characters;
/// a budget of zero is none. An empty file has no snippet.
pub open spec fn snippet_of(bytes: Seq<u8>, start_line: usize, end_line: usize, max_chars: usize) -> Seq<
    (nat, Seq<char>),
> {
    if bytes.len() == 0 {
        Seq::empty()
    } else {
        snippet_from(
            split_lines(utf8_lossy(bytes)),
            (first_line(start_line) - 1) as nat,
            last_line(start_line, end_line),
            max_chars as nat,
            no_budget(max_chars),
        )
    }
}

/// The snippet of a file with the content `bytes`.
pub fn read_snippet_lines(bytes: &[u8], start_line: usize, end_line: usize, max_chars: usize) -> (out:
    Vec<SnippetLine>)
    ensures
        snippet_views(out@) == snippet_of(bytes@, start_line, end_line, max_chars),
{
    let mut out: Vec<SnippetLine> = Vec::new();
    if bytes.len() == 0 {
        assert(snippet_views(out@) == Seq::<(nat, Seq<char>)>::empty());
        return out;
    }
    let contents = from_utf8_lossy(bytes);
    let lines = lines_of(contents.as_str());
    let start: usize = if start_line < 1 {
        1
    } else {
        start_line
    };
    let end: usize = if end_line < start {
        start
    } else {
        end_line
    };
    let unlimited = max_chars == 0 || max_chars == usize::MAX;
    let mut remaining: usize = max_chars;
    let ghost all = views(lines@);
    let mut k: usize = start - 1;
    assert(snippet_views(out@) == Seq::<(nat, Seq<char>)>::empty());
    loop
        invariant_except_break
            snippet_views(out@) + snippet_from(all, k as nat, end as nat, remaining as nat, unlimited)
                == snippet_of(bytes@, start_line, end_line, max_chars),
        invariant
            all == views(lines@),
        ensures
            snippet_views(out@) == snippet_of(bytes@, start_line, end_line, max_chars),
        decreases lines@.len() - k,
    {
        if k >= lines.len() || k >= end {
            break ;
        }
        let line = &lines[k];
        assert(all[k as int] == line@);
        let ghost done = snippet_views(out@);
        let text = if unlimited || line.as_str().as_bytes().len() <= remaining {
            line.clone()
        } else {
            let chars = chars_of(line.as_str());
            if remaining < chars.len() {
                string_of(slice_subrange(chars.as_slice(), 0, remaining))
            } else {
                line.clone()
            }
        };
        assert(text@ == shown(line@, remaining as nat, unlimited));
        if !unlimited {
            remaining = remaining.saturating_sub(text.as_str().as_bytes().len());
        }
        let ghost shown_text = text@;
        out.push(SnippetLine { line_number: k + 1, text });
        assert(snippet_views(out@) == done + seq![((k + 1) as nat, shown_text)]);
        if !unlimited && remaining == 0 {
            break ;
        }
        k += 1;
    }
    out
}

/// `count` spaces.
pub open spec fn spaces(count: nat) -> Seq<char> {
    Seq::new(count, |i: int| ' ')
}

/// `n` in decimal digits, behind as many spaces as bring it to `width`
/// characters.
pub open spec fn right_aligned(n: nat, width: nat) -> Seq<char> {
    if decimal(n).len() < width {
        spaces((width - decimal(n).len()) as nat) + decimal(n)
    } else {
        decimal(n)
    }
}

/// The line of the report that shows one line of a snippet: the number of
/// the line, as wide as the number of the last line of the hit, and the
/// text.
pub open spec fn snippet_row(line: (nat, Seq<char>), end_line: nat) -> Seq<char> {
    "  "@ + right_aligned(line.0, decimal(end_line).len()) + " | "@ + line.1
}

/// The lines of the report that show the first `n` lines of `snippet`.
pub open spec fn snippet_rows(snippet: Seq<(nat, Seq<char>)>, end_line: nat, n: int) -> Seq<Seq<char>>
    decreases n,
{
    if n <= 0 || n > snippet.len() {
        Seq::empty()
    } else {
        snippet_rows(snippet, end_line, n - 1).push(snippet_row(snippet[n - 1], end_line))
    }
}

/// The heading of a hit: its path, its lines and its score.
pub open spec fn heading(result: SearchResult) -> Seq<char> {
    result.file_path@ + ":"@ + decimal(result.start_line as nat) + "-"@ + decimal(
        result.end_line as nat,
    ) + " score="@ + result.score@
}

/// The line that stands for a snippet that is not there.
pub open spec fn missing_snippet(result: SearchResult) -> Seq<char> {
    match result.snippet_error {
        Some(err) => "  (snippet unavailable: "@ + err@ + ")"@,
        None => "  (no snippet)"@,
    }
}

/// The lines of the report on one hit: the heading, and the snippet or
/// what stands for it.
pub open spec fn result_lines(result: SearchResult) -> Seq<Seq<char>> {
    if result.snippet@.len() == 0 {
        seq![heading(result), missing_snippet(result)]
    } else {
        seq![heading(result)] + snippet_rows(
            snippet_views(result.snippet@),
            result.end_line as nat,
            result.snippet@.len() as int,
        )
    }
}

/// The lines of the report on the first `n` of `results`.
pub open spec fn report_lines(results: Seq<SearchResult>, n: int) -> Seq<Seq<char>>
    decreases n,
{
    if n <= 0 || n > results.len() {
        Seq::empty()
    } else {
        report_lines(results, n - 1) + result_lines(results[n - 1])
    }
}

/// The report on `results`: one line that says so where there are none.
pub open spec fn report(results: Seq<SearchResult>) -> Seq<Seq<char>> {
    if results.len() == 0 {
        seq!["No results found."@]
    } else {
        report_lines(results, results.len() as int)
    }
}

/// Writes `n` behind `out`, behind as many spaces as bring it to `width`
/// characters.
fn push_right_aligned(out: &mut String, n: usize, width: usize)
    ensures
        final(out)@ == old(out)@ + right_aligned(n as nat, width as nat),
{
    let digits = decimal_string(n as u128);
    let len = chars_of(digits.as_str()).len();
    let ghost start = out@;
    if len < width {
        let mut i: usize = 0;
        while i < width - len
            invariant
                len < width,
                i <= width - len,
                out@ == start + spaces(i as nat),
            decreases width - len - i,
        {
            out.push(' ');
            assert(start + spaces(i as nat).push(' ') == start + spaces((i + 1) as nat)) by {
                assert(spaces(i as nat).push(' ') =~= spaces((i + 1) as nat));
            }
            i += 1;
        }
    } else {
        assert(start + Seq::<char>::empty() == start);
    }
    out.append(digits.as_str());
    assert(out@ == start + right_aligned(n as nat, width as nat)) by {
        if len < width {
            assert(out@ == start + spaces((width - len) as nat) + decimal(n as nat));
            assert(start + spaces((width - len) as nat) + decimal(n as nat) == start + (spaces(
                (width - len) as nat,
            ) + decimal(n as nat)));
        }
    }
}

/// The report on `results`.
pub fn format_search_results(results: &[SearchResult]) -> (lines: Vec<String>)
    ensures
        views(lines@) == report(results@),
{
    let mut lines: Vec<String> = Vec::new();
    if results.len() == 0 {
        lines.push(String::from_str("No results found."));
        assert(views(lines@) == seq!["No results found."@]);
        return lines;
    }
    let mut i: usize = 0;
    assert(views(lines@) == Seq::<Seq<char>>::empty());
    while i < results.len()
        invariant
            i <= results@.len(),
            views(lines@) == report_lines(results@, i as int),
        decreases results@.len() - i,
    {
        let result = &results[i];
        let ghost done = views(lines@);
        let mut head = result.file_path.clone();
        head.append(":");
        push_decimal(&mut head, result.start_line as u128);
        head.append("-");
        push_decimal(&mut head, result.end_line as u128);
        head.append(" score=");
        head.append(result.score.as_str());
        assert(head@ == heading(*result));
        lines.push(head);
        assert(views(lines@) == done + seq![heading(*result)]);
        if result.snippet.len() == 0 {
            let message = match &result.snippet_error {
                Some(err) => String::from_str("  (snippet unavailable: ").concat(err.as_str()).concat(
                    ")",
                ),
                None => String::from_str("  (no snippet)"),
            };
            lines.push(message);
            assert(views(lines@) == done + result_lines(*result));
        } else {
            let width = chars_of(decimal_string(result.end_line as u128).as_str()).len();
            let ghost rows = snippet_views(result.snippet@);
            let mut j: usize = 0;
            assert(views(lines@) == done + seq![heading(*result)] + snippet_rows(
                rows,
                result.end_line as nat,
                0,
            ));
            while j < result.snippet.len()
                invariant
                    j <= result.snippet@.len(),
                    rows == snippet_views(result.snippet@),
                    width == decimal(result.end_line as nat).len(),
                    views(lines@) == done + seq![heading(*result)] + snippet_rows(
                        rows,
                        result.end_line as nat,
                        j as int,
                    ),
                decreases result.snippet@.len() - j,
            {
                let shown_line = &result.snippet[j];
                let ghost before = views(lines@);
                let mut row = String::from_str("  ");
                push_right_aligned(&mut row, shown_line.line_number, width);
                row.append(" | ");
                row.append(shown_line.text.as_str());
                assert(rows[j as int] == (shown_line.line_number as nat, shown_line.text@));
                assert(row@ == snippet_row(rows[j as int], result.end_line as nat));
                lines.push(row);
                assert(views(lines@) == before.push(row@));
                assert(done + seq![heading(*result)] + snippet_rows(
                    rows,
                    result.end_line as nat,
                    j as int,
                ).push(row@) == (done + seq![heading(*result)] + snippet_rows(
                    rows,
                    result.end_line as nat,
                    j as int,
                )).push(row@));
                j += 1;
            }
            assert(views(lines@) == done + result_lines(*result)) by {
                assert(done + seq![heading(*result)] + snippet_rows(
                    rows,
                    result.end_line as nat,
                    result.snippet@.len() as int,
                ) == done + (seq![heading(*result)] + snippet_rows(
                    rows,
                    result.end_line as nat,
                    result.snippet@.len() as int,
                )));
            }
        }
        i += 1;
    }
    lines
}

/// The query that `words` make: the words with a space between each two,
/// without the white space around the whole; none where nothing is left.
pub fn search_query(words: &[String]) -> (query: Option<String>)
    ensures
        match query {
            Some(text) => text@ == trimmed(joined(views(words@), ' ')) && text@.len() > 0,
            None => trimmed(joined(views(words@), ' ')).len() == 0,
        },
{
    let all = join_with(words, 0, words.len(), ' ');
    assert(views(words@).subrange(0, words@.len() as int) == views(words@));
    let chars = chars_of(all.as_str());
    let kept = trim_chars(chars.as_slice());
    if kept.len() == 0 {
        None
    } else {
        Some(string_of(kept.as_slice()))
    }
}

/// What is shown of a hit whose snippet was read, or could not be read
/// for the reason `snippet.err()`.
pub fn search_result(
    file_path: &str,
    start_line: usize,
    end_line: usize,
    score: String,
    snippet: Result<Vec<SnippetLine>, String>,
) -> (result: SearchResult)
    ensures
        result.file_path@ == file_path@,
        result.start_line == start_line,
        result.end_line == end_line,
        result.score == score,
        match snippet {
            Ok(lines) => result.snippet == lines && result.snippet_error is None,
            Err(reason) => result.snippet@.len() == 0 && result.snippet_error == Some(reason),
        },
{
    let (lines, snippet_error) = match snippet {
        Ok(lines) => (lines, None),
        Err(reason) => (Vec::new(), Some(reason)),
    };
    SearchResult {
        file_path: String::from_str(file_path),
        start_line,
        end_line,
        score,
        snippet: lines,
        snippet_error,
    }
}

} // verus!
