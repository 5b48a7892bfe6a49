use semcache::search::{
    format_search_results, read_snippet_lines, search_query, search_result, SearchResult,
    SnippetLine,
};

fn line(line_number: usize, text: &str) -> SnippetLine {
    SnippetLine { line_number, text: text.to_string() }
}

#[test]
fn read_snippet_lines_truncates_to_max_chars() {
    let lines = read_snippet_lines(b"abcdef\n", 1, 1, 3);
    let expected = vec![line(1, "abc")];
    assert_eq!(lines, expected);
}

#[test]
fn format_search_results_includes_line_range_and_snippet() {
    let snippet = read_snippet_lines(b"one\ntwo\nthree\n", 2, 3, 1024);
    let results = vec![SearchResult {
        file_path: "sample.rs".to_string(),
        start_line: 2,
        end_line: 3,
        score: format!("{:.3}", 0.42_f32),
        snippet,
        snippet_error: None,
    }];
    let rendered = format_search_results(&results);

    assert_eq!(
        rendered,
        vec![
            "sample.rs:2-3 score=0.420".to_string(),
            "  2 | two".to_string(),
            "  3 | three".to_string(),
        ]
    );
}

#[test]
fn snippets_span_the_lines_of_the_hit() {
    let content = b"one\ntwo\nthree\nfour\n";
    assert_eq!(read_snippet_lines(content, 2, 3, 0), vec![line(2, "two"), line(3, "three")]);
    assert_eq!(read_snippet_lines(content, 0, 1, 0), vec![line(1, "one")]);
    assert_eq!(read_snippet_lines(content, 3, 1, 0), vec![line(3, "three")]);
    assert_eq!(read_snippet_lines(content, 4, 9, 0), vec![line(4, "four")]);
    assert_eq!(read_snippet_lines(content, 7, 9, 0), vec![]);
    assert_eq!(read_snippet_lines(b"", 1, 2, 0), vec![]);
    assert_eq!(read_snippet_lines(content, usize::MAX, usize::MAX, 0), vec![]);
}

#[test]
fn snippets_stop_where_the_budget_ends() {
    let content = b"one\ntwo\nthree\nfour\n";
    assert_eq!(read_snippet_lines(content, 1, 4, 6), vec![line(1, "one"), line(2, "two")]);
    assert_eq!(read_snippet_lines(content, 1, 4, 7), vec![line(1, "one"), line(2, "two"), line(3, "t")]);
    assert_eq!(read_snippet_lines(content, 1, 4, 1), vec![line(1, "o")]);
    assert_eq!(read_snippet_lines(content, 1, 4, usize::MAX).len(), 4);
    // The budget counts bytes where a line fits and characters where it is cut.
    let accents = "\u{e9}\u{e9}\u{e9}\nab\n".as_bytes();
    assert_eq!(read_snippet_lines(accents, 1, 2, 6), vec![line(1, "\u{e9}\u{e9}\u{e9}")]);
    assert_eq!(read_snippet_lines(accents, 1, 2, 4), vec![line(1, "\u{e9}\u{e9}\u{e9}")]);
    assert_eq!(read_snippet_lines(accents, 1, 2, 2), vec![line(1, "\u{e9}\u{e9}")]);
    assert_eq!(read_snippet_lines(accents, 1, 2, 8), vec![line(1, "\u{e9}\u{e9}\u{e9}"), line(2, "ab")]);
}

fn result(path: &str, start_line: usize, end_line: usize, snippet: Vec<SnippetLine>, error: Option<&str>) -> SearchResult {
    SearchResult {
        file_path: path.to_string(),
        start_line,
        end_line,
        score: "0.500".to_string(),
        snippet,
        snippet_error: error.map(|e| e.to_string()),
    }
}

#[test]
fn a_report_without_results_says_so() {
    assert_eq!(format_search_results(&[]), vec!["No results found.".to_string()]);
}

#[test]
fn line_numbers_are_as_wide_as_the_last_line() {
    let results = vec![
        result("a.rs", 8, 120, vec![line(8, "x"), line(9, ""), line(120, "z")], None),
        result("b.rs", 1, 2, vec![], None),
        result("c.rs", 3, 4, vec![], Some("failed to read c.rs")),
        result("d.rs", 0, 0, vec![line(12, "wide")], None),
    ];
    assert_eq!(
        format_search_results(&results),
        vec![
            "a.rs:8-120 score=0.500".to_string(),
            "    8 | x".to_string(),
            "    9 | ".to_string(),
            "  120 | z".to_string(),
            "b.rs:1-2 score=0.500".to_string(),
            "  (no snippet)".to_string(),
            "c.rs:3-4 score=0.500".to_string(),
            "  (snippet unavailable: failed to read c.rs)".to_string(),
            "d.rs:0-0 score=0.500".to_string(),
            "  12 | wide".to_string(),
        ]
    );
}

#[test]
fn a_query_is_its_words_with_spaces_between() {
    let words = |texts: &[&str]| texts.iter().map(|t| t.to_string()).collect::<Vec<String>>();
    assert_eq!(search_query(&words(&["find", "me"])).as_deref(), Some("find me"));
    assert_eq!(search_query(&words(&[" find ", "", "me "])).as_deref(), Some("find   me"));
    assert_eq!(search_query(&words(&[])), None);
    assert_eq!(search_query(&words(&["", " ", "\t"])), None);
}

#[test]
fn a_hit_is_shown_with_its_snippet_or_the_reason_for_none() {
    let shown = search_result("a.rs", 2, 3, "0.420".to_string(), Ok(vec![line(2, "two")]));
    assert_eq!(shown, result_with("a.rs", 2, 3, "0.420", vec![line(2, "two")], None));
    let failed = search_result("a.rs", 2, 3, "0.420".to_string(), Err("failed to read a.rs".to_string()));
    assert_eq!(failed, result_with("a.rs", 2, 3, "0.420", vec![], Some("failed to read a.rs")));
}

fn result_with(path: &str, start_line: usize, end_line: usize, score: &str, snippet: Vec<SnippetLine>, error: Option<&str>) -> SearchResult {
    SearchResult {
        file_path: path.to_string(),
        start_line,
        end_line,
        score: score.to_string(),
        snippet,
        snippet_error: error.map(|e| e.to_string()),
    }
}
