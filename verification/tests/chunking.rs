use semcache::semantic::index::{chunk_lines, Chunk};

#[test]
fn chunk_lines_splits_by_max_lines() {
    let lines = vec![
        "one".to_string(),
        "two".to_string(),
        "three".to_string(),
        "four".to_string(),
    ];
    let chunks = chunk_lines(&lines, 2);
    let expected = vec![
        Chunk {
            start_line: 1,
            end_line: 2,
            text: "one\ntwo".to_string(),
        },
        Chunk {
            start_line: 3,
            end_line: 4,
            text: "three\nfour".to_string(),
        },
    ];
    assert_eq!(chunks, expected);
}
