use semcs::regex_match::SearchRegex;
use semcs::regex_search::{regex_search, search_file_content, search_lines, LineMatch, RegexSearchError};

fn test_files() -> Vec<(String, String)> {
    vec![
        ("test1.txt", "hello world rust programming"),
        ("test2.rs", "fn main() { println!(\"Hello Rust\"); }"),
        ("test3.py", "print('Hello Python')"),
        ("test4.txt", "machine learning artificial intelligence"),
    ]
    .into_iter()
    .map(|(p, c)| (p.to_string(), c.to_string()))
    .collect()
}

fn search(query: &str, ci: bool, fixed: bool, word: bool, files: &Vec<(String, String)>, top_k: Option<usize>) -> Vec<LineMatch> {
    regex_search(query, ci, fixed, word, files, false, 0, 0, 0, top_k).unwrap()
}

#[test]
fn test_regex_search() {
    let results = search("rust", false, false, false, &test_files(), None);
    assert!(!results.is_empty());
    let rust_matches: Vec<_> = results.iter().filter(|r| r.preview.to_lowercase().contains("rust")).collect();
    assert!(!rust_matches.is_empty());
}

#[test]
fn test_regex_search_case_insensitive() {
    let results = search("HELLO", true, false, false, &test_files(), None);
    assert!(!results.is_empty());
}

#[test]
fn test_regex_search_fixed_string() {
    let results = search("fn main()", false, true, false, &test_files(), None);
    assert!(!results.is_empty());
}

#[test]
fn test_regex_search_whole_word() {
    let files = vec![("word_test.txt".to_string(), "rust rusty rustacean".to_string())];
    let results = search("rust", false, false, true, &files, None);
    assert!(!results.is_empty());
    assert_eq!(results.len(), 1);
    assert_eq!(results[0].span.byte_start, 0);
    assert_eq!(results[0].span.byte_end, 4);
}

#[test]
fn test_regex_search_top_k() {
    let files: Vec<(String, String)> = (0..10).map(|i| (format!("file{}.txt", i), "test content".to_string())).collect();
    let results = search("test", false, false, false, &files, Some(5));
    assert!(results.len() <= 5);
    assert_eq!(results.len(), 5);
}

#[test]
fn test_regex_search_span_offsets() {
    let files = vec![("spans.txt".to_string(), "test test test\nline two test\ntest end".to_string())];
    let results = search("test", false, false, false, &files, None);
    assert_eq!(results.len(), 5);

    let line1_matches: Vec<_> = results.iter().filter(|r| r.span.line_start == 1).collect();
    assert_eq!(line1_matches.len(), 3);
    assert_eq!(line1_matches[0].span.byte_start, 0);
    assert_eq!(line1_matches[1].span.byte_start, 5);
    assert_eq!(line1_matches[2].span.byte_start, 10);

    let line2_matches: Vec<_> = results.iter().filter(|r| r.span.line_start == 2).collect();
    assert_eq!(line2_matches.len(), 1);
    assert_eq!(line2_matches[0].span.byte_start, 24);

    let mut byte_starts: Vec<_> = results.iter().map(|r| r.span.byte_start).collect();
    byte_starts.sort();
    byte_starts.dedup();
    assert_eq!(byte_starts.len(), 5);
}

#[test]
fn test_search_file() {
    let regex = SearchRegex::new("rust", false).unwrap();
    let results = search_file_content(&regex, "test.txt", "line 1: hello\nline 2: world\nline 3: rust programming", false, 0, 0, 0);
    assert_eq!(results.len(), 1);
    assert_eq!(results[0].span.line_start, 3);
    assert!(results[0].preview.contains("rust"));
}

#[test]
fn test_search_file_with_context() {
    let regex = SearchRegex::new("target", false).unwrap();
    let results = search_file_content(&regex, "test.txt", "line 1\nline 2\ntarget line\nline 4\nline 5", false, 0, 0, 1);
    assert_eq!(results.len(), 1);
    assert!(results[0].preview.contains("line 2"));
    assert!(results[0].preview.contains("target line"));
    assert!(results[0].preview.contains("line 4"));
}

#[test]
fn invalid_pattern_is_refused() {
    let r = regex_search("[unclosed", false, false, false, &test_files(), false, 0, 0, 0, None);
    assert!(matches!(r, Err(RegexSearchError::InvalidPattern)));
    // The same text as a fixed string is searched literally.
    let files = vec![("a.txt".to_string(), "x [unclosed y".to_string())];
    let ok = regex_search("[unclosed", false, true, false, &files, false, 0, 0, 0, None).unwrap();
    assert_eq!(ok.len(), 1);
    assert_eq!(ok[0].span.byte_start, 2);
}

#[test]
fn empty_pattern_matches_each_line_once() {
    let regex = SearchRegex::new("", false).unwrap();
    let results = search_file_content(&regex, "f.txt", "ab\ncde", false, 0, 0, 0);
    assert_eq!(results.len(), 2);
    assert_eq!((results[0].span.byte_start, results[0].span.byte_end), (0, 2));
    assert_eq!((results[1].span.byte_start, results[1].span.byte_end), (3, 6));
    assert_eq!(results[1].preview, "cde");
}

#[test]
fn results_follow_file_order_and_name_their_file() {
    let files = vec![
        ("b.txt".to_string(), "hit".to_string()),
        ("a.txt".to_string(), "hit\nhit".to_string()),
    ];
    let results = search("hit", false, false, false, &files, None);
    let seen: Vec<(String, usize)> = results.iter().map(|r| (r.file.clone(), r.span.line_start)).collect();
    assert_eq!(seen, vec![("b.txt".to_string(), 1), ("a.txt".to_string(), 1), ("a.txt".to_string(), 2)]);
}

#[test]
fn full_section_shows_whole_definition() {
    let regex = SearchRegex::new("inner", false).unwrap();
    let content = "def f():\n    inner = 1\n    return inner\n";
    let results = search_file_content(&regex, "m.py", content, true, 0, 0, 0);
    assert_eq!(results.len(), 2);
    assert!(results[0].preview.contains("def f():"));
    assert!(results[0].preview.contains("return inner"));
}

#[test]
fn crlf_lines_count_one_byte_per_break() {
    // Lines are split as `str::lines` does; each break counts one byte.
    let regex = SearchRegex::new("b", false).unwrap();
    let results = search_file_content(&regex, "f.txt", "a\r\nb", false, 0, 0, 0);
    assert_eq!(results.len(), 1);
    assert_eq!(results[0].span.byte_start, 2);
}

#[test]
fn search_lines_uses_given_sections() {
    let regex = SearchRegex::new("x", false).unwrap();
    let lines = vec!["a".to_string(), "x".to_string(), "b".to_string()];
    let sections = Some(vec![(0usize, 2usize, "SECTION".to_string())]);
    let with = search_lines(&regex, "f", &lines, &sections, true, 0, 0, 0);
    assert_eq!(with[0].preview, "SECTION");
    let without = search_lines(&regex, "f", &lines, &sections, false, 0, 0, 1);
    assert_eq!(without[0].preview, "a\nx\nb");
}
