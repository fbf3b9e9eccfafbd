use semcs::search::{
    chunk_preview, chunk_type_label, token_stats, build_exclude_patterns, code_sections, extract_code_sections, extract_content_from_span,
    find_containing_section, get_context_preview, looks_like_text,
};
use semcs::chunk::{Chunk, ChunkType};
use semcs::embed::TokenEstimator;
use semcs::types::{get_default_exclude_patterns, Span};

fn lines(v: &[&str]) -> Vec<String> {
    v.iter().map(|s| s.to_string()).collect()
}

#[test]
fn context_preview_takes_lines_around_the_match() {
    let l = lines(&["a", "b", "c", "d", "e"]);
    assert_eq!(get_context_preview(&l, 2, 0, 0, 0), "c");
    assert_eq!(get_context_preview(&l, 2, 1, 1, 0), "b\nc\nd");
    assert_eq!(get_context_preview(&l, 0, 0, 0, 2), "a\nb\nc");
    assert_eq!(get_context_preview(&l, 4, 3, 9, 0), "b\nc\nd\ne");
}

#[test]
fn containing_section_is_the_first_that_holds_the_line() {
    let sections = vec![(0, 5, "outer".to_string()), (2, 3, "inner".to_string())];
    assert_eq!(find_containing_section(&sections, 2), Some(&"outer".to_string()));
    assert_eq!(find_containing_section(&sections, 6), None);
}

#[test]
fn code_sections_keep_definitions_only() {
    let span = |a: usize, b: usize| Span { byte_start: 0, byte_end: 0, line_start: a, line_end: b };
    let chunks = vec![
        Chunk { span: span(1, 2), text: "use x;".to_string(), chunk_type: ChunkType::Text, stride_info: None },
        Chunk { span: span(3, 5), text: "fn f() {}".to_string(), chunk_type: ChunkType::Function, stride_info: None },
    ];
    assert_eq!(code_sections(&chunks), Some(vec![(2, 4, "fn f() {}".to_string())]));
    assert_eq!(code_sections(&chunks[..1]), None);
}

#[test]
fn code_sections_of_a_rust_file() {
    let src = "fn a() {\n    1\n}\n\nfn b() {\n    2\n}\n";
    let sections = extract_code_sections("lib.rs", src).expect("definitions");
    assert_eq!(sections.len(), 2);
    assert_eq!(sections[0].0, 0);
    assert_eq!(sections[0].1, 2);
    assert_eq!(extract_code_sections("notes.unknown", src), None);
}

#[test]
fn span_content_joins_the_covered_lines() {
    let text = "one\ntwo\nthree\n";
    let span = |a: usize, b: usize| Span { byte_start: 0, byte_end: 0, line_start: a, line_end: b };
    assert_eq!(extract_content_from_span(text, &span(1, 2)), "one\ntwo");
    assert_eq!(extract_content_from_span(text, &span(2, 9)), "two\nthree");
    assert_eq!(extract_content_from_span(text, &span(3, 1)), "three");
    assert_eq!(extract_content_from_span(text, &span(0, 1)), "");
    assert_eq!(extract_content_from_span(text, &span(4, 4)), "");
}

#[test]
fn text_has_no_nul_byte() {
    assert!(looks_like_text(b"hello\n"));
    assert!(looks_like_text(b""));
    assert!(!looks_like_text(b"ab\0cd"));
}

#[test]
fn exclude_patterns_in_priority_order() {
    let ck = vec!["secret/".to_string()];
    let cli = vec!["*.log".to_string()];
    let without = build_exclude_patterns(&ck, &cli, false);
    assert_eq!(without, vec!["secret/".to_string(), "*.log".to_string()]);
    let with = build_exclude_patterns(&ck, &cli, true);
    assert_eq!(with.len(), 2 + get_default_exclude_patterns().len());
    assert_eq!(&with[2..], &get_default_exclude_patterns()[..]);
}

#[test]
fn chunk_preview_is_the_first_nonblank_line() {
    assert_eq!(chunk_preview("\n   \n  fn main() {  \n}"), "fn main() {");
    let long = format!("{}   ", "a".repeat(100));
    assert_eq!(chunk_preview(&long), "a".repeat(80));
    assert_eq!(chunk_preview("  \n\t"), "");
}

#[test]
fn chunk_type_labels_are_short() {
    assert_eq!(chunk_type_label(ChunkType::Function), "func");
    assert_eq!(chunk_type_label(ChunkType::Module), "mod");
}

#[test]
fn token_stats_of_chunks() {
    let span = Span { byte_start: 0, byte_end: 0, line_start: 1, line_end: 1 };
    let mk = |t: &str| Chunk { span, text: t.to_string(), chunk_type: ChunkType::Text, stride_info: None };
    assert_eq!(token_stats(&[]), None);
    let texts = ["hello world", "fn main() { let x = 1; }", "a"];
    let chunks: Vec<Chunk> = texts.iter().map(|t| mk(t)).collect();
    let counts: Vec<usize> = texts.iter().map(|t| TokenEstimator::estimate_tokens(t)).collect();
    let (lo, hi, sum) = token_stats(&chunks).unwrap();
    assert_eq!(lo, *counts.iter().min().unwrap());
    assert_eq!(hi, *counts.iter().max().unwrap());
    assert_eq!(sum, counts.iter().sum::<usize>() as u128);
}

#[test]
fn context_preview_past_the_last_line() {
    let l: Vec<String> = ["a", "b", "c"].iter().map(|s| s.to_string()).collect();
    assert_eq!(get_context_preview(&l, 4, 2, 0, 0), "c");
    assert_eq!(get_context_preview(&l, 3, 0, 1, 0), "");
    assert_eq!(get_context_preview(&l, 5, 0, 0, 2), "");
}
