use semcs::highlight::{highlight_kind, highlight_regex_matches, mark_ranges, mark_ranges_with, HighlightKind};
use semcs::types::SearchMode;

const RED_BOLD: &str = "\x1b[31m\x1b[1m";
const RESET: &str = "\x1b[0m";

fn plain_or_marked(result: &str, before: &str, piece: &str, after: &str) -> bool {
    let plain = format!("{}{}{}", before, piece, after);
    let marked = format!("{}{}{}{}{}", before, RED_BOLD, piece, RESET, after);
    result == plain || result == marked
}

#[test]
fn test_highlight_regex_matches_with_valid_pattern() {
    let text = "hello world test";
    let pattern = "world";
    let result = highlight_regex_matches(text, pattern, false, false, false);
    assert!(result.contains("world"));
}

#[test]
fn test_highlight_regex_matches_with_invalid_pattern() {
    let text = "hello world test";
    let pattern = "[invalid";
    let original_text = highlight_regex_matches(text, pattern, false, false, false);
    assert_eq!(original_text, text);
}

#[test]
fn test_highlight_regex_matches_with_fixed_string() {
    let text = "hello [world] test";
    let pattern = "[world]";
    let result = highlight_regex_matches(text, pattern, false, true, false);
    assert!(result.contains("[world]"));
}

#[test]
fn test_highlight_regex_matches_with_whole_word() {
    let text = "hello [world] test";
    let pattern = "[world]";
    let result = highlight_regex_matches(text, pattern, false, false, true);
    assert!(result.contains("[world]"));
}

#[test]
fn highlight_marks_only_the_match() {
    let result = highlight_regex_matches("hello world test", "wor.d", false, false, false);
    assert!(plain_or_marked(&result, "hello ", "world", " test"));
}

#[test]
fn highlight_without_match_keeps_text() {
    let result = highlight_regex_matches("hello world", "xyz", false, false, false);
    assert_eq!(result, "hello world");
}

#[test]
fn highlight_case_insensitive_finds_other_case() {
    let result = highlight_regex_matches("Hello World", "world", true, false, false);
    assert!(plain_or_marked(&result, "Hello ", "World", ""));
}

#[test]
fn highlight_fixed_string_takes_dots_literally() {
    // "a.c" as a regex would also match "abc"; fixed, only the literal text.
    let result = highlight_regex_matches("abc a.c", "a.c", false, true, false);
    assert!(plain_or_marked(&result, "abc ", "a.c", ""));
}

#[test]
fn highlight_whole_word_skips_partial_words() {
    let result = highlight_regex_matches("cat concat cat", "cat", false, false, true);
    let plain = "cat concat cat".to_string();
    let marked_cat = format!("{}cat{}", RED_BOLD, RESET);
    let marked = format!("{} concat {}", marked_cat, marked_cat);
    assert!(result == plain || result == marked);
}

#[test]
fn mark_ranges_keeps_text_around_ranges() {
    let ranges = vec![(0usize, 1usize), (2usize, 3usize)];
    let result = mark_ranges("abc", &ranges);
    let m = |s: &str| format!("{}{}{}", RED_BOLD, s, RESET);
    let options = [
        "abc".to_string(),
        format!("{}bc", m("a")),
        format!("ab{}", m("c")),
        format!("{}b{}", m("a"), m("c")),
    ];
    assert!(options.contains(&result));
    // All matches are shown the same way.
    assert!(result == options[0] || result == options[3]);
}

#[test]
fn mark_ranges_with_colours_marks_every_match() {
    let ranges = vec![(0usize, 1usize), (2usize, 3usize)];
    let m = |s: &str| format!("{}{}{}", RED_BOLD, s, RESET);
    assert_eq!(mark_ranges_with("abc", &ranges, true), format!("{}b{}", m("a"), m("c")));
    assert_eq!(mark_ranges_with("abc", &ranges, false), "abc");
    let multibyte = vec![(2usize, 4usize)];
    assert_eq!(mark_ranges_with("éßx", &multibyte, true), format!("é{}x", m("ß")));
}

#[test]
fn mark_ranges_respects_multibyte_boundaries() {
    // "é" takes two bytes; the range 2..4 is the following "ß".
    let ranges = vec![(2usize, 4usize)];
    let result = mark_ranges("éßx", &ranges);
    assert!(plain_or_marked(&result, "é", "ß", "x"));
}

#[test]
fn mark_ranges_without_ranges_is_identity() {
    let ranges: Vec<(usize, usize)> = Vec::new();
    assert_eq!(mark_ranges("unchanged", &ranges), "unchanged");
}

#[test]
fn highlight_kind_by_mode_and_output() {
    assert_eq!(highlight_kind(true, false, SearchMode::Regex), HighlightKind::Plain);
    assert_eq!(highlight_kind(false, true, SearchMode::Semantic), HighlightKind::Plain);
    assert_eq!(highlight_kind(false, false, SearchMode::Regex), HighlightKind::RegexMatches);
    assert_eq!(highlight_kind(false, false, SearchMode::Hybrid), HighlightKind::Similarity);
    assert_eq!(highlight_kind(false, false, SearchMode::Lexical), HighlightKind::Plain);
}
