use semcs::chunk::{Chunk, ChunkType};
use semcs::embed::split_text;
use semcs::chunk_view::{
    build_chunk_strings, calculate_chunk_depths, calculate_max_depth, calculate_nesting_depth,
    chunk_display_line_to_string, collect_chunk_display_lines, convert_chunks_to_meta,
    drop_module_chunks, dump_chunk_view_internal, ChunkDisplayLine, IndexedChunkMeta,
};
use semcs::types::Span;

fn meta(kind: Option<&str>, start: usize, end: usize, tokens: Option<usize>) -> IndexedChunkMeta {
    IndexedChunkMeta {
        span: Span { byte_start: 0, byte_end: 0, line_start: start, line_end: end },
        chunk_type: kind.map(|k| k.to_string()),
        breadcrumb: None,
        ancestry: Vec::new(),
        estimated_tokens: tokens,
        byte_length: None,
        leading_trivia: None,
        trailing_trivia: None,
    }
}

fn lines(v: &[&str]) -> Vec<String> {
    v.iter().map(|s| s.to_string()).collect()
}

fn glyphs(row: &ChunkDisplayLine) -> String {
    match row {
        ChunkDisplayLine::Content { columns, .. } => columns.iter().map(|c| c.ch).collect(),
        _ => panic!("not a content row"),
    }
}

#[test]
fn chunk_view_draws_brackets_and_text_chunks() {
    let file = lines(&["fn a() {", "  x", "}", "use foo;"]);
    let all = vec![meta(Some("function"), 1, 3, Some(12)), meta(Some("text"), 4, 4, None)];
    let rows = collect_chunk_display_lines(&file, 0, 4, 2, Some(&all[0]), &all, false);
    assert_eq!(rows.len(), 5);
    match &rows[0] {
        ChunkDisplayLine::Label { prefix, text } => {
            assert_eq!(*prefix, 1);
            assert_eq!(text, "function  • 12 tokens");
        }
        _ => panic!("expected the header first"),
    }
    assert_eq!(glyphs(&rows[1]), "┌");
    assert_eq!(glyphs(&rows[2]), "│");
    assert_eq!(glyphs(&rows[3]), "└");
    assert_eq!(glyphs(&rows[4]), "·");
    match &rows[2] {
        ChunkDisplayLine::Content { columns, line_num, is_match_line, in_matched_chunk, has_any_chunk, .. } => {
            assert!(columns[0].is_match);
            assert_eq!(*line_num, 2);
            assert!(*is_match_line);
            assert!(*in_matched_chunk);
            assert!(*has_any_chunk);
        }
        _ => panic!(),
    }
    match &rows[4] {
        ChunkDisplayLine::Content { columns, in_matched_chunk, has_any_chunk, .. } => {
            assert!(!columns[0].is_match);
            assert!(!*in_matched_chunk);
            assert!(*has_any_chunk);
        }
        _ => panic!(),
    }
}

#[test]
fn chunk_view_nests_columns_by_depth() {
    let file = lines(&["a", "b", "c", "d", "e"]);
    let all = vec![
        meta(Some("class"), 1, 5, None),
        meta(Some("method"), 2, 3, None),
        meta(Some("method"), 4, 4, None),
    ];
    let rows = collect_chunk_display_lines(&file, 0, 5, 0, None, &all, true);
    let drawn: Vec<String> = rows.iter().map(glyphs).collect();
    assert_eq!(drawn, vec!["┌ ", "│┌", "│└", "│─", "└ "]);
}

#[test]
fn chunk_view_keeps_chunks_open_before_the_window() {
    let file = lines(&["a", "b", "c", "d"]);
    let all = vec![meta(Some("function"), 1, 4, None), meta(Some("function"), 2, 3, None)];
    let rows = collect_chunk_display_lines(&file, 2, 4, 0, None, &all, true);
    let drawn: Vec<String> = rows.iter().map(glyphs).collect();
    assert_eq!(drawn, vec!["│└", "└ "]);
}

#[test]
fn chunk_view_without_chunks_marks_definitions() {
    let file = lines(&["  fn main() {", "let x = 1;"]);
    let rows = collect_chunk_display_lines(&file, 0, 2, 1, None, &[], false);
    assert_eq!(rows.len(), 2);
    assert_eq!(glyphs(&rows[0]), "┣━");
    assert_eq!(glyphs(&rows[1]), "");
}

#[test]
fn chunk_view_notes_missing_match() {
    let file = lines(&["a"]);
    let all = vec![meta(Some("function"), 1, 1, None)];
    let rows = collect_chunk_display_lines(&file, 0, 1, 1, None, &all, false);
    assert_eq!(rows.len(), 2);
    match &rows[1] {
        ChunkDisplayLine::Message(m) => assert_eq!(
            m,
            "Chunk metadata available but no matching chunk found for this line."
        ),
        _ => panic!("expected the note"),
    }
    let full = collect_chunk_display_lines(&file, 0, 1, 1, None, &all, true);
    assert_eq!(full.len(), 1);
}

#[test]
fn chunk_display_line_to_string_pads_line_numbers() {
    let file = lines(&["fn a() {", "  x", "}"]);
    let all = vec![meta(Some("function"), 1, 3, None)];
    let rows = collect_chunk_display_lines(&file, 0, 3, 0, None, &all, true);
    assert_eq!(chunk_display_line_to_string(&rows[0]), "┌    1 | fn a() {");
    let label = ChunkDisplayLine::Label { prefix: 2, text: "x".to_string() };
    assert_eq!(chunk_display_line_to_string(&label), "  x");
    let msg = ChunkDisplayLine::Message("note".to_string());
    assert_eq!(chunk_display_line_to_string(&msg), "note");
}

#[test]
fn build_chunk_strings_marks_the_match() {
    let file = lines(&["fn a() {", "  x", "}", "use foo;"]);
    let all = vec![meta(Some("function"), 1, 3, Some(12)), meta(Some("text"), 4, 4, None)];
    let out = build_chunk_strings(&file, 0, 4, 2, Some(&all[0]), &all, false);
    assert_eq!(
        out,
        vec![
            " function  • 12 tokens".to_string(),
            "┌  1 | fn a() {".to_string(),
            "│  2 |   x  <= match".to_string(),
            "└  3 | }".to_string(),
            "·  4 | use foo;".to_string(),
        ]
    );
}

#[test]
fn dump_chunk_view_centres_on_the_smallest_chunk() {
    let file = lines(&["fn a() {", "  x", "}", "use foo;"]);
    let all = vec![meta(Some("function"), 1, 3, Some(12)), meta(Some("text"), 4, 4, None)];
    let out = dump_chunk_view_internal("a.rs", &file, false, &all, Some(2), false);
    assert_eq!(
        out,
        vec![
            "File: a.rs".to_string(),
            "function • ~12 tokens • L1-3".to_string(),
            String::new(),
            " function  • 12 tokens".to_string(),
            "┌  1 | fn a() {".to_string(),
            "│  2 |   x  <= match".to_string(),
            "└  3 | }".to_string(),
        ]
    );
}

#[test]
fn dump_chunk_view_of_empty_file() {
    let out = dump_chunk_view_internal("e.txt", &[], false, &[], None, false);
    assert_eq!(out, vec!["File: e.txt (empty)".to_string()]);
}

#[test]
fn dump_chunk_view_without_chunks() {
    let file = lines(&["one", "two"]);
    let out = dump_chunk_view_internal("p.txt", &file, true, &[], None, false);
    assert_eq!(
        out,
        vec![
            "File: p.txt".to_string(),
            "PDF chunk (approximate)".to_string(),
            String::new(),
            "   1 | one  <= match".to_string(),
            "   2 | two".to_string(),
        ]
    );
}

#[test]
fn nesting_depths_follow_containment() {
    let all = vec![
        meta(None, 1, 10, None),
        meta(None, 2, 5, None),
        meta(None, 3, 4, None),
        meta(None, 7, 8, None),
    ];
    assert_eq!(calculate_nesting_depth(&all[0], &all), 0);
    assert_eq!(calculate_nesting_depth(&all[1], &all), 1);
    assert_eq!(calculate_nesting_depth(&all[2], &all), 2);
    assert_eq!(calculate_nesting_depth(&all[3], &all), 1);
    assert_eq!(calculate_max_depth(&all), 2);
    assert_eq!(calculate_max_depth(&[]), 0);
    let depths = calculate_chunk_depths(&all);
    assert_eq!(depths.len(), 10);
    assert_eq!(depths.get(&1), Some(&0));
    assert_eq!(depths.get(&2), Some(&1));
    assert_eq!(depths.get(&3), Some(&2));
    assert_eq!(depths.get(&6), Some(&0));
    assert_eq!(depths.get(&8), Some(&1));
    assert_eq!(depths.get(&11), None);
}

#[test]
fn module_chunks_dropped_only_beside_others() {
    let mixed = vec![meta(Some("module"), 1, 9, None), meta(Some("function"), 2, 3, None)];
    let kept = drop_module_chunks(mixed);
    assert_eq!(kept.len(), 1);
    assert_eq!(kept[0].chunk_type.as_deref(), Some("function"));
    let only = vec![meta(Some("module"), 1, 9, None)];
    assert_eq!(drop_module_chunks(only).len(), 1);
}

#[test]
fn converted_chunks_keep_lines_and_kind() {
    let span = Span { byte_start: 0, byte_end: 4, line_start: 1, line_end: 1 };
    let chunks = vec![Chunk { span, text: "fn f".to_string(), chunk_type: ChunkType::Method, stride_info: None }];
    let metas = convert_chunks_to_meta(chunks);
    assert_eq!(metas.len(), 1);
    assert_eq!(metas[0].span, span);
    assert_eq!(metas[0].chunk_type.as_deref(), Some("method"));
}

#[test]
fn split_text_keeps_whole_lines_within_the_limit() {
    assert_eq!(split_text("ab\ncd\nef", 6), vec!["ab\ncd\n".to_string(), "ef\n".to_string()]);
    assert_eq!(split_text("a very long line", 3), vec!["a very long line\n".to_string()]);
    assert_eq!(split_text("", 5), Vec::<String>::new());
}
