use semcs::chunk_view::IndexedChunkMeta;
use semcs::types::{SearchMode, Span};
use semcs::tui_logic::{
    cycle_preview_style, indexing_note, preview_window, search_start_status, search_summary, toggle_full_file,
    PreviewStyle, classify_help_line, help_lines, PanelLine, search_mode_from_name, search_mode_name, TuiSettings,
    editor_invocation, files_to_open, history_lines, index_info, parse_command, progress_applies, record_search,
    stats_lines, toggle_selection, unknown_command_message, IndexStats, ProgressKind, TuiCommand,
};

fn strings(v: &[&str]) -> Vec<String> {
    v.iter().map(|s| s.to_string()).collect()
}

#[test]
fn commands_are_trimmed_and_recognised() {
    assert_eq!(parse_command("  /help ").0, TuiCommand::Help);
    assert_eq!(parse_command("/h").0, TuiCommand::Help);
    assert_eq!(parse_command("/?").0, TuiCommand::Help);
    assert_eq!(parse_command("/c").0, TuiCommand::Clear);
    assert_eq!(parse_command("/clear").0, TuiCommand::Clear);
    assert_eq!(parse_command("/history").0, TuiCommand::History);
    assert_eq!(parse_command("/stats").0, TuiCommand::Stats);
    let (c, t) = parse_command(" /nope  ");
    assert_eq!(c, TuiCommand::Unknown);
    assert_eq!(t, "/nope");
    assert_eq!(unknown_command_message(&t), "Unknown command: /nope. Type /help for available commands");
}

#[test]
fn history_skips_repeats_and_keeps_twenty() {
    let mut h: Vec<String> = Vec::new();
    assert_eq!(record_search(&mut h, "a".to_string()), 0);
    assert_eq!(record_search(&mut h, "a".to_string()), 0);
    assert_eq!(h, strings(&["a"]));
    assert_eq!(record_search(&mut h, "b".to_string()), 1);
    assert_eq!(record_search(&mut h, "a".to_string()), 2);
    assert_eq!(h, strings(&["a", "b", "a"]));
    let mut long: Vec<String> = (0..20).map(|i| format!("q{}", i)).collect();
    assert_eq!(record_search(&mut long, "new".to_string()), 19);
    assert_eq!(long.len(), 20);
    assert_eq!(long[0], "q1");
    assert_eq!(long[19], "new");
}

#[test]
fn selection_toggles_once_per_path() {
    let mut sel: Vec<String> = Vec::new();
    assert_eq!(toggle_selection(&mut sel, "src/a.rs"), "Selected src/a.rs (1 total)");
    assert_eq!(toggle_selection(&mut sel, "src/b.rs"), "Selected src/b.rs (2 total)");
    assert_eq!(toggle_selection(&mut sel, "src//a.rs"), "Deselected src//a.rs");
    assert_eq!(sel, strings(&["src/b.rs"]));
}

#[test]
fn open_current_or_selected_files() {
    let results = vec![
        ("a.rs".to_string(), 3usize),
        ("b.rs".to_string(), 7usize),
        ("a.rs".to_string(), 9usize),
    ];
    assert_eq!(files_to_open(&Vec::new(), &results, 1), vec![("b.rs".to_string(), 7)]);
    assert_eq!(files_to_open(&Vec::new(), &results, 5), Vec::<(String, usize)>::new());
    let selected = strings(&["a.rs", "c.rs", "b.rs"]);
    assert_eq!(
        files_to_open(&selected, &results, 0),
        vec![("a.rs".to_string(), 3), ("b.rs".to_string(), 7)]
    );
}

#[test]
fn editor_commands_by_kind() {
    let one = vec![("f.rs".to_string(), 12usize)];
    let two = vec![("f.rs".to_string(), 12usize), ("g.rs".to_string(), 4usize)];
    assert_eq!(editor_invocation("vim", &one), ("vim".to_string(), strings(&["+12", "f.rs"])));
    assert_eq!(
        editor_invocation("nvim", &two),
        ("nvim".to_string(), strings(&["+12", "f.rs", "+4", "g.rs", "-p"]))
    );
    assert_eq!(
        editor_invocation("code --wait", &two),
        ("code".to_string(), strings(&["--wait", "-g", "f.rs:12", "-g", "g.rs:4"]))
    );
    assert_eq!(editor_invocation("/usr/bin/subl", &one), ("/usr/bin/subl".to_string(), strings(&["f.rs:12"])));
    assert_eq!(editor_invocation("emacs -nw", &two), ("emacs".to_string(), strings(&["-nw", "+12", "f.rs"])));
    assert_eq!(editor_invocation("nano", &two), ("nano".to_string(), strings(&["+12", "f.rs"])));
    // Malformed quoting: the setting is taken as one program name.
    assert_eq!(editor_invocation("vim 'x", &one), ("vim 'x".to_string(), strings(&["+12", "f.rs"])));
}

#[test]
fn history_panel_lists_latest_first() {
    assert_eq!(history_lines(&Vec::new()), None);
    let lines = history_lines(&strings(&["first", "second"])).unwrap();
    assert_eq!(
        lines,
        strings(&["━━━ SEARCH HISTORY ━━━", "", "  1: second", "  2: first", "", "Use Ctrl+Up/Down to navigate history"])
    );
}

#[test]
fn index_panels() {
    let stats = IndexStats {
        total_files: 3,
        total_chunks: 10,
        embedded_chunks: 8,
        total_size_bytes: 2048,
        index_size_bytes: 512,
        index_created: 0,
        index_updated: 0,
    };
    assert_eq!(index_info(Some(&stats), None), "Index: 3 files, 10 chunks");
    assert_eq!(index_info(None, Some("broken")), "Index error: broken");
    assert_eq!(index_info(None, None), "Index: --");
    assert_eq!(
        stats_lines("/repo", Some(&stats), None),
        strings(&[
            "━━━ INDEX STATISTICS ━━━",
            "",
            "  Path: /repo",
            "  Files: 3",
            "  Chunks: 10 (8 embedded)",
            "  Total size: 2048 bytes",
            "  Index size: 512 bytes",
            "",
        ])
    );
    assert_eq!(
        stats_lines("/repo", None, Some("gone")),
        strings(&["━━━ INDEX STATISTICS ━━━", "", "  Error: gone", ""])
    );
    assert_eq!(
        stats_lines("/repo", None, None),
        strings(&["━━━ INDEX STATISTICS ━━━", "", "  Index data unavailable", ""])
    );
    assert_eq!(IndexStats::default().total_files, 0);
}

#[test]
fn stale_reports_are_ignored() {
    assert!(progress_applies(ProgressKind::Indexing, 2, 2, false));
    assert!(!progress_applies(ProgressKind::SearchCompleted, 1, 2, true));
    assert!(!progress_applies(ProgressKind::SearchProgress, 2, 2, false));
    assert!(progress_applies(ProgressKind::SearchProgress, 2, 2, true));
}

fn span_meta(start: usize, end: usize) -> IndexedChunkMeta {
    IndexedChunkMeta {
        span: Span { byte_start: 0, byte_end: 0, line_start: start, line_end: end },
        chunk_type: None,
        breadcrumb: None,
        ancestry: Vec::new(),
        estimated_tokens: None,
        byte_length: None,
        leading_trivia: None,
        trailing_trivia: None,
    }
}

#[test]
fn preview_styles_cycle() {
    assert_eq!(cycle_preview_style(PreviewStyle::Heatmap), (PreviewStyle::Syntax, "Preview: Syntax"));
    assert_eq!(cycle_preview_style(PreviewStyle::Syntax), (PreviewStyle::Chunks, "Preview: Chunks"));
    assert_eq!(cycle_preview_style(PreviewStyle::Chunks), (PreviewStyle::Heatmap, "Preview: Heatmap"));
    assert_eq!(toggle_full_file(false), (true, 0, "View: Full File"));
    assert_eq!(toggle_full_file(true), (false, 0, "View: Snippet"));
}

#[test]
fn preview_windows() {
    let none: Vec<IndexedChunkMeta> = Vec::new();
    // Snippet: five lines before the match, ten from it.
    assert_eq!(preview_window(&none, 20, 100, false, 0, false), Some((14, 29)));
    assert_eq!(preview_window(&none, 2, 100, false, 0, false), Some((0, 11)));
    assert_eq!(preview_window(&none, 2, 5, false, 0, false), Some((0, 5)));
    // Whole file: forty lines from the scroll position.
    assert_eq!(preview_window(&none, 20, 100, true, 30, false), Some((30, 70)));
    assert_eq!(preview_window(&none, 20, 100, true, 500, false), Some((99, 100)));
    // Chunk style: the innermost chunk holding the match.
    let spans = vec![span_meta(1, 50), span_meta(18, 25), span_meta(10, 30)];
    assert_eq!(preview_window(&spans, 20, 100, false, 0, true), Some((17, 25)));
    assert_eq!(preview_window(&spans, 20, 100, true, 0, true), Some((0, 40)));
}

#[test]
fn search_status_lines() {
    assert_eq!(search_start_status(SearchMode::Regex, false), ("Searching...", None));
    assert_eq!(
        search_start_status(SearchMode::Semantic, false),
        ("Preparing index...", Some("Indexing repository for semantic search..."))
    );
    assert_eq!(search_start_status(SearchMode::Hybrid, true), ("Searching...", None));
    assert_eq!(search_summary(0, 12), "No results (12 ms)");
    assert_eq!(search_summary(3, 7), "Found 3 results (7 ms)");
    assert_eq!(indexing_note("a.rs", 0, 3, 4, 10), "a.rs • 1/3 files • 5/10 chunks");
    assert_eq!(indexing_note("a.rs", 0, 0, 0, 0), "a.rs • 1/1 files • 1/1 chunks");
}

#[test]
fn help_panel_lines() {
    let lines = help_lines();
    assert_eq!(lines.len(), 34);
    assert_eq!(lines[0], "━━━ COMMAND MENU ━━━");
    assert_eq!(lines[33], "Press Esc to close help");
    assert_eq!(classify_help_line(&lines[0]), PanelLine::Heading);
    assert_eq!(
        classify_help_line("  Tab              - Cycle search modes (SEM/REG/HYB)"),
        PanelLine::KeyAndText("  Tab             ".to_string(), " - Cycle search modes (SEM/REG/HYB)".to_string())
    );
    assert_eq!(
        classify_help_line("  SEM - Semantic: Find code by meaning"),
        PanelLine::KeyAndText("  SEM".to_string(), " - Semantic: Find code by meaning".to_string())
    );
    assert_eq!(classify_help_line("Available commands:"), PanelLine::Plain);
    assert_eq!(classify_help_line("  Ctrl without dash"), PanelLine::Plain);
}

#[test]
fn saved_settings() {
    for m in [SearchMode::Semantic, SearchMode::Regex, SearchMode::Hybrid, SearchMode::Lexical] {
        assert_eq!(search_mode_from_name(search_mode_name(m)), m);
    }
    assert_eq!(search_mode_name(SearchMode::Hybrid), "hybrid");
    assert_eq!(search_mode_from_name("fuzzy"), SearchMode::Semantic);
    let d = TuiSettings::default();
    assert_eq!((d.search_mode, d.preview_style, d.full_file_mode), (SearchMode::Semantic, PreviewStyle::Heatmap, true));
}
