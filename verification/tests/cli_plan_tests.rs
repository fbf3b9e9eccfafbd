use semcs::cli_plan::{
    chunk_progress_message, compose_result_line, context_lines, default_top_k, files_with_matches,
    model_description, plan_command, search_mode_from_flags, short_file_name, show_filenames,
    CliCommand, CliError, CliFlags,
};
use semcs::types::SearchMode;

fn flags() -> CliFlags {
    CliFlags {
        switch_model: None,
        index: false,
        clean: false,
        clean_orphans: false,
        add: false,
        status: false,
        status_verbose: false,
        inspect: false,
        files_with_matches: false,
        files_without_matches: false,
        pattern: None,
        files: Vec::new(),
    }
}

fn strings(v: &[&str]) -> Vec<String> {
    v.iter().map(|s| s.to_string()).collect()
}

#[test]
fn plan_search_with_pattern() {
    let mut f = flags();
    f.pattern = Some("fn main".to_string());
    assert_eq!(plan_command(&f), Ok(CliCommand::Search { pattern: "fn main".to_string() }));
}

#[test]
fn plan_without_pattern_is_an_error() {
    assert_eq!(plan_command(&flags()), Err(CliError::NoPattern));
}

#[test]
fn plan_switch_model_comes_first() {
    let mut f = flags();
    f.switch_model = Some("bge-small".to_string());
    f.index = true;
    f.pattern = Some("x".to_string());
    assert_eq!(
        plan_command(&f),
        Ok(CliCommand::SwitchModel { path: ".".to_string(), model: "bge-small".to_string() })
    );
}

#[test]
fn plan_index_uses_first_file() {
    let mut f = flags();
    f.index = true;
    f.files = strings(&["src", "docs"]);
    assert_eq!(plan_command(&f), Ok(CliCommand::Index { path: "src".to_string() }));
}

#[test]
fn plan_clean_orphans() {
    let mut f = flags();
    f.clean_orphans = true;
    assert_eq!(plan_command(&f), Ok(CliCommand::Clean { path: ".".to_string(), orphans_only: true }));
    let mut g = flags();
    g.clean = true;
    assert_eq!(plan_command(&g), Ok(CliCommand::Clean { path: ".".to_string(), orphans_only: false }));
}

#[test]
fn plan_add_takes_pattern_or_first_file() {
    let mut f = flags();
    f.add = true;
    f.pattern = Some("a.rs".to_string());
    assert_eq!(plan_command(&f), Ok(CliCommand::Add { file: "a.rs".to_string() }));
    f.files = strings(&["b.rs"]);
    assert_eq!(plan_command(&f), Ok(CliCommand::Add { file: "b.rs".to_string() }));
    let mut g = flags();
    g.add = true;
    assert_eq!(plan_command(&g), Err(CliError::AddWithoutFile));
}

#[test]
fn plan_status_verbose() {
    let mut f = flags();
    f.status_verbose = true;
    f.files = strings(&["repo"]);
    assert_eq!(plan_command(&f), Ok(CliCommand::Status { path: "repo".to_string(), verbose: true }));
}

#[test]
fn plan_inspect_needs_a_file() {
    let mut f = flags();
    f.inspect = true;
    assert_eq!(plan_command(&f), Err(CliError::InspectWithoutFile));
    f.files = strings(&["x.py"]);
    assert_eq!(plan_command(&f), Ok(CliCommand::Inspect { file: "x.py".to_string() }));
    f.pattern = Some("y.py".to_string());
    assert_eq!(plan_command(&f), Ok(CliCommand::Inspect { file: "y.py".to_string() }));
}

#[test]
fn plan_refuses_both_list_flags() {
    let mut f = flags();
    f.files_with_matches = true;
    f.files_without_matches = true;
    f.pattern = Some("x".to_string());
    assert_eq!(plan_command(&f), Err(CliError::ListFlagsConflict));
}

#[test]
fn mode_precedence() {
    assert_eq!(search_mode_from_flags(true, true, true), SearchMode::Semantic);
    assert_eq!(search_mode_from_flags(false, true, true), SearchMode::Lexical);
    assert_eq!(search_mode_from_flags(false, false, true), SearchMode::Hybrid);
    assert_eq!(search_mode_from_flags(false, false, false), SearchMode::Regex);
}

#[test]
fn context_defaults() {
    assert_eq!(context_lines(None, None, None), (0, 0, 0));
    assert_eq!(context_lines(Some(3), None, Some(1)), (3, 3, 1));
    assert_eq!(context_lines(None, Some(2), None), (0, 2, 0));
}

#[test]
fn top_k_defaults_to_ten_for_semantic() {
    assert_eq!(default_top_k(SearchMode::Semantic, None), Some(10));
    assert_eq!(default_top_k(SearchMode::Regex, None), None);
    assert_eq!(default_top_k(SearchMode::Semantic, Some(3)), Some(3));
}

#[test]
fn filenames_like_grep() {
    assert!(!show_filenames(1, false, false, false));
    assert!(show_filenames(2, false, false, false));
    assert!(show_filenames(1, true, false, false));
    assert!(!show_filenames(2, true, true, false));
    assert!(show_filenames(1, false, true, true));
}

#[test]
fn model_description_with_and_without_alias() {
    assert_eq!(model_description("bge-small", "bge-small", 384), "bge-small (384 dims)");
    assert_eq!(
        model_description("nomic", "nomic-embed-text-v1.5", 768),
        "nomic-embed-text-v1.5 (alias 'nomic', 768 dims)"
    );
}

#[test]
fn short_names_drop_directories() {
    assert_eq!(short_file_name("src/lib/main.rs"), "main.rs");
    assert_eq!(short_file_name("main.rs"), "main.rs");
    assert_eq!(short_file_name("dir/"), "");
}

#[test]
fn chunk_progress_counts_from_one() {
    assert_eq!(chunk_progress_message("a/b.rs", 0, 4, 512), "b.rs (chunk 1/4, 512B)");
}

#[test]
fn result_line_layouts() {
    assert_eq!(compose_result_line("[0.900] ", "f.rs:\n", "12", "code", true, true), "[0.900] f.rs:\n12:code");
    assert_eq!(compose_result_line("", "f.rs:\n", "12", "code", true, false), "12:code");
    assert_eq!(compose_result_line("", "f.rs:\n", "12", "code", false, true), "f.rs:\ncode");
}

#[test]
fn listed_files_once_in_order() {
    let files = strings(&["b.rs", "a.rs", "b.rs", "c.rs", "a.rs"]);
    assert_eq!(files_with_matches(&files), strings(&["b.rs", "a.rs", "c.rs"]));
}
