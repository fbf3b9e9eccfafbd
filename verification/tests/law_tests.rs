use semcs::chunk::{chunk_text, chunk_text_with_config, stride_large_chunk, Chunk, ChunkConfig, ChunkType};
use semcs::embed::TokenEstimator;
use semcs::types::Language;
use semcs::paths::{first_with_index, get_sidecar_path, reconstruct_original_path};
use semcs::chunk_view::{collect_chunk_display_lines, ChunkDisplayLine, IndexedChunkMeta};
use semcs::heatmap::split_into_tokens;
use semcs::models::ModelRegistry;
use semcs::cli_plan::files_with_matches;
use semcs::highlight::mark_ranges;
use semcs::index_update::orphaned_entries;
use semcs::regex_match::SearchRegex;
use semcs::regex_search::search_file_content;
use semcs::tui_logic::{cycle_preview_style, record_search, toggle_selection, PreviewStyle};
use semcs::types::Span;
use semcs::user_config::{ConfigValue, UserConfig};

#[test]
fn tokens_put_back_together_give_the_text() {
    let text = "let x = foo(bar[1], baz);\n\tif y { z! }";
    let tokens = split_into_tokens(text);
    assert_eq!(tokens.concat(), text);
    assert!(tokens.iter().all(|t| !t.is_empty()));
}

#[test]
fn strides_rebuild_the_chunk_and_report_their_number() {
    let long_text = (1..=40)
        .map(|i| format!("line {} of a chunk that is far too large for one window", i))
        .collect::<Vec<_>>()
        .join("\n");
    let chunk = Chunk {
        span: Span { byte_start: 0, byte_end: long_text.len(), line_start: 1, line_end: 40 },
        text: long_text.clone(),
        chunk_type: ChunkType::Text,
        stride_info: None,
    };
    let config = ChunkConfig { max_tokens: 80, stride_overlap: 8, enable_striding: true };
    let strides = stride_large_chunk(chunk, &config).expect("strides");
    assert!(strides.len() > 1);
    let mut rebuilt = String::new();
    for (k, s) in strides.iter().enumerate() {
        let info = s.stride_info.as_ref().expect("stride info");
        assert_eq!(info.total_strides, strides.len());
        assert_eq!(info.stride_index, k);
        let skip = if k == 0 { 0 } else { info.overlap_start };
        rebuilt.extend(s.text.chars().skip(skip));
    }
    assert_eq!(rebuilt, long_text);
}

#[test]
fn view_shows_each_line_once_in_order() {
    let file: Vec<String> = (1..=6).map(|i| format!("line {}", i)).collect();
    let all = vec![IndexedChunkMeta {
        span: Span { byte_start: 0, byte_end: 0, line_start: 2, line_end: 4 },
        chunk_type: Some("function".to_string()),
        breadcrumb: Some("mod::f".to_string()),
        ancestry: Vec::new(),
        estimated_tokens: None,
        byte_length: None,
        leading_trivia: None,
        trailing_trivia: None,
    }];
    let rows = collect_chunk_display_lines(&file, 1, 5, 3, Some(&all[0]), &all, false);
    let numbers: Vec<usize> = rows
        .iter()
        .filter_map(|r| match r {
            ChunkDisplayLine::Content { line_num, .. } => Some(*line_num),
            _ => None,
        })
        .collect();
    assert_eq!(numbers, vec![2, 3, 4, 5]);
    match &rows[0] {
        ChunkDisplayLine::Label { text, .. } => assert_eq!(text, "function  (mod::f)"),
        _ => panic!("expected the header"),
    }
}

#[test]
fn default_registry_knows_its_default_model() {
    let registry = ModelRegistry::default();
    let model = registry.get_default_model().expect("default model");
    assert_eq!(model.name, "BAAI/bge-small-en-v1.5");
    assert_eq!(model.max_tokens, 512);
}

fn strs(v: &[&str]) -> Vec<String> {
    v.iter().map(|s| s.to_string()).collect()
}

#[test]
fn listed_files_name_each_path_once() {
    let files = strs(&["a.rs", "./a.rs", "b.rs", "a.rs"]);
    assert_eq!(files_with_matches(&files), strs(&["a.rs", "b.rs"]));
}

#[test]
fn toggling_twice_restores_the_selection() {
    let mut sel = strs(&["x.rs", "y.rs"]);
    toggle_selection(&mut sel, "z.rs");
    toggle_selection(&mut sel, "z.rs");
    assert_eq!(sel, strs(&["x.rs", "y.rs"]));
    toggle_selection(&mut sel, "x.rs");
    toggle_selection(&mut sel, "x.rs");
    let mut sorted = sel.clone();
    sorted.sort();
    assert_eq!(sorted, strs(&["x.rs", "y.rs"]));
}

#[test]
fn recording_a_search_twice_records_it_once() {
    let mut once = strs(&["a", "b"]);
    record_search(&mut once, "c".to_string());
    let mut twice = strs(&["a", "b"]);
    record_search(&mut twice, "c".to_string());
    record_search(&mut twice, "c".to_string());
    assert_eq!(once, twice);
}

#[test]
fn orphans_are_exactly_the_missing_files() {
    let manifest = strs(&["a.rs", "b.rs", "c.rs"]);
    let current = strs(&["b.rs"]);
    let orphans = orphaned_entries(&manifest, &current);
    for m in &manifest {
        assert_eq!(orphans.contains(m), !current.contains(m));
    }
}

#[test]
fn preview_style_cycle_comes_back() {
    let mut m = PreviewStyle::Syntax;
    for _ in 0..3 {
        m = cycle_preview_style(m).0;
    }
    assert_eq!(m, PreviewStyle::Syntax);
}

#[test]
fn a_setting_reads_back_what_was_written() {
    let mut c = UserConfig::default();
    c.set("default_topk", "+0042").unwrap();
    assert_eq!(c.get("default-topk"), Some(ConfigValue::Text("42".to_string())));
    assert_eq!(c.get("query-model"), Some(ConfigValue::Text("jina-code-1.5b".to_string())));
    c.set("quiet-mode", "true").unwrap();
    assert_eq!(c.get("quiet_mode"), Some(ConfigValue::Text("true".to_string())));
}

#[test]
fn writing_what_a_setting_reads_changes_nothing() {
    let mut c = UserConfig::default();
    for key in ["index-model", "default-topk", "rerank-enabled", "default-search-mode", "rerank-model"] {
        let v = match c.get(key) {
            Some(ConfigValue::Text(t)) => t,
            _ => panic!("no text for {}", key),
        };
        c.set(key, &v).unwrap();
        assert_eq!(c.get(key), Some(ConfigValue::Text(v)));
    }
    assert_eq!(c.default_topk, 10);
    assert_eq!(c.default_search_mode, "regex");
}

#[test]
fn search_results_come_line_by_line() {
    let re = SearchRegex::new("o", false).unwrap();
    let results = search_file_content(&re, "f.txt", "foo
bar
boo", false, 0, 0, 0);
    let lines: Vec<usize> = results.iter().map(|r| r.span.line_start).collect();
    assert_eq!(lines, vec![1, 1, 3, 3]);
    assert!(results.iter().all(|r| r.span.line_end == r.span.line_start));
}

#[test]
fn uncoloured_marking_keeps_the_text() {
    console::set_colors_enabled(false);
    let ranges = vec![(0usize, 3usize), (4usize, 6usize)];
    assert_eq!(mark_ranges("aé bc d", &ranges), "aé bc d");
}

fn same_chunk_lists(a: &[Chunk], b: &[Chunk]) -> bool {
    a.len() == b.len()
        && a.iter().zip(b.iter()).all(|(x, y)| {
            x.span == y.span && x.text == y.text && x.chunk_type == y.chunk_type && x.stride_info == y.stride_info
        })
}

#[test]
fn unsupported_languages_chunk_like_plain_text() {
    let text = (1..=120)
        .map(|i| format!("int value{} = compute({}); // step {}", i, i * 3, i))
        .collect::<Vec<_>>()
        .join("\n");
    let plain = chunk_text(&text, None).unwrap();
    assert!(plain.len() > 1);
    for lang in [Language::Java, Language::C, Language::Cpp, Language::Php, Language::Swift, Language::Kotlin] {
        let with_language = chunk_text(&text, Some(lang)).unwrap();
        assert!(same_chunk_lists(&with_language, &plain));
    }
    let tight = ChunkConfig { max_tokens: 40, stride_overlap: 4, enable_striding: true };
    let plain_strided = chunk_text_with_config(&text, None, &tight).unwrap();
    let java_strided = chunk_text_with_config(&text, Some(Language::Java), &tight).unwrap();
    assert!(plain_strided.iter().any(|c| c.stride_info.is_some()));
    assert!(same_chunk_lists(&java_strided, &plain_strided));
}

#[test]
fn whole_chunks_stay_within_the_token_budget() {
    let text = (1..=200)
        .map(|i| format!("fn item_{}() {{ let total = {} + {}; }}", i, i, i * 2))
        .collect::<Vec<_>>()
        .join("\n");
    let config = ChunkConfig { max_tokens: 60, stride_overlap: 5, enable_striding: true };
    let chunks = chunk_text_with_config(&text, None, &config).unwrap();
    assert!(chunks.iter().any(|c| c.stride_info.is_some()));
    for c in chunks.iter().filter(|c| c.stride_info.is_none()) {
        assert!(TokenEstimator::estimate_tokens(&c.text) <= config.max_tokens);
    }
    let unstrided = ChunkConfig { max_tokens: 60, stride_overlap: 5, enable_striding: false };
    let chunks = chunk_text_with_config(&text, None, &unstrided).unwrap();
    assert!(chunks.iter().all(|c| c.stride_info.is_none()));
    assert!(chunks.iter().any(|c| TokenEstimator::estimate_tokens(&c.text) > 60));
}

const SETTING_KEYS: [&str; 11] = [
    "index-model",
    "query-model",
    "default-topk",
    "default-threshold",
    "default-search-mode",
    "default-output-format",
    "show-scores-default",
    "line-numbers-default",
    "rerank-enabled",
    "rerank-model",
    "quiet-mode",
];

fn all_settings(c: &UserConfig) -> Vec<Option<ConfigValue>> {
    SETTING_KEYS.iter().map(|k| c.get(k)).collect()
}

#[test]
fn a_refused_change_keeps_every_setting() {
    let mut c = UserConfig::default();
    let before = all_settings(&c);
    assert!(c.set("no-such-key", "x").is_err());
    assert!(c.set("default-topk", "many").is_err());
    assert!(c.set("default-search-mode", "fuzzy").is_err());
    assert!(c.set("quiet_mode", "perhaps").is_err());
    assert_eq!(all_settings(&c), before);
}

#[test]
fn an_accepted_text_change_reads_back_and_leaves_the_rest() {
    let mut c = UserConfig::default();
    let before = all_settings(&c);
    c.set("default_output_format", "json").unwrap();
    let after = all_settings(&c);
    for (i, key) in SETTING_KEYS.iter().enumerate() {
        if *key == "default-output-format" {
            assert_eq!(after[i], Some(ConfigValue::Text("json".to_string())));
        } else {
            assert_eq!(after[i], before[i]);
        }
    }
}

#[test]
fn a_joined_file_comes_back_from_its_sidecar() {
    let root = "/work/repo";
    let file = std::path::Path::new(root).join("src/lib/main.rs");
    let index_dir = std::path::Path::new(root).join(".ck");
    let sidecar = get_sidecar_path(root, file.to_str().unwrap());
    assert_eq!(sidecar, "/work/repo/.ck/src/lib/main.rs.ck");
    let back = reconstruct_original_path(&sidecar, index_dir.to_str().unwrap(), root);
    assert_eq!(back.map(std::path::PathBuf::from), Some(file));
}

#[test]
fn the_first_directory_with_an_index_is_chosen() {
    assert_eq!(first_with_index(&vec![false, true, true]), Some(1));
    assert_eq!(first_with_index(&vec![false, false]), None);
    assert_eq!(first_with_index(&vec![]), None);
}
