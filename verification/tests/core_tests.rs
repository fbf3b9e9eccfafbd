use semcs::ast::{is_ast_pattern, map_language_to_astgrep};
use semcs::heatmap::{split_into_tokens, HeatmapBucket};
use semcs::paths::{
    get_sidecar_path, reconstruct_original_path, repo_root_candidates, sidecar_to_original_path,
};
use semcs::types::{Language, Span};

#[test]
fn test_span_creation() {
    let span = Span {
        byte_start: 0,
        byte_end: 10,
        line_start: 1,
        line_end: 2,
    };

    assert_eq!(span.byte_start, 0);
    assert_eq!(span.byte_end, 10);
    assert_eq!(span.line_start, 1);
    assert_eq!(span.line_end, 2);
}

#[test]
fn test_get_sidecar_path() {
    let repo_root = "/home/user/project";
    let file_path = "/home/user/project/src/main.rs";

    let sidecar = get_sidecar_path(repo_root, file_path);
    let expected = "/home/user/project/.ck/src/main.rs.ck";

    assert_eq!(sidecar, expected);
}

#[test]
fn test_get_sidecar_path_no_extension() {
    let repo_root = "/project";
    let file_path = "/project/README";

    let sidecar = get_sidecar_path(repo_root, file_path);
    let expected = "/project/.ck/README.ck";

    assert_eq!(sidecar, expected);
}

#[test]
fn sidecar_path_of_file_outside_root_keeps_its_own_place() {
    assert_eq!(get_sidecar_path("/project", "/elsewhere/a.py"), "/elsewhere/a.py.ck");
    assert_eq!(get_sidecar_path("/project", "notes/b"), "/project/.ck/notes/b.ck");
}

#[test]
fn sidecar_path_ignores_doubled_and_dot_separators() {
    assert_eq!(
        get_sidecar_path("/home/user/project/", "/home/user//project/./src/lib.rs"),
        "/home/user/project/.ck/src/lib.rs.ck"
    );
}

#[test]
fn test_language_from_extension() {
    assert_eq!(Language::from_extension("rs"), Some(Language::Rust));
    assert_eq!(Language::from_extension("py"), Some(Language::Python));
    assert_eq!(Language::from_extension("js"), Some(Language::JavaScript));
    assert_eq!(Language::from_extension("ts"), Some(Language::TypeScript));
    assert_eq!(Language::from_extension("tsx"), Some(Language::TypeScript));
    assert_eq!(Language::from_extension("hs"), Some(Language::Haskell));
    assert_eq!(Language::from_extension("lhs"), Some(Language::Haskell));
    assert_eq!(Language::from_extension("go"), Some(Language::Go));
    assert_eq!(Language::from_extension("java"), Some(Language::Java));
    assert_eq!(Language::from_extension("c"), Some(Language::C));
    assert_eq!(Language::from_extension("cpp"), Some(Language::Cpp));
    assert_eq!(Language::from_extension("cs"), Some(Language::CSharp));
    assert_eq!(Language::from_extension("rb"), Some(Language::Ruby));
    assert_eq!(Language::from_extension("php"), Some(Language::Php));
    assert_eq!(Language::from_extension("swift"), Some(Language::Swift));
    assert_eq!(Language::from_extension("kt"), Some(Language::Kotlin));
    assert_eq!(Language::from_extension("kts"), Some(Language::Kotlin));
    assert_eq!(Language::from_extension("unknown"), None);
}

#[test]
fn test_language_from_path() {
    assert_eq!(Language::from_path("test.rs"), Some(Language::Rust));
    assert_eq!(Language::from_path("test.py"), Some(Language::Python));
    assert_eq!(Language::from_path("test.js"), Some(Language::JavaScript));
    assert_eq!(Language::from_path("test.hs"), Some(Language::Haskell));
    assert_eq!(Language::from_path("test.lhs"), Some(Language::Haskell));
    assert_eq!(Language::from_path("test.go"), Some(Language::Go));
    assert_eq!(Language::from_path("test.unknown"), None); // unknown extensions return None
    assert_eq!(Language::from_path("noext"), None); // no extension
}

#[test]
fn language_from_path_reads_only_the_file_name() {
    assert_eq!(Language::from_path("dir.rs/noext"), None);
    assert_eq!(Language::from_path("/a/b/c.tar.go"), Some(Language::Go));
    assert_eq!(Language::from_path(".rs"), None);
    assert_eq!(Language::from_path("src/"), None);
    assert_eq!(Language::from_path("x/.."), None);
}

#[test]
fn test_language_display() {
    assert_eq!(Language::Rust.name(), "rust");
    assert_eq!(Language::Python.name(), "python");
    assert_eq!(Language::JavaScript.name(), "javascript");
    assert_eq!(Language::TypeScript.name(), "typescript");
    assert_eq!(Language::Go.name(), "go");
    assert_eq!(Language::Java.name(), "java");
}

#[test]
fn tokenisation_preserves_spacing_and_punctuation() {
    let tokens = split_into_tokens("fn main() {\n    println!(\"hello\");\n}");
    // Each space is its own token to enable independent highlighting
    assert_eq!(
        tokens,
        vec![
            "fn".to_string(),
            " ".to_string(),
            "main".to_string(),
            "(".to_string(),
            ")".to_string(),
            " ".to_string(),
            "{".to_string(),
            "\n".to_string(),
            " ".to_string(),
            " ".to_string(),
            " ".to_string(),
            " ".to_string(),
            "println".to_string(),
            "!".to_string(),
            "(".to_string(),
            "\"hello\"".to_string(),
            ")".to_string(),
            ";".to_string(),
            "\n".to_string(),
            "}".to_string(),
        ]
    );
}

#[test]
fn bucket_rgb_matches_expected_values() {
    assert_eq!(HeatmapBucket::Step1.rgb(), Some((180, 180, 180)));
    assert_eq!(HeatmapBucket::Step8.rgb(), Some((0, 255, 100)));
    assert!(HeatmapBucket::Unscored.rgb().is_none());
}

#[test]
fn test_is_ast_pattern() {
    assert!(is_ast_pattern("function $NAME() { $$$ }"));
    assert!(is_ast_pattern("$VAR = $VALUE"));
    assert!(is_ast_pattern("class $CLASS"));
    assert!(!is_ast_pattern("simple text search"));
}

#[test]
fn test_map_language() {
    assert_eq!(map_language_to_astgrep("rust"), "rust");
    assert_eq!(map_language_to_astgrep("python"), "python");
    assert_eq!(map_language_to_astgrep("typescript"), "typescript");
    assert_eq!(map_language_to_astgrep("c++"), "cpp");
}

#[test]
fn map_language_lowercases_before_mapping() {
    assert_eq!(map_language_to_astgrep("RUST"), "rust");
    assert_eq!(map_language_to_astgrep("C++"), "cpp");
}

#[test]
fn test_sidecar_to_original_path() {
    let temp_dir = tempfile::TempDir::new().unwrap();
    let root = temp_dir.path().to_str().unwrap().to_string();
    let index_dir = format!("{}/.ck", root);

    // Test normal file
    let sidecar = format!("{}/test.txt.ck", index_dir);
    let original = sidecar_to_original_path(&sidecar, &index_dir, &root);
    assert_eq!(original, Some("test.txt".to_string()));

    // Test nested file
    let nested_sidecar = format!("{}/src/main.rs.ck", index_dir);
    let nested_original = sidecar_to_original_path(&nested_sidecar, &index_dir, &root);
    assert_eq!(nested_original, Some("src/main.rs".to_string()));
}

#[test]
fn sidecar_outside_index_has_no_original() {
    assert_eq!(sidecar_to_original_path("/other/a.rs.ck", "/repo/.ck", "/repo"), None);
    assert_eq!(reconstruct_original_path("/other/a.rs.ck", "/repo/.ck", "/repo"), None);
}

#[test]
fn reconstructed_path_is_under_the_root() {
    assert_eq!(
        reconstruct_original_path("/repo/.ck/src/main.rs.ck", "/repo/.ck", "/repo"),
        Some("/repo/src/main.rs".to_string())
    );
    assert_eq!(
        reconstruct_original_path("/repo/.ck/README.ck", "/repo/.ck", "/repo"),
        Some("/repo/README".to_string())
    );
    // a doubled `.ck` ending loses both
    assert_eq!(
        reconstruct_original_path("/repo/.ck/a.ck.ck", "/repo/.ck", "/repo"),
        Some("/repo/a".to_string())
    );
}

#[test]
fn sidecar_round_trip() {
    let sidecar = get_sidecar_path("/repo", "/repo/src/lib.rs");
    assert_eq!(
        reconstruct_original_path(&sidecar, "/repo/.ck", "/repo"),
        Some("/repo/src/lib.rs".to_string())
    );
}

#[test]
fn repo_root_candidates_walk_up_to_the_top() {
    assert_eq!(
        repo_root_candidates("/a/b/c"),
        vec!["/a/b/c".to_string(), "/a/b".to_string(), "/a".to_string(), "/".to_string()]
    );
    assert_eq!(repo_root_candidates("x/y"), vec!["x/y".to_string(), "x".to_string(), "".to_string()]);
}
