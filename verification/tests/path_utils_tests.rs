use semcs::path_utils::{expand_glob_patterns_with_base, push_if_new, split_path_patterns};
use std::path::{Path, PathBuf};

/// Creates `rel` (and the directories leading to it) under `base`; the
/// temporary directory that holds `base` removes them all.
fn write_file(base: &Path, rel: &str) {
    let parts: Vec<&str> = rel.split('/').collect();
    let mut dir: PathBuf = base.to_path_buf();
    for name in &parts[..parts.len() - 1] {
        let next = dir.join(name);
        if !next.exists() {
            tempfile::Builder::new()
                .prefix(name)
                .rand_bytes(0)
                .disable_cleanup(true)
                .tempdir_in(&dir)
                .unwrap();
        }
        dir = next;
    }
    tempfile::Builder::new()
        .prefix(parts[parts.len() - 1])
        .rand_bytes(0)
        .disable_cleanup(true)
        .tempfile_in(&dir)
        .unwrap();
}

fn base_of(temp_dir: &tempfile::TempDir) -> String {
    temp_dir.path().to_str().unwrap().to_string()
}

#[test]
fn expands_basic_glob_patterns() {
    let temp_dir = tempfile::tempdir().unwrap();
    let base = temp_dir.path();

    write_file(base, "alpha.rs");
    write_file(base, "nested/beta.rs");
    write_file(base, "gamma.ts");

    let expanded = expand_glob_patterns_with_base(&base_of(&temp_dir), &["*.rs".to_string()], &[])
        .expect("expand *.rs");

    let has_alpha = expanded.iter().any(|p| Path::new(p).ends_with("alpha.rs"));
    let has_beta = expanded.iter().any(|p| Path::new(p).ends_with("beta.rs"));

    assert!(has_alpha, "alpha.rs should be expanded");
    assert!(
        has_beta,
        "nested/beta.rs should be expanded via recursive fallback"
    );
    assert_eq!(expanded.len(), 2);
}

#[test]
fn expands_literal_files_and_directories() {
    let temp_dir = tempfile::tempdir().unwrap();
    let base = temp_dir.path();

    write_file(base, "docs/guide.md");
    write_file(base, "src/file.ts");

    let expanded = expand_glob_patterns_with_base(
        &base_of(&temp_dir),
        &["docs/".to_string(), "src/file.ts".to_string()],
        &[],
    )
    .expect("expand literals");

    let has_docs = expanded.iter().any(|p| Path::new(p).ends_with("docs"));
    let has_ts = expanded.iter().any(|p| Path::new(p).ends_with("file.ts"));

    assert!(has_docs, "docs directory should be included");
    assert!(has_ts, "file.ts should be included");
}

#[test]
fn splits_semicolon_separated_patterns() {
    let temp_dir = tempfile::tempdir().unwrap();
    let base = temp_dir.path();

    write_file(base, "docs/readme.md");
    write_file(base, "lib/lib.rs");
    write_file(base, "file.ts");

    let expanded = expand_glob_patterns_with_base(
        &base_of(&temp_dir),
        &["docs/;*.rs;file.ts".to_string()],
        &[],
    )
    .expect("expand semicolon list");

    let has_docs = expanded.iter().any(|p| Path::new(p).ends_with("docs"));
    let has_rs = expanded.iter().any(|p| Path::new(p).ends_with("lib.rs"));
    let has_ts = expanded.iter().any(|p| Path::new(p).ends_with("file.ts"));

    assert!(has_docs, "docs directory should be present");
    assert!(has_rs, "lib.rs should be matched from glob");
    assert!(has_ts, "file.ts should be included explicitly");
}

#[test]
fn respects_wildcard_exclude_patterns() {
    let temp_dir = tempfile::tempdir().unwrap();
    let base = temp_dir.path();

    write_file(base, "keep.rs");
    write_file(base, "ignore.json");
    write_file(base, "nested/keep.rs");
    write_file(base, "nested/ignore.json");

    let expanded = expand_glob_patterns_with_base(
        &base_of(&temp_dir),
        &["**/*".to_string()],
        &["*.json".to_string()],
    )
    .expect("expand with excludes");

    let includes_json = expanded.iter().any(|p| Path::new(p).ends_with("ignore.json"));
    let includes_rs = expanded.iter().filter(|p| Path::new(p).ends_with("keep.rs")).count();

    assert!(!includes_json, "*.json files should be excluded");
    assert_eq!(includes_rs, 2, "both keep.rs files should remain");
}

#[test]
fn respects_directory_globstar_excludes() {
    let temp_dir = tempfile::tempdir().unwrap();
    let base = temp_dir.path();

    write_file(base, "foo/bar/data.txt");
    write_file(base, "foo/other.txt");
    write_file(base, "root.txt");

    let base_text = base_of(&temp_dir);
    let expanded = expand_glob_patterns_with_base(
        &base_text,
        &["**/*".to_string()],
        &["foo/**".to_string()],
    )
    .expect("expand with directory glob");

    let includes_foo = expanded.iter().any(|p| p[base_text.len()..].contains("foo"));
    let includes_root = expanded.iter().any(|p| Path::new(p).ends_with("root.txt"));

    assert!(!includes_foo, "foo/** should exclude everything under foo");
    assert!(includes_root, "root.txt should still be present");
}

#[test]
fn unmatched_pattern_stands_for_itself() {
    let temp_dir = tempfile::tempdir().unwrap();
    let base_text = base_of(&temp_dir);
    let expanded = expand_glob_patterns_with_base(&base_text, &["missing/*.zz".to_string()], &[])
        .expect("expand missing");
    assert_eq!(expanded, vec![format!("{}/missing/*.zz", base_text)]);
}

#[test]
fn split_path_patterns_keeps_plain_arguments_whole() {
    assert_eq!(split_path_patterns(" src "), vec![" src ".to_string()]);
    assert_eq!(
        split_path_patterns(" a ; ;b;"),
        vec!["a".to_string(), "b".to_string()]
    );
    assert_eq!(split_path_patterns(";"), Vec::<String>::new());
}

#[test]
fn push_if_new_compares_paths_not_text() {
    let mut acc = vec!["/a/b".to_string()];
    push_if_new(&mut acc, "/a//b/".to_string());
    assert_eq!(acc, vec!["/a/b".to_string()]);
    push_if_new(&mut acc, "a/b".to_string());
    assert_eq!(acc, vec!["/a/b".to_string(), "a/b".to_string()]);
}
