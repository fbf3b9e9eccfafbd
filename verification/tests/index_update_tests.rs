use semcs::index_update::{
    compute_file_hash, content_outcome, is_orphaned_sidecar, orphaned_entries, CleanupStats, first_look, hash_outcome, should_save_manifest, tally, FirstLook, UpdateOutcome, UpdateStats,
};
use semcs::types::FileMetadata;

fn known() -> FileMetadata {
    FileMetadata { path: "src/a.rs".to_string(), hash: "abc".to_string(), last_modified: 100, size: 10 }
}

#[test]
fn unknown_files_are_added() {
    assert!(matches!(first_look(None, Some((1, 1))), FirstLook::Decided(UpdateOutcome::Added)));
    assert!(matches!(first_look(None, None), FirstLook::Decided(UpdateOutcome::Added)));
}

#[test]
fn unchanged_time_and_size_is_up_to_date() {
    let m = known();
    assert!(matches!(first_look(Some(&m), Some((100, 10))), FirstLook::Decided(UpdateOutcome::UpToDate)));
    assert!(matches!(first_look(Some(&m), None), FirstLook::Decided(UpdateOutcome::Errored)));
    assert!(matches!(first_look(Some(&m), Some((101, 10))), FirstLook::NeedsHash));
}

#[test]
fn hash_decides_modified_or_refreshed() {
    let m = known();
    assert!(matches!(hash_outcome(&m, "src/a.rs", (101, 10), None), UpdateOutcome::Errored));
    assert!(matches!(hash_outcome(&m, "src/a.rs", (101, 10), Some("zzz".to_string())), UpdateOutcome::Modified));
    match hash_outcome(&m, "src/a.rs", (101, 12), Some("abc".to_string())) {
        UpdateOutcome::Refreshed(meta) => {
            assert_eq!(meta.path, "src/a.rs");
            assert_eq!(meta.hash, "abc");
            assert_eq!(meta.last_modified, 101);
            assert_eq!(meta.size, 12);
        }
        other => panic!("unexpected {:?}", other),
    }
}

#[test]
fn tally_counts_and_selects_files_to_index() {
    let mut stats = UpdateStats::default();
    assert!(tally(&mut stats, &UpdateOutcome::Added));
    assert!(tally(&mut stats, &UpdateOutcome::Modified));
    assert!(!tally(&mut stats, &UpdateOutcome::UpToDate));
    assert!(!tally(&mut stats, &UpdateOutcome::Errored));
    assert!(!tally(&mut stats, &UpdateOutcome::Refreshed(known())));
    assert_eq!(stats.files_added, 1);
    assert_eq!(stats.files_modified, 1);
    assert_eq!(stats.files_up_to_date, 2);
    assert_eq!(stats.files_errored, 1);
    assert_eq!(stats.files_indexed, 0);
    assert!(should_save_manifest(false, &stats, true));
    assert!(!should_save_manifest(false, &stats, false));
    assert!(!should_save_manifest(true, &stats, true));
}

#[test]
fn content_hash_is_blake3_hex() {
    assert_eq!(compute_file_hash(b""), "af1349b9f5f9a1a6a0404dea36dcc9499bcb25c9adc112b7cc9a93cae41f3262");
    let h = compute_file_hash(b"hello");
    assert_eq!(h.len(), 64);
    assert!(h.chars().all(|c| c.is_ascii_digit() || ('a'..='f').contains(&c)));
    assert_ne!(h, compute_file_hash(b"hello!"));
}

#[test]
fn content_outcome_hashes_the_bytes() {
    let data: &[u8] = b"fn main() {}";
    let mut m = known();
    m.hash = compute_file_hash(data);
    match content_outcome(&m, "src/a.rs", (200, 12), Some(data)) {
        UpdateOutcome::Refreshed(r) => {
            assert_eq!(r.last_modified, 200);
            assert_eq!(r.size, 12);
            assert_eq!(r.hash, m.hash);
        }
        other => panic!("unexpected {:?}", other),
    }
    assert!(matches!(content_outcome(&m, "src/a.rs", (200, 12), Some(b"changed")), UpdateOutcome::Modified));
    assert!(matches!(content_outcome(&m, "src/a.rs", (200, 12), None), UpdateOutcome::Errored));
}

fn strings(v: &[&str]) -> Vec<String> {
    v.iter().map(|s| s.to_string()).collect()
}

#[test]
fn orphaned_entries_are_the_missing_files() {
    let manifest = strings(&["a.rs", "b.rs", "c.rs"]);
    let current = strings(&["./b.rs", "d.rs"]);
    assert_eq!(orphaned_entries(&manifest, &current), strings(&["a.rs", "c.rs"]));
    assert_eq!(orphaned_entries(&manifest, &manifest), Vec::<String>::new());
}

#[test]
fn sidecars_without_files_are_orphans() {
    let none: Vec<String> = Vec::new();
    assert!(is_orphaned_sidecar("/repo/.ck/src/x.rs.ck", "/repo/.ck", &strings(&["src/y.rs"]), &none));
    assert!(!is_orphaned_sidecar("/repo/.ck/src/x.rs.ck", "/repo/.ck", &strings(&["src/x.rs"]), &none));
    assert!(!is_orphaned_sidecar("/repo/.ck/src/x.rs.ck", "/repo/.ck", &none, &strings(&["src/x.rs"])));
    assert!(!is_orphaned_sidecar("/repo/.ck/index.json", "/repo/.ck", &none, &none));
    assert!(!is_orphaned_sidecar("/elsewhere/x.rs.ck", "/repo/.ck", &none, &none));
    let stats = CleanupStats::default();
    assert_eq!((stats.orphaned_entries_removed, stats.orphaned_sidecars_removed), (0, 0));
}
