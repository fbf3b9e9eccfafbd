//! Deciding, file by file, what an incremental index update does: a file
//! the manifest does not know is added; a known file whose modification
//! time and size are unchanged is up to date; otherwise its content hash
//! decides whether it was modified or only needs its metadata refreshed.
//! Files that cannot be read are counted as errors.
use vstd::prelude::*;

use crate::path_utils::{holds_path, paths_equal, same_path};
use crate::paths::{original_names, path_extension, render_path, sidecar_to_original_path};
use crate::text::{clone_string, str_eq, string_views};
use crate::types::FileMetadata;

verus! {

/// Counts of what an index update did.
#[derive(Debug, Clone, Copy, PartialEq, Eq, Structural)]
pub struct UpdateStats {
    pub files_indexed: usize,
    pub files_added: usize,
    pub files_modified: usize,
    pub files_up_to_date: usize,
    pub files_errored: usize,
    pub orphaned_files_removed: usize,
}

impl Default for UpdateStats {
    fn default() -> (r: UpdateStats)
        ensures
            r == (UpdateStats {
                files_indexed: 0,
                files_added: 0,
                files_modified: 0,
                files_up_to_date: 0,
                files_errored: 0,
                orphaned_files_removed: 0,
            }),
    {
        UpdateStats {
            files_indexed: 0,
            files_added: 0,
            files_modified: 0,
            files_up_to_date: 0,
            files_errored: 0,
            orphaned_files_removed: 0,
        }
    }
}

/// What was decided for one file.
#[derive(Debug)]
pub enum UpdateOutcome {
    /// Not in the manifest: to be indexed.
    Added,
    /// Its metadata or content could not be read.
    Errored,
    /// Modification time and size as recorded.
    UpToDate,
    /// Content changed: to be indexed again.
    Modified,
    /// Content unchanged though time or size changed: the manifest takes
    /// this metadata.
    Refreshed(FileMetadata),
}

/// What the first look at a file decides: an outcome, or that its content
/// must be hashed.
#[derive(Debug)]
pub enum FirstLook {
    Decided(UpdateOutcome),
    NeedsHash,
}

/// The first look at a file: its manifest entry, if any, and its
/// modification time and size on disk (none when they cannot be read).
pub open spec fn first_look_of(known: Option<FileMetadata>, stat: Option<(u64, u64)>) -> FirstLook {
    match known {
        None => FirstLook::Decided(UpdateOutcome::Added),
        Some(m) => match stat {
            None => FirstLook::Decided(UpdateOutcome::Errored),
            Some((modified, size)) => if modified == m.last_modified && size == m.size {
                FirstLook::Decided(UpdateOutcome::UpToDate)
            } else {
                FirstLook::NeedsHash
            },
        },
    }
}

/// Decides what can be decided of a file without reading its content.
pub fn first_look(known: Option<&FileMetadata>, stat: Option<(u64, u64)>) -> (r: FirstLook)
    ensures
        r == first_look_of(
            match known {
                Some(m) => Some(*m),
                None => None,
            },
            stat,
        ),
{
    match known {
        None => FirstLook::Decided(UpdateOutcome::Added),
        Some(m) => match stat {
            None => FirstLook::Decided(UpdateOutcome::Errored),
            Some((modified, size)) => {
                if modified == m.last_modified && size == m.size {
                    FirstLook::Decided(UpdateOutcome::UpToDate)
                } else {
                    FirstLook::NeedsHash
                }
            },
        },
    }
}

/// The outcome once the content of a known file was hashed (none when it
/// could not be read): modified when the hash differs from the recorded
/// one, else the manifest takes the new time and size.
pub open spec fn hash_outcome_of(known: FileMetadata, path: Seq<char>, stat: (u64, u64), hash: Option<Seq<char>>) -> UpdateOutcome {
    match hash {
        None => UpdateOutcome::Errored,
        Some(h) => if h != known.hash@ {
            UpdateOutcome::Modified
        } else {
            UpdateOutcome::Refreshed(FileMetadata {
                path: known.path,
                hash: known.hash,
                last_modified: stat.0,
                size: stat.1,
            })
        },
    }
}

/// Whether an outcome carries the given refreshed metadata.
pub open spec fn outcome_matches(r: UpdateOutcome, want: UpdateOutcome, path: Seq<char>, hash: Seq<char>) -> bool {
    match want {
        UpdateOutcome::Refreshed(w) => r matches UpdateOutcome::Refreshed(m) && m.path@ == path && m.hash@ == hash
            && m.last_modified == w.last_modified && m.size == w.size,
        _ => r == want,
    }
}

/// Decides a known file from the hash of its content.
pub fn hash_outcome(known: &FileMetadata, path: &str, stat: (u64, u64), hash: Option<String>) -> (r: UpdateOutcome)
    ensures
        outcome_matches(
            r,
            hash_outcome_of(*known, path@, stat, match hash {
                Some(h) => Some(h@),
                None => None,
            }),
            path@,
            known.hash@,
        ),
{
    match hash {
        None => UpdateOutcome::Errored,
        Some(h) => {
            if !str_eq(h.as_str(), known.hash.as_str()) {
                UpdateOutcome::Modified
            } else {
                UpdateOutcome::Refreshed(FileMetadata {
                    path: path.to_owned(),
                    hash: h,
                    last_modified: stat.0,
                    size: stat.1,
                })
            }
        },
    }
}

/// The BLAKE3 hash of some bytes, in lowercase hexadecimal.
pub uninterp spec fn blake3_hex(data: Seq<u8>) -> Seq<char>;

/// A lowercase hexadecimal digit.
pub open spec fn is_lower_hex(c: char) -> bool {
    ('0' <= c && c <= '9') || ('a' <= c && c <= 'f')
}

/// `blake3::hash(data).to_hex()`: the 32-byte BLAKE3 hash of the data, two
/// lowercase hexadecimal digits per byte.
#[verifier::external_body]
fn blake3_hash_hex(data: &[u8]) -> (r: String)
    ensures
        r@ == blake3_hex(data@),
        r@.len() == 64,
        forall|i: int| 0 <= i < 64 ==> is_lower_hex(#[trigger] r@[i]),
{
    blake3::hash(data).to_hex().to_string()
}

/// The content hash of a file, from its bytes: BLAKE3 in lowercase
/// hexadecimal, 64 digits.
pub fn compute_file_hash(data: &[u8]) -> (r: String)
    ensures
        r@ == blake3_hex(data@),
        r@.len() == 64,
        forall|i: int| 0 <= i < 64 ==> is_lower_hex(#[trigger] r@[i]),
{
    blake3_hash_hex(data)
}

/// Decides a known file from its content (none when it could not be
/// read), hashed with `compute_file_hash`; see `hash_outcome`.
pub fn content_outcome(known: &FileMetadata, path: &str, stat: (u64, u64), content: Option<&[u8]>) -> (r: UpdateOutcome)
    ensures
        outcome_matches(
            r,
            hash_outcome_of(*known, path@, stat, match content {
                Some(d) => Some(blake3_hex(d@)),
                None => None,
            }),
            path@,
            known.hash@,
        ),
{
    let hash = match content {
        Some(d) => Some(compute_file_hash(d)),
        None => None,
    };
    hash_outcome(known, path, stat, hash)
}

/// The counts after one more file with outcome `o`.
pub open spec fn tallied(s: UpdateStats, o: UpdateOutcome) -> UpdateStats {
    match o {
        UpdateOutcome::Added => UpdateStats { files_added: (s.files_added + 1) as usize, ..s },
        UpdateOutcome::Errored => UpdateStats { files_errored: (s.files_errored + 1) as usize, ..s },
        UpdateOutcome::Modified => UpdateStats { files_modified: (s.files_modified + 1) as usize, ..s },
        _ => UpdateStats { files_up_to_date: (s.files_up_to_date + 1) as usize, ..s },
    }
}

/// Whether a file with this outcome is to be indexed.
pub open spec fn to_index(o: UpdateOutcome) -> bool {
    o is Added || o is Modified
}

/// Counts one more file; tells whether it is to be indexed.
pub fn tally(stats: &mut UpdateStats, outcome: &UpdateOutcome) -> (index_it: bool)
    requires
        old(stats).files_added < usize::MAX,
        old(stats).files_errored < usize::MAX,
        old(stats).files_modified < usize::MAX,
        old(stats).files_up_to_date < usize::MAX,
    ensures
        *final(stats) == tallied(*old(stats), *outcome),
        index_it == to_index(*outcome),
{
    match outcome {
        UpdateOutcome::Added => {
            stats.files_added = stats.files_added + 1;
            true
        },
        UpdateOutcome::Errored => {
            stats.files_errored = stats.files_errored + 1;
            false
        },
        UpdateOutcome::Modified => {
            stats.files_modified = stats.files_modified + 1;
            true
        },
        _ => {
            stats.files_up_to_date = stats.files_up_to_date + 1;
            false
        },
    }
}

/// Whether the manifest is written once at the end of an update: when
/// files were indexed without embeddings (which write it after each file),
/// orphans were removed, or metadata was refreshed.
pub fn should_save_manifest(compute_embeddings: bool, stats: &UpdateStats, manifest_changed: bool) -> (r: bool)
    ensures
        r == (!compute_embeddings && (stats.files_indexed > 0 || stats.orphaned_files_removed > 0 || manifest_changed)),
{
    !compute_embeddings && (stats.files_indexed > 0 || stats.orphaned_files_removed > 0 || manifest_changed)
}


// ---------------------------------------------------------------------------
// Removing what no longer has a file.

/// Counts of what a cleanup removed.
#[derive(Debug, Clone, Copy, PartialEq, Eq, Structural)]
pub struct CleanupStats {
    pub orphaned_entries_removed: usize,
    pub orphaned_sidecars_removed: usize,
}

impl Default for CleanupStats {
    fn default() -> (r: CleanupStats)
        ensures
            r == (CleanupStats { orphaned_entries_removed: 0, orphaned_sidecars_removed: 0 }),
    {
        CleanupStats { orphaned_entries_removed: 0, orphaned_sidecars_removed: 0 }
    }
}

/// The first `n` manifest files that are no longer among the current
/// files, in the order given.
pub open spec fn orphans(manifest: Seq<Seq<char>>, current: Seq<Seq<char>>, n: int) -> Seq<Seq<char>>
    decreases n,
{
    if n <= 0 {
        seq![]
    } else {
        let prev = orphans(manifest, current, n - 1);
        if holds_path(current, manifest[n - 1]) { prev } else { prev.push(manifest[n - 1]) }
    }
}

/// Whether `files` holds the path `p`.
fn contains_path(files: &Vec<String>, p: &str) -> (r: bool)
    ensures
        r == holds_path(string_views(files@), p@),
{
    let ghost fv = string_views(files@);
    let mut i: usize = 0;
    while i < files.len()
        invariant
            i <= files@.len(),
            fv == string_views(files@),
            forall|k: int| 0 <= k < i ==> !same_path(#[trigger] fv[k], p@),
        decreases files@.len() - i,
    {
        if paths_equal(files[i].as_str(), p) {
            assert(same_path(fv[i as int], p@));
            return true;
        }
        i += 1;
    }
    false
}

/// The manifest files whose file is gone; see `orphans`.
pub fn orphaned_entries(manifest_files: &Vec<String>, current_files: &Vec<String>) -> (r: Vec<String>)
    ensures
        string_views(r@) == orphans(string_views(manifest_files@), string_views(current_files@), manifest_files@.len() as int),
{
    let ghost mv = string_views(manifest_files@);
    let mut out: Vec<String> = Vec::new();
    let mut i: usize = 0;
    while i < manifest_files.len()
        invariant
            i <= manifest_files@.len(),
            mv == string_views(manifest_files@),
            string_views(out@) == orphans(mv, string_views(current_files@), i as int),
        decreases manifest_files@.len() - i,
    {
        if !contains_path(current_files, manifest_files[i].as_str()) {
            let ghost before = string_views(out@);
            out.push(clone_string(&manifest_files[i]));
            assert(string_views(out@) =~= before.push(mv[i as int]));
        }
        i += 1;
    }
    out
}

/// Whether a file under the index directory is a sidecar left without its
/// file: it ends in `.ck`, the file it stands for can be told from its
/// place, and that file is neither a current file nor in the manifest.
pub open spec fn orphaned_sidecar(sidecar: Seq<char>, index_dir: Seq<char>, current: Seq<Seq<char>>, manifest: Seq<Seq<char>>) -> bool {
    &&& path_extension(sidecar) == Some(seq!['c', 'k'])
    &&& match original_names(sidecar, index_dir) {
        Some(names) => !holds_path(current, render_path(false, names)) && !holds_path(manifest, render_path(false, names)),
        None => false,
    }
}

/// Whether a file under the index directory is an orphaned sidecar; see
/// `orphaned_sidecar`.
pub fn is_orphaned_sidecar(sidecar: &str, index_dir: &str, current_files: &Vec<String>, manifest_files: &Vec<String>) -> (r: bool)
    ensures
        r == orphaned_sidecar(sidecar@, index_dir@, string_views(current_files@), string_views(manifest_files@)),
{
    let ext = crate::paths::extension(sidecar);
    let is_ck = match &ext {
        Some(e) => e.len() == 2 && e[0] == 'c' && e[1] == 'k',
        None => false,
    };
    proof {
        if let Some(e) = ext {
            if is_ck {
                assert(e@ =~= seq!['c', 'k']);
            } else if e@ == seq!['c', 'k'] {
                assert(e@[0] == 'c' && e@[1] == 'k');
            }
        }
    }
    if !is_ck {
        return false;
    }
    match sidecar_to_original_path(sidecar, index_dir, sidecar) {
        Some(orig) => !contains_path(current_files, orig.as_str()) && !contains_path(manifest_files, orig.as_str()),
        None => false,
    }
}

} // verus!
