//! A cache of index statistics per directory that forgets entries after a
//! time to live. Times are milliseconds on a clock the caller reads.
use vstd::prelude::*;

use crate::path_utils::{paths_equal, same_path};
use crate::paths::{is_absolute, path_names};
use crate::text::clone_string;

verus! {

/// What the cache keeps about an index.
#[derive(Debug)]
pub struct IndexStats {
    pub file_count: usize,
    pub chunk_count: usize,
    pub model_name: String,
    /// When the index was last updated, in seconds since the Unix epoch.
    pub last_updated: u64,
    pub is_valid: bool,
}

/// Index statistics, the model name taken as a character sequence.
pub struct StatsView {
    pub file_count: usize,
    pub chunk_count: usize,
    pub model_name: Seq<char>,
    pub last_updated: u64,
    pub is_valid: bool,
}

impl View for IndexStats {
    type V = StatsView;

    open spec fn view(&self) -> StatsView {
        StatsView {
            file_count: self.file_count,
            chunk_count: self.chunk_count,
            model_name: self.model_name@,
            last_updated: self.last_updated,
            is_valid: self.is_valid,
        }
    }
}

impl IndexStats {
    /// A copy of the statistics.
    pub fn duplicate(&self) -> (r: IndexStats)
        ensures
            r@ == self@,
    {
        IndexStats {
            file_count: self.file_count,
            chunk_count: self.chunk_count,
            model_name: clone_string(&self.model_name),
            last_updated: self.last_updated,
            is_valid: self.is_valid,
        }
    }
}

/// The path a text names: whether it is absolute, and its names.
pub open spec fn path_key(p: Seq<char>) -> (bool, Seq<Seq<char>>) {
    (is_absolute(p), path_names(p))
}

/// Statistics for directories, each kept with the time it was stored.
pub struct StatsCache {
    entries: Vec<(String, IndexStats, u64)>,
    ttl_ms: u64,
}

impl StatsCache {
    /// The cached entries by path.
    pub closed spec fn entries_view(&self) -> Map<(bool, Seq<Seq<char>>), (StatsView, u64)> {
        Map::new(
            |k: (bool, Seq<Seq<char>>)| exists|i: int| 0 <= i < self.entries@.len() && path_key(#[trigger] self.entries@[i].0@) == k,
            |k: (bool, Seq<Seq<char>>)| {
                let i = choose|i: int| 0 <= i < self.entries@.len() && path_key(#[trigger] self.entries@[i].0@) == k;
                (self.entries@[i].1@, self.entries@[i].2)
            },
        )
    }

    /// How long an entry is served, in milliseconds.
    pub closed spec fn ttl(&self) -> u64 {
        self.ttl_ms
    }

    /// Each path is stored once.
    pub closed spec fn well_formed(&self) -> bool {
        forall|i: int, j: int|
            0 <= i < j < self.entries@.len() ==> path_key(#[trigger] self.entries@[i].0@) != path_key(#[trigger] self.entries@[j].0@)
    }

    /// An empty cache that serves entries for `ttl_ms` milliseconds.
    pub fn new(ttl_ms: u64) -> (r: StatsCache)
        ensures
            r.well_formed(),
            r.entries_view() == Map::<(bool, Seq<Seq<char>>), (StatsView, u64)>::empty(),
            r.ttl() == ttl_ms,
    {
        let r = StatsCache { entries: Vec::new(), ttl_ms };
        assert(r.entries_view() =~= Map::<(bool, Seq<Seq<char>>), (StatsView, u64)>::empty());
        r
    }

    /// An empty cache that serves entries for thirty seconds.
    pub fn default() -> (r: StatsCache)
        ensures
            r.well_formed(),
            r.entries_view() == Map::<(bool, Seq<Seq<char>>), (StatsView, u64)>::empty(),
            r.ttl() == 30_000,
    {
        StatsCache::new(30_000)
    }

    /// The entry stored for a path, if any.
    fn position(&self, path: &str) -> (r: Option<usize>)
        requires
            self.well_formed(),
        ensures
            match r {
                Some(i) => i < self.entries@.len() && path_key(self.entries@[i as int].0@) == path_key(path@),
                None => !self.entries_view().contains_key(path_key(path@)),
            },
    {
        let mut i: usize = 0;
        while i < self.entries.len()
            invariant
                i <= self.entries@.len(),
                forall|k: int| 0 <= k < i ==> path_key(#[trigger] self.entries@[k].0@) != path_key(path@),
            decreases self.entries@.len() - i,
        {
            if paths_equal(self.entries[i].0.as_str(), path) {
                return Some(i);
            }
            i += 1;
        }
        None
    }

    proof fn lemma_entry_at(&self, i: int)
        requires
            self.well_formed(),
            0 <= i < self.entries@.len(),
        ensures
            self.entries_view().contains_key(path_key(self.entries@[i].0@)),
            self.entries_view()[path_key(self.entries@[i].0@)] == (self.entries@[i].1@, self.entries@[i].2),
    {
        let k = path_key(self.entries@[i].0@);
        let j = choose|j: int| 0 <= j < self.entries@.len() && path_key(#[trigger] self.entries@[j].0@) == k;
        if j != i {
            if j < i {
                assert(path_key(self.entries@[j].0@) != path_key(self.entries@[i].0@));
            } else {
                assert(path_key(self.entries@[i].0@) != path_key(self.entries@[j].0@));
            }
        }
    }
}

/// Whether an entry stored at `stored_at` is still served at `now`: its age
/// is under the time to live, a clock that went back counting as no age.
pub open spec fn fresh(stored_at: u64, now: u64, ttl: u64) -> bool {
    (if now >= stored_at { now - stored_at } else { 0 }) < ttl
}

impl StatsCache {
    /// The statistics stored for a path, if they are still fresh at `now`.
    pub fn get(&self, path: &str, now: u64) -> (r: Option<IndexStats>)
        requires
            self.well_formed(),
        ensures
            match r {
                Some(s) => self.entries_view().contains_key(path_key(path@))
                    && fresh(self.entries_view()[path_key(path@)].1, now, self.ttl())
                    && s@ == self.entries_view()[path_key(path@)].0,
                None => !(self.entries_view().contains_key(path_key(path@))
                    && fresh(self.entries_view()[path_key(path@)].1, now, self.ttl())),
            },
    {
        match self.position(path) {
            Some(i) => {
                proof {
                    self.lemma_entry_at(i as int);
                }
                let at = self.entries[i].2;
                let age = if now >= at { now - at } else { 0 };
                if age < self.ttl_ms {
                    Some(self.entries[i].1.duplicate())
                } else {
                    None
                }
            },
            None => None,
        }
    }

    /// Stores statistics for a path at time `now`, replacing what was
    /// stored for it.
    pub fn update(&mut self, path: &str, stats: IndexStats, now: u64)
        requires
            old(self).well_formed(),
        ensures
            final(self).well_formed(),
            final(self).ttl() == old(self).ttl(),
            final(self).entries_view() == old(self).entries_view().insert(path_key(path@), (stats@, now)),
    {
        let ghost before = self.entries@;
        let ghost old_view = self.entries_view();
        match self.position(path) {
            Some(i) => {
                self.entries.set(i, (path.to_owned(), stats, now));
                proof {
                    let after = self.entries@;
                    assert forall|a: int, b: int| 0 <= a < b < after.len() implies path_key(#[trigger] after[a].0@) != path_key(#[trigger] after[b].0@) by {
                        assert(path_key(after[a].0@) == path_key(before[a].0@));
                        assert(path_key(after[b].0@) == path_key(before[b].0@));
                    }
                    assert(self.well_formed());
                    assert forall|k: (bool, Seq<Seq<char>>)| #[trigger] self.entries_view().contains_key(k) == old_view.insert(path_key(path@), (stats@, now)).contains_key(k) by {
                        if old_view.contains_key(k) {
                            let j = choose|j: int| 0 <= j < before.len() && path_key(#[trigger] before[j].0@) == k;
                            assert(path_key(after[j].0@) == k);
                        }
                        if self.entries_view().contains_key(k) {
                            let j = choose|j: int| 0 <= j < after.len() && path_key(#[trigger] after[j].0@) == k;
                            if j != i as int {
                                assert(path_key(before[j].0@) == k);
                            }
                        }
                    }
                    assert forall|k: (bool, Seq<Seq<char>>)| #[trigger] self.entries_view().contains_key(k) implies self.entries_view()[k] == old_view.insert(path_key(path@), (stats@, now))[k] by {
                        let j = choose|j: int| 0 <= j < after.len() && path_key(#[trigger] after[j].0@) == k;
                        self.lemma_entry_at(j);
                        if j != i as int {
                            assert(k != path_key(path@));
                            old(self).lemma_entry_at(j);
                        }
                    }
                    assert(self.entries_view() =~= old_view.insert(path_key(path@), (stats@, now)));
                }
            },
            None => {
                self.entries.push((path.to_owned(), stats, now));
                proof {
                    let after = self.entries@;
                    assert forall|a: int, b: int| 0 <= a < b < after.len() implies path_key(#[trigger] after[a].0@) != path_key(#[trigger] after[b].0@) by {
                        if b == before.len() {
                            if path_key(before[a].0@) == path_key(path@) {
                                old(self).lemma_entry_at(a);
                            }
                        }
                    }
                    assert(self.well_formed());
                    assert forall|k: (bool, Seq<Seq<char>>)| #[trigger] self.entries_view().contains_key(k) == old_view.insert(path_key(path@), (stats@, now)).contains_key(k) by {
                        if old_view.contains_key(k) {
                            let j = choose|j: int| 0 <= j < before.len() && path_key(#[trigger] before[j].0@) == k;
                            assert(path_key(after[j].0@) == k);
                        }
                        if k == path_key(path@) {
                            assert(path_key(after[before.len() as int].0@) == k);
                        }
                    }
                    assert forall|k: (bool, Seq<Seq<char>>)| #[trigger] self.entries_view().contains_key(k) implies self.entries_view()[k] == old_view.insert(path_key(path@), (stats@, now))[k] by {
                        let j = choose|j: int| 0 <= j < after.len() && path_key(#[trigger] after[j].0@) == k;
                        self.lemma_entry_at(j);
                        if j < before.len() {
                            old(self).lemma_entry_at(j);
                        }
                    }
                    assert(self.entries_view() =~= old_view.insert(path_key(path@), (stats@, now)));
                }
            },
        }
    }

    /// Forgets what was stored for a path.
    pub fn invalidate(&mut self, path: &str)
        requires
            old(self).well_formed(),
        ensures
            final(self).well_formed(),
            final(self).ttl() == old(self).ttl(),
            final(self).entries_view() == old(self).entries_view().remove(path_key(path@)),
    {
        let ghost before = self.entries@;
        let ghost old_view = self.entries_view();
        match self.position(path) {
            Some(i) => {
                self.entries.remove(i);
                proof {
                    let after = self.entries@;
                    assert(after =~= before.remove(i as int));
                    assert forall|a: int, b: int| 0 <= a < b < after.len() implies path_key(#[trigger] after[a].0@) != path_key(#[trigger] after[b].0@) by {
                        let a0 = if a < i { a } else { a + 1 };
                        let b0 = if b < i { b } else { b + 1 };
                        assert(after[a] == before[a0] && after[b] == before[b0]);
                    }
                    assert(self.well_formed());
                    assert forall|k: (bool, Seq<Seq<char>>)| #[trigger] self.entries_view().contains_key(k) == old_view.remove(path_key(path@)).contains_key(k) by {
                        if self.entries_view().contains_key(k) {
                            let j = choose|j: int| 0 <= j < after.len() && path_key(#[trigger] after[j].0@) == k;
                            let j0 = if j < i { j } else { j + 1 };
                            assert(after[j] == before[j0]);
                            if k == path_key(path@) {
                                if j0 < i {
                                    assert(path_key(before[j0].0@) != path_key(before[i as int].0@));
                                } else {
                                    assert(path_key(before[i as int].0@) != path_key(before[j0].0@));
                                }
                            }
                        }
                        if old_view.contains_key(k) && k != path_key(path@) {
                            let j0 = choose|j: int| 0 <= j < before.len() && path_key(#[trigger] before[j].0@) == k;
                            assert(j0 != i as int);
                            let j = if j0 < i { j0 } else { j0 - 1 };
                            assert(after[j] == before[j0]);
                        }
                    }
                    assert forall|k: (bool, Seq<Seq<char>>)| #[trigger] self.entries_view().contains_key(k) implies self.entries_view()[k] == old_view.remove(path_key(path@))[k] by {
                        let j = choose|j: int| 0 <= j < after.len() && path_key(#[trigger] after[j].0@) == k;
                        self.lemma_entry_at(j);
                        let j0 = if j < i { j } else { j + 1 };
                        assert(after[j] == before[j0]);
                        old(self).lemma_entry_at(j0);
                    }
                    assert(self.entries_view() =~= old_view.remove(path_key(path@)));
                }
            },
            None => {
                assert(self.entries_view() =~= old_view.remove(path_key(path@)));
            },
        }
    }
}

} // verus!
