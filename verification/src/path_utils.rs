//! Expanding the paths and glob patterns a user names on the command line,
//! and leaving out what the exclude patterns cover.
use vstd::prelude::*;

use globset::GlobSet;

use crate::paths::{
    chars_eq, copy_chars, is_absolute, parse_path, path_names, render, render_path, strip_base, strip_names,
};
use crate::text::{
    char_views, clone_string, has_suffix, push_all, str_chars, string_from_chars, string_views, trim,
    trim_bounds,
};

verus! {

// ---------------------------------------------------------------------------
// The outside matchers.

#[verifier::external_type_specification]
#[verifier::external_body]
pub struct ExGlobSet(globset::GlobSet);

/// The glob patterns a `GlobSet` was built from.
pub uninterp spec fn glob_set_patterns(set: GlobSet) -> Seq<Seq<char>>;

/// Whether `globset::Glob::new` accepts a pattern.
pub uninterp spec fn glob_syntax_ok(pattern: Seq<char>) -> bool;

/// Whether the glob `pattern` (default `globset` options) matches `path`.
pub uninterp spec fn glob_matches(pattern: Seq<char>, path: Seq<char>) -> bool;

/// Whether `globset::GlobSetBuilder::build` builds a set from these globs
/// (which depends on the globs alone).
pub uninterp spec fn glob_set_builds(patterns: Seq<Seq<char>>) -> bool;

/// Whether `glob::glob` accepts a pattern.
pub uninterp spec fn glob_pattern_ok(pattern: Seq<char>) -> bool;

/// Whether `path` (as text) is a path that matches the `glob::glob`
/// pattern `pattern`, a relation between the two texts alone.
pub uninterp spec fn glob_path_matches(pattern: Seq<char>, path: Seq<char>) -> bool;

/// Whether one of `patterns` matches `path`.
pub open spec fn any_glob_matches(patterns: Seq<Seq<char>>, path: Seq<char>) -> bool {
    exists|i: int| 0 <= i < patterns.len() && #[trigger] glob_matches(patterns[i], path)
}

/// `globset::Glob::new(pattern)`: whether it parses. Whether it does
/// depends on the pattern alone.
#[verifier::external_body]
fn glob_parses(pattern: &str) -> (r: bool)
    ensures
        r == glob_syntax_ok(pattern@),
{
    globset::Glob::new(pattern).is_ok()
}

/// `globset::GlobSetBuilder`: a set of the given globs, each added with
/// `Glob::new`, then `build`. Claimed: building succeeds exactly when
/// `build` accepts these globs, and a set that is built holds exactly
/// these patterns.
#[verifier::external_body]
fn build_glob_set(patterns: &Vec<String>) -> (r: Option<GlobSet>)
    requires
        forall|i: int| 0 <= i < patterns@.len() ==> glob_syntax_ok(#[trigger] patterns@[i]@),
    ensures
        r is Some == glob_set_builds(string_views(patterns@)),
        r matches Some(set) ==> glob_set_patterns(set) == string_views(patterns@),
{
    let mut builder = globset::GlobSetBuilder::new();
    for p in patterns {
        if let Ok(g) = globset::Glob::new(p) {
            builder.add(g);
        }
    }
    builder.build().ok()
}

/// `globset::GlobSet::empty`: a set of no patterns.
#[verifier::external_body]
fn empty_glob_set() -> (r: GlobSet)
    ensures
        glob_set_patterns(r) == Seq::<Seq<char>>::empty(),
{
    GlobSet::empty()
}

/// `globset::GlobSet::is_match`: whether some glob of the set matches `path`.
#[verifier::external_body]
fn glob_set_is_match(set: &GlobSet, path: &str) -> (r: bool)
    ensures
        r == (exists|i: int| 0 <= i < glob_set_patterns(*set).len() && #[trigger] glob_matches(glob_set_patterns(*set)[i], path@)),
{
    set.is_match(path)
}

/// `glob::glob`: the paths on disk that match `pattern`, each as text, an
/// entry that could not be read as `None`. Claimed: the pattern is refused
/// (and nothing is returned) exactly when `glob` refuses it, and each path
/// that comes back matches the pattern. Which paths exist on disk, and so
/// which of the matching paths come back, is left unsaid.
#[verifier::external_body]
fn glob_paths(pattern: &str) -> (r: Option<Vec<Option<String>>>)
    ensures
        r is Some == glob_pattern_ok(pattern@),
        r matches Some(v) ==> forall|i: int|
            0 <= i < v@.len() ==> (#[trigger] v@[i] matches Some(p) ==> glob_path_matches(pattern@, p@)),
{
    glob::glob(pattern).ok().map(|paths| paths.map(|e| e.ok().map(|p| p.to_string_lossy().into_owned())).collect())
}

// ---------------------------------------------------------------------------
// Splitting a path argument into patterns.

/// The pieces of `s` between `sep` characters, as `str::split` gives them.
pub open spec fn split_on(s: Seq<char>, sep: char) -> Seq<Seq<char>>
    decreases s.len(),
{
    if s.len() == 0 {
        seq![seq![]]
    } else {
        let r = split_on(s.drop_last(), sep);
        if s.last() == sep {
            r.push(seq![])
        } else {
            r.update(r.len() - 1, r.last().push(s.last()))
        }
    }
}

/// The trimmed, nonempty pieces among the first `n`.
pub open spec fn trimmed_pieces(pieces: Seq<Seq<char>>, n: int) -> Seq<Seq<char>>
    decreases n,
{
    if n <= 0 {
        seq![]
    } else {
        let prev = trimmed_pieces(pieces, n - 1);
        let t = trim(pieces[n - 1]);
        if t.len() > 0 { prev.push(t) } else { prev }
    }
}

/// The patterns of a path argument: the argument itself when it holds no
/// `;`, else its `;`-separated pieces, trimmed, empty ones left out.
pub open spec fn path_patterns(s: Seq<char>) -> Seq<Seq<char>> {
    if !s.contains(';') {
        seq![s]
    } else {
        let pieces = split_on(s, ';');
        trimmed_pieces(pieces, pieces.len() as int)
    }
}

/// The pieces of `v` between `sep` characters.
fn split_chars(v: &Vec<char>, sep: char) -> (r: Vec<Vec<char>>)
    ensures
        char_views(r@) == split_on(v@, sep),
{
    let mut r: Vec<Vec<char>> = Vec::new();
    r.push(Vec::new());
    let mut i: usize = 0;
    assert(char_views(r@) =~= split_on(v@.take(0), sep));
    while i < v.len()
        invariant
            i <= v@.len(),
            r@.len() >= 1,
            char_views(r@) == split_on(v@.take(i as int), sep),
        decreases v@.len() - i,
    {
        assert(v@.take(i + 1).drop_last() =~= v@.take(i as int));
        let ghost before = r@;
        if v[i] == sep {
            r.push(Vec::new());
            assert(char_views(r@) =~= char_views(before).push(seq![]));
        } else {
            let last = r.len() - 1;
            let mut cur = copy_chars(&r[last]);
            cur.push(v[i]);
            let ghost cv = cur@;
            r.set(last, cur);
            assert(char_views(r@) =~= char_views(before).update(last as int, cv));
        }
        i += 1;
    }
    assert(v@.take(v@.len() as int) =~= v@);
    r
}

/// The patterns of a path argument; see `path_patterns`.
pub fn split_path_patterns(path: &str) -> (r: Vec<String>)
    ensures
        string_views(r@) == path_patterns(path@),
{
    let chars = str_chars(path);
    let mut has_sep = false;
    let mut i: usize = 0;
    while i < chars.len()
        invariant
            i <= chars@.len(),
            chars@ == path@,
            has_sep == exists|k: int| 0 <= k < i && chars@[k] == ';',
        decreases chars@.len() - i,
    {
        if chars[i] == ';' {
            has_sep = true;
        }
        i += 1;
    }
    let mut out: Vec<String> = Vec::new();
    if !has_sep {
        out.push(path.to_owned());
        proof {
            assert(!path@.contains(';'));
        }
        assert(string_views(out@) =~= seq![path@]);
        return out;
    }
    proof {
        let k = choose|k: int| 0 <= k < i && chars@[k] == ';';
        assert(path@[k] == ';');
    }
    let pieces = split_chars(&chars, ';');
    let ghost pv = char_views(pieces@);
    let mut j: usize = 0;
    while j < pieces.len()
        invariant
            j <= pieces@.len(),
            pv == char_views(pieces@),
            string_views(out@) == trimmed_pieces(pv, j as int),
        decreases pieces@.len() - j,
    {
        let (a, b) = trim_bounds(pieces[j].as_slice());
        assert(pv[j as int] == pieces@[j as int]@);
        if a < b {
            let mut t: Vec<char> = Vec::new();
            let mut k: usize = a;
            while k < b
                invariant
                    j < pieces@.len(),
                    a <= k <= b <= pieces@[j as int]@.len(),
                    t@ == pieces@[j as int]@.subrange(a as int, k as int),
                decreases b - k,
            {
                t.push(pieces[j][k]);
                assert(pieces@[j as int]@.subrange(a as int, k + 1) =~= pieces@[j as int]@.subrange(a as int, k as int).push(pieces@[j as int]@[k as int]));
                k += 1;
            }
            let ghost before = out@;
            out.push(string_from_chars(t.as_slice()));
            assert(string_views(out@) =~= string_views(before).push(t@));
        }
        j += 1;
    }
    out
}

// ---------------------------------------------------------------------------
// Collecting paths without repeats.

/// Whether two path texts name the same path.
pub open spec fn same_path(a: Seq<char>, b: Seq<char>) -> bool {
    is_absolute(a) == is_absolute(b) && path_names(a) == path_names(b)
}

/// Whether `acc` holds a path equal to `p`.
pub open spec fn holds_path(acc: Seq<Seq<char>>, p: Seq<char>) -> bool {
    exists|i: int| 0 <= i < acc.len() && #[trigger] same_path(acc[i], p)
}

/// No two entries of `v` name the same path.
pub open spec fn distinct_paths(v: Seq<Seq<char>>) -> bool {
    forall|i: int, j: int| 0 <= i < j < v.len() ==> !same_path(#[trigger] v[i], #[trigger] v[j])
}

/// `acc` with `p` added at the end unless it already holds that path.
pub open spec fn add_if_new(acc: Seq<Seq<char>>, p: Seq<char>) -> Seq<Seq<char>> {
    if holds_path(acc, p) { acc } else { acc.push(p) }
}

/// Whether two lists of names are equal.
fn names_eq(a: &Vec<Vec<char>>, b: &Vec<Vec<char>>) -> (r: bool)
    ensures
        r == (char_views(a@) == char_views(b@)),
{
    if a.len() != b.len() {
        assert(char_views(a@).len() != char_views(b@).len());
        return false;
    }
    let mut i: usize = 0;
    while i < a.len()
        invariant
            i <= a@.len() == b@.len(),
            forall|k: int| 0 <= k < i ==> a@[k]@ == b@[k]@,
        decreases a@.len() - i,
    {
        if !chars_eq(&a[i], &b[i]) {
            assert(char_views(a@)[i as int] != char_views(b@)[i as int]);
            return false;
        }
        i += 1;
    }
    assert(char_views(a@) =~= char_views(b@));
    true
}

/// Whether two path texts name the same path.
pub fn paths_equal(a: &str, b: &str) -> (r: bool)
    ensures
        r == same_path(a@, b@),
{
    let (x, xs) = parse_path(a);
    let (y, ys) = parse_path(b);
    x == y && names_eq(&xs, &ys)
}

/// Adds `candidate` unless `acc` already holds that path.
pub fn push_if_new(acc: &mut Vec<String>, candidate: String)
    ensures
        string_views(final(acc)@) == add_if_new(string_views(old(acc)@), candidate@),
{
    let mut i: usize = 0;
    while i < acc.len()
        invariant
            i <= acc@.len(),
            forall|k: int| 0 <= k < i ==> !same_path(#[trigger] string_views(acc@)[k], candidate@),
        decreases acc@.len() - i,
    {
        if paths_equal(acc[i].as_str(), candidate.as_str()) {
            assert(same_path(string_views(acc@)[i as int], candidate@));
            return;
        }
        i += 1;
    }
    let ghost before = acc@;
    acc.push(candidate);
    assert(string_views(acc@) =~= string_views(before).push(candidate@));
}


// ---------------------------------------------------------------------------
// Exclude patterns.

/// `p` without its last three characters.
pub open spec fn drop3(p: Seq<char>) -> Seq<char> {
    p.subrange(0, p.len() - 3)
}

/// The globs an exclude pattern contributes: the pattern itself if it
/// parses, and for a pattern ending in `/**` (or `\**`) also what comes
/// before that ending, if that is nonempty and parses.
pub open spec fn exclude_globs(p: Seq<char>) -> Seq<Seq<char>> {
    let own = if glob_syntax_ok(p) { seq![p] } else { seq![] };
    let dir = if has_suffix(p, seq!['/', '*', '*']) || has_suffix(p, seq!['\\', '*', '*']) {
        if drop3(p).len() > 0 && glob_syntax_ok(drop3(p)) { seq![drop3(p)] } else { seq![] }
    } else {
        seq![]
    };
    own + dir
}

/// The globs of the first `n` exclude patterns.
pub open spec fn exclude_globs_upto(patterns: Seq<Seq<char>>, n: int) -> Seq<Seq<char>>
    decreases n,
{
    if n <= 0 {
        seq![]
    } else {
        exclude_globs_upto(patterns, n - 1) + exclude_globs(patterns[n - 1])
    }
}

/// Whether `v` ends with the three characters `c`, `*`, `*`.
fn ends_with_star_star(v: &Vec<char>, c: char) -> (r: bool)
    ensures
        r == has_suffix(v@, seq![c, '*', '*']),
{
    let n = v.len();
    let r = n >= 3 && v[n - 3] == c && v[n - 2] == '*' && v[n - 1] == '*';
    proof {
        if n >= 3 {
            let tail = v@.subrange(n - 3, n as int);
            if r {
                assert(tail =~= seq![c, '*', '*']);
            } else {
                assert(tail[0] == v@[n - 3] && tail[1] == v@[n - 2] && tail[2] == v@[n - 1]);
            }
        }
    }
    r
}

/// The globs an exclude matcher holds: the exclusion globs of the patterns
/// (see `exclude_globs_upto`) when a set can be built of them, else none.
pub open spec fn exclusion_set(patterns: Seq<Seq<char>>) -> Seq<Seq<char>> {
    let g = exclude_globs_upto(patterns, patterns.len() as int);
    if glob_set_builds(g) { g } else { seq![] }
}

/// The matcher for exclude patterns: each pattern that parses, and for a
/// pattern ending in `/**` (or `\**`) also the directory part before it.
/// When the set cannot be built, it is empty; see `exclusion_set`.
pub fn build_globset(patterns: &[String]) -> (r: GlobSet)
    ensures
        glob_set_patterns(r) == exclusion_set(string_views(patterns@)),
{
    let ghost pv = string_views(patterns@);
    let mut valid: Vec<String> = Vec::new();
    let mut i: usize = 0;
    while i < patterns.len()
        invariant
            i <= patterns@.len(),
            pv == string_views(patterns@),
            string_views(valid@) == exclude_globs_upto(pv, i as int),
            forall|k: int| 0 <= k < valid@.len() ==> glob_syntax_ok(#[trigger] valid@[k]@),
        decreases patterns@.len() - i,
    {
        let ghost before = string_views(valid@);
        let p = &patterns[i];
        assert(pv[i as int] == p@);
        if glob_parses(p.as_str()) {
            let ghost b = valid@;
            valid.push(clone_string(p));
            assert(string_views(valid@) =~= string_views(b).push(p@));
        }
        let ghost mid = string_views(valid@);
        assert(mid =~= before + (if glob_syntax_ok(p@) { seq![p@] } else { seq![] }));
        let chars = str_chars(p.as_str());
        if ends_with_star_star(&chars, '/') || ends_with_star_star(&chars, '\\') {
            let mut d: Vec<char> = Vec::new();
            let mut k: usize = 0;
            while k < chars.len() - 3
                invariant
                    chars@.len() >= 3,
                    k <= chars@.len() - 3,
                    d@ == chars@.subrange(0, k as int),
                decreases chars@.len() - 3 - k,
            {
                d.push(chars[k]);
                assert(chars@.subrange(0, k + 1) =~= chars@.subrange(0, k as int).push(chars@[k as int]));
                k += 1;
            }
            if d.len() > 0 {
                let ds = string_from_chars(d.as_slice());
                if glob_parses(ds.as_str()) {
                    let ghost b = valid@;
                    let ghost dv = ds@;
                    valid.push(ds);
                    assert(string_views(valid@) =~= string_views(b).push(dv));
                }
            }
            assert(d@ == drop3(p@));
        }
        assert(string_views(valid@) =~= before + exclude_globs(p@));
        i += 1;
    }
    match build_glob_set(&valid) {
        Some(set) => set,
        None => empty_glob_set(),
    }
}


/// Whether one of `names` other than `..` is matched by one of `patterns`.
pub open spec fn some_name_matches(patterns: Seq<Seq<char>>, names: Seq<Seq<char>>) -> bool {
    exists|k: int| 0 <= k < names.len() && names[k] != seq!['.', '.'] && #[trigger] any_glob_matches(patterns, names[k])
}

/// Whether `path` is excluded by `patterns`: the path matches, or (when it
/// lies under `base`) its part below `base` matches, or one of the names
/// of that part or of the whole path matches.
pub open spec fn excluded_path(patterns: Seq<Seq<char>>, path: Seq<char>, base: Option<Seq<char>>) -> bool {
    ||| any_glob_matches(patterns, path)
    ||| match base {
        Some(b) => match strip_names(is_absolute(path), path_names(path), is_absolute(b), path_names(b)) {
            Some(rel) => (rel.len() > 0 && any_glob_matches(patterns, render_path(false, rel)))
                || some_name_matches(patterns, rel),
            None => false,
        },
        None => false,
    }
    ||| some_name_matches(patterns, path_names(path))
}

/// Whether one of `names` other than `..` is matched by the set.
fn any_name_matches(set: &GlobSet, names: &Vec<Vec<char>>) -> (r: bool)
    ensures
        r == some_name_matches(glob_set_patterns(*set), char_views(names@)),
{
    let ghost nv = char_views(names@);
    let ghost pats = glob_set_patterns(*set);
    let mut k: usize = 0;
    while k < names.len()
        invariant
            k <= names@.len(),
            nv == char_views(names@),
            pats == glob_set_patterns(*set),
            forall|j: int| 0 <= j < k ==> !(nv[j] != seq!['.', '.'] && #[trigger] any_glob_matches(pats, nv[j])),
        decreases names@.len() - k,
    {
        assert(nv[k as int] == names@[k as int]@);
        let dd = names[k].len() == 2 && names[k][0] == '.' && names[k][1] == '.';
        proof {
            if names@[k as int]@.len() == 2 && names@[k as int]@[0] == '.' && names@[k as int]@[1] == '.' {
                assert(names@[k as int]@ =~= seq!['.', '.']);
            }
        }
        if !dd {
            let s = string_from_chars(names[k].as_slice());
            if glob_set_is_match(set, s.as_str()) {
                proof {
                    assert(s@ == nv[k as int]);
                    assert(any_glob_matches(pats, nv[k as int]));
                    assert(nv[k as int] != seq!['.', '.']);
                }
                return true;
            }
        }
        k += 1;
    }
    false
}

/// Whether a path is excluded; see `excluded_path`.
pub fn should_exclude_path(path: &str, globset: &GlobSet, base_dir: Option<&str>) -> (r: bool)
    ensures
        r == excluded_path(glob_set_patterns(*globset), path@, match base_dir {
            Some(b) => Some(b@),
            None => None,
        }),
{
    if glob_set_is_match(globset, path) {
        return true;
    }
    let (abs, names) = parse_path(path);
    match base_dir {
        Some(b) => {
            let (babs, bnames) = parse_path(b);
            match strip_base(abs, &names, babs, &bnames) {
                Some(rel) => {
                    if rel.len() > 0 {
                        let text = render(false, &rel);
                        if glob_set_is_match(globset, text.as_str()) {
                            return true;
                        }
                    }
                    if any_name_matches(globset, &rel) {
                        return true;
                    }
                },
                None => {},
            }
        },
        None => {},
    }
    any_name_matches(globset, &names)
}


// ---------------------------------------------------------------------------
// Expanding path arguments.

/// `p` joined onto `base` as `Path::join` does on text: `p` itself when it
/// starts at the root or `base` is empty, else `base`, a slash unless
/// `base` ends in one, and `p`.
pub open spec fn join_text(base: Seq<char>, p: Seq<char>) -> Seq<char> {
    if is_absolute(p) || base.len() == 0 {
        p
    } else if base.last() == '/' {
        base + p
    } else {
        base + seq!['/'] + p
    }
}

/// A pattern with no path separator in it.
pub open spec fn is_simple_pattern(p: Seq<char>) -> bool {
    !p.contains('/') && !p.contains('\\')
}

/// What a pattern is looked up as: the glob itself (joined onto the base
/// directory when there is one), and for a pattern without separators also
/// the same name at any depth (`**/` before it).
pub open spec fn glob_query(p: Seq<char>, base: Option<Seq<char>>) -> (Seq<char>, Option<Seq<char>>) {
    let anywhere = seq!['*', '*', '/'] + p;
    match base {
        Some(b) => (join_text(b, p), if is_simple_pattern(p) { Some(join_text(b, anywhere)) } else { None }),
        None => (p, if is_simple_pattern(p) { Some(anywhere) } else { None }),
    }
}

/// The lookups of the first `n` path arguments, in order.
pub open spec fn glob_queries(paths: Seq<Seq<char>>, base: Option<Seq<char>>, n: int) -> Seq<(Seq<char>, Option<Seq<char>>)>
    decreases n,
{
    if n <= 0 {
        seq![]
    } else {
        glob_queries(paths, base, n - 1) + path_patterns(paths[n - 1]).map_values(|p: Seq<char>| glob_query(p, base))
    }
}

/// `acc` with each of `items` added in turn unless already held.
pub open spec fn add_all_new(acc: Seq<Seq<char>>, items: Seq<Seq<char>>) -> Seq<Seq<char>>
    decreases items.len(),
{
    if items.len() == 0 {
        acc
    } else {
        add_if_new(add_all_new(acc, items.drop_last()), items.last())
    }
}

/// The paths among the first `n` entries a glob lookup gave that are not
/// excluded (entries that could not be read are skipped).
pub open spec fn kept_matches(entries: Seq<Option<String>>, patterns: Seq<Seq<char>>, base: Option<Seq<char>>, n: int) -> Seq<Seq<char>>
    decreases n,
{
    if n <= 0 {
        seq![]
    } else {
        let prev = kept_matches(entries, patterns, base, n - 1);
        match entries[n - 1] {
            Some(p) => if excluded_path(patterns, p@, base) { prev } else { prev.push(p@) },
            None => prev,
        }
    }
}

/// The paths a glob lookup contributes: none when the pattern was refused.
pub open spec fn kept_of(found: Option<Vec<Option<String>>>, patterns: Seq<Seq<char>>, base: Option<Seq<char>>) -> Seq<Seq<char>> {
    match found {
        Some(v) => kept_matches(v@, patterns, base, v@.len() as int),
        None => seq![],
    }
}

/// Adds the paths a glob lookup found that are not excluded and not yet
/// held; tells whether there was any such path (held before or not).
pub fn add_glob_matches(
    expanded: &mut Vec<String>,
    found: Option<Vec<Option<String>>>,
    globset: &GlobSet,
    base_dir: Option<&str>,
) -> (matched: bool)
    ensures
        string_views(final(expanded)@) == add_all_new(
            string_views(old(expanded)@),
            kept_of(found, glob_set_patterns(*globset), opt_view(base_dir)),
        ),
        matched == (kept_of(found, glob_set_patterns(*globset), opt_view(base_dir)).len() > 0),
{
    let ghost pats = glob_set_patterns(*globset);
    let ghost base = opt_view(base_dir);
    match found {
        Some(v) => {
            let mut matched = false;
            let mut i: usize = 0;
            while i < v.len()
                invariant
                    i <= v@.len(),
                    pats == glob_set_patterns(*globset),
                    base == opt_view(base_dir),
                    string_views(expanded@) == add_all_new(string_views(old(expanded)@), kept_matches(v@, pats, base, i as int)),
                    matched == (kept_matches(v@, pats, base, i as int).len() > 0),
                decreases v@.len() - i,
            {
                match &v[i] {
                    Some(p) => {
                        let ex = should_exclude_path(p.as_str(), globset, base_dir);
                        assert(base == match base_dir { Some(b) => Some(b@), None => None::<Seq<char>> });
                        if !ex {
                            matched = true;
                            let ghost before = string_views(expanded@);
                            push_if_new(expanded, clone_string(p));
                            proof {
                                let k = kept_matches(v@, pats, base, i + 1);
                                assert(k.drop_last() =~= kept_matches(v@, pats, base, i as int));
                                assert(k.last() == p@);
                            }
                        }
                    },
                    None => {},
                }
                i += 1;
            }
            matched
        },
        None => false,
    }
}

/// The view of an optional text.
pub open spec fn opt_view(o: Option<&str>) -> Option<Seq<char>> {
    match o {
        Some(s) => Some(s@),
        None => None,
    }
}


proof fn lemma_kept_not_excluded(entries: Seq<Option<String>>, patterns: Seq<Seq<char>>, base: Option<Seq<char>>, n: int, query: Seq<char>)
    requires
        n <= entries.len(),
        forall|i: int| 0 <= i < entries.len() ==> (#[trigger] entries[i] matches Some(p) ==> glob_path_matches(query, p@)),
    ensures
        forall|j: int| 0 <= j < kept_matches(entries, patterns, base, n).len()
            ==> !excluded_path(patterns, #[trigger] kept_matches(entries, patterns, base, n)[j], base),
        forall|j: int| 0 <= j < kept_matches(entries, patterns, base, n).len()
            ==> glob_path_matches(query, #[trigger] kept_matches(entries, patterns, base, n)[j]),
    decreases n,
{
    if n > 0 {
        lemma_kept_not_excluded(entries, patterns, base, n - 1, query);
        let prev = kept_matches(entries, patterns, base, n - 1);
        let cur = kept_matches(entries, patterns, base, n);
        assert(entries[n - 1] matches Some(p) ==> glob_path_matches(query, p@));
        assert forall|j: int| 0 <= j < cur.len() implies !excluded_path(patterns, #[trigger] cur[j], base) && glob_path_matches(query, cur[j]) by {
            if j < prev.len() {
                assert(cur[j] == prev[j]);
            }
        }
    }
}

/// The expansion after the lookups of `q` gave `m.0` (and `m.1` for the
/// any-depth lookup, when there is one): the paths found are added unless
/// already held; when no lookup found anything, the pattern's own path is.
pub open spec fn expand_step(acc: Seq<Seq<char>>, q: (Seq<char>, Option<Seq<char>>), m: (Seq<Seq<char>>, Seq<Seq<char>>)) -> Seq<Seq<char>> {
    let a1 = add_all_new(acc, m.0);
    let a2 = match q.1 {
        Some(_) => add_all_new(a1, m.1),
        None => a1,
    };
    let matched = m.0.len() > 0 || (q.1 is Some && m.1.len() > 0);
    if matched { a2 } else { add_if_new(a2, q.0) }
}

/// The expansion of lookups `qs` whose answers were `ms`.
pub open spec fn expansion(qs: Seq<(Seq<char>, Option<Seq<char>>)>, ms: Seq<(Seq<Seq<char>>, Seq<Seq<char>>)>) -> Seq<Seq<char>>
    decreases qs.len(),
{
    if qs.len() == 0 || ms.len() == 0 {
        seq![]
    } else {
        expand_step(expansion(qs.drop_last(), ms.drop_last()), qs.last(), ms.last())
    }
}

/// `path` can come from the any-depth lookup of `q`: there is one, and
/// the path matches it.
pub open spec fn found_by_any_depth(q: (Seq<char>, Option<Seq<char>>), path: Seq<char>) -> bool {
    q.1 is Some && glob_path_matches(q.1->0, path)
}

/// Answers that lookups `qs` may have given: one per lookup, holding no
/// excluded path, nothing for a pattern `glob` refuses, only paths that
/// match the pattern looked up, and nothing at any depth when there was no
/// such lookup.
pub open spec fn possible_answers(
    qs: Seq<(Seq<char>, Option<Seq<char>>)>,
    ms: Seq<(Seq<Seq<char>>, Seq<Seq<char>>)>,
    patterns: Seq<Seq<char>>,
    base: Option<Seq<char>>,
) -> bool {
    &&& ms.len() == qs.len()
    &&& forall|i: int, j: int| 0 <= i < ms.len() && 0 <= j < ms[i].0.len() ==> !excluded_path(patterns, #[trigger] ms[i].0[j], base)
    &&& forall|i: int, j: int| 0 <= i < ms.len() && 0 <= j < ms[i].1.len() ==> !excluded_path(patterns, #[trigger] ms[i].1[j], base)
    &&& forall|i: int| 0 <= i < ms.len() && !glob_pattern_ok(#[trigger] qs[i].0) ==> ms[i].0.len() == 0
    &&& forall|i: int, j: int| 0 <= i < ms.len() && 0 <= j < ms[i].0.len() ==> glob_path_matches(qs[i].0, #[trigger] ms[i].0[j])
    &&& forall|i: int, j: int| 0 <= i < ms.len() && 0 <= j < ms[i].1.len() ==> found_by_any_depth(qs[i], #[trigger] ms[i].1[j])
}

/// Adding the answers to one more lookup keeps the answers possible.
proof fn lemma_answers_step(
    qs: Seq<(Seq<char>, Option<Seq<char>>)>,
    ms: Seq<(Seq<Seq<char>>, Seq<Seq<char>>)>,
    patterns: Seq<Seq<char>>,
    base: Option<Seq<char>>,
    q: (Seq<char>, Option<Seq<char>>),
    k1: Seq<Seq<char>>,
    k2: Seq<Seq<char>>,
)
    requires
        possible_answers(qs, ms, patterns, base),
        forall|b: int| 0 <= b < k1.len() ==> glob_path_matches(q.0, #[trigger] k1[b]) && !excluded_path(patterns, k1[b], base),
        forall|b: int| 0 <= b < k2.len() ==> found_by_any_depth(q, #[trigger] k2[b]) && !excluded_path(patterns, k2[b], base),
        !glob_pattern_ok(q.0) ==> k1.len() == 0,
    ensures
        possible_answers(qs.push(q), ms.push((k1, k2)), patterns, base),
{
    let nq = qs.push(q);
    let nm = ms.push((k1, k2));
    assert forall|a: int, b: int| 0 <= a < nm.len() && 0 <= b < nm[a].0.len() implies
        !excluded_path(patterns, #[trigger] nm[a].0[b], base) && glob_path_matches(nq[a].0, nm[a].0[b]) by {
        if a < ms.len() {
            assert(nm[a] == ms[a] && nq[a] == qs[a]);
            assert(nm[a].0[b] == ms[a].0[b]);
        } else {
            assert(nm[a].0[b] == k1[b]);
        }
    }
    assert forall|a: int, b: int| 0 <= a < nm.len() && 0 <= b < nm[a].1.len() implies
        !excluded_path(patterns, #[trigger] nm[a].1[b], base) by {
        if a < ms.len() {
            assert(nm[a].1[b] == ms[a].1[b]);
        } else {
            assert(nm[a].1[b] == k2[b]);
        }
    }
    assert forall|a: int, b: int| 0 <= a < nm.len() && 0 <= b < nm[a].1.len() implies
        found_by_any_depth(nq[a], #[trigger] nm[a].1[b]) by {
        if a < ms.len() {
            assert(nm[a] == ms[a] && nq[a] == qs[a]);
            assert(nm[a].1[b] == ms[a].1[b]);
            assert(qs[a].1 is Some);
        } else {
            assert(nq[a] == q);
            assert(nm[a].1 == k2);
            assert(nm[a].1[b] == k2[b]);
            assert(q.1 is Some);
        }
    }
    assert forall|a: int| 0 <= a < nm.len() && !glob_pattern_ok(#[trigger] nq[a].0) implies nm[a].0.len() == 0 by {
        if a < ms.len() {
            assert(nm[a] == ms[a] && nq[a] == qs[a]);
        }
    }
}

/// Whether `v` holds the character `c`.
fn has_char(v: &Vec<char>, c: char) -> (r: bool)
    ensures
        r == v@.contains(c),
{
    let mut i: usize = 0;
    while i < v.len()
        invariant
            i <= v@.len(),
            forall|k: int| 0 <= k < i ==> v@[k] != c,
        decreases v@.len() - i,
    {
        if v[i] == c {
            assert(v@[i as int] == c);
            return true;
        }
        i += 1;
    }
    false
}

/// `p` joined onto `base`; see `join_text`.
fn join_str(base: &str, p: &str) -> (r: String)
    ensures
        r@ == join_text(base@, p@),
{
    let b = str_chars(base);
    let q = str_chars(p);
    if (q.len() > 0 && q[0] == '/') || b.len() == 0 {
        return p.to_owned();
    }
    let mut out = copy_chars(&b);
    if b[b.len() - 1] != '/' {
        out.push('/');
    }
    push_all(&mut out, q.as_slice());
    assert(out@ =~= join_text(base@, p@));
    string_from_chars(out.as_slice())
}

/// The lookups of one pattern; see `glob_query`.
fn query_for(pattern: &str, base_dir: Option<&str>) -> (r: (String, Option<String>))
    ensures
        (r.0@, match r.1 { Some(f) => Some(f@), None => None }) == glob_query(pattern@, opt_view(base_dir)),
{
    let chars = str_chars(pattern);
    let simple = !has_char(&chars, '/') && !has_char(&chars, '\\');
    let mut any: Vec<char> = Vec::new();
    any.push('*');
    any.push('*');
    any.push('/');
    push_all(&mut any, chars.as_slice());
    let anywhere = string_from_chars(any.as_slice());
    assert(anywhere@ =~= seq!['*', '*', '/'] + pattern@);
    match base_dir {
        Some(b) => {
            let target = join_str(b, pattern);
            let fb = if simple { Some(join_str(b, anywhere.as_str())) } else { None };
            (target, fb)
        },
        None => {
            let fb = if simple { Some(anywhere) } else { None };
            (pattern.to_owned(), fb)
        },
    }
}

/// The paths and patterns named, expanded: each argument is split into its
/// patterns (see `split_path_patterns`), each pattern is looked up on disk
/// with `glob` (joined onto `base_dir` when there is one; a pattern without
/// separators also at any depth), found paths that the exclude patterns
/// cover are left out, a pattern that found nothing stands for itself, and
/// no path is listed twice. The result is `Ok` in every case.
fn expand_glob_patterns_internal(paths: &[String], exclude_patterns: &[String], base_dir: Option<&str>) -> (r: Result<Vec<String>, String>)
    ensures
        match r {
            Ok(v) => exists|pats: Seq<Seq<char>>, ms: Seq<(Seq<Seq<char>>, Seq<Seq<char>>)>|
                pats == exclusion_set(string_views(exclude_patterns@))
                && possible_answers(glob_queries(string_views(paths@), opt_view(base_dir), paths@.len() as int), ms, pats, opt_view(base_dir))
                && #[trigger] string_views(v@) == expansion(glob_queries(string_views(paths@), opt_view(base_dir), paths@.len() as int), ms),
            Err(_) => false,
        },
{
    let globset = build_globset(exclude_patterns);
    let ghost pats = glob_set_patterns(globset);
    let ghost base = opt_view(base_dir);
    let ghost pv = string_views(paths@);
    let mut expanded: Vec<String> = Vec::new();
    let ghost mut qs: Seq<(Seq<char>, Option<Seq<char>>)> = seq![];
    let ghost mut ms: Seq<(Seq<Seq<char>>, Seq<Seq<char>>)> = seq![];
    let mut i: usize = 0;
    while i < paths.len()
        invariant
            i <= paths@.len(),
            pats == glob_set_patterns(globset),
            base == opt_view(base_dir),
            pv == string_views(paths@),
            qs == glob_queries(pv, base, i as int),
            possible_answers(qs, ms, pats, base),
            string_views(expanded@) == expansion(qs, ms),
        decreases paths@.len() - i,
    {
        let patterns = split_path_patterns(paths[i].as_str());
        let ghost pq = path_patterns(pv[i as int]).map_values(|p: Seq<char>| glob_query(p, base));
        let ghost q0 = qs;
        assert(pv[i as int] == paths@[i as int]@);
        let mut j: usize = 0;
        while j < patterns.len()
            invariant
                j <= patterns@.len(),
                i < paths@.len(),
                pats == glob_set_patterns(globset),
                base == opt_view(base_dir),
                string_views(patterns@) == path_patterns(pv[i as int]),
                pq == path_patterns(pv[i as int]).map_values(|p: Seq<char>| glob_query(p, base)),
                qs == q0 + pq.take(j as int),
                possible_answers(qs, ms, pats, base),
                string_views(expanded@) == expansion(qs, ms),
            decreases patterns@.len() - j,
        {
            let (target, fallback) = query_for(patterns[j].as_str(), base_dir);
            let ghost q = (target@, match fallback { Some(ref f) => Some(f@), None => None::<Seq<char>> });
            assert(string_views(patterns@)[j as int] == patterns@[j as int]@);
            assert(q == pq[j as int]);
            let ghost before = string_views(expanded@);
            let found = glob_paths(target.as_str());
            let ghost k1 = kept_of(found, pats, base);
            proof {
                match found {
                    Some(ref v) => lemma_kept_not_excluded(v@, pats, base, v@.len() as int, target@),
                    None => {},
                }
                assert(forall|b: int| 0 <= b < k1.len() ==> glob_path_matches(q.0, #[trigger] k1[b]) && !excluded_path(pats, k1[b], base));
                assert(!glob_pattern_ok(q.0) ==> k1.len() == 0);
            }
            let mut matched = add_glob_matches(&mut expanded, found, &globset, base_dir);
            let ghost mut k2: Seq<Seq<char>> = seq![];
            match fallback {
                Some(f) => {
                    let found2 = glob_paths(f.as_str());
                    proof {
                        k2 = kept_of(found2, pats, base);
                        match found2 {
                            Some(ref v) => lemma_kept_not_excluded(v@, pats, base, v@.len() as int, f@),
                            None => {},
                        }
                        assert(q.1 == Some(f@));
                        assert(forall|b: int| 0 <= b < k2.len() ==> found_by_any_depth(q, #[trigger] k2[b]) && !excluded_path(pats, k2[b], base));
                    }
                    let m2 = add_glob_matches(&mut expanded, found2, &globset, base_dir);
                    matched = matched || m2;
                },
                None => {},
            }
            if !matched {
                push_if_new(&mut expanded, target);
            }
            proof {
                let nq = qs.push(q);
                let nm = ms.push((k1, k2));
                assert(string_views(expanded@) == expand_step(before, q, (k1, k2)));
                assert(pq.take(j + 1) =~= pq.take(j as int).push(pq[j as int]));
                assert(nq.drop_last() =~= qs);
                assert(nm.drop_last() =~= ms);
                lemma_answers_step(qs, ms, pats, base, q, k1, k2);
                qs = nq;
                ms = nm;
            }
            j += 1;
        }
        proof {
            assert(pq.take(patterns@.len() as int) =~= pq);
            assert(glob_queries(pv, base, i + 1) =~= glob_queries(pv, base, i as int) + pq);
        }
        i += 1;
    }
    Ok(expanded)
}

/// The paths and patterns named, expanded relative to the working
/// directory; see `expand_glob_patterns_internal`.
pub fn expand_glob_patterns(paths: &[String], exclude_patterns: &[String]) -> (r: Result<Vec<String>, String>)
    ensures
        match r {
            Ok(v) => exists|pats: Seq<Seq<char>>, ms: Seq<(Seq<Seq<char>>, Seq<Seq<char>>)>|
                pats == exclusion_set(string_views(exclude_patterns@))
                && possible_answers(glob_queries(string_views(paths@), None, paths@.len() as int), ms, pats, None)
                && #[trigger] string_views(v@) == expansion(glob_queries(string_views(paths@), None, paths@.len() as int), ms),
            Err(_) => false,
        },
{
    expand_glob_patterns_internal(paths, exclude_patterns, None)
}

/// The paths and patterns named, expanded under `base_dir`; see
/// `expand_glob_patterns_internal`.
pub fn expand_glob_patterns_with_base(base_dir: &str, paths: &[String], exclude_patterns: &[String]) -> (r: Result<Vec<String>, String>)
    ensures
        match r {
            Ok(v) => exists|pats: Seq<Seq<char>>, ms: Seq<(Seq<Seq<char>>, Seq<Seq<char>>)>|
                pats == exclusion_set(string_views(exclude_patterns@))
                && possible_answers(glob_queries(string_views(paths@), Some(base_dir@), paths@.len() as int), ms, pats, Some(base_dir@))
                && #[trigger] string_views(v@) == expansion(glob_queries(string_views(paths@), Some(base_dir@), paths@.len() as int), ms),
            Err(_) => false,
        },
{
    expand_glob_patterns_internal(paths, exclude_patterns, Some(base_dir))
}

} // verus!
