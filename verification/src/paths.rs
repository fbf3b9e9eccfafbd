//! File paths as text: a path is read as whether it starts at the root and
//! the list of its names, the pieces between slashes with empty pieces and
//! `.` left out. This is how paths are compared, joined and given new
//! extensions here.
use vstd::prelude::*;

use crate::text::{char_views, has_suffix, join_with, push_all, str_chars, string_from_chars};
use crate::types::{language_of_extension, Language};

verus! {

/// `cur` added to the finished names unless it is empty or `.`.
pub open spec fn keep_name(done: Seq<Seq<char>>, cur: Seq<char>) -> Seq<Seq<char>> {
    if cur.len() == 0 || cur == seq!['.'] {
        done
    } else {
        done.push(cur)
    }
}

/// Reading a path from the left: the names finished so far and the name
/// being read.
pub open spec fn path_scan(p: Seq<char>) -> (Seq<Seq<char>>, Seq<char>)
    decreases p.len(),
{
    if p.len() == 0 {
        (seq![], seq![])
    } else {
        let (done, cur) = path_scan(p.drop_last());
        if p.last() == '/' {
            (keep_name(done, cur), seq![])
        } else {
            (done, cur.push(p.last()))
        }
    }
}

/// The names of a path.
pub open spec fn path_names(p: Seq<char>) -> Seq<Seq<char>> {
    keep_name(path_scan(p).0, path_scan(p).1)
}

/// Whether a path starts at the root.
pub open spec fn is_absolute(p: Seq<char>) -> bool {
    p.len() > 0 && p[0] == '/'
}

/// A path written out: a leading slash when it starts at the root, then
/// its names separated by slashes.
pub open spec fn render_path(abs: bool, names: Seq<Seq<char>>) -> Seq<char> {
    (if abs { seq!['/'] } else { seq![] }) + join_with(names, seq!['/'])
}

/// The file name of a path: its last name, unless that is `..`.
pub open spec fn file_name_of(names: Seq<Seq<char>>) -> Option<Seq<char>> {
    if names.len() > 0 && names.last() != seq!['.', '.'] {
        Some(names.last())
    } else {
        None
    }
}

/// Position of the last `.` in `s`, if any.
pub open spec fn last_dot(s: Seq<char>) -> Option<int>
    decreases s.len(),
{
    if s.len() == 0 {
        None
    } else if s.last() == '.' {
        Some(s.len() - 1)
    } else {
        last_dot(s.drop_last())
    }
}

/// The extension of a file name: what follows its last `.`, unless that dot
/// is the first character or the name is `..`.
pub open spec fn extension_of(name: Seq<char>) -> Option<Seq<char>> {
    if name == seq!['.', '.'] {
        None
    } else {
        match last_dot(name) {
            Some(i) => if i > 0 { Some(name.subrange(i + 1, name.len() as int)) } else { None },
            None => None,
        }
    }
}

/// A file name without its extension.
pub open spec fn stem_of(name: Seq<char>) -> Seq<char> {
    match extension_of(name) {
        Some(e) => name.subrange(0, name.len() - e.len() - 1),
        None => name,
    }
}

/// The names after a new extension is set: the stem of the file name, then
/// `.` and `ext` unless `ext` is empty; no change without a file name.
pub open spec fn with_extension(names: Seq<Seq<char>>, ext: Seq<char>) -> Seq<Seq<char>> {
    match file_name_of(names) {
        Some(name) => names.update(
            names.len() - 1,
            if ext.len() == 0 { stem_of(name) } else { stem_of(name) + seq!['.'] + ext },
        ),
        None => names,
    }
}

/// The names of `path` after those of `base`, when `base` leads it.
pub open spec fn strip_names(abs: bool, names: Seq<Seq<char>>, base_abs: bool, base: Seq<Seq<char>>) -> Option<Seq<Seq<char>>> {
    if abs == base_abs && base.len() <= names.len() && names.take(base.len() as int) == base {
        Some(names.skip(base.len() as int))
    } else {
        None
    }
}

/// Where the index keeps what it knows of `file_path`: under `.ck` in
/// `repo_root`, at the file's place relative to the root (or at the file's
/// own path when it lies outside the root and is absolute), with `.ck`
/// added to its extension (or `ck` as the extension when it has none).
pub open spec fn sidecar_path(repo_root: Seq<char>, file_path: Seq<char>) -> Seq<char> {
    let root_abs = is_absolute(repo_root);
    let root = path_names(repo_root);
    let (rel_abs, rel) = match strip_names(is_absolute(file_path), path_names(file_path), root_abs, root) {
        Some(rest) => (false, rest),
        None => (is_absolute(file_path), path_names(file_path)),
    };
    let (abs, joined) = if rel_abs { (true, rel) } else { (root_abs, root.push(seq!['.', 'c', 'k']) + rel) };
    let ext = match file_name_of(rel) {
        Some(name) => match extension_of(name) {
            Some(e) => e + seq!['.', 'c', 'k'],
            None => seq!['c', 'k'],
        },
        None => seq!['c', 'k'],
    };
    render_path(abs, with_extension(joined, ext))
}

/// The names of a path, read as `path_names` reads them.
pub fn parse_path(p: &str) -> (r: (bool, Vec<Vec<char>>))
    ensures
        r.0 == is_absolute(p@),
        char_views(r.1@) == path_names(p@),
{
    let cs = str_chars(p);
    let mut done: Vec<Vec<char>> = Vec::new();
    let mut cur: Vec<char> = Vec::new();
    let mut i: usize = 0;
    while i < cs.len()
        invariant
            i <= cs@.len(),
            cs@ == p@,
            (char_views(done@), cur@) == path_scan(cs@.take(i as int)),
        decreases cs@.len() - i,
    {
        let c = cs[i];
        proof {
            assert(cs@.take(i + 1).drop_last() =~= cs@.take(i as int));
        }
        if c == '/' {
            if !(cur.len() == 0 || (cur.len() == 1 && cur[0] == '.')) {
                proof {
                    assert(cur@ != seq!['.']);
                }
                let ghost before = done@;
                done.push(cur);
                proof {
                    assert(char_views(done@) =~= char_views(before).push(cur@));
                }
            } else {
                proof {
                    if cur@.len() == 1 {
                        assert(cur@ =~= seq!['.']);
                    }
                }
            }
            cur = Vec::new();
        } else {
            cur.push(c);
        }
        i += 1;
    }
    assert(cs@.take(cs@.len() as int) =~= cs@);
    let keep = !(cur.len() == 0 || (cur.len() == 1 && cur[0] == '.'));
    if keep {
        proof {
            assert(cur@ != seq!['.']);
        }
        let ghost before = done@;
        done.push(cur);
        proof {
            assert(char_views(done@) =~= char_views(before).push(cur@));
        }
    } else {
        proof {
            if cur@.len() == 1 {
                assert(cur@ =~= seq!['.']);
            }
        }
    }
    let abs = cs.len() > 0 && cs[0] == '/';
    (abs, done)
}


/// A copy of a character vector.
pub fn copy_chars(v: &Vec<char>) -> (r: Vec<char>)
    ensures
        r@ == v@,
{
    let mut r: Vec<char> = Vec::new();
    push_all(&mut r, v.as_slice());
    assert(r@ =~= v@);
    r
}

/// A copy of a list of names.
fn copy_names(v: &Vec<Vec<char>>) -> (r: Vec<Vec<char>>)
    ensures
        char_views(r@) == char_views(v@),
{
    let mut r: Vec<Vec<char>> = Vec::new();
    let mut i: usize = 0;
    while i < v.len()
        invariant
            i <= v@.len(),
            char_views(r@) == char_views(v@.take(i as int)),
        decreases v@.len() - i,
    {
        let ghost before = r@;
        r.push(copy_chars(&v[i]));
        assert(char_views(r@) =~= char_views(before).push(v@[i as int]@));
        assert(char_views(v@.take(i + 1)) =~= char_views(v@.take(i as int)).push(v@[i as int]@));
        i += 1;
    }
    assert(v@.take(v@.len() as int) =~= v@);
    r
}

/// Whether two character vectors are equal.
pub fn chars_eq(a: &Vec<char>, b: &Vec<char>) -> (r: bool)
    ensures
        r == (a@ == b@),
{
    if a.len() != b.len() {
        return false;
    }
    let mut i: usize = 0;
    while i < a.len()
        invariant
            i <= a@.len() == b@.len(),
            forall|k: int| 0 <= k < i ==> a@[k] == b@[k],
        decreases a@.len() - i,
    {
        if a[i] != b[i] {
            return false;
        }
        i += 1;
    }
    assert(a@ =~= b@);
    true
}

fn is_dot_dot(v: &Vec<char>) -> (r: bool)
    ensures
        r == (v@ == seq!['.', '.']),
{
    let r = v.len() == 2 && v[0] == '.' && v[1] == '.';
    proof {
        if v@.len() == 2 && v@[0] == '.' && v@[1] == '.' {
            assert(v@ =~= seq!['.', '.']);
        }
    }
    r
}

/// Position of the last `.`.
fn find_last_dot(s: &Vec<char>) -> (r: Option<usize>)
    ensures
        match r {
            Some(i) => last_dot(s@) == Some(i as int),
            None => last_dot(s@) is None,
        },
{
    let mut found: Option<usize> = None;
    let mut i: usize = 0;
    while i < s.len()
        invariant
            i <= s@.len(),
            match found {
                Some(j) => last_dot(s@.take(i as int)) == Some(j as int),
                None => last_dot(s@.take(i as int)) is None,
            },
        decreases s@.len() - i,
    {
        assert(s@.take(i + 1).drop_last() =~= s@.take(i as int));
        if s[i] == '.' {
            found = Some(i);
        }
        i += 1;
    }
    assert(s@.take(s@.len() as int) =~= s@);
    found
}

/// The extension of a file name.
fn name_extension(name: &Vec<char>) -> (r: Option<Vec<char>>)
    ensures
        match r {
            Some(e) => extension_of(name@) == Some(e@),
            None => extension_of(name@) is None,
        },
{
    if is_dot_dot(name) {
        return None;
    }
    proof {
        lemma_last_dot_range(name@);
    }
    match find_last_dot(name) {
        Some(i) => {
            if i > 0 {
                assert(last_dot(name@) == Some(i as int));
                let nl = name.len();
                assert(i < nl);
                let mut e: Vec<char> = Vec::new();
                let mut k: usize = i + 1;
                while k < name.len()
                    invariant
                        i < k <= name@.len(),
                        e@ == name@.subrange(i + 1, k as int),
                    decreases name@.len() - k,
                {
                    e.push(name[k]);
                    assert(name@.subrange(i + 1, k + 1) =~= name@.subrange(i + 1, k as int).push(name@[k as int]));
                    k += 1;
                }
                Some(e)
            } else {
                None
            }
        },
        None => None,
    }
}

pub proof fn lemma_last_dot_range(s: Seq<char>)
    ensures
        last_dot(s) matches Some(i) ==> 0 <= i < s.len() && s[i] == '.',
    decreases s.len(),
{
    if s.len() > 0 && s.last() != '.' {
        lemma_last_dot_range(s.drop_last());
    }
}

/// A file name without its extension.
fn name_stem(name: &Vec<char>) -> (r: Vec<char>)
    ensures
        r@ == stem_of(name@),
{
    proof {
        lemma_last_dot_range(name@);
    }
    match name_extension(name) {
        Some(e) => {
            let cut = name.len() - e.len() - 1;
            let mut r: Vec<char> = Vec::new();
            let mut k: usize = 0;
            while k < cut
                invariant
                    k <= cut <= name@.len(),
                    r@ == name@.subrange(0, k as int),
                decreases cut - k,
            {
                r.push(name[k]);
                assert(name@.subrange(0, k + 1) =~= name@.subrange(0, k as int).push(name@[k as int]));
                k += 1;
            }
            r
        },
        None => copy_chars(name),
    }
}

/// Sets a new extension on the last name, as `with_extension` describes.
fn set_extension(names: &mut Vec<Vec<char>>, ext: &Vec<char>)
    ensures
        char_views(final(names)@) == with_extension(char_views(old(names)@), ext@),
{
    let n = names.len();
    if n == 0 {
        return;
    }
    if is_dot_dot(&names[n - 1]) {
        return;
    }
    let mut name = name_stem(&names[n - 1]);
    if ext.len() > 0 {
        name.push('.');
        push_all(&mut name, ext.as_slice());
    }
    let ghost before = names@;
    let ghost new_name = name@;
    names.set(n - 1, name);
    proof {
        let views = char_views(before);
        assert(views.last() == before[n - 1]@);
        assert(char_views(names@) =~= views.update(n - 1, new_name));
        if ext@.len() == 0 {
            assert(new_name =~= stem_of(views.last()));
        } else {
            assert(new_name =~= stem_of(views.last()) + seq!['.'] + ext@);
        }
    }
}

/// The names of a path after those of a base path, when the base leads it.
pub fn strip_base(abs: bool, names: &Vec<Vec<char>>, base_abs: bool, base: &Vec<Vec<char>>) -> (r: Option<Vec<Vec<char>>>)
    ensures
        match r {
            Some(rest) => strip_names(abs, char_views(names@), base_abs, char_views(base@)) == Some(char_views(rest@)),
            None => strip_names(abs, char_views(names@), base_abs, char_views(base@)) is None,
        },
{
    let ghost nv = char_views(names@);
    let ghost bv = char_views(base@);
    if abs != base_abs || base.len() > names.len() {
        return None;
    }
    let mut i: usize = 0;
    while i < base.len()
        invariant
            i <= base@.len() <= names@.len(),
            nv == char_views(names@),
            bv == char_views(base@),
            forall|k: int| 0 <= k < i ==> nv[k] == bv[k],
        decreases base@.len() - i,
    {
        if !chars_eq(&names[i], &base[i]) {
            proof {
                assert(nv.take(bv.len() as int)[i as int] != bv[i as int]);
            }
            return None;
        }
        i += 1;
    }
    assert(nv.take(bv.len() as int) =~= bv);
    let mut rest: Vec<Vec<char>> = Vec::new();
    let mut k: usize = base.len();
    while k < names.len()
        invariant
            base@.len() <= k <= names@.len(),
            nv == char_views(names@),
            char_views(rest@) == nv.subrange(base@.len() as int, k as int),
        decreases names@.len() - k,
    {
        let ghost before = rest@;
        rest.push(copy_chars(&names[k]));
        assert(char_views(rest@) =~= char_views(before).push(nv[k as int]));
        assert(nv.subrange(base@.len() as int, k + 1) =~= nv.subrange(base@.len() as int, k as int).push(nv[k as int]));
        k += 1;
    }
    assert(nv.skip(bv.len() as int) =~= nv.subrange(base@.len() as int, names@.len() as int));
    Some(rest)
}

/// A path written out.
pub fn render(abs: bool, names: &Vec<Vec<char>>) -> (r: String)
    ensures
        r@ == render_path(abs, char_views(names@)),
{
    let ghost views = char_views(names@);
    let mut out: Vec<char> = Vec::new();
    if abs {
        out.push('/');
    }
    let ghost start = out@;
    let mut i: usize = 0;
    while i < names.len()
        invariant
            i <= names@.len(),
            views == char_views(names@),
            out@ == start + join_with(views.take(i as int), seq!['/']),
        decreases names@.len() - i,
    {
        if i > 0 {
            out.push('/');
        }
        push_all(&mut out, names[i].as_slice());
        proof {
            assert(views.take(i + 1).drop_last() =~= views.take(i as int));
            assert(views.take(i + 1).last() == names@[i as int]@);
            if i > 0 {
                assert(out@ =~= start + (join_with(views.take(i as int), seq!['/']) + seq!['/'] + names@[i as int]@));
            } else {
                assert(views.take(1) =~= seq![names@[0]@]);
                assert(out@ =~= start + names@[0]@);
            }
        }
        i += 1;
    }
    assert(views.take(names@.len() as int) =~= views);
    assert(out@ =~= render_path(abs, views));
    string_from_chars(out.as_slice())
}

/// Where the index keeps what it knows of `file_path`; see `sidecar_path`.
pub fn get_sidecar_path(repo_root: &str, file_path: &str) -> (r: String)
    ensures
        r@ == sidecar_path(repo_root@, file_path@),
{
    let (root_abs, root) = parse_path(repo_root);
    let (file_abs, file) = parse_path(file_path);
    let (rel_abs, rel) = match strip_base(file_abs, &file, root_abs, &root) {
        Some(rest) => (false, rest),
        None => (file_abs, copy_names(&file)),
    };
    let ghost relv = char_views(rel@);
    let mut ext: Vec<char> = Vec::new();
    let n = rel.len();
    let mut has_ext = false;
    if n > 0 && !is_dot_dot(&rel[n - 1]) {
        match name_extension(&rel[n - 1]) {
            Some(e) => {
                push_all(&mut ext, e.as_slice());
                ext.push('.');
                ext.push('c');
                ext.push('k');
                has_ext = true;
            },
            None => {},
        }
    }
    if !has_ext {
        ext.push('c');
        ext.push('k');
    }
    proof {
        if n > 0 {
            assert(relv.last() == rel@[n - 1]@);
        }
        let expected = match file_name_of(relv) {
            Some(name) => match extension_of(name) {
                Some(e) => e + seq!['.', 'c', 'k'],
                None => seq!['c', 'k'],
            },
            None => seq!['c', 'k'],
        };
        assert(ext@ =~= expected);
    }
    let (abs, mut joined) = if rel_abs {
        (true, rel)
    } else {
        let mut j = copy_names(&root);
        let ghost before = j@;
        let mut ck: Vec<char> = Vec::new();
        ck.push('.');
        ck.push('c');
        ck.push('k');
        assert(ck@ =~= seq!['.', 'c', 'k']);
        j.push(ck);
        let ghost mid = j@;
        assert(char_views(mid) =~= char_views(before).push(seq!['.', 'c', 'k']));
        let mut k: usize = 0;
        while k < rel.len()
            invariant
                k <= rel@.len(),
                char_views(j@) == char_views(mid) + char_views(rel@).take(k as int),
            decreases rel@.len() - k,
        {
            let ghost b = j@;
            j.push(copy_chars(&rel[k]));
            assert(char_views(j@) =~= char_views(b).push(rel@[k as int]@));
            assert(char_views(rel@).take(k + 1) =~= char_views(rel@).take(k as int).push(rel@[k as int]@));
            k += 1;
        }
        assert(char_views(rel@).take(rel@.len() as int) =~= char_views(rel@));
        (root_abs, j)
    };
    set_extension(&mut joined, &ext);
    render(abs, &joined)
}


/// The extension of the file name of a path, if any.
pub open spec fn path_extension(p: Seq<char>) -> Option<Seq<char>> {
    match file_name_of(path_names(p)) {
        Some(name) => extension_of(name),
        None => None,
    }
}

/// The extension of the last name of a list of names, if any.
fn last_extension(names: &Vec<Vec<char>>) -> (r: Option<Vec<char>>)
    ensures
        match r {
            Some(e) => (match file_name_of(char_views(names@)) {
                Some(name) => extension_of(name),
                None => None,
            }) == Some(e@),
            None => (match file_name_of(char_views(names@)) {
                Some(name) => extension_of(name),
                None => None,
            }) is None,
        },
{
    let n = names.len();
    if n == 0 {
        return None;
    }
    assert(char_views(names@).last() == names@[n - 1]@);
    if is_dot_dot(&names[n - 1]) {
        return None;
    }
    name_extension(&names[n - 1])
}

/// The extension of the file name of a path; see `path_extension`.
pub fn extension(path: &str) -> (r: Option<Vec<char>>)
    ensures
        match r {
            Some(e) => path_extension(path@) == Some(e@),
            None => path_extension(path@) is None,
        },
{
    let (_abs, names) = parse_path(path);
    last_extension(&names)
}

impl Language {
    /// The language of a file, by the extension of its name.
    pub fn from_path(path: &str) -> (r: Option<Language>)
        ensures
            r == match path_extension(path@) {
                Some(e) => language_of_extension(e),
                None => None,
            },
    {
        let (_abs, names) = parse_path(path);
        match last_extension(&names) {
            Some(e) => {
                let s = string_from_chars(e.as_slice());
                Language::from_extension(s.as_str())
            },
            None => None,
        }
    }
}

/// The names with the last one replaced by `name`, or dropped when `name`
/// is empty.
pub open spec fn replace_last(names: Seq<Seq<char>>, name: Seq<char>) -> Seq<Seq<char>> {
    if name.len() == 0 {
        names.drop_last()
    } else {
        names.update(names.len() - 1, name)
    }
}

/// The names of the file a sidecar stands for, relative to the indexed
/// directory: the sidecar's place under `index_dir` with the last extension
/// taken off (and a remaining `.ck` ending too); none when the sidecar is
/// not under `index_dir`.
pub open spec fn original_names(sidecar: Seq<char>, index_dir: Seq<char>) -> Option<Seq<Seq<char>>> {
    match strip_names(is_absolute(sidecar), path_names(sidecar), is_absolute(index_dir), path_names(index_dir)) {
        Some(rel) => {
            let orig = with_extension(rel, seq![]);
            Some(match file_name_of(orig) {
                Some(name) => if has_suffix(name, seq!['.', 'c', 'k']) {
                    replace_last(orig, name.subrange(0, name.len() - 3))
                } else {
                    orig
                },
                None => orig,
            })
        },
        None => None,
    }
}

/// The file a sidecar stands for, under `repo_root`.
pub open spec fn original_path(sidecar: Seq<char>, index_dir: Seq<char>, repo_root: Seq<char>) -> Option<Seq<char>> {
    match original_names(sidecar, index_dir) {
        Some(names) => Some(render_path(is_absolute(repo_root), path_names(repo_root) + names)),
        None => None,
    }
}

/// Appends copies of the names of `src`.
fn append_names(out: &mut Vec<Vec<char>>, src: &Vec<Vec<char>>)
    ensures
        char_views(final(out)@) == char_views(old(out)@) + char_views(src@),
{
    let mut k: usize = 0;
    while k < src.len()
        invariant
            k <= src@.len(),
            char_views(out@) == char_views(old(out)@) + char_views(src@).take(k as int),
        decreases src@.len() - k,
    {
        let ghost b = out@;
        out.push(copy_chars(&src[k]));
        assert(char_views(out@) =~= char_views(b).push(src@[k as int]@));
        assert(char_views(src@).take(k + 1) =~= char_views(src@).take(k as int).push(src@[k as int]@));
        k += 1;
    }
    assert(char_views(src@).take(src@.len() as int) =~= char_views(src@));
}

/// The names of the file a sidecar stands for; see `original_names`.
fn original_names_of(sidecar_path: &str, index_dir: &str) -> (r: Option<Vec<Vec<char>>>)
    ensures
        match r {
            Some(names) => original_names(sidecar_path@, index_dir@) == Some(char_views(names@)),
            None => original_names(sidecar_path@, index_dir@) is None,
        },
{
    let (sabs, snames) = parse_path(sidecar_path);
    let (iabs, inames) = parse_path(index_dir);
    let mut rel = match strip_base(sabs, &snames, iabs, &inames) {
        Some(rest) => rest,
        None => return None,
    };
    let empty: Vec<char> = Vec::new();
    set_extension(&mut rel, &empty);
    let n = rel.len();
    if n > 0 && !is_dot_dot(&rel[n - 1]) {
        let ghost before = rel@;
        assert(char_views(before).last() == before[n - 1]@);
        let name = copy_chars(&rel[n - 1]);
        let m = name.len();
        if m >= 3 && name[m - 3] == '.' && name[m - 2] == 'c' && name[m - 1] == 'k' {
            proof {
                assert(name@.subrange(m - 3, m as int) =~= seq!['.', 'c', 'k']);
            }
            let mut short: Vec<char> = Vec::new();
            let mut k: usize = 0;
            while k < m - 3
                invariant
                    k <= m - 3,
                    m == name@.len(),
                    short@ == name@.subrange(0, k as int),
                decreases m - 3 - k,
            {
                short.push(name[k]);
                assert(name@.subrange(0, k + 1) =~= name@.subrange(0, k as int).push(name@[k as int]));
                k += 1;
            }
            if short.len() == 0 {
                rel.pop();
                assert(char_views(rel@) =~= char_views(before).drop_last());
            } else {
                let ghost sv = short@;
                rel.set(n - 1, short);
                assert(char_views(rel@) =~= char_views(before).update(n - 1, sv));
            }
        } else {
            proof {
                if name@.len() >= 3 && name@.subrange(name@.len() - 3, name@.len() as int) == seq!['.', 'c', 'k'] {
                    assert(name@.subrange(name@.len() - 3, name@.len() as int)[0] == name@[m - 3]);
                    assert(name@.subrange(name@.len() - 3, name@.len() as int)[1] == name@[m - 2]);
                    assert(name@.subrange(name@.len() - 3, name@.len() as int)[2] == name@[m - 1]);
                }
            }
        }
    }
    Some(rel)
}

/// The file a sidecar stands for, relative to the indexed directory; see
/// `original_names`. The repository root is not used.
pub fn sidecar_to_original_path(sidecar_path: &str, index_dir: &str, _repo_root: &str) -> (r: Option<String>)
    ensures
        match r {
            Some(p) => (match original_names(sidecar_path@, index_dir@) {
                Some(names) => p@ == render_path(false, names),
                None => false,
            }),
            None => original_names(sidecar_path@, index_dir@) is None,
        },
{
    match original_names_of(sidecar_path, index_dir) {
        Some(names) => Some(render(false, &names)),
        None => None,
    }
}

/// The file a sidecar stands for, under `repo_root`; see `original_path`.
pub fn reconstruct_original_path(sidecar_path: &str, index_dir: &str, repo_root: &str) -> (r: Option<String>)
    ensures
        match r {
            Some(p) => original_path(sidecar_path@, index_dir@, repo_root@) == Some(p@),
            None => original_path(sidecar_path@, index_dir@, repo_root@) is None,
        },
{
    let (rabs, rnames) = parse_path(repo_root);
    match original_names_of(sidecar_path, index_dir) {
        Some(rel) => {
            let mut joined = rnames;
            append_names(&mut joined, &rel);
            Some(render(rabs, &joined))
        },
        None => None,
    }
}

/// The first directory, of those looked in, that holds an index: the
/// first position of a `true` in `found`, or `None` when there is none.
pub fn first_with_index(found: &Vec<bool>) -> (r: Option<usize>)
    ensures
        match r {
            Some(i) => i < found@.len() && found@[i as int] && forall|j: int| 0 <= j < i ==> !#[trigger] found@[j],
            None => forall|j: int| 0 <= j < found@.len() ==> !#[trigger] found@[j],
        },
{
    let mut i: usize = 0;
    while i < found.len()
        invariant
            i <= found@.len(),
            forall|j: int| 0 <= j < i ==> !#[trigger] found@[j],
        decreases found@.len() - i,
    {
        if found[i] {
            return Some(i);
        }
        i += 1;
    }
    None
}

/// The directories to look in for the index, from `start` up to the top:
/// `start` and then each parent in turn.
pub fn repo_root_candidates(start: &str) -> (r: Vec<String>)
    ensures
        r@.len() == path_names(start@).len() + 1,
        forall|k: int| 0 <= k < r@.len() ==> #[trigger] r@[k]@ == render_path(
            is_absolute(start@),
            path_names(start@).take(path_names(start@).len() - k),
        ),
{
    let (abs, names) = parse_path(start);
    let ghost views = char_views(names@);
    let mut cur = copy_names(&names);
    let mut out: Vec<String> = Vec::new();
    assert(views.take(views.len() as int) =~= views);
    out.push(render(abs, &cur));
    let mut k: usize = 0;
    while k < names.len()
        invariant
            k <= names@.len(),
            views == char_views(names@),
            views == path_names(start@),
            abs == is_absolute(start@),
            out@.len() == k + 1,
            char_views(cur@) == views.take(views.len() - k),
            forall|j: int| 0 <= j <= k ==> #[trigger] out@[j]@ == render_path(abs, views.take(views.len() - j)),
        decreases names@.len() - k,
    {
        let ghost before = cur@;
        cur.pop();
        assert(char_views(cur@) =~= char_views(before).drop_last());
        assert(views.take(views.len() - k).drop_last() =~= views.take(views.len() - k - 1));
        k += 1;
        out.push(render(abs, &cur));
    }
    out
}

} // verus!
