//! Regular-expression search over the lines of files, as grep does it: each
//! match with its byte span, its line and the text shown around it.
use vstd::prelude::*;

use crate::regex_match::{build_search_pattern, match_ranges, regex_accepts, regex_match_ranges, search_pattern, SearchRegex};
use crate::search::{containing_section, context_preview, extract_code_sections, find_containing_section, get_context_preview, sections_found};
use crate::text::{
    char_views, clone_string, lemma_line_ends_shape, line_byte_offset, line_layout, spec_lines, str_chars,
    str_utf8_len, string_from_chars, string_views, utf8_len,
};
use crate::types::Span;

verus! {

/// A match of a regular-expression search.
#[derive(Debug)]
pub struct LineMatch {
    /// The file searched.
    pub file: String,
    /// The match's bytes, and its line (1-based) as start and end.
    pub span: Span,
    /// The text shown for the match.
    pub preview: String,
}

impl View for LineMatch {
    type V = (Seq<char>, Span, Seq<char>);

    open spec fn view(&self) -> (Seq<char>, Span, Seq<char>) {
        (self.file@, self.span, self.preview@)
    }
}

/// The views of a sequence of matches.
pub open spec fn match_views(v: Seq<LineMatch>) -> Seq<(Seq<char>, Span, Seq<char>)> {
    v.map_values(|m: LineMatch| m@)
}

/// The byte offset at which line `i` is taken to start: each earlier line
/// counts its bytes and one line feed.
pub open spec fn line_start_offset(lines: Seq<Seq<char>>, i: int) -> int
    decreases i,
{
    if i <= 0 {
        0
    } else {
        line_start_offset(lines, i - 1) + utf8_len(lines[i - 1]) + 1
    }
}

/// The byte ranges matched in a line: the whole line once for an empty
/// pattern, else each match the regex finds.
pub open spec fn line_match_ranges(pattern: Seq<char>, case_insensitive: bool, line: Seq<char>) -> Seq<(usize, usize)> {
    if pattern.len() == 0 {
        seq![(0usize, utf8_len(line) as usize)]
    } else {
        regex_match_ranges(pattern, case_insensitive, line)
    }
}

/// The text shown for a match on line `i` (0-based): with `full_section`,
/// the first definition section that holds the line, if any; otherwise the
/// lines around it.
pub open spec fn match_preview(
    lines: Seq<Seq<char>>,
    sections: Option<Seq<(usize, usize, String)>>,
    full_section: bool,
    i: int,
    before: int,
    after: int,
    context: int,
) -> Seq<char> {
    let around = context_preview(lines, i, before, after, context);
    if full_section {
        match sections {
            Some(s) => match containing_section(s, i, s.len() as int) {
                Some(k) => s[k].2@,
                None => around,
            },
            None => around,
        }
    } else {
        around
    }
}

/// The matches on line `i` of a file.
pub open spec fn line_results(
    file: Seq<char>,
    pattern: Seq<char>,
    case_insensitive: bool,
    lines: Seq<Seq<char>>,
    sections: Option<Seq<(usize, usize, String)>>,
    full_section: bool,
    before: int,
    after: int,
    context: int,
    i: int,
) -> Seq<(Seq<char>, Span, Seq<char>)> {
    let off = line_start_offset(lines, i);
    let preview = match_preview(lines, sections, full_section, i, before, after, context);
    line_match_ranges(pattern, case_insensitive, lines[i]).map_values(
        |m: (usize, usize)|
            (
                file,
                Span {
                    byte_start: (off + m.0) as usize,
                    byte_end: (off + m.1) as usize,
                    line_start: (i + 1) as usize,
                    line_end: (i + 1) as usize,
                },
                preview,
            ),
    )
}

/// The matches on the first `n` lines of a file, line by line.
pub open spec fn file_results(
    file: Seq<char>,
    pattern: Seq<char>,
    case_insensitive: bool,
    lines: Seq<Seq<char>>,
    sections: Option<Seq<(usize, usize, String)>>,
    full_section: bool,
    before: int,
    after: int,
    context: int,
    n: int,
) -> Seq<(Seq<char>, Span, Seq<char>)>
    decreases n,
{
    if n <= 0 {
        seq![]
    } else {
        file_results(file, pattern, case_insensitive, lines, sections, full_section, before, after, context, n - 1)
            + line_results(file, pattern, case_insensitive, lines, sections, full_section, before, after, context, n - 1)
    }
}

/// The larger of two counts.
pub open spec fn larger(a: usize, b: usize) -> int {
    if a >= b { a as int } else { b as int }
}

proof fn lemma_line_offsets_grow(lines: Seq<Seq<char>>, i: int, j: int)
    requires
        0 <= i <= j,
    ensures
        line_start_offset(lines, i) <= line_start_offset(lines, j),
    decreases j - i,
{
    if i < j {
        lemma_line_offsets_grow(lines, i, j - 1);
    }
}

/// The matches of `re` in the given lines of `file`; see `file_results`.
pub fn search_lines(
    re: &SearchRegex,
    file: &str,
    lines: &Vec<String>,
    sections: &Option<Vec<(usize, usize, String)>>,
    full_section: bool,
    before_context_lines: usize,
    after_context_lines: usize,
    context_lines: usize,
) -> (r: Vec<LineMatch>)
    requires
        line_start_offset(string_views(lines@), lines@.len() as int) <= usize::MAX,
        lines@.len() + larger(after_context_lines, context_lines) <= usize::MAX,
    ensures
        match_views(r@) == file_results(
            file@,
            re.pattern(),
            re.ignores_case(),
            string_views(lines@),
            match sections { Some(s) => Some(s@), None => None },
            full_section,
            before_context_lines as int,
            after_context_lines as int,
            context_lines as int,
            lines@.len() as int,
        ),
{
    let ghost lv = string_views(lines@);
    let ghost secs: Option<Seq<(usize, usize, String)>> = match sections { Some(s) => Some(s@), None => None };
    let ghost pattern = re.pattern();
    let ghost ci = re.ignores_case();
    let empty_pattern = str_chars(re.pattern_text()).len() == 0;
    let mut out: Vec<LineMatch> = Vec::new();
    let mut off: usize = 0;
    let mut i: usize = 0;
    while i < lines.len()
        invariant
            i <= lines@.len(),
            lv == string_views(lines@),
            secs == (match sections { Some(s) => Some(s@), None => None::<Seq<(usize, usize, String)>> }),
            pattern == re.pattern(),
            ci == re.ignores_case(),
            empty_pattern == (pattern.len() == 0),
            line_start_offset(lv, lines@.len() as int) <= usize::MAX,
            lines@.len() + larger(after_context_lines, context_lines) <= usize::MAX,
            off == line_start_offset(lv, i as int),
            match_views(out@) == file_results(file@, pattern, ci, lv, secs, full_section, before_context_lines as int, after_context_lines as int, context_lines as int, i as int),
        decreases lines@.len() - i,
    {
        let line = &lines[i];
        let len = str_utf8_len(line.as_str());
        proof {
            lemma_line_offsets_grow(lv, i + 1, lines@.len() as int);
            assert(lv[i as int] == line@);
        }
        let ranges: Vec<(usize, usize)> = if empty_pattern {
            let mut v: Vec<(usize, usize)> = Vec::new();
            v.push((0, len));
            v
        } else {
            match_ranges(re, line.as_str())
        };
        let ghost lr = line_match_ranges(pattern, ci, lv[i as int]);
        assert(ranges@ == lr);
        let preview = match sections {
            Some(s) if full_section => match find_containing_section(s.as_slice(), i) {
                Some(sec) => clone_string(sec),
                None => get_context_preview(lines.as_slice(), i, before_context_lines, after_context_lines, context_lines),
            },
            _ => get_context_preview(lines.as_slice(), i, before_context_lines, after_context_lines, context_lines),
        };
        assert(preview@ == match_preview(lv, secs, full_section, i as int, before_context_lines as int, after_context_lines as int, context_lines as int));
        let ghost line_seq = line_results(file@, pattern, ci, lv, secs, full_section, before_context_lines as int, after_context_lines as int, context_lines as int, i as int);
        let ghost start = match_views(out@);
        let mut j: usize = 0;
        while j < ranges.len()
            invariant
                j <= ranges@.len(),
                ranges@ == lr,
                lr == line_match_ranges(pattern, ci, lv[i as int]),
                line_seq == line_results(file@, pattern, ci, lv, secs, full_section, before_context_lines as int, after_context_lines as int, context_lines as int, i as int),
                i < lines@.len(),
                lines@.len() + larger(after_context_lines, context_lines) <= usize::MAX,
                lv == string_views(lines@),
                len == utf8_len(lv[i as int]),
                off == line_start_offset(lv, i as int),
                off + len + 1 <= usize::MAX,
                preview@ == match_preview(lv, secs, full_section, i as int, before_context_lines as int, after_context_lines as int, context_lines as int),
                forall|k: int| 0 <= k < lr.len() ==> (#[trigger] lr[k]).0 <= lr[k].1 <= len,
                match_views(out@) == start + line_seq.take(j as int),
            decreases ranges@.len() - j,
        {
            let (ra, rb) = ranges[j];
            assert(ra <= rb <= len) by {
                assert(lr[j as int].0 <= lr[j as int].1);
            }
            let m = LineMatch {
                file: file.to_owned(),
                span: Span { byte_start: off + ra, byte_end: off + rb, line_start: i + 1, line_end: i + 1 },
                preview: clone_string(&preview),
            };
            let ghost before_push = out@;
            out.push(m);
            assert(match_views(out@) =~= match_views(before_push).push(m@));
            assert(line_seq.take(j + 1) =~= line_seq.take(j as int).push(line_seq[j as int]));
            j += 1;
        }
        assert(line_seq.take(ranges@.len() as int) =~= line_seq);
        off = off + len + 1;
        i += 1;
    }
    out
}

/// The sections as sequences.
pub open spec fn section_seqs(sections: Option<Vec<(usize, usize, String)>>) -> Option<Seq<(usize, usize, String)>> {
    match sections {
        Some(s) => Some(s@),
        None => None,
    }
}

proof fn lemma_offsets_bound(lv: Seq<Seq<char>>, offs: Seq<usize>, k: int)
    requires
        offs.len() == lv.len() + 1,
        offs[0] == 0,
        forall|j: int| 0 <= j < lv.len() ==> utf8_len(#[trigger] lv[j]) + (if j + 1 < lv.len() { 1int } else { 0int }) <= offs[j + 1] - offs[j],
        0 <= k <= lv.len(),
    ensures
        k < lv.len() ==> line_start_offset(lv, k) <= offs[k],
        k == lv.len() ==> line_start_offset(lv, k) <= offs[k] + 1,
    decreases k,
{
    if k > 0 {
        lemma_offsets_bound(lv, offs, k - 1);
        assert(utf8_len(lv[k - 1]) + (if k < lv.len() { 1int } else { 0int }) <= offs[k] - offs[k - 1]);
    }
}

/// The matches of `re` in the text of a file, each line searched in turn
/// (see `file_results`); with `full_section`, a match inside a definition
/// shows the whole definition, the sections being those the file's name
/// and text give (see `sections_found`).
pub fn search_file_content(
    re: &SearchRegex,
    file_path: &str,
    content: &str,
    full_section: bool,
    before_context_lines: usize,
    after_context_lines: usize,
    context_lines: usize,
) -> (r: Vec<LineMatch>)
    requires
        utf8_len(content@) < usize::MAX,
        spec_lines(content@).len() + larger(after_context_lines, context_lines) <= usize::MAX,
    ensures
        exists|secs: Option<Vec<(usize, usize, String)>>|
            (full_section ==> sections_found(file_path@, content@, secs))
            && match_views(r@) == file_results(
                file_path@,
                re.pattern(),
                re.ignores_case(),
                spec_lines(content@),
                #[trigger] section_seqs(secs),
                full_section,
                before_context_lines as int,
                after_context_lines as int,
                context_lines as int,
                spec_lines(content@).len() as int,
            ),
{
    let chars = str_chars(content);
    let (line_chars, offs) = line_layout(&chars);
    let ghost lv = spec_lines(content@);
    let mut lines: Vec<String> = Vec::new();
    let mut i: usize = 0;
    while i < line_chars.len()
        invariant
            i <= line_chars@.len(),
            string_views(lines@) == char_views(line_chars@).take(i as int),
        decreases line_chars@.len() - i,
    {
        let l = string_from_chars(line_chars[i].as_slice());
        let ghost before_push = lines@;
        lines.push(l);
        assert(string_views(lines@) =~= string_views(before_push).push(l@));
        assert(char_views(line_chars@).take(i + 1) =~= char_views(line_chars@).take(i as int).push(line_chars@[i as int]@));
        i += 1;
    }
    assert(char_views(line_chars@).take(line_chars@.len() as int) =~= char_views(line_chars@));
    assert(string_views(lines@) == lv);
    proof {
        lemma_line_ends_shape(content@);
        assert(offs@[0] == 0);
        let n = lv.len() as int;
        assert forall|j: int| 0 <= j < lv.len() implies utf8_len(#[trigger] lv[j]) + (if j + 1 < lv.len() { 1int } else { 0int }) <= offs@[j + 1] - offs@[j] by {
            assert(lv[j] == line_chars@[j]@);
        }
        lemma_offsets_bound(lv, offs@, n);
        if n > 0 {
            assert(content@.take(content@.len() as int) =~= content@);
            assert(offs@[n] == line_byte_offset(content@, n));
            assert(offs@[n] == utf8_len(content@));
        }
    }
    let sections = if full_section {
        extract_code_sections(file_path, content)
    } else {
        None
    };
    let r = search_lines(re, file_path, &lines, &sections, full_section, before_context_lines, after_context_lines, context_lines);
    assert(section_seqs(sections) == (match sections { Some(s) => Some(s@), None => None::<Seq<(usize, usize, String)>> }));
    r
}

/// Whether `secs` are sections the files can have, one for each file.
pub open spec fn sections_of_files(files: Seq<(String, String)>, secs: Seq<Option<Vec<(usize, usize, String)>>>, full_section: bool) -> bool {
    &&& secs.len() == files.len()
    &&& forall|i: int| 0 <= i < files.len() ==> (full_section ==> sections_found(files[i].0@, files[i].1@, #[trigger] secs[i]))
}

/// The matches in the first `n` files, file by file.
pub open spec fn files_results(
    files: Seq<(String, String)>,
    secs: Seq<Option<Vec<(usize, usize, String)>>>,
    pattern: Seq<char>,
    case_insensitive: bool,
    full_section: bool,
    before: int,
    after: int,
    context: int,
    n: int,
) -> Seq<(Seq<char>, Span, Seq<char>)>
    decreases n,
{
    if n <= 0 {
        seq![]
    } else {
        let f = files[n - 1];
        files_results(files, secs, pattern, case_insensitive, full_section, before, after, context, n - 1)
            + file_results(f.0@, pattern, case_insensitive, spec_lines(f.1@), section_seqs(secs[n - 1]), full_section, before, after, context, spec_lines(f.1@).len() as int)
    }
}

/// The first `top_k` of the results, or all of them.
pub open spec fn limited<T>(s: Seq<T>, top_k: Option<usize>) -> Seq<T> {
    match top_k {
        Some(k) if k < s.len() => s.take(k as int),
        _ => s,
    }
}

/// Why a regular-expression search could not run.
#[derive(Debug, Clone, Copy, PartialEq, Eq, Structural)]
pub enum RegexSearchError {
    /// The pattern built from the query is not a valid regular expression.
    InvalidPattern,
}

/// Searches the given files (name and text), in the order given, for the
/// query: escaped when `fixed_string`, escaped and held to whole words when
/// `whole_word`, a regular expression otherwise, without regard to case
/// when `case_insensitive` (see `search_pattern`). Fails exactly when that
/// pattern does not compile; else the matches of every file, file after
/// file (see `files_results`), the first `top_k` of them when a limit is
/// given.
pub fn regex_search(
    query: &str,
    case_insensitive: bool,
    fixed_string: bool,
    whole_word: bool,
    files: &Vec<(String, String)>,
    full_section: bool,
    before_context_lines: usize,
    after_context_lines: usize,
    context_lines: usize,
    top_k: Option<usize>,
) -> (r: Result<Vec<LineMatch>, RegexSearchError>)
    requires
        forall|i: int| 0 <= i < files@.len() ==> utf8_len((#[trigger] files@[i]).1@) < usize::MAX
            && spec_lines(files@[i].1@).len() + larger(after_context_lines, context_lines) <= usize::MAX,
    ensures
        r is Err <==> !regex_accepts(search_pattern(query@, fixed_string, whole_word), case_insensitive),
        r matches Ok(v) ==> exists|secs: Seq<Option<Vec<(usize, usize, String)>>>|
            sections_of_files(files@, secs, full_section)
            && match_views(v@) == limited(#[trigger] files_results(
                files@,
                secs,
                search_pattern(query@, fixed_string, whole_word),
                case_insensitive,
                full_section,
                before_context_lines as int,
                after_context_lines as int,
                context_lines as int,
                files@.len() as int,
            ), top_k),
{
    let pattern = build_search_pattern(query, fixed_string, whole_word);
    let re = match SearchRegex::new(pattern.as_str(), case_insensitive) {
        Some(re) => re,
        None => return Err(RegexSearchError::InvalidPattern),
    };
    let ghost p = search_pattern(query@, fixed_string, whole_word);
    let ghost mut secs: Seq<Option<Vec<(usize, usize, String)>>> = Seq::empty();
    let mut all: Vec<LineMatch> = Vec::new();
    let mut i: usize = 0;
    while i < files.len()
        invariant
            i <= files@.len(),
            re.pattern() == p,
            re.ignores_case() == case_insensitive,
            forall|k: int| 0 <= k < files@.len() ==> utf8_len((#[trigger] files@[k]).1@) < usize::MAX
                && spec_lines(files@[k].1@).len() + larger(after_context_lines, context_lines) <= usize::MAX,
            secs.len() == i,
            forall|k: int| 0 <= k < i ==> (full_section ==> sections_found(files@[k].0@, files@[k].1@, #[trigger] secs[k])),
            match_views(all@) == files_results(files@, secs, p, case_insensitive, full_section, before_context_lines as int, after_context_lines as int, context_lines as int, i as int),
        decreases files@.len() - i,
    {
        let (path, content) = (&files[i].0, &files[i].1);
        let found = search_file_content(&re, path.as_str(), content.as_str(), full_section, before_context_lines, after_context_lines, context_lines);
        let ghost s_i = choose|x: Option<Vec<(usize, usize, String)>>|
            (full_section ==> sections_found(path@, content@, x))
            && match_views(found@) == file_results(path@, p, case_insensitive, spec_lines(content@), #[trigger] section_seqs(x), full_section, before_context_lines as int, after_context_lines as int, context_lines as int, spec_lines(content@).len() as int);
        let ghost before_all = match_views(all@);
        let mut found = found;
        let ghost found_views = match_views(found@);
        proof {
            let next = secs.push(s_i);
            lemma_files_results_prefix(files@, secs, next, p, case_insensitive, full_section, before_context_lines as int, after_context_lines as int, context_lines as int, i as int);
            secs = next;
        }
        all.append(&mut found);
        assert(match_views(all@) =~= before_all + found_views);
        i += 1;
    }
    match top_k {
        Some(k) => {
            if k < all.len() {
                let ghost whole = match_views(all@);
                all.truncate(k);
                assert(match_views(all@) =~= whole.take(k as int));
            }
        },
        None => {},
    }
    Ok(all)
}

proof fn lemma_files_results_prefix(
    files: Seq<(String, String)>,
    s1: Seq<Option<Vec<(usize, usize, String)>>>,
    s2: Seq<Option<Vec<(usize, usize, String)>>>,
    pattern: Seq<char>,
    case_insensitive: bool,
    full_section: bool,
    before: int,
    after: int,
    context: int,
    n: int,
)
    requires
        0 <= n <= s1.len(),
        n <= s2.len(),
        forall|k: int| 0 <= k < n ==> s1[k] == s2[k],
    ensures
        files_results(files, s1, pattern, case_insensitive, full_section, before, after, context, n)
            == files_results(files, s2, pattern, case_insensitive, full_section, before, after, context, n),
    decreases n,
{
    if n > 0 {
        lemma_files_results_prefix(files, s1, s2, pattern, case_insensitive, full_section, before, after, context, n - 1);
    }
}

} // verus!
