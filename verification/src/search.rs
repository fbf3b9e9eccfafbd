//! Pieces of search result presentation: context around a matching line,
//! the code section that holds it, the lines of a span, and telling text
//! from binary content.
use vstd::prelude::*;

use crate::chunk::{chunk_text, chunking_ok, Chunk, ChunkConfig, ChunkType};
use crate::paths::path_extension;
use crate::text::{
    char_views, clone_string, join_with, line_layout, push_all, spec_lines, str_chars,
    string_from_chars, string_views, trim, trim_bounds, utf8_len,
};
use crate::embed::{estimated_tokens, TokenEstimator};
use crate::types::{default_exclude_patterns, get_default_exclude_patterns, language_of_extension, Language, Span};

verus! {

/// Larger of two numbers.
pub open spec fn max_nat(a: int, b: int) -> int {
    if a >= b { a } else { b }
}

/// The lines shown around line `idx` (0-based): `before` lines before it
/// and `after` after it (each at least `context`), joined by line feeds;
/// the line alone when no context is asked for.
pub open spec fn context_preview(lines: Seq<Seq<char>>, idx: int, before: int, after: int, context: int) -> Seq<char> {
    let b = max_nat(before, context);
    let a = max_nat(after, context);
    if b > 0 || a > 0 {
        let start = if idx >= b { idx - b } else { 0 };
        let end = if idx + a + 1 < lines.len() { idx + a + 1 } else { lines.len() as int };
        join_with(lines.subrange(start, end), seq!['\n'])
    } else {
        lines[idx]
    }
}

/// Whether the preview of line `idx` of `n` lines can be taken: with
/// context, the first line shown is not past the end; without, the line
/// is one of the lines.
pub open spec fn preview_in_range(n: int, idx: int, before: int, after: int, context: int) -> bool {
    let b = max_nat(before, context);
    let a = max_nat(after, context);
    if b > 0 || a > 0 {
        (if idx >= b { idx - b } else { 0 }) <= n
    } else {
        idx < n
    }
}

/// Appends the strings of `lines[from..to]`, with a line feed between each
/// two.
fn push_joined_lines(out: &mut Vec<char>, lines: &[String], from: usize, to: usize)
    requires
        from <= to <= lines@.len(),
    ensures
        final(out)@ == old(out)@ + join_with(string_views(lines@).subrange(from as int, to as int), seq!['\n']),
{
    let ghost views = string_views(lines@).subrange(from as int, to as int);
    let ghost start = out@;
    let mut i: usize = from;
    while i < to
        invariant
            from <= i <= to <= lines@.len(),
            views == string_views(lines@).subrange(from as int, to as int),
            out@ == start + join_with(views.take(i - from), seq!['\n']),
        decreases to - i,
    {
        if i > from {
            out.push('\n');
        }
        let lc = str_chars(lines[i].as_str());
        push_all(out, lc.as_slice());
        proof {
            let k = (i - from) as int;
            assert(views.take(k + 1).drop_last() =~= views.take(k));
            assert(views.take(k + 1).last() == lines@[i as int]@);
            if k > 0 {
                assert(out@ =~= start + (join_with(views.take(k), seq!['\n']) + seq!['\n'] + lines@[i as int]@));
            } else {
                assert(views.take(1) =~= seq![lines@[i as int]@]);
                assert(out@ =~= start + lines@[i as int]@);
            }
        }
        i += 1;
    }
    assert(views.take((to - from) as int) =~= views);
}

/// The text shown for a match on line `line_idx` (0-based); see
/// `context_preview`.
pub fn get_context_preview(
    lines: &[String],
    line_idx: usize,
    before_context_lines: usize,
    after_context_lines: usize,
    context_lines: usize,
) -> (r: String)
    requires
        preview_in_range(lines@.len() as int, line_idx as int, before_context_lines as int, after_context_lines as int, context_lines as int),
        line_idx + (if after_context_lines >= context_lines { after_context_lines } else { context_lines }) + 1 <= usize::MAX,
    ensures
        r@ == context_preview(string_views(lines@), line_idx as int, before_context_lines as int, after_context_lines as int, context_lines as int),
{
    let before = if before_context_lines >= context_lines { before_context_lines } else { context_lines };
    let after = if after_context_lines >= context_lines { after_context_lines } else { context_lines };
    if before > 0 || after > 0 {
        let start = if line_idx >= before { line_idx - before } else { 0 };
        let end = if line_idx + after + 1 < lines.len() { line_idx + after + 1 } else { lines.len() };
        let mut out: Vec<char> = Vec::new();
        push_joined_lines(&mut out, lines, start, end);
        assert(out@ =~= join_with(string_views(lines@).subrange(start as int, end as int), seq!['\n']));
        string_from_chars(out.as_slice())
    } else {
        clone_string(&lines[line_idx])
    }
}

/// The first section among the first `n` whose lines (0-based, both ends
/// included) hold line `idx`.
pub open spec fn containing_section(sections: Seq<(usize, usize, String)>, idx: int, n: int) -> Option<int>
    decreases n,
{
    if n <= 0 {
        None
    } else {
        match containing_section(sections, idx, n - 1) {
            Some(i) => Some(i),
            None => if sections[n - 1].0 <= idx <= sections[n - 1].1 { Some(n - 1) } else { None },
        }
    }
}

proof fn lemma_containing_stable(sections: Seq<(usize, usize, String)>, idx: int, i: int, n: int)
    requires
        0 <= i < n,
        containing_section(sections, idx, i + 1) == Some(i),
    ensures
        containing_section(sections, idx, n) == Some(i),
    decreases n,
{
    if n > i + 1 {
        lemma_containing_stable(sections, idx, i, n - 1);
    }
}

/// The text of the first section that holds line `line_idx`.
pub fn find_containing_section(sections: &[(usize, usize, String)], line_idx: usize) -> (r: Option<&String>)
    ensures
        r == match containing_section(sections@, line_idx as int, sections@.len() as int) {
            Some(i) => Some(&sections@[i].2),
            None => None,
        },
{
    let mut i: usize = 0;
    while i < sections.len()
        invariant
            i <= sections@.len(),
            containing_section(sections@, line_idx as int, i as int) is None,
        decreases sections@.len() - i,
    {
        if sections[i].0 <= line_idx && line_idx <= sections[i].1 {
            proof {
                lemma_containing_stable(sections@, line_idx as int, i as int, sections@.len() as int);
            }
            return Some(&sections[i].2);
        }
        i += 1;
    }
    None
}

/// `x - 1`, wrapping to the largest value at 0.
pub open spec fn wrapping_pred(x: usize) -> usize {
    if x >= 1 { (x - 1) as usize } else { usize::MAX }
}

/// Whether a chunk is a definition (function, class or method).
pub open spec fn is_definition(c: Chunk) -> bool {
    c.chunk_type == ChunkType::Function || c.chunk_type == ChunkType::Class || c.chunk_type == ChunkType::Method
}

/// The definitions among the first `n` chunks, as 0-based line ranges with
/// their text.
pub open spec fn definition_sections(chunks: Seq<Chunk>, n: int) -> Seq<(usize, usize, Seq<char>)>
    decreases n,
{
    if n <= 0 {
        seq![]
    } else {
        let prev = definition_sections(chunks, n - 1);
        let c = chunks[n - 1];
        if is_definition(c) {
            prev.push((wrapping_pred(c.span.line_start), wrapping_pred(c.span.line_end), c.text@))
        } else {
            prev
        }
    }
}

/// A section with its text as characters.
pub open spec fn section_view(s: (usize, usize, String)) -> (usize, usize, Seq<char>) {
    (s.0, s.1, s.2@)
}

/// The definition sections of chunks: none when there is no definition.
pub fn code_sections(chunks: &[Chunk]) -> (r: Option<Vec<(usize, usize, String)>>)
    ensures
        match r {
            Some(v) => v@.map_values(|s: (usize, usize, String)| section_view(s)) == definition_sections(chunks@, chunks@.len() as int)
                && v@.len() > 0,
            None => definition_sections(chunks@, chunks@.len() as int).len() == 0,
        },
{
    let mut out: Vec<(usize, usize, String)> = Vec::new();
    let mut i: usize = 0;
    while i < chunks.len()
        invariant
            i <= chunks@.len(),
            out@.map_values(|s: (usize, usize, String)| section_view(s)) == definition_sections(chunks@, i as int),
        decreases chunks@.len() - i,
    {
        let c = &chunks[i];
        let def = match c.chunk_type {
            ChunkType::Function => true,
            ChunkType::Class => true,
            ChunkType::Method => true,
            _ => false,
        };
        if def {
            let a = if c.span.line_start >= 1 { c.span.line_start - 1 } else { usize::MAX };
            let b = if c.span.line_end >= 1 { c.span.line_end - 1 } else { usize::MAX };
            let ghost before = out@;
            out.push((a, b, clone_string(&c.text)));
            assert(out@.map_values(|s: (usize, usize, String)| section_view(s)) =~= before.map_values(
                |s: (usize, usize, String)| section_view(s),
            ).push((a, b, c.text@)));
        }
        i += 1;
    }
    if out.len() == 0 {
        None
    } else {
        Some(out)
    }
}

/// Whether `r` is what the definition sections of a file can be: none when
/// its language is not known from its name, when chunking fails, or when it
/// has no definition.
pub open spec fn sections_found(file_path: Seq<char>, content: Seq<char>, r: Option<Vec<(usize, usize, String)>>) -> bool {
    match path_extension(file_path) {
        Some(e) => match language_of_extension(e) {
            Some(lang) => exists|res: Result<Vec<Chunk>, crate::chunk::ChunkError>| {
                &&& chunking_ok(content, Some(lang), ChunkConfig { max_tokens: 8192, stride_overlap: 1024, enable_striding: true }, None, res)
                &&& match res {
                    Ok(chunks) => match r {
                        Some(v) => v@.map_values(|s: (usize, usize, String)| section_view(s)) == definition_sections(chunks@, chunks@.len() as int)
                            && v@.len() > 0,
                        None => definition_sections(chunks@, chunks@.len() as int).len() == 0,
                    },
                    Err(_) => r is None,
                }
            },
            None => r is None,
        },
        None => r is None,
    }
}

/// The definition sections of a file; see `sections_found`.
pub fn extract_code_sections(file_path: &str, content: &str) -> (r: Option<Vec<(usize, usize, String)>>)
    requires
        utf8_len(content@) < usize::MAX,
    ensures
        sections_found(file_path@, content@, r),
{
    let lang = match Language::from_path(file_path) {
        Some(l) => l,
        None => return None,
    };
    let res = chunk_text(content, Some(lang));
    let r = match &res {
        Ok(chunks) => code_sections(chunks.as_slice()),
        Err(_) => None,
    };
    r
}


/// The lines of `s` that `span` covers (1-based, both ends included),
/// joined by line feeds: nothing when the span starts at line 0 or past
/// the end, the span's end cut to the last line, and the first line alone
/// when the span ends before it starts.
pub open spec fn span_content(s: Seq<char>, span: Span) -> Seq<char> {
    let lines = spec_lines(s);
    let n = lines.len() as int;
    if span.line_start == 0 || span.line_start > n {
        seq![]
    } else {
        let start = span.line_start - 1;
        let e0 = wrapping_pred(span.line_end) as int;
        let end = if e0 <= n - 1 { e0 } else { n - 1 };
        if start <= end {
            join_with(lines.subrange(start, end + 1), seq!['\n'])
        } else {
            lines[start]
        }
    }
}

/// The lines of a file's text that a span covers; see `span_content`.
pub fn extract_content_from_span(content: &str, span: &Span) -> (r: String)
    ensures
        r@ == span_content(content@, *span),
{
    let chars = str_chars(content);
    let _ = crate::text::str_utf8_len(content);
    let (lines, _offsets) = line_layout(&chars);
    let ghost lv = char_views(lines@);
    let n = lines.len();
    if span.line_start == 0 || span.line_start > n {
        return String::new();
    }
    let start = span.line_start - 1;
    let e0 = if span.line_end >= 1 { span.line_end - 1 } else { usize::MAX };
    let end = if e0 <= n - 1 { e0 } else { n - 1 };
    let mut out: Vec<char> = Vec::new();
    if start <= end {
        let ghost sub = lv.subrange(start as int, end + 1);
        let mut i: usize = start;
        while i <= end
            invariant
                start <= i <= end + 1,
                end < n == lines@.len(),
                lv == char_views(lines@),
                sub == lv.subrange(start as int, end + 1),
                out@ == join_with(sub.take(i - start), seq!['\n']),
            decreases end + 1 - i,
        {
            if i > start {
                out.push('\n');
            }
            push_all(&mut out, lines[i].as_slice());
            proof {
                let k = (i - start) as int;
                assert(sub.take(k + 1).drop_last() =~= sub.take(k));
                assert(sub.take(k + 1).last() == lines@[i as int]@);
                if k > 0 {
                    assert(out@ =~= join_with(sub.take(k), seq!['\n']) + seq!['\n'] + lines@[i as int]@);
                } else {
                    assert(sub.take(1) =~= seq![lines@[i as int]@]);
                }
            }
            i += 1;
        }
        assert(sub.take((end + 1 - start) as int) =~= sub);
    } else {
        push_all(&mut out, lines[start].as_slice());
        assert(out@ =~= lv[start as int]);
    }
    string_from_chars(out.as_slice())
}

/// Whether the first bytes of a file look like text: no NUL byte among them.
pub fn looks_like_text(head: &[u8]) -> (r: bool)
    ensures
        r == !head@.contains(0u8),
{
    let mut i: usize = 0;
    while i < head.len()
        invariant
            i <= head@.len(),
            forall|k: int| 0 <= k < i ==> head@[k] != 0u8,
        decreases head@.len() - i,
    {
        if head[i] == 0u8 {
            assert(head@[i as int] == 0u8);
            return false;
        }
        i += 1;
    }
    true
}

/// Appends copies of the strings of `src`.
fn extend_strings(out: &mut Vec<String>, src: &[String])
    ensures
        string_views(final(out)@) == string_views(old(out)@) + string_views(src@),
{
    let mut k: usize = 0;
    while k < src.len()
        invariant
            k <= src@.len(),
            string_views(out@) == string_views(old(out)@) + string_views(src@.take(k as int)),
        decreases src@.len() - k,
    {
        let ghost prev = out@;
        out.push(clone_string(&src[k]));
        assert(string_views(out@) =~= string_views(prev).push(src@[k as int]@));
        assert(string_views(src@.take(k + 1)) =~= string_views(src@.take(k as int)).push(src@[k as int]@));
        k += 1;
    }
    assert(src@.take(src@.len() as int) =~= src@);
}

/// The exclude patterns in force: those of `.ckignore` first, then those
/// given on the command line, then the built-in defaults when they are used.
pub fn build_exclude_patterns(ckignore_patterns: &[String], cli_excludes: &[String], use_defaults: bool) -> (r: Vec<String>)
    ensures
        string_views(r@) == string_views(ckignore_patterns@) + string_views(cli_excludes@) + if use_defaults {
            default_exclude_patterns()
        } else {
            seq![]
        },
{
    let mut patterns: Vec<String> = Vec::new();
    extend_strings(&mut patterns, ckignore_patterns);
    extend_strings(&mut patterns, cli_excludes);
    if use_defaults {
        let d = get_default_exclude_patterns();
        extend_strings(&mut patterns, d.as_slice());
    }
    assert(string_views(patterns@) =~= string_views(ckignore_patterns@) + string_views(cli_excludes@) + if use_defaults {
        default_exclude_patterns()
    } else {
        seq![]
    });
    patterns
}


/// The short name of a chunk type in file summaries.
pub open spec fn chunk_type_short(t: ChunkType) -> Seq<char> {
    match t {
        ChunkType::Function => "func"@,
        ChunkType::Class => "class"@,
        ChunkType::Method => "method"@,
        ChunkType::Module => "mod"@,
        ChunkType::Text => "text"@,
    }
}

/// The short name of a chunk type in file summaries.
pub fn chunk_type_label(t: ChunkType) -> (r: &'static str)
    ensures
        r@ == chunk_type_short(t),
{
    match t {
        ChunkType::Function => "func",
        ChunkType::Class => "class",
        ChunkType::Method => "method",
        ChunkType::Module => "mod",
        ChunkType::Text => "text",
    }
}

/// The first of the first `n` lines that is not blank.
pub open spec fn first_nonblank(lines: Seq<Seq<char>>, n: int) -> Option<int>
    decreases n,
{
    if n <= 0 {
        None
    } else {
        match first_nonblank(lines, n - 1) {
            Some(i) => Some(i),
            None => if trim(lines[n - 1]).len() > 0 { Some(n - 1) } else { None },
        }
    }
}

/// A one-line preview of a chunk: its first non-blank line, cut to 80
/// characters, trimmed.
pub open spec fn chunk_preview_text(s: Seq<char>) -> Seq<char> {
    let lines = spec_lines(s);
    let first = match first_nonblank(lines, lines.len() as int) {
        Some(i) => lines[i],
        None => seq![],
    };
    trim(if first.len() > 80 { first.take(80) } else { first })
}

/// A one-line preview of a chunk; see `chunk_preview_text`.
pub fn chunk_preview(text: &str) -> (r: String)
    ensures
        r@ == chunk_preview_text(text@),
{
    let chars = str_chars(text);
    let _ = crate::text::str_utf8_len(text);
    let (lines, _offsets) = line_layout(&chars);
    let ghost lv = char_views(lines@);
    let mut pick: Option<usize> = None;
    let mut i: usize = 0;
    while i < lines.len()
        invariant
            i <= lines@.len(),
            lv == char_views(lines@),
            match pick {
                Some(j) => j < i && first_nonblank(lv, i as int) == Some(j as int),
                None => first_nonblank(lv, i as int) is None,
            },
        decreases lines@.len() - i,
    {
        if pick.is_none() {
            let (a, b) = trim_bounds(lines[i].as_slice());
            assert(lv[i as int] == lines@[i as int]@);
            if a < b {
                pick = Some(i);
            }
        } else {
            proof {
                let j = pick.unwrap() as int;
                assert(first_nonblank(lv, i + 1) == Some(j));
            }
        }
        i += 1;
    }
    let mut first: Vec<char> = Vec::new();
    match pick {
        Some(j) => {
            assert(lv[j as int] == lines@[j as int]@);
            let m = if lines[j].len() > 80 { 80 } else { lines[j].len() };
            let mut k: usize = 0;
            while k < m
                invariant
                    j < lines@.len(),
                    k <= m <= lines@[j as int]@.len(),
                    first@ == lines@[j as int]@.take(k as int),
                decreases m - k,
            {
                first.push(lines[j][k]);
                assert(lines@[j as int]@.take(k + 1) =~= lines@[j as int]@.take(k as int).push(lines@[j as int]@[k as int]));
                k += 1;
            }
            proof {
                let l = lines@[j as int]@;
                if l.len() <= 80 {
                    assert(l.take(l.len() as int) =~= l);
                }
            }
        },
        None => {},
    }
    let (a, b) = trim_bounds(first.as_slice());
    let mut out: Vec<char> = Vec::new();
    let mut k: usize = a;
    while k < b
        invariant
            a <= k <= b <= first@.len(),
            out@ == first@.subrange(a as int, k as int),
        decreases b - k,
    {
        out.push(first[k]);
        assert(first@.subrange(a as int, k + 1) =~= first@.subrange(a as int, k as int).push(first@[k as int]));
        k += 1;
    }
    string_from_chars(out.as_slice())
}

/// Smallest, largest and total estimated tokens of the first `n` chunks.
pub open spec fn token_stats_upto(chunks: Seq<Chunk>, n: int) -> (int, int, int)
    decreases n,
{
    if n <= 0 {
        (0, 0, 0)
    } else if n == 1 {
        let t = estimated_tokens(chunks[0].text@) as int;
        (t, t, t)
    } else {
        let (lo, hi, sum) = token_stats_upto(chunks, n - 1);
        let t = estimated_tokens(chunks[n - 1].text@) as int;
        (if t < lo { t } else { lo }, if t > hi { t } else { hi }, sum + t)
    }
}

/// The smallest, largest and total estimated tokens of chunks, or none
/// when there are no chunks.
pub fn token_stats(chunks: &[Chunk]) -> (r: Option<(usize, usize, u128)>)
    ensures
        match r {
            Some((lo, hi, sum)) => chunks@.len() > 0 && token_stats_upto(chunks@, chunks@.len() as int) == (lo as int, hi as int, sum as int),
            None => chunks@.len() == 0,
        },
{
    if chunks.len() == 0 {
        return None;
    }
    let t0 = TokenEstimator::estimate_tokens(chunks[0].text.as_str());
    let mut lo = t0;
    let mut hi = t0;
    let mut sum: u128 = t0 as u128;
    let mut i: usize = 1;
    while i < chunks.len()
        invariant
            1 <= i <= chunks@.len(),
            token_stats_upto(chunks@, i as int) == (lo as int, hi as int, sum as int),
            sum <= i * (usize::MAX as int),
        decreases chunks@.len() - i,
    {
        let t = TokenEstimator::estimate_tokens(chunks[i].text.as_str());
        if t < lo {
            lo = t;
        }
        if t > hi {
            hi = t;
        }
        assert(sum + t <= (i + 1) * (usize::MAX as int)) by (nonlinear_arith)
            requires
                sum <= i * (usize::MAX as int),
                t <= usize::MAX,
        ;
        assert((i + 1) * (usize::MAX as int) <= u128::MAX) by (nonlinear_arith)
            requires
                i + 1 <= usize::MAX,
        ;
        sum = sum + t as u128;
        i += 1;
    }
    Some((lo, hi, sum))
}

} // verus!
