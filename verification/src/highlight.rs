//! Marking the matches of a regular-expression search in a line of output.
use vstd::prelude::*;

use crate::regex_match::{build_search_pattern, char_boundary, match_ranges, regex_accepts, regex_match_ranges, search_pattern, SearchRegex};
use crate::types::SearchMode;
use crate::text::{prefix_byte_offsets, push_all, str_chars, str_utf8_len, string_from_chars, utf8_len};

verus! {

/// `s` as `console::style(..).red().bold()` shows it with colours on.
pub open spec fn marked(s: Seq<char>) -> Seq<char> {
    seq!['\x1b', '[', '3', '1', 'm', '\x1b', '[', '1', 'm'] + s + seq!['\x1b', '[', '0', 'm']
}

/// `console::style(text).red().bold().force_styling(true).to_string()`:
/// the text in bold red, whatever the terminal takes (styling forced on,
/// the red code, the bold code, the text, the reset code).
#[verifier::external_body]
fn style_match_forced(text: &str) -> (r: String)
    ensures
        r@ == marked(text@),
{
    console::style(text).red().bold().force_styling(true).to_string()
}

/// `console::colors_enabled()`: whether output to the terminal is to be
/// coloured. The answer comes from the environment and is not stated.
#[verifier::external_body]
fn colors_on() -> (r: bool) {
    console::colors_enabled()
}

/// The character position at byte offset `b` of `s`.
pub open spec fn char_index(s: Seq<char>, b: int) -> int {
    choose|k: int| 0 <= k <= s.len() && #[trigger] utf8_len(s.take(k)) == b
}

/// A match shown plainly or marked.
pub open spec fn shown(s: Seq<char>, colored: bool) -> Seq<char> {
    if colored { marked(s) } else { s }
}

/// The text up to the end of the `n`-th match, each match shown as
/// `colored` says; ranges are byte offsets.
pub open spec fn marked_upto(s: Seq<char>, ranges: Seq<(usize, usize)>, colored: Seq<bool>, n: int) -> Seq<char>
    decreases n,
{
    if n <= 0 {
        seq![]
    } else {
        let prev = if n >= 2 { char_index(s, ranges[n - 2].1 as int) } else { 0 };
        let a = char_index(s, ranges[n - 1].0 as int);
        let b = char_index(s, ranges[n - 1].1 as int);
        marked_upto(s, ranges, colored, n - 1) + s.subrange(prev, a) + shown(s.subrange(a, b), colored[n - 1])
    }
}

/// The whole text with its matches shown as `colored` says.
pub open spec fn marked_text(s: Seq<char>, ranges: Seq<(usize, usize)>, colored: Seq<bool>) -> Seq<char> {
    let n = ranges.len() as int;
    let last = if n >= 1 { char_index(s, ranges[n - 1].1 as int) } else { 0 };
    marked_upto(s, ranges, colored, n) + s.subrange(last, s.len() as int)
}

/// Whether `ranges` are byte ranges of successive, non-overlapping pieces
/// of `s`, each starting and ending on a character boundary.
pub open spec fn ranges_fit(s: Seq<char>, ranges: Seq<(usize, usize)>) -> bool {
    &&& forall|i: int| 0 <= i < ranges.len() ==> (#[trigger] ranges[i]).0 <= ranges[i].1 <= utf8_len(s)
    &&& forall|i: int, j: int| 0 <= i < j < ranges.len() ==> (#[trigger] ranges[i]).1 <= (#[trigger] ranges[j]).0
    &&& forall|i: int| 0 <= i < ranges.len() ==> char_boundary(s, (#[trigger] ranges[i]).0 as int) && char_boundary(s, ranges[i].1 as int)
}

/// Appends `v[a..b]` to `out`.
fn push_range(out: &mut Vec<char>, v: &Vec<char>, a: usize, b: usize)
    requires
        a <= b <= v@.len(),
    ensures
        final(out)@ == old(out)@ + v@.subrange(a as int, b as int),
{
    let mut i = a;
    while i < b
        invariant
            a <= i <= b <= v@.len(),
            out@ == old(out)@ + v@.subrange(a as int, i as int),
        decreases b - i,
    {
        out.push(v[i]);
        assert(v@.subrange(a as int, i + 1) =~= v@.subrange(a as int, i as int).push(v@[i as int]));
        i += 1;
    }
}

proof fn lemma_marked_upto_prefix(s: Seq<char>, ranges: Seq<(usize, usize)>, c1: Seq<bool>, c2: Seq<bool>, n: int)
    requires
        0 <= n <= c1.len(),
        n <= c2.len(),
        forall|i: int| 0 <= i < n ==> c1[i] == c2[i],
    ensures
        marked_upto(s, ranges, c1, n) == marked_upto(s, ranges, c2, n),
    decreases n,
{
    if n > 0 {
        lemma_marked_upto_prefix(s, ranges, c1, c2, n - 1);
    }
}

/// `n` matches, each shown as `colored` says.
pub open spec fn all_shown(n: nat, colored: bool) -> Seq<bool> {
    Seq::new(n, |i: int| colored)
}

/// Shows each of the given byte ranges of `text` in bold red when
/// `colored`, plainly otherwise, keeping the rest of the text as it is.
pub fn mark_ranges_with(text: &str, ranges: &Vec<(usize, usize)>, colored: bool) -> (r: String)
    requires
        ranges_fit(text@, ranges@),
    ensures
        r@ == marked_text(text@, ranges@, all_shown(ranges@.len(), colored)),
{
    let chars = str_chars(text);
    let total = str_utf8_len(text);
    let offs = prefix_byte_offsets(&chars);
    let ghost s = text@;
    let ghost mut shown_as: Seq<bool> = Seq::empty();
    let mut out: Vec<char> = Vec::new();
    let mut prev: usize = 0;
    let mut i: usize = 0;
    assert(s.take(0) =~= Seq::<char>::empty());
    while i < ranges.len()
        invariant
            chars@ == s,
            s == text@,
            total == utf8_len(s),
            ranges_fit(s, ranges@),
            offs@.len() == s.len() + 1,
            forall|k: int| 0 <= k <= s.len() ==> #[trigger] offs@[k] == utf8_len(s.take(k)),
            i <= ranges@.len(),
            shown_as.len() == i,
            forall|k: int| 0 <= k < i ==> shown_as[k] == colored,
            prev <= s.len(),
            prev == (if i >= 1 { char_index(s, ranges@[i - 1].1 as int) } else { 0 }),
            i >= 1 ==> utf8_len(s.take(prev as int)) == ranges@[i - 1].1,
            out@ == marked_upto(s, ranges@, shown_as, i as int),
        decreases ranges@.len() - i,
    {
        let (ra, rb) = ranges[i];
        assert(i >= 1 ==> ranges@[i - 1].1 <= ra);
        assert(utf8_len(s.take(0)) == 0);
        let a = find_char_index(&offs, Ghost(s), prev, ra);
        let b = find_char_index(&offs, Ghost(s), a, rb);
        push_range(&mut out, &chars, prev, a);
        let mut piece: Vec<char> = Vec::new();
        push_range(&mut piece, &chars, a, b);
        assert(piece@ =~= s.subrange(a as int, b as int));
        let piece_str = string_from_chars(piece.as_slice());
        let styled = if colored { style_match_forced(piece_str.as_str()) } else { piece_str };
        let sc = str_chars(styled.as_str());
        push_all(&mut out, sc.as_slice());
        proof {
            let next = shown_as.push(colored);
            lemma_marked_upto_prefix(s, ranges@, shown_as, next, i as int);
            assert(shown(s.subrange(a as int, b as int), colored) == styled@);
            shown_as = next;
        }
        prev = b;
        i += 1;
    }
    push_range(&mut out, &chars, prev, chars.len());
    let r = string_from_chars(out.as_slice());
    assert(shown_as =~= all_shown(ranges@.len(), colored));
    assert(r@ == marked_text(text@, ranges@, shown_as));
    r
}

/// Shows each of the given byte ranges of `text` through
/// `console::style(..).red().bold()`, keeping the rest of the text as it
/// is: all of them in bold red when the terminal takes colours, all plainly
/// otherwise (which of the two depends on the environment).
pub fn mark_ranges(text: &str, ranges: &Vec<(usize, usize)>) -> (r: String)
    requires
        ranges_fit(text@, ranges@),
    ensures
        exists|colored: bool| r@ == #[trigger] marked_text(text@, ranges@, all_shown(ranges@.len(), colored)),
{
    let colored = colors_on();
    mark_ranges_with(text, ranges, colored)
}

/// Marks in `text` each match of `pattern`, as the regex search would find
/// it: the pattern escaped when `fixed_string`, escaped and held to whole
/// words when `whole_word`, taken as a regular expression otherwise, and
/// matched without regard to case when `case_insensitive`. The matches are
/// shown through `console::style(..).red().bold()`: all in bold red when
/// the terminal takes colours, all plainly otherwise; a pattern that does
/// not compile leaves the text unchanged.
pub fn highlight_regex_matches(text: &str, pattern: &str, case_insensitive: bool, fixed_string: bool, whole_word: bool) -> (r: String)
    ensures
        !regex_accepts(search_pattern(pattern@, fixed_string, whole_word), case_insensitive) ==> r@ == text@,
        regex_accepts(search_pattern(pattern@, fixed_string, whole_word), case_insensitive) ==>
            exists|colored: bool| r@ == #[trigger] marked_text(
                text@,
                regex_match_ranges(search_pattern(pattern@, fixed_string, whole_word), case_insensitive, text@),
                all_shown(
                    regex_match_ranges(search_pattern(pattern@, fixed_string, whole_word), case_insensitive, text@).len(),
                    colored,
                ),
            ),
{
    let regex_pattern = build_search_pattern(pattern, fixed_string, whole_word);
    match SearchRegex::new(regex_pattern.as_str(), case_insensitive) {
        Some(re) => {
            let ranges = match_ranges(&re, text);
            let colored = colors_on();
            mark_ranges_with(text, &ranges, colored)
        },
        None => text.to_owned(),
    }
}

/// The character position of a boundary byte offset.
fn find_char_index(offs: &Vec<usize>, s: Ghost<Seq<char>>, from: usize, b: usize) -> (k: usize)
    requires
        offs@.len() == s@.len() + 1,
        forall|i: int| 0 <= i <= s@.len() ==> #[trigger] offs@[i] == utf8_len(s@.take(i)),
        from <= s@.len(),
        char_boundary(s@, b as int),
        utf8_len(s@.take(from as int)) <= b,
    ensures
        from <= k <= s@.len(),
        utf8_len(s@.take(k as int)) == b,
        k == char_index(s@, b as int),
{
    proof {
        lemma_prefix_lengths_increase(s@);
    }
    let n = offs.len();
    let mut k = from;
    while offs[k] < b
        invariant
            from <= k <= s@.len(),
            n == offs@.len(),
            offs@.len() == s@.len() + 1,
            forall|i: int| 0 <= i <= s@.len() ==> #[trigger] offs@[i] == utf8_len(s@.take(i)),
            forall|i: int, j: int| #![trigger s@.take(i), s@.take(j)] 0 <= i < j <= s@.len() ==> utf8_len(s@.take(i)) < utf8_len(s@.take(j)),
            char_boundary(s@, b as int),
            offs@[k as int] <= b,
        decreases s@.len() - k,
    {
        proof {
            let w = choose|w: int| 0 <= w <= s@.len() && #[trigger] utf8_len(s@.take(w)) == b;
            if w < k {
                assert(utf8_len(s@.take(w)) < utf8_len(s@.take(k as int)));
            }
            assert(w > k);
            if k + 1 < w {
                assert(utf8_len(s@.take(k + 1)) < utf8_len(s@.take(w)));
            }
            assert(utf8_len(s@.take(k + 1)) <= b);
        }
        k += 1;
    }
    proof {
        let w = choose|w: int| 0 <= w <= s@.len() && #[trigger] utf8_len(s@.take(w)) == b;
        if w != k {
            if w < k {
                assert(utf8_len(s@.take(w)) < utf8_len(s@.take(k as int)));
            } else {
                assert(utf8_len(s@.take(k as int)) < utf8_len(s@.take(w)));
            }
        }
        let c = char_index(s@, b as int);
        if c != k {
            if c < k {
                assert(utf8_len(s@.take(c)) < utf8_len(s@.take(k as int)));
            } else {
                assert(utf8_len(s@.take(k as int)) < utf8_len(s@.take(c)));
            }
        }
    }
    k
}

pub proof fn lemma_prefix_lengths_increase(s: Seq<char>)
    ensures
        forall|i: int, j: int| #![trigger s.take(i), s.take(j)] 0 <= i < j <= s.len() ==> utf8_len(s.take(i)) < utf8_len(s.take(j)),
{
    assert forall|i: int, j: int| #![trigger s.take(i), s.take(j)] 0 <= i < j <= s.len() implies utf8_len(s.take(i)) < utf8_len(s.take(j)) by {
        let a = s.take(i);
        let b = s.subrange(i, j);
        assert(s.take(j) =~= a + b);
        crate::text::lemma_encode_utf8_concat(a, b);
        crate::text::lemma_utf8_len_ge_len(b);
    }
}

/// How a result preview is highlighted.
#[derive(Debug, Clone, Copy, PartialEq, Eq, Structural)]
pub enum HighlightKind {
    /// Left as it is.
    Plain,
    /// The matches of the regular expression marked.
    RegexMatches,
    /// Tokens coloured by their similarity to the query.
    Similarity,
}

/// How a preview is highlighted: never in JSON output; by regex matches in
/// regex mode, by similarity in semantic and hybrid modes, not at all in
/// lexical mode.
pub fn highlight_kind(json_output: bool, jsonl_output: bool, mode: SearchMode) -> (r: HighlightKind)
    ensures
        r == (if json_output || jsonl_output {
            HighlightKind::Plain
        } else {
            match mode {
                SearchMode::Regex => HighlightKind::RegexMatches,
                SearchMode::Semantic | SearchMode::Hybrid => HighlightKind::Similarity,
                SearchMode::Lexical => HighlightKind::Plain,
            }
        }),
{
    if json_output || jsonl_output {
        return HighlightKind::Plain;
    }
    match mode {
        SearchMode::Regex => HighlightKind::RegexMatches,
        SearchMode::Semantic | SearchMode::Hybrid => HighlightKind::Similarity,
        SearchMode::Lexical => HighlightKind::Plain,
    }
}

} // verus!
