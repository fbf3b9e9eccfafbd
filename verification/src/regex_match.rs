//! Regular expressions: the trusted interface to the `regex` crate and the
//! pattern a search builds from its query.
use vstd::prelude::*;

use regex::Regex;

use crate::text::{push_all, str_chars, string_from_chars, utf8_len};

verus! {

#[verifier::external_type_specification]
#[verifier::external_body]
pub struct ExRegex(regex::Regex);

/// Whether `regex::RegexBuilder` builds a regex from a pattern with the
/// given case setting.
pub uninterp spec fn regex_accepts(pattern: Seq<char>, case_insensitive: bool) -> bool;

/// The byte ranges of the successive non-overlapping matches that
/// `Regex::find_iter` reports for a pattern and case setting on a text.
pub uninterp spec fn regex_match_ranges(pattern: Seq<char>, case_insensitive: bool, text: Seq<char>) -> Seq<(usize, usize)>;

/// A regex meta character, which `regex::escape` puts a backslash before.
pub open spec fn is_meta_character(c: char) -> bool {
    c == '\\' || c == '.' || c == '+' || c == '*' || c == '?' || c == '(' || c == ')' || c == '|'
        || c == '[' || c == ']' || c == '{' || c == '}' || c == '^' || c == '$' || c == '#'
        || c == '&' || c == '-' || c == '~'
}

/// `s` with a backslash before each meta character.
pub open spec fn escaped(s: Seq<char>) -> Seq<char>
    decreases s.len(),
{
    if s.len() == 0 {
        seq![]
    } else {
        escaped(s.drop_last()) + if is_meta_character(s.last()) {
            seq!['\\', s.last()]
        } else {
            seq![s.last()]
        }
    }
}

/// Whether `b` is the byte offset of a character boundary of `s`.
pub open spec fn char_boundary(s: Seq<char>, b: int) -> bool {
    exists|k: int| 0 <= k <= s.len() && #[trigger] utf8_len(s.take(k)) == b
}

/// `regex::escape`: the pattern with a backslash before each meta
/// character, matching the text literally.
#[verifier::external_body]
pub(crate) fn escape_regex(pattern: &str) -> (r: String)
    ensures
        r@ == escaped(pattern@),
{
    regex::escape(pattern)
}

/// `regex::RegexBuilder::new(pattern).case_insensitive(..).build()`: a
/// regex when the builder accepts the pattern (which depends on the
/// pattern and case setting alone).
#[verifier::external_body]
fn build_regex(pattern: &str, case_insensitive: bool) -> (r: Option<Regex>)
    ensures
        r is Some == regex_accepts(pattern@, case_insensitive),
{
    regex::RegexBuilder::new(pattern).case_insensitive(case_insensitive).build().ok()
}

/// A compiled regular expression, with the pattern and case setting it
/// was built from.
pub struct SearchRegex {
    re: Regex,
    pattern: String,
    case_insensitive: bool,
}

impl SearchRegex {
    /// The pattern the regex was built from.
    pub closed spec fn pattern(&self) -> Seq<char> {
        self.pattern@
    }

    /// Whether the regex ignores case.
    pub closed spec fn ignores_case(&self) -> bool {
        self.case_insensitive
    }

    /// Compiles a pattern; none when `regex` refuses it (see
    /// `regex_accepts`).
    pub fn new(pattern: &str, case_insensitive: bool) -> (r: Option<SearchRegex>)
        ensures
            r is Some == regex_accepts(pattern@, case_insensitive),
            r matches Some(x) ==> x.pattern() == pattern@ && x.ignores_case() == case_insensitive,
    {
        match build_regex(pattern, case_insensitive) {
            Some(re) => Some(SearchRegex { re, pattern: pattern.to_owned(), case_insensitive }),
            None => None,
        }
    }

    /// The pattern the regex was built from.
    pub fn pattern_text(&self) -> (r: &str)
        ensures
            r@ == self.pattern(),
    {
        self.pattern.as_str()
    }
}

/// `Regex::find_iter` on the regex a `SearchRegex` holds, which was built
/// from its pattern and case setting: the byte ranges of the matches, in
/// order. As the `regex` documentation says, they do not overlap and each
/// starts and ends on a character boundary of the text.
#[verifier::external_body]
pub(crate) fn match_ranges(re: &SearchRegex, text: &str) -> (r: Vec<(usize, usize)>)
    ensures
        r@ == regex_match_ranges(re.pattern(), re.ignores_case(), text@),
        forall|i: int| 0 <= i < r@.len() ==> (#[trigger] r@[i]).0 <= r@[i].1 <= utf8_len(text@),
        forall|i: int, j: int| 0 <= i < j < r@.len() ==> (#[trigger] r@[i]).1 <= (#[trigger] r@[j]).0,
        forall|i: int| 0 <= i < r@.len() ==> char_boundary(text@, (#[trigger] r@[i]).0 as int) && char_boundary(text@, r@[i].1 as int),
{
    re.re.find_iter(text).map(|m| (m.start(), m.end())).collect()
}

/// The regular expression a search uses: the query escaped when it is a
/// fixed string, escaped between word boundaries for a whole-word search,
/// or the query as given.
pub open spec fn search_pattern(pattern: Seq<char>, fixed_string: bool, whole_word: bool) -> Seq<char> {
    if fixed_string {
        escaped(pattern)
    } else if whole_word {
        seq!['\\', 'b'] + escaped(pattern) + seq!['\\', 'b']
    } else {
        pattern
    }
}

/// The regular expression a search uses; see `search_pattern`.
pub(crate) fn build_search_pattern(pattern: &str, fixed_string: bool, whole_word: bool) -> (r: String)
    ensures
        r@ == search_pattern(pattern@, fixed_string, whole_word),
{
    if fixed_string {
        escape_regex(pattern)
    } else if whole_word {
        let e = escape_regex(pattern);
        let mut out: Vec<char> = Vec::new();
        out.push('\\');
        out.push('b');
        let ec = str_chars(e.as_str());
        push_all(&mut out, ec.as_slice());
        out.push('\\');
        out.push('b');
        assert(out@ =~= seq!['\\', 'b'] + escaped(pattern@) + seq!['\\', 'b']);
        string_from_chars(out.as_slice())
    } else {
        pattern.to_owned()
    }
}

} // verus!
