//! Heatmap colouring of search results: colour buckets and tokenisation.
use vstd::prelude::*;

use crate::text::{string_from_chars, string_views};

verus! {

/// The gradient band of a semantic similarity score.
#[derive(Debug, Clone, Copy, PartialEq, Eq, Structural)]
pub enum HeatmapBucket {
    Unscored,
    Step1,
    Step2,
    Step3,
    Step4,
    Step5,
    Step6,
    Step7,
    Step8,
}

/// The colour of each bucket.
pub open spec fn bucket_rgb(b: HeatmapBucket) -> Option<(u8, u8, u8)> {
    match b {
        HeatmapBucket::Unscored => None,
        HeatmapBucket::Step1 => Some((180u8, 180u8, 180u8)),
        HeatmapBucket::Step2 => Some((140u8, 140u8, 140u8)),
        HeatmapBucket::Step3 => Some((100u8, 130u8, 100u8)),
        HeatmapBucket::Step4 => Some((50u8, 120u8, 80u8)),
        HeatmapBucket::Step5 => Some((0u8, 140u8, 60u8)),
        HeatmapBucket::Step6 => Some((0u8, 160u8, 70u8)),
        HeatmapBucket::Step7 => Some((0u8, 180u8, 80u8)),
        HeatmapBucket::Step8 => Some((0u8, 255u8, 100u8)),
    }
}

impl HeatmapBucket {
    /// RGB colour used for the bucket, if any.
    pub fn rgb(self) -> (r: Option<(u8, u8, u8)>)
        ensures
            r == bucket_rgb(self),
    {
        match self {
            HeatmapBucket::Unscored => None,
            HeatmapBucket::Step1 => Some((180, 180, 180)),
            HeatmapBucket::Step2 => Some((140, 140, 140)),
            HeatmapBucket::Step3 => Some((100, 130, 100)),
            HeatmapBucket::Step4 => Some((50, 120, 80)),
            HeatmapBucket::Step5 => Some((0, 140, 60)),
            HeatmapBucket::Step6 => Some((0, 160, 70)),
            HeatmapBucket::Step7 => Some((0, 180, 80)),
            HeatmapBucket::Step8 => Some((0, 255, 100)),
        }
    }

    /// Whether the bucket is shown in bold: only the highest one.
    pub fn is_bold(self) -> (r: bool)
        ensures
            r == (self == HeatmapBucket::Step8),
    {
        matches!(self, HeatmapBucket::Step8)
    }
}

/// Whitespace that forms a token of its own.
pub open spec fn is_space_token(c: char) -> bool {
    c == ' ' || c == '\t' || c == '\n'
}

/// Punctuation that forms a token of its own.
pub open spec fn is_punct_token(c: char) -> bool {
    c == '(' || c == ')' || c == '[' || c == ']' || c == '{' || c == '}' || c == ',' || c == ';'
        || c == ':' || c == '.' || c == '!' || c == '?'
}

/// A character that forms a token of its own.
pub open spec fn is_separator(c: char) -> bool {
    is_space_token(c) || is_punct_token(c)
}

/// Scans `s` from the left: the tokens completed so far and the word still
/// open.
pub open spec fn token_scan(s: Seq<char>) -> (Seq<Seq<char>>, Seq<char>)
    decreases s.len(),
{
    if s.len() == 0 {
        (seq![], seq![])
    } else {
        let (done, cur) = token_scan(s.drop_last());
        let c = s.last();
        if is_separator(c) {
            let closed = if cur.len() > 0 { done.push(cur) } else { done };
            (closed.push(seq![c]), seq![])
        } else {
            (done, cur.push(c))
        }
    }
}

/// The tokens of `s`: maximal runs of ordinary characters, and each space,
/// tab, line feed or listed punctuation character on its own.
pub open spec fn spec_tokens(s: Seq<char>) -> Seq<Seq<char>> {
    let (done, cur) = token_scan(s);
    if cur.len() > 0 { done.push(cur) } else { done }
}

fn is_separator_char(c: char) -> (r: bool)
    ensures
        r == is_separator(c),
{
    c == ' ' || c == '\t' || c == '\n' || c == '(' || c == ')' || c == '[' || c == ']' || c == '{'
        || c == '}' || c == ',' || c == ';' || c == ':' || c == '.' || c == '!' || c == '?'
}

/// Splits text into tokens for heatmap highlighting, keeping spacing and
/// punctuation as tokens of their own so that coloured output lines up with
/// the input.
pub fn split_into_tokens(text: &str) -> (r: Vec<String>)
    ensures
        string_views(r@) == spec_tokens(text@),
{
    let mut tokens: Vec<String> = Vec::new();
    let mut current: Vec<char> = Vec::new();
    let ghost s = text@;
    for ch in it: text.chars()
        invariant
            it.seq() == s,
            s == text@,
            string_views(tokens@) == token_scan(s.take(it.index() as int)).0,
            current@ == token_scan(s.take(it.index() as int)).1,
    {
        let ghost i = it.index() as int;
        proof {
            assert(s.take(i + 1).drop_last() =~= s.take(i));
            assert(s.take(i + 1).last() == ch);
        }
        if is_separator_char(ch) {
            if current.len() > 0 {
                tokens.push(string_from_chars(current.as_slice()));
                current = Vec::new();
            }
            let mut one: Vec<char> = Vec::new();
            one.push(ch);
            tokens.push(string_from_chars(one.as_slice()));
            assert(string_views(tokens@) =~= token_scan(s.take(i + 1)).0);
        } else {
            current.push(ch);
        }
    }
    assert(s.take(s.len() as int) =~= s);
    if current.len() > 0 {
        tokens.push(string_from_chars(current.as_slice()));
    }
    assert(string_views(tokens@) =~= spec_tokens(s));
    tokens
}

} // verus!
