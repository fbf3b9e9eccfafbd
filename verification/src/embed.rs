//! Token estimation, the dummy reranker, and splitting text for embedding requests.
use vstd::prelude::*;

use crate::text::{
    char_views, contains_seq, ends_with_seq, has_infix, has_prefix, has_suffix, line_layout,
    spec_lines, starts_with_seq, str_chars, str_eq, str_utf8_len, string_from_chars, string_push,
    string_views, trim, trim_bounds, utf8_len,
};

verus! {

/// Rough token counts for code and prose, without a model tokenizer.
pub struct TokenEstimator;

/// How many code indicators one trimmed line shows.
pub open spec fn line_code_score(t: Seq<char>) -> nat {
    if t.len() == 0 || has_prefix(t, "//"@) || has_prefix(t, seq!['#']) {
        0
    } else {
        (if has_infix(t, seq!['{']) || has_infix(t, seq!['}']) { 1nat } else { 0nat })
        + (if has_infix(t, seq![';']) && !has_suffix(t, seq!['.']) { 1nat } else { 0nat })
        + (if has_infix(t, "fn "@) || has_infix(t, "def "@) || has_infix(t, "function "@)
            || has_infix(t, "func "@) { 1nat } else { 0nat })
        + (if has_infix(t, "->"@) || has_infix(t, "=>"@) || has_infix(t, "::"@) { 1nat } else { 0nat })
        + (if has_prefix(t, "pub "@) || has_prefix(t, "private "@) || has_prefix(t, "public "@) {
            1nat
        } else {
            0nat
        })
    }
}

/// Code indicators over a sequence of lines.
pub open spec fn code_indicators(lines: Seq<Seq<char>>) -> nat
    decreases lines.len(),
{
    if lines.len() == 0 {
        0
    } else {
        code_indicators(lines.drop_last()) + line_code_score(trim(lines.last()))
    }
}

/// Smallest integer at least `a / b`.
pub open spec fn ceil_div(a: nat, b: nat) -> nat {
    ((a + b - 1) / (b as int)) as nat
}

/// Estimated tokens: characters divided by 4.2 for code-dense text (more
/// than 0.3 indicators per line), 4.4 for mixed text (more than 0.1), 4.8
/// for prose; rounded up.
pub open spec fn estimated_tokens(s: Seq<char>) -> nat {
    if s.len() == 0 {
        0
    } else {
        let lines = spec_lines(s);
        let l = if lines.len() == 0 { 1 } else { lines.len() };
        let ci = code_indicators(lines);
        if 10 * ci > 3 * l {
            ceil_div(10 * s.len(), 42)
        } else if 10 * ci > l {
            ceil_div(10 * s.len(), 44)
        } else {
            ceil_div(10 * s.len(), 48)
        }
    }
}

/// Token limit of an embedding model.
pub open spec fn model_token_limit(m: Seq<char>) -> usize {
    if m == "BAAI/bge-small-en-v1.5"@ || m == "sentence-transformers/all-MiniLM-L6-v2"@
        || m == "BAAI/bge-base-en-v1.5"@ || m == "BAAI/bge-large-en-v1.5"@ {
        512
    } else {
        8192
    }
}

impl TokenEstimator {
    /// Estimates the number of tokens in `text`.
    pub fn estimate_tokens(text: &str) -> (n: usize)
        ensures
            n == estimated_tokens(text@),
            n <= text@.len(),
    {
        let chars = str_chars(text);
        if chars.len() == 0 {
            return 0;
        }
        let _ = str_utf8_len(text);
        let (lines, _offsets) = line_layout(&chars);
        let char_count = chars.len();
        let code_indicators = Self::count_code_indicators(&lines);
        let total_lines = if lines.len() == 0 { 1 } else { lines.len() };
        let ci = code_indicators;
        let l = total_lines as u128;
        let cc = char_count as u128;
        let tokens: u128 = if 10 * ci > 3 * l {
            (10 * cc + 41) / 42
        } else if 10 * ci > l {
            (10 * cc + 43) / 44
        } else {
            (10 * cc + 47) / 48
        };
        assert(tokens <= cc);
        tokens as usize
    }

    /// Whether the estimated token count of `text` is over `max_tokens`.
    pub fn exceeds_limit(text: &str, max_tokens: usize) -> (r: bool)
        ensures
            r == (estimated_tokens(text@) > max_tokens),
    {
        Self::estimate_tokens(text) > max_tokens
    }

    /// Token limit for a model name (8192 for unknown models).
    pub fn get_model_limit(model_name: &str) -> (n: usize)
        ensures
            n == model_token_limit(model_name@),
    {
        if str_eq(model_name, "BAAI/bge-small-en-v1.5") || str_eq(
            model_name,
            "sentence-transformers/all-MiniLM-L6-v2",
        ) || str_eq(model_name, "BAAI/bge-base-en-v1.5") || str_eq(
            model_name,
            "BAAI/bge-large-en-v1.5",
        ) {
            512
        } else {
            8192
        }
    }

    /// Indicator score of one line.
    fn line_score(line: &Vec<char>) -> (n: usize)
        ensures
            n == line_code_score(trim(line@)),
            n <= 5,
    {
        let (a, b) = trim_bounds(line.as_slice());
        let t = slice_range(line, a, b);
        let ts = t.as_slice();
        if t.len() == 0 || starts_with_seq(ts, str_chars("//").as_slice()) || starts_with_seq(
            ts,
            one_char('#').as_slice(),
        ) {
            return 0;
        }
        let mut count: usize = 0;
        if contains_seq(ts, one_char('{').as_slice()) || contains_seq(ts, one_char('}').as_slice()) {
            count += 1;
        }
        if contains_seq(ts, one_char(';').as_slice()) && !ends_with_seq(ts, one_char('.').as_slice()) {
            count += 1;
        }
        if contains_seq(ts, str_chars("fn ").as_slice()) || contains_seq(
            ts,
            str_chars("def ").as_slice(),
        ) || contains_seq(ts, str_chars("function ").as_slice()) || contains_seq(
            ts,
            str_chars("func ").as_slice(),
        ) {
            count += 1;
        }
        if contains_seq(ts, str_chars("->").as_slice()) || contains_seq(
            ts,
            str_chars("=>").as_slice(),
        ) || contains_seq(ts, str_chars("::").as_slice()) {
            count += 1;
        }
        if starts_with_seq(ts, str_chars("pub ").as_slice()) || starts_with_seq(
            ts,
            str_chars("private ").as_slice(),
        ) || starts_with_seq(ts, str_chars("public ").as_slice()) {
            count += 1;
        }
        count
    }

    /// Counts code indicators over the lines of a text.
    fn count_code_indicators(lines: &Vec<Vec<char>>) -> (n: u128)
        ensures
            n == code_indicators(char_views(lines@)),
            n <= 5 * lines@.len(),
    {
        let mut count: u128 = 0;
        let mut i: usize = 0;
        while i < lines.len()
            invariant
                i <= lines@.len(),
                count == code_indicators(char_views(lines@).take(i as int)),
                count <= 5 * i,
            decreases lines@.len() - i,
        {
            let sc = Self::line_score(&lines[i]);
            proof {
                let vs = char_views(lines@);
                assert(vs.take(i + 1).drop_last() =~= vs.take(i as int));
                assert(vs.take(i + 1).last() == lines@[i as int]@);
            }
            count = count + sc as u128;
            i += 1;
        }
        assert(char_views(lines@).take(lines@.len() as int) =~= char_views(lines@));
        count
    }
}

/// The characters `v[a..b]`.
pub fn slice_range(v: &Vec<char>, a: usize, b: usize) -> (r: Vec<char>)
    requires
        a <= b <= v@.len(),
    ensures
        r@ == v@.subrange(a as int, b as int),
{
    let mut r: Vec<char> = Vec::new();
    let mut i = a;
    while i < b
        invariant
            a <= i <= b <= v@.len(),
            r@ == v@.subrange(a as int, i as int),
        decreases b - i,
    {
        r.push(v[i]);
        assert(v@.subrange(a as int, i + 1) =~= v@.subrange(a as int, i as int).push(v@[i as int]));
        i += 1;
    }
    r
}

/// A one-character vector.
pub fn one_char(c: char) -> (v: Vec<char>)
    ensures
        v@ == seq![c],
{
    let mut v: Vec<char> = Vec::new();
    v.push(c);
    v
}

/// A reranker that keeps documents in their given order.
pub struct DummyReranker;

impl DummyReranker {
    pub fn new() -> DummyReranker {
        DummyReranker
    }

    /// The name this reranker reports.
    pub fn id(&self) -> (r: &'static str)
        ensures
            r@ == "dummy_reranker"@,
    {
        "dummy_reranker"
    }
}


/// Splitting text for an embedding request: reading its lines in order,
/// each with a line feed, the pieces finished so far and the piece being
/// filled. A line starts a new piece when the current one is not empty
/// and would pass `max` bytes with it.
pub open spec fn piece_scan(lines: Seq<Seq<char>>, max: int, n: int) -> (Seq<Seq<char>>, Seq<char>)
    decreases n,
{
    if n <= 0 {
        (seq![], seq![])
    } else {
        let (done, cur) = piece_scan(lines, max, n - 1);
        let l = lines[n - 1].push('\n');
        if cur.len() > 0 && utf8_len(cur) + utf8_len(l) > max {
            (done.push(cur), l)
        } else {
            (done, cur + l)
        }
    }
}

/// The pieces of `s` for requests of at most `max` bytes each (a single
/// line longer than that stays whole).
pub open spec fn text_pieces(s: Seq<char>, max: int) -> Seq<Seq<char>> {
    let lines = spec_lines(s);
    let (done, cur) = piece_scan(lines, max, lines.len() as int);
    if cur.len() > 0 { done.push(cur) } else { done }
}

/// Splits text into pieces of whole lines for embedding requests; see
/// `text_pieces`.
pub fn split_text(text: &str, max_bytes: usize) -> (r: Vec<String>)
    requires
        text@.len() > 0 || max_bytes > 0,
    ensures
        string_views(r@) == text_pieces(text@, max_bytes as int),
{
    let chars = str_chars(text);
    let _ = str_utf8_len(text);
    let (lines, _offsets) = line_layout(&chars);
    let ghost lv = char_views(lines@);
    let mut done: Vec<String> = Vec::new();
    let mut cur = String::new();
    let mut has_cur = false;
    let mut i: usize = 0;
    while i < lines.len()
        invariant
            i <= lines@.len(),
            has_cur == (cur@.len() > 0),
            lv == char_views(lines@),
            lv == spec_lines(text@),
            (string_views(done@), cur@) == piece_scan(lv, max_bytes as int, i as int),
        decreases lines@.len() - i,
    {
        let line = string_from_chars(lines[i].as_slice());
        let lb = str_utf8_len(line.as_str());
        let cb = str_utf8_len(cur.as_str());
        proof {
            crate::text::lemma_utf8_len_push(lv[i as int], '\n');
            crate::text::lemma_encode_char_len('\n');
            assert(lv[i as int] == lines@[i as int]@);
        }
        if has_cur && (cb as u128) + (lb as u128) + 1 > (max_bytes as u128) {
            let ghost before = done@;
            let ghost cv = cur@;
            done.push(cur);
            assert(string_views(done@) =~= string_views(before).push(cv));
            cur = String::new();
            assert(cur@ =~= Seq::<char>::empty());
        } else {
            proof {
                if cur@.len() == 0 {
                    assert(cur@ =~= Seq::<char>::empty());
                }
            }
        }
        let ghost base = cur@;
        let mut k: usize = 0;
        while k < lines[i].len()
            invariant
                i < lines@.len(),
                k <= lines@[i as int]@.len(),
                cur@ == base + lines@[i as int]@.take(k as int),
            decreases lines@[i as int]@.len() - k,
        {
            string_push(&mut cur, lines[i][k]);
            assert(lines@[i as int]@.take(k + 1) =~= lines@[i as int]@.take(k as int).push(lines@[i as int]@[k as int]));
            k += 1;
        }
        string_push(&mut cur, '\n');
        has_cur = true;
        proof {
            assert(lines@[i as int]@.take(lines@[i as int]@.len() as int) =~= lines@[i as int]@);
            assert(cur@ =~= base + lv[i as int].push('\n'));
        }
        i += 1;
    }
    if has_cur {
        let ghost before = done@;
        let ghost cv = cur@;
        done.push(cur);
        assert(string_views(done@) =~= string_views(before).push(cv));
    }
    done
}

} // verus!
