//! Splitting source text into chunks: generic line windows, syntax-aware
//! chunks, and striding of chunks that exceed a token budget.
use vstd::prelude::*;
use vstd::utf8::encode_utf8;

use crate::embed::{estimated_tokens, slice_range as slice_chars, TokenEstimator};
use crate::text::{
    char_views, count_lines, decimal, join_line_range, join_lines, lemma_lines_len_le,
    lemma_join_bytes, lemma_offsets_ge_index, lemma_prefix_utf8_le, lemma_utf8_len_ge_len,
    line_byte_offset, line_layout, prefix_byte_offsets, push_decimal, push_str_chars,
    spec_lines, str_chars, str_eq, str_utf8_len, string_from_chars, utf8_len, clone_string,
};
use crate::syntax::{grammar_constant, grammar_for, grammar_of, node_in_text, parse_syntax, preordered, syntax_nodes, SyntaxNode};
use crate::types::{Language, Span};

verus! {

/// Information about a chunk cut out of a larger chunk by striding.
#[derive(Debug, Clone, PartialEq, Eq)]
pub struct StrideInfo {
    /// Identifier of the chunk before striding: "byte_start:byte_end".
    pub original_chunk_id: String,
    /// Index of this stride (0-based).
    pub stride_index: usize,
    /// Number of strides cut from the original chunk.
    pub total_strides: usize,
    /// Characters shared with the previous stride.
    pub overlap_start: usize,
    /// Characters shared with the next stride.
    pub overlap_end: usize,
}

/// The kind of code a chunk holds.
#[derive(Debug, Clone, Copy, PartialEq, Eq, Structural)]
pub enum ChunkType {
    Text,
    Function,
    Class,
    Method,
    Module,
}

/// A piece of a source file.
#[derive(Debug, Clone)]
pub struct Chunk {
    pub span: Span,
    pub text: String,
    pub chunk_type: ChunkType,
    /// Present when the chunk was created by striding a larger chunk.
    pub stride_info: Option<StrideInfo>,
}

/// Languages whose syntax tree is used for chunking.
#[derive(Debug, Clone, Copy, PartialEq, Eq, Structural)]
pub enum ParseableLanguage {
    Python,
    TypeScript,
    JavaScript,
    Haskell,
    Rust,
    Ruby,
    Go,
    CSharp,
    Zig,
}

/// Configuration for chunking.
#[derive(Debug, Clone, Copy)]
pub struct ChunkConfig {
    /// Maximum tokens per chunk before striding.
    pub max_tokens: usize,
    /// Overlap between strides, in tokens.
    pub stride_overlap: usize,
    /// Whether chunks over `max_tokens` are strided.
    pub enable_striding: bool,
}

impl ChunkConfig {
    pub fn default() -> (c: ChunkConfig)
        ensures
            c.max_tokens == 8192,
            c.stride_overlap == 1024,
            c.enable_striding,
    {
        ChunkConfig { max_tokens: 8192, stride_overlap: 1024, enable_striding: true }
    }
}

/// Models whose chunks are kept small for precision.
pub open spec fn is_small_chunk_model(m: Seq<char>) -> bool {
    ||| m == "BAAI/bge-small-en-v1.5"@
    ||| m == "sentence-transformers/all-MiniLM-L6-v2"@
    ||| m == "BAAI/bge-base-en-v1.5"@
    ||| m == "BAAI/bge-large-en-v1.5"@
}

/// Target and overlap token counts for a model (absent: the default model,
/// nomic-embed-text-v1.5).
pub open spec fn model_chunk_config(model_name: Option<Seq<char>>) -> (usize, usize) {
    match model_name {
        Some(m) => if is_small_chunk_model(m) {
            (400, 80)
        } else {
            (1024, 200)
        },
        None => (1024, 200),
    }
}

/// Model-specific chunk configuration: (target tokens, overlap tokens).
pub fn get_model_chunk_config(model_name: Option<&str>) -> (r: (usize, usize))
    ensures
        r == model_chunk_config(
            match model_name {
                Some(m) => Some(m@),
                None => None,
            },
        ),
{
    match model_name {
        None => (1024, 200),
        Some(m) => {
            if str_eq(m, "BAAI/bge-small-en-v1.5") || str_eq(m, "sentence-transformers/all-MiniLM-L6-v2")
                || str_eq(m, "BAAI/bge-base-en-v1.5") || str_eq(m, "BAAI/bge-large-en-v1.5") {
                (400, 80)
            } else {
                (1024, 200)
            }
        },
    }
}

/// The view of an optional model name.
pub open spec fn opt_view(m: Option<&str>) -> Option<Seq<char>> {
    match m {
        Some(s) => Some(s@),
        None => None,
    }
}

/// Lines per generic chunk for a token target (about ten tokens per line,
/// at least five lines).
pub open spec fn generic_window_lines(target_tokens: usize) -> int {
    if target_tokens / 10 < 5 { 5 } else { (target_tokens / 10) as int }
}

/// Lines shared by consecutive generic chunks (at least one).
pub open spec fn generic_overlap_lines(overlap_tokens: usize) -> int {
    if overlap_tokens / 10 < 1 { 1 } else { (overlap_tokens / 10) as int }
}

/// Number of generic chunks over `n` lines when each starts `step` lines
/// after the previous one.
pub open spec fn window_count(n: int, step: int) -> int {
    if n <= 0 { 0 } else { (n - 1) / step + 1 }
}

/// Chunk `k` of the generic chunking of `s` with windows of `size` lines
/// advancing by `step` lines.
pub open spec fn generic_chunk_ok(s: Seq<char>, size: int, step: int, k: int, c: Chunk) -> bool {
    let lines = spec_lines(s);
    let start = k * step;
    let end = if start + size < lines.len() { start + size } else { lines.len() as int };
    &&& c.span.byte_start == line_byte_offset(s, start)
    &&& c.span.byte_end == line_byte_offset(s, end)
    &&& c.span.line_start == start + 1
    &&& c.span.line_end == end
    &&& c.text@ == join_lines(lines.subrange(start, end))
    &&& c.chunk_type == ChunkType::Text
    &&& c.stride_info is None
}

/// The generic chunking of `s` for the given model.
pub open spec fn generic_chunks_ok(s: Seq<char>, model_name: Option<Seq<char>>, r: Seq<Chunk>) -> bool {
    let (t, o) = model_chunk_config(model_name);
    let size = generic_window_lines(t);
    let step = size - generic_overlap_lines(o);
    &&& r.len() == window_count(spec_lines(s).len() as int, step)
    &&& forall|k: int| 0 <= k < r.len() ==> generic_chunk_ok(s, size, step, k, #[trigger] r[k])
}

/// Splits text into windows of lines that overlap, sized for the model.
pub fn chunk_generic_with_token_config(text: &str, model_name: Option<&str>) -> (r: Result<Vec<Chunk>, ChunkError>)
    requires
        utf8_len(text@) < usize::MAX,
    ensures
        r matches Ok(v) && generic_chunks_ok(text@, opt_view(model_name), v@),
        r matches Ok(v) ==> forall|k: int| 0 <= k < v@.len() ==> stride_safe(#[trigger] v@[k]),
{
    let chars = str_chars(text);
    let ghost s = text@;
    let _ = str_utf8_len(text);
    let (lines, offsets) = line_layout(&chars);
    proof {
        crate::text::lemma_line_ends_shape(s);
        let n0 = lines@.len() as int;
        assert(offsets@[n0] == line_byte_offset(s, n0));
        if n0 > 0 {
            assert(s.take(s.len() as int) =~= s);
        } else {
            assert(s.len() == 0);
            assert(encode_utf8(s) =~= Seq::<u8>::empty());
        }
    }
    let (target_tokens, overlap_tokens) = get_model_chunk_config(model_name);
    let target_lines = target_tokens / 10;
    let overlap_lines = overlap_tokens / 10;
    let chunk_size = if target_lines < 5 { 5 } else { target_lines };
    let overlap = if overlap_lines < 1 { 1 } else { overlap_lines };
    let step = chunk_size - overlap;
    let n = lines.len();
    let mut chunks: Vec<Chunk> = Vec::new();
    let mut i: usize = 0;
    while i < n
        invariant
            i <= n,
            s == text@,
            n == lines@.len() == spec_lines(s).len(),
            char_views(lines@) == spec_lines(s),
            offsets@.len() == n + 1,
            forall|k: int| 0 <= k < offsets@.len() ==> #[trigger] offsets@[k] == line_byte_offset(s, k),
            chunk_size == generic_window_lines(model_chunk_config(opt_view(model_name)).0),
            step == chunk_size - generic_overlap_lines(model_chunk_config(opt_view(model_name)).1),
            step > 0,
            i == chunks@.len() * step,
            forall|k: int| 0 <= k < chunks@.len() ==> generic_chunk_ok(s, chunk_size as int, step as int, k, #[trigger] chunks@[k]),
            chunks@.len() == window_count(i as int, step as int),
            utf8_len(s) < usize::MAX,
            offsets@[n as int] == utf8_len(s),
            forall|k: int|
                0 <= k < lines@.len() ==> utf8_len(#[trigger] lines@[k]@) + (if k + 1 < lines@.len() {
                    1int
                } else {
                    0int
                }) <= offsets@[k + 1] - offsets@[k],
            forall|k: int| 0 <= k < chunks@.len() ==> stride_safe(#[trigger] chunks@[k]),
        decreases n - i,
    {
        let end = if chunk_size < n - i { i + chunk_size } else { n };
        let body = join_line_range(&lines, i, end);
        let chunk_text = string_from_chars(body.as_slice());
        let c = Chunk {
            span: Span { byte_start: offsets[i], byte_end: offsets[end], line_start: i + 1, line_end: end },
            text: chunk_text,
            chunk_type: ChunkType::Text,
            stride_info: None,
        };
        proof {
            let vs = char_views(lines@);
            assert forall|m: int| 0 <= m < vs.len() implies utf8_len(#[trigger] vs[m]) + (if m + 1 < vs.len() {
                1int
            } else {
                0int
            }) <= offsets@[m + 1] - offsets@[m] by {
                assert(vs[m] == lines@[m]@);
            }
            lemma_join_bytes(vs, offsets@, i as int, end as int);
            lemma_offsets_ge_index(vs, offsets@, i as int);
            lemma_utf8_len_ge_len(c.text@);
            assert(offsets@[end as int] <= offsets@[n as int]) by {
                if end < n {
                    lemma_join_bytes(vs, offsets@, end as int, n as int);
                }
            }
        }
        let ghost k = chunks@.len() as int;
        let ghost old_chunks = chunks@;
        chunks.push(c);
        proof {
            assert(generic_chunk_ok(s, chunk_size as int, step as int, k, chunks@[k]));
            assert forall|j: int| 0 <= j < chunks@.len() implies generic_chunk_ok(s, chunk_size as int, step as int, j, #[trigger] chunks@[j]) by {
                if j < k {
                    assert(chunks@[j] == old_chunks[j]);
                }
            }
            assert(window_count(i as int, step as int) == k) by (nonlinear_arith)
                requires i == k * step, step > 0, k >= 0;
        }
        if step > n - i {
            proof {
                assert(window_count(n as int, step as int) == k + 1) by (nonlinear_arith)
                    requires i == k * step, step > 0, k >= 0, i < n, n < i + step;
                let (t, o) = model_chunk_config(opt_view(model_name));
                assert(chunk_size == generic_window_lines(t));
                assert(step == generic_window_lines(t) - generic_overlap_lines(o));
                assert(chunks@.len() == window_count(spec_lines(s).len() as int, step as int));
            }
            return Ok(chunks);
        }
        let ghost i_old = i;
        i = i + step;
        proof {
            assert(i == (k + 1) * step) by (nonlinear_arith)
                requires i_old == k * step, i == i_old + step;
            assert(window_count(i as int, step as int) == k + 1) by (nonlinear_arith)
                requires i == (k + 1) * step, step > 0, k >= 0;
        }
    }
    Ok(chunks)
}


/// Why chunking failed.
#[derive(Debug, Clone, Copy, PartialEq, Eq, Structural)]
pub enum ChunkError {
    /// The syntax tree of the text could not be built.
    ParseFailed(ParseableLanguage),
    /// The window left no room to advance past the overlap.
    StrideTooSmall,
}

/// The message a chunking error is reported with.
pub open spec fn chunk_error_text(e: ChunkError) -> Seq<char> {
    match e {
        ChunkError::ParseFailed(l) => "Failed to parse "@ + parseable_name(l) + " code"@,
        ChunkError::StrideTooSmall => "Stride size is too small"@,
    }
}

impl ChunkError {
    /// The message the error is reported with; see `chunk_error_text`.
    pub fn message(&self) -> (r: String)
        ensures
            r@ == chunk_error_text(*self),
    {
        match self {
            ChunkError::ParseFailed(l) => {
                let mut out: Vec<char> = Vec::new();
                push_str_chars(&mut out, "Failed to parse ");
                push_str_chars(&mut out, l.name());
                push_str_chars(&mut out, " code");
                string_from_chars(out.as_slice())
            },
            ChunkError::StrideTooSmall => "Stride size is too small".to_owned(),
        }
    }
}

/// `x` capped at `usize::MAX` (as a float-to-integer cast saturates).
pub open spec fn saturate(x: int) -> int {
    if x > usize::MAX { usize::MAX as int } else { x }
}

/// Characters per stride window: 90% of `max_tokens` times the average
/// characters per token of the text (4.5 when no token was estimated).
pub open spec fn stride_window_chars(max_tokens: int, chars: int, tokens: int) -> int {
    if tokens == 0 {
        saturate(max_tokens * 81 / 20)
    } else {
        saturate(9 * max_tokens * chars / (10 * tokens))
    }
}

/// Characters shared by consecutive strides.
pub open spec fn stride_overlap_chars(overlap_tokens: int, chars: int, tokens: int) -> int {
    if tokens == 0 {
        saturate(overlap_tokens * 9 / 2)
    } else {
        saturate(overlap_tokens * chars / tokens)
    }
}

/// `floor(a * b / c)` without overflow.
fn mul_div_floor(a: u128, b: u64, c: u128) -> (r: u128)
    requires
        a < 0x40_0000_0000_0000_0000,
        0 < c < 0x40_0000_0000_0000_0000,
        (a as int) * (b as int) / (c as int) < 0x1_0000_0000_0000_0000_0000_0000,
    ensures
        r == (a as int) * (b as int) / (c as int),
{
    let bh: u128 = (b >> 32u64) as u128;
    let bl: u128 = (b & 0xffff_ffffu64) as u128;
    assert(b == (b >> 32u64) * 0x1_0000_0000 + (b & 0xffff_ffffu64)) by (bit_vector);
    assert(b >> 32u64 <= 0xffff_ffffu64) by (bit_vector);
    assert(b & 0xffff_ffffu64 <= 0xffff_ffffu64) by (bit_vector);
    assert(a * bh <= 0x40_0000_0000_0000_0000 * 0xffff_ffff) by (nonlinear_arith)
        requires a < 0x40_0000_0000_0000_0000, bh <= 0xffff_ffff;
    assert(a * bl <= 0x40_0000_0000_0000_0000 * 0xffff_ffff) by (nonlinear_arith)
        requires a < 0x40_0000_0000_0000_0000, bl <= 0xffff_ffff;
    let x = a * bh;
    let y = a * bl;
    let q1 = x / c;
    let r1 = x % c;
    let t = r1 * 0x1_0000_0000 + y;
    let q2 = t / c;
    let r2 = t % c;
    proof {
        let ai = a as int;
        let ci = c as int;
        assert(ai * (b as int) == ai * (bh as int) * 0x1_0000_0000 + ai * (bl as int)) by (nonlinear_arith)
            requires b as int == (bh as int) * 0x1_0000_0000 + (bl as int);
        assert(x == q1 * c + r1) by (nonlinear_arith) requires q1 == x / c, r1 == x % c, c > 0;
        assert(t == q2 * c + r2) by (nonlinear_arith) requires q2 == t / c, r2 == t % c, c > 0;
        assert(ai * (b as int) == (q1 * 0x1_0000_0000 + q2) * ci + r2) by (nonlinear_arith)
            requires
                ai * (b as int) == (x as int) * 0x1_0000_0000 + (y as int),
                x == q1 * c + r1,
                t == r1 * 0x1_0000_0000 + y,
                t == q2 * c + r2,
                ci == c;
        vstd::arithmetic::div_mod::lemma_fundamental_div_mod_converse_div(
            ai * (b as int), ci, q1 * 0x1_0000_0000 + q2, r2 as int);
    }
    q1 * 0x1_0000_0000 + q2
}

/// Strides of `chunk`: window `k` covers characters
/// `[k * step, min(k * step + window, chars))`.
pub open spec fn stride_ok(
    chunk: Chunk,
    window: int,
    overlap: int,
    k: int,
    total: int,
    c: Chunk,
) -> bool {
    let s = chunk.text@;
    let n = s.len() as int;
    let step = window - overlap;
    let start = k * step;
    let end = if start + window < n { start + window } else { n };
    let first_line = spec_lines(s.take(start)).len() as int;
    let line_start = chunk.span.line_start + (if first_line > 0 { first_line - 1 } else { 0 });
    let here = spec_lines(s.subrange(start, end)).len() as int;
    &&& c.text@ == s.subrange(start, end)
    &&& c.span.byte_start == chunk.span.byte_start + utf8_len(s.take(start))
    &&& c.span.byte_end == chunk.span.byte_start + utf8_len(s.take(end))
    &&& c.span.line_start == line_start
    &&& c.span.line_end == line_start + (if here > 0 { here - 1 } else { 0 })
    &&& c.chunk_type == chunk.chunk_type
    &&& c.stride_info matches Some(info) && {
        &&& info.original_chunk_id@ == decimal(chunk.span.byte_start as nat) + seq![':'] + decimal(
            chunk.span.byte_end as nat,
        )
        &&& info.stride_index == k
        &&& info.total_strides == total
        &&& info.overlap_start == (if k > 0 { overlap } else { 0 })
        &&& info.overlap_end == (if end < n { overlap } else { 0 })
    }
}

/// Number of windows: the first `k` with `k * step + window >= chars`, plus one.
pub open spec fn stride_count(chars: int, window: int, step: int) -> int {
    if chars <= window { 1 } else { (chars - window + step - 1) / step + 1 }
}

/// The total reported in each stride.
pub open spec fn reported_total_strides(chars: int, window: int, overlap: int) -> int {
    if chars <= window { 1 } else { (chars - overlap + (window - overlap) - 1) / (window - overlap) }
}

/// The strides `v` of a non-empty `chunk` whose window exceeds its overlap.
pub open spec fn strides_ok(chunk: Chunk, config: ChunkConfig, v: Seq<Chunk>) -> bool {
    let s = chunk.text@;
    let n = s.len() as int;
    let tokens = estimated_tokens(s) as int;
    let window = stride_window_chars(config.max_tokens as int, n, tokens);
    let overlap = stride_overlap_chars(config.stride_overlap as int, n, tokens);
    if n == 0 {
        v == seq![chunk]
    } else {
        &&& v.len() == stride_count(n, window, window - overlap)
        &&& forall|k: int|
            0 <= k < v.len() ==> stride_ok(
                chunk,
                window,
                overlap,
                k,
                reported_total_strides(n, window, overlap),
                #[trigger] v[k],
            )
    }
}

/// Striding `chunk` fails: it is not empty and its window does not exceed
/// the overlap.
pub open spec fn stride_fails(chunk: Chunk, config: ChunkConfig) -> bool {
    let s = chunk.text@;
    let n = s.len() as int;
    let tokens = estimated_tokens(s) as int;
    n > 0 && stride_window_chars(config.max_tokens as int, n, tokens) <= stride_overlap_chars(
        config.stride_overlap as int,
        n,
        tokens,
    )
}

/// What striding `chunk` under `config` gives.
pub open spec fn strided_ok(chunk: Chunk, config: ChunkConfig, r: Result<Vec<Chunk>, ChunkError>) -> bool {
    if stride_fails(chunk, config) {
        r == Err::<Vec<Chunk>, ChunkError>(ChunkError::StrideTooSmall)
    } else {
        r matches Ok(v) && strides_ok(chunk, config, v@)
    }
}

/// A chunk whose offsets and line numbers stay in range when strided.
pub open spec fn stride_safe(c: Chunk) -> bool {
    &&& c.span.byte_start + utf8_len(c.text@) <= usize::MAX
    &&& c.span.line_start + c.text@.len() <= usize::MAX
}

/// The chunks `piece` that striding puts in place of `c`.
pub open spec fn striding_piece_ok(c: Chunk, config: ChunkConfig, piece: Seq<Chunk>) -> bool {
    if estimated_tokens(c.text@) <= config.max_tokens {
        piece == seq![c]
    } else {
        strides_ok(c, config, piece)
    }
}

/// `c` is over the budget and cannot be strided.
pub open spec fn striding_blocked(c: Chunk, config: ChunkConfig) -> bool {
    estimated_tokens(c.text@) > config.max_tokens && stride_fails(c, config)
}

/// Striding of every chunk of `chunks`.
pub open spec fn striding_ok(chunks: Seq<Chunk>, config: ChunkConfig, r: Result<Vec<Chunk>, ChunkError>) -> bool {
    if exists|i: int| 0 <= i < chunks.len() && striding_blocked(#[trigger] chunks[i], config) {
        r == Err::<Vec<Chunk>, ChunkError>(ChunkError::StrideTooSmall)
    } else {
        r matches Ok(v) && exists|pieces: Seq<Seq<Chunk>>|
            {
                &&& pieces.len() == chunks.len()
                &&& v@ == pieces.flatten()
                &&& forall|i: int|
                    0 <= i < chunks.len() ==> striding_piece_ok(
                        #[trigger] chunks[i],
                        config,
                        pieces[i],
                    )
            }
    }
}

/// A copy of a chunk.
pub fn clone_chunk(c: &Chunk) -> (r: Chunk)
    ensures
        r == *c,
{
    Chunk {
        span: c.span,
        text: c.text.clone(),
        chunk_type: c.chunk_type,
        stride_info: match &c.stride_info {
            Some(info) => Some(
                StrideInfo {
                    original_chunk_id: info.original_chunk_id.clone(),
                    stride_index: info.stride_index,
                    total_strides: info.total_strides,
                    overlap_start: info.overlap_start,
                    overlap_end: info.overlap_end,
                },
            ),
            None => None,
        },
    }
}

/// Replaces each chunk over the token budget by its strides.
pub fn apply_striding(chunks: Vec<Chunk>, config: &ChunkConfig) -> (r: Result<Vec<Chunk>, ChunkError>)
    requires
        forall|i: int| 0 <= i < chunks@.len() ==> stride_safe(#[trigger] chunks@[i]),
    ensures
        striding_ok(chunks@, *config, r),
{
    let mut result: Vec<Chunk> = Vec::new();
    let ghost mut pieces: Seq<Seq<Chunk>> = seq![];
    let mut i: usize = 0;
    while i < chunks.len()
        invariant
            i <= chunks@.len(),
            forall|j: int| 0 <= j < chunks@.len() ==> stride_safe(#[trigger] chunks@[j]),
            forall|j: int| 0 <= j < i ==> !striding_blocked(#[trigger] chunks@[j], *config),
            pieces.len() == i,
            result@ == pieces.flatten(),
            forall|j: int| 0 <= j < i ==> striding_piece_ok(#[trigger] chunks@[j], *config, pieces[j]),
        decreases chunks@.len() - i,
    {
        let chunk = clone_chunk(&chunks[i]);
        let estimated = TokenEstimator::estimate_tokens(chunk.text.as_str());
        let ghost c = chunks@[i as int];
        if estimated <= config.max_tokens {
            proof {
                pieces.lemma_flatten_push(seq![c]);
                pieces = pieces.push(seq![c]);
            }
            result.push(chunk);
        } else {
            match stride_large_chunk(chunk, config) {
                Ok(strided) => {
                    let mut k: usize = 0;
                    let ghost before = result@;
                    while k < strided.len()
                        invariant
                            k <= strided@.len(),
                            result@ == before + strided@.take(k as int),
                        decreases strided@.len() - k,
                    {
                        result.push(clone_chunk(&strided[k]));
                        assert(strided@.take(k + 1) =~= strided@.take(k as int).push(strided@[k as int]));
                        assert(before + strided@.take(k + 1) =~= (before + strided@.take(k as int)).push(strided@[k as int]));
                        k += 1;
                    }
                    proof {
                        assert(strided@.take(strided@.len() as int) =~= strided@);
                        pieces.lemma_flatten_push(strided@);
                        pieces = pieces.push(strided@);
                    }
                },
                Err(e) => {
                    return Err(e);
                },
            }
        }
        proof {
            assert forall|j: int| 0 <= j < i + 1 implies striding_piece_ok(#[trigger] chunks@[j], *config, pieces[j]) by {
                if j < i {
                }
            }
        }
        i += 1;
    }
    assert(!(exists|j: int| 0 <= j < chunks@.len() && striding_blocked(#[trigger] chunks@[j], *config)));
    Ok(result)
}

/// Cuts a chunk over the token budget into overlapping windows of
/// characters.
pub fn stride_large_chunk(chunk: Chunk, config: &ChunkConfig) -> (r: Result<Vec<Chunk>, ChunkError>)
    requires
        chunk.span.byte_start + utf8_len(chunk.text@) <= usize::MAX,
        chunk.span.line_start + chunk.text@.len() <= usize::MAX,
    ensures
        strided_ok(chunk, *config, r),
{
    let chars = str_chars(chunk.text.as_str());
    if chars.len() == 0 {
        let mut v: Vec<Chunk> = Vec::new();
        v.push(chunk);
        return Ok(v);
    }
    let ghost s = chunk.text@;
    let char_count = chars.len();
    let estimated = TokenEstimator::estimate_tokens(chunk.text.as_str());
    let max128 = config.max_tokens as u128;
    let ov128 = config.stride_overlap as u128;
    let umax = usize::MAX as u128;
    let window_raw: u128 = if estimated == 0 {
        max128 * 81 / 20
    } else {
        proof { lemma_window_bound(config.max_tokens as int, char_count as int, estimated as int, s); }
        mul_div_floor(9 * max128, char_count as u64, 10 * (estimated as u128))
    };
    let overlap_raw: u128 = if estimated == 0 {
        ov128 * 9 / 2
    } else {
        proof { lemma_window_bound(config.stride_overlap as int, char_count as int, estimated as int, s); }
        mul_div_floor(ov128, char_count as u64, estimated as u128)
    };
    let window_chars: usize = if window_raw > umax { usize::MAX } else { window_raw as usize };
    let overlap_chars: usize = if overlap_raw > umax { usize::MAX } else { overlap_raw as usize };
    assert(window_chars == stride_window_chars(config.max_tokens as int, s.len() as int, estimated_tokens(s) as int));
    assert(overlap_chars == stride_overlap_chars(config.stride_overlap as int, s.len() as int, estimated_tokens(s) as int));
    if window_chars <= overlap_chars {
        return Err(ChunkError::StrideTooSmall);
    }
    let stride_chars = window_chars - overlap_chars;
    let _ = str_utf8_len(chunk.text.as_str());
    let offsets = prefix_byte_offsets(&chars);
    let mut id: Vec<char> = Vec::new();
    push_decimal(&mut id, chunk.span.byte_start);
    id.push(':');
    push_decimal(&mut id, chunk.span.byte_end);
    let original_chunk_id = string_from_chars(id.as_slice());
    let total_strides: usize = if char_count <= window_chars {
        1
    } else {
        let num: u128 = (char_count - overlap_chars) as u128 + stride_chars as u128 - 1;
        let q: u128 = num / (stride_chars as u128);
        assert(q <= char_count) by (nonlinear_arith)
            requires q == (num as int) / (stride_chars as int), num == (char_count - overlap_chars) + stride_chars - 1,
                stride_chars >= 1, overlap_chars < char_count;
        q as usize
    };
    let mut strided: Vec<Chunk> = Vec::new();
    let mut start: usize = 0;
    let mut stride_index: usize = 0;
    proof { lemma_lines_len_le(s); }
    loop
        invariant_except_break
            strided@.len() == stride_index,
        invariant
            s == chunk.text@,
            chars@ == s,
            char_count == s.len() > 0,
            0 < stride_chars == window_chars - overlap_chars,
            offsets@.len() == s.len() + 1,
            forall|i: int| 0 <= i <= s.len() ==> #[trigger] offsets@[i] == utf8_len(s.take(i)),
            chunk.span.byte_start + utf8_len(s) <= usize::MAX,
            chunk.span.line_start + s.len() <= usize::MAX,
            original_chunk_id@ == decimal(chunk.span.byte_start as nat) + seq![':'] + decimal(chunk.span.byte_end as nat),
            total_strides == reported_total_strides(s.len() as int, window_chars as int, overlap_chars as int),
            start == stride_index * stride_chars,
            start < char_count,
            forall|k: int| 0 <= k < stride_index ==> (#[trigger] (k * stride_chars)) + window_chars < char_count,
            forall|k: int| 0 <= k < strided@.len() ==> stride_ok(chunk, window_chars as int, overlap_chars as int, k, total_strides as int, #[trigger] strided@[k]),
        ensures
            strided@.len() == stride_count(s.len() as int, window_chars as int, stride_chars as int),
            forall|k: int| 0 <= k < strided@.len() ==> stride_ok(chunk, window_chars as int, overlap_chars as int, k, total_strides as int, #[trigger] strided@[k]),
        decreases char_count - start,
    {
        let end = if window_chars < char_count - start { start + window_chars } else { char_count };
        let start_byte = offsets[start];
        let end_byte = offsets[end];
        proof {
            lemma_prefix_utf8_le(s, end as int);
            lemma_prefix_utf8_le(s, start as int);
            lemma_lines_len_le(s.take(start as int));
            lemma_lines_len_le(s.subrange(start as int, end as int));
        }
        let piece = slice_chars(&chars, start, end);
        let first_line = count_lines(&chars, 0, start);
        let here = count_lines(&chars, start, end);
        assert(s.subrange(0, start as int) =~= s.take(start as int));
        let line_offset = if first_line > 0 { first_line - 1 } else { 0 };
        let line_start = chunk.span.line_start + line_offset;
        let line_end = line_start + (if here > 0 { here - 1 } else { 0 });
        let c = Chunk {
            span: Span {
                byte_start: chunk.span.byte_start + start_byte,
                byte_end: chunk.span.byte_start + end_byte,
                line_start,
                line_end,
            },
            text: string_from_chars(piece.as_slice()),
            chunk_type: chunk.chunk_type,
            stride_info: Some(StrideInfo {
                original_chunk_id: clone_string(&original_chunk_id),
                stride_index,
                total_strides,
                overlap_start: if stride_index > 0 { overlap_chars } else { 0 },
                overlap_end: if end < char_count { overlap_chars } else { 0 },
            }),
        };
        let ghost prev = strided@;
        strided.push(c);
        assert forall|k: int| 0 <= k < strided@.len() implies stride_ok(chunk, window_chars as int, overlap_chars as int, k, total_strides as int, #[trigger] strided@[k]) by {
            if k < prev.len() {
                assert(strided@[k] == prev[k]);
            }
        }
        if end >= char_count {
            proof {
                lemma_stride_count(char_count as int, window_chars as int, stride_chars as int, stride_index as int);
            }
            break;
        }
        let ghost old_index = stride_index;
        assert(stride_index <= start) by (nonlinear_arith)
            requires start == stride_index * stride_chars, stride_chars >= 1;
        start = start + stride_chars;
        stride_index = stride_index + 1;
        proof {
            assert(start == stride_index * stride_chars) by (nonlinear_arith)
                requires start == old_index * stride_chars + stride_chars, stride_index == old_index + 1;
            assert(((old_index as int) * stride_chars) + window_chars < char_count);
        }
    }
    Ok(strided)
}

proof fn lemma_window_bound(max_tokens: int, chars: int, tokens: int, s: Seq<char>)
    requires
        0 <= max_tokens <= usize::MAX,
        0 < chars <= usize::MAX,
        chars == s.len(),
        tokens == estimated_tokens(s),
        tokens > 0,
    ensures
        9 * max_tokens * chars / (10 * tokens) < 0x1_0000_0000_0000_0000_0000_0000,
        max_tokens * chars / tokens < 0x1_0000_0000_0000_0000_0000_0000,
{
    assert(tokens * 48 >= 10 * chars);
    assert(9 * max_tokens * chars / (10 * tokens) <= 5 * max_tokens) by (nonlinear_arith)
        requires tokens * 48 >= 10 * chars, tokens > 0, chars > 0, max_tokens >= 0;
    assert(max_tokens * chars / tokens <= 5 * max_tokens) by (nonlinear_arith)
        requires tokens * 48 >= 10 * chars, tokens > 0, chars > 0, max_tokens >= 0;
}

proof fn lemma_stride_count(n: int, window: int, step: int, last: int)
    requires
        0 < step <= window,
        0 <= last,
        last * step < n <= last * step + window,
        forall|k: int| 0 <= k < last ==> (#[trigger] (k * step)) + window < n,
    ensures
        last + 1 == stride_count(n, window, step),
{
    if n <= window {
        if last > 0 {
            assert(0 * step + window < n);
        }
    } else {
        assert(last > 0) by (nonlinear_arith) requires n > window, n <= last * step + window, step > 0;
        assert((last - 1) * step + window < n);
        assert((n - window + step - 1) / step == last) by (nonlinear_arith)
            requires (last - 1) * step + window < n, n <= last * step + window, step > 0;
    }
}


impl ParseableLanguage {
    /// The parseable language for a detected language, or the language back
    /// when it has no syntax-aware chunker.
    pub fn try_from(lang: Language) -> (r: Result<ParseableLanguage, Language>)
        ensures
            r == parseable(lang),
    {
        match lang {
            Language::Python => Ok(ParseableLanguage::Python),
            Language::TypeScript => Ok(ParseableLanguage::TypeScript),
            Language::JavaScript => Ok(ParseableLanguage::JavaScript),
            Language::Haskell => Ok(ParseableLanguage::Haskell),
            Language::Rust => Ok(ParseableLanguage::Rust),
            Language::Ruby => Ok(ParseableLanguage::Ruby),
            Language::Go => Ok(ParseableLanguage::Go),
            Language::CSharp => Ok(ParseableLanguage::CSharp),
            _ => Err(lang),
        }
    }

    /// Lower-case name of the language.
    pub fn name(&self) -> (r: &'static str)
        ensures
            r@ == parseable_name(*self),
    {
        match self {
            ParseableLanguage::Python => "python",
            ParseableLanguage::TypeScript => "typescript",
            ParseableLanguage::JavaScript => "javascript",
            ParseableLanguage::Haskell => "haskell",
            ParseableLanguage::Rust => "rust",
            ParseableLanguage::Ruby => "ruby",
            ParseableLanguage::Go => "go",
            ParseableLanguage::CSharp => "csharp",
            ParseableLanguage::Zig => "zig",
        }
    }
}

/// The syntax-aware chunker of a language, if any.
pub open spec fn parseable(lang: Language) -> Result<ParseableLanguage, Language> {
    match lang {
        Language::Python => Ok(ParseableLanguage::Python),
        Language::TypeScript => Ok(ParseableLanguage::TypeScript),
        Language::JavaScript => Ok(ParseableLanguage::JavaScript),
        Language::Haskell => Ok(ParseableLanguage::Haskell),
        Language::Rust => Ok(ParseableLanguage::Rust),
        Language::Ruby => Ok(ParseableLanguage::Ruby),
        Language::Go => Ok(ParseableLanguage::Go),
        Language::CSharp => Ok(ParseableLanguage::CSharp),
        _ => Err(lang),
    }
}

/// Lower-case name of a parseable language.
pub open spec fn parseable_name(l: ParseableLanguage) -> Seq<char> {
    match l {
        ParseableLanguage::Python => "python"@,
        ParseableLanguage::TypeScript => "typescript"@,
        ParseableLanguage::JavaScript => "javascript"@,
        ParseableLanguage::Haskell => "haskell"@,
        ParseableLanguage::Rust => "rust"@,
        ParseableLanguage::Ruby => "ruby"@,
        ParseableLanguage::Go => "go"@,
        ParseableLanguage::CSharp => "csharp"@,
        ParseableLanguage::Zig => "zig"@,
    }
}

/// Whether a node of this kind is a chunk in `lang`.
pub open spec fn node_is_chunk(lang: ParseableLanguage, k: Seq<char>) -> bool {
    match lang {
        ParseableLanguage::Python => k == "function_definition"@ || k == "class_definition"@,
        ParseableLanguage::TypeScript | ParseableLanguage::JavaScript => k == "function_declaration"@
            || k == "class_declaration"@ || k == "method_definition"@ || k == "arrow_function"@,
        ParseableLanguage::Haskell => k == "signature"@ || k == "data_type"@ || k == "newtype"@ || k
            == "type_synonym"@ || k == "type_family"@ || k == "class"@ || k == "instance"@,
        ParseableLanguage::Rust => k == "function_item"@ || k == "impl_item"@ || k == "struct_item"@
            || k == "enum_item"@ || k == "trait_item"@ || k == "mod_item"@,
        ParseableLanguage::Ruby => k == "method"@ || k == "class"@ || k == "module"@ || k
            == "singleton_method"@,
        ParseableLanguage::Go => k == "function_declaration"@ || k == "method_declaration"@ || k
            == "type_declaration"@ || k == "var_declaration"@ || k == "const_declaration"@,
        ParseableLanguage::CSharp => k == "method_declaration"@ || k == "class_declaration"@ || k
            == "interface_declaration"@ || k == "variable_declaration"@,
        ParseableLanguage::Zig => k == "function_declaration"@ || k == "test_declaration"@ || k
            == "variable_declaration"@ || k == "struct_declaration"@ || k == "enum_declaration"@ || k
            == "union_declaration"@ || k == "opaque_declaration"@ || k == "error_set_declaration"@
            || k == "comptime_declaration"@,
    }
}

/// The chunk type of a node kind.
pub open spec fn node_chunk_type(k: Seq<char>) -> ChunkType {
    if k == "function_definition"@ || k == "function_declaration"@ || k == "arrow_function"@ || k
        == "function"@ || k == "signature"@ || k == "function_item"@ || k == "def"@ || k == "defp"@
        || k == "method"@ || k == "singleton_method"@ || k == "defn"@ || k == "defn-"@ {
        ChunkType::Function
    } else if k == "class_definition"@ || k == "class_declaration"@ || k == "instance_declaration"@
        || k == "class"@ || k == "instance"@ || k == "struct_item"@ || k == "enum_item"@ || k
        == "defstruct"@ || k == "defrecord"@ || k == "deftype"@ || k == "type_declaration"@ || k
        == "struct_declaration"@ || k == "enum_declaration"@ || k == "union_declaration"@ || k
        == "opaque_declaration"@ || k == "error_set_declaration"@ {
        ChunkType::Class
    } else if k == "method_definition"@ || k == "method_declaration"@ || k == "defmacro"@ {
        ChunkType::Method
    } else if k == "data_type"@ || k == "newtype"@ || k == "type_synomym"@ || k == "type_family"@
        || k == "impl_item"@ || k == "trait_item"@ || k == "mod_item"@ || k == "defmodule"@ || k
        == "module"@ || k == "defprotocol"@ || k == "interface_declaration"@ || k == "ns"@ || k
        == "var_declaration"@ || k == "const_declaration"@ || k == "variable_declaration"@ || k
        == "test_declaration"@ || k == "comptime_declaration"@ {
        ChunkType::Module
    } else {
        ChunkType::Text
    }
}

fn is_chunk_kind(lang: ParseableLanguage, k: &str) -> (r: bool)
    ensures
        r == node_is_chunk(lang, k@),
{
    match lang {
        ParseableLanguage::Python => str_eq(k, "function_definition") || str_eq(k, "class_definition"),
        ParseableLanguage::TypeScript | ParseableLanguage::JavaScript => str_eq(k, "function_declaration")
            || str_eq(k, "class_declaration") || str_eq(k, "method_definition") || str_eq(k, "arrow_function"),
        ParseableLanguage::Haskell => str_eq(k, "signature") || str_eq(k, "data_type") || str_eq(k, "newtype")
            || str_eq(k, "type_synonym") || str_eq(k, "type_family") || str_eq(k, "class") || str_eq(k, "instance"),
        ParseableLanguage::Rust => str_eq(k, "function_item") || str_eq(k, "impl_item") || str_eq(k, "struct_item")
            || str_eq(k, "enum_item") || str_eq(k, "trait_item") || str_eq(k, "mod_item"),
        ParseableLanguage::Ruby => str_eq(k, "method") || str_eq(k, "class") || str_eq(k, "module")
            || str_eq(k, "singleton_method"),
        ParseableLanguage::Go => str_eq(k, "function_declaration") || str_eq(k, "method_declaration")
            || str_eq(k, "type_declaration") || str_eq(k, "var_declaration") || str_eq(k, "const_declaration"),
        ParseableLanguage::CSharp => str_eq(k, "method_declaration") || str_eq(k, "class_declaration")
            || str_eq(k, "interface_declaration") || str_eq(k, "variable_declaration"),
        ParseableLanguage::Zig => str_eq(k, "function_declaration") || str_eq(k, "test_declaration")
            || str_eq(k, "variable_declaration") || str_eq(k, "struct_declaration") || str_eq(k, "enum_declaration")
            || str_eq(k, "union_declaration") || str_eq(k, "opaque_declaration") || str_eq(k, "error_set_declaration")
            || str_eq(k, "comptime_declaration"),
    }
}

fn chunk_type_of_kind(k: &str) -> (r: ChunkType)
    ensures
        r == node_chunk_type(k@),
{
    if str_eq(k, "function_definition") || str_eq(k, "function_declaration") || str_eq(k, "arrow_function")
        || str_eq(k, "function") || str_eq(k, "signature") || str_eq(k, "function_item") || str_eq(k, "def")
        || str_eq(k, "defp") || str_eq(k, "method") || str_eq(k, "singleton_method") || str_eq(k, "defn")
        || str_eq(k, "defn-") {
        ChunkType::Function
    } else if str_eq(k, "class_definition") || str_eq(k, "class_declaration") || str_eq(k, "instance_declaration")
        || str_eq(k, "class") || str_eq(k, "instance") || str_eq(k, "struct_item") || str_eq(k, "enum_item")
        || str_eq(k, "defstruct") || str_eq(k, "defrecord") || str_eq(k, "deftype") || str_eq(k, "type_declaration")
        || str_eq(k, "struct_declaration") || str_eq(k, "enum_declaration") || str_eq(k, "union_declaration")
        || str_eq(k, "opaque_declaration") || str_eq(k, "error_set_declaration") {
        ChunkType::Class
    } else if str_eq(k, "method_definition") || str_eq(k, "method_declaration") || str_eq(k, "defmacro") {
        ChunkType::Method
    } else if str_eq(k, "data_type") || str_eq(k, "newtype") || str_eq(k, "type_synomym") || str_eq(k, "type_family")
        || str_eq(k, "impl_item") || str_eq(k, "trait_item") || str_eq(k, "mod_item") || str_eq(k, "defmodule")
        || str_eq(k, "module") || str_eq(k, "defprotocol") || str_eq(k, "interface_declaration") || str_eq(k, "ns")
        || str_eq(k, "var_declaration") || str_eq(k, "const_declaration") || str_eq(k, "variable_declaration")
        || str_eq(k, "test_declaration") || str_eq(k, "comptime_declaration") {
        ChunkType::Module
    } else {
        ChunkType::Text
    }
}

/// The nodes of `nodes` that are chunks in `lang`, in order.
pub open spec fn chunk_nodes(
    lang: ParseableLanguage,
    nodes: Seq<(Seq<char>, usize, usize, usize, usize)>,
) -> Seq<(Seq<char>, usize, usize, usize, usize)>
    decreases nodes.len(),
{
    if nodes.len() == 0 {
        seq![]
    } else {
        let prev = chunk_nodes(lang, nodes.drop_last());
        if node_is_chunk(lang, nodes.last().0) {
            prev.push(nodes.last())
        } else {
            prev
        }
    }
}

/// The chunk made from node `n` of the syntax tree of `s`.
pub open spec fn node_chunk_ok(s: Seq<char>, n: (Seq<char>, usize, usize, usize, usize), c: Chunk) -> bool {
    &&& c.span == Span { byte_start: n.1, byte_end: n.2, line_start: (n.3 + 1) as usize, line_end: (n.4 + 1) as usize }
    &&& encode_utf8(c.text@) == encode_utf8(s).subrange(n.1 as int, n.2 as int)
    &&& c.chunk_type == node_chunk_type(n.0)
    &&& c.stride_info is None
}

/// The chunks of the syntax-tree nodes `sel` of `s`.
pub open spec fn node_chunks_ok(s: Seq<char>, sel: Seq<(Seq<char>, usize, usize, usize, usize)>, v: Seq<Chunk>) -> bool {
    &&& v.len() == sel.len()
    &&& forall|k: int| 0 <= k < v.len() ==> node_chunk_ok(s, sel[k], #[trigger] v[k])
}

/// Syntax-aware chunking of `s` in `lang`: one chunk per chunk node, or
/// the generic chunking when there is none.
pub open spec fn language_chunks_ok(s: Seq<char>, lang: ParseableLanguage, r: Result<Vec<Chunk>, ChunkError>) -> bool {
    match syntax_nodes(s, grammar_of(lang)) {
        None => r == Err::<Vec<Chunk>, ChunkError>(ChunkError::ParseFailed(lang)),
        Some(nodes) => r matches Ok(v) && {
            let sel = chunk_nodes(lang, nodes);
            if sel.len() == 0 {
                generic_chunks_ok(s, None, v@)
            } else {
                node_chunks_ok(s, sel, v@)
            }
        },
    }
}

/// Chunks in the pre-order of the syntax nodes they were made from: each
/// starts no earlier than the one before it, a later chunk lies inside an
/// earlier one or starts where it ends or after, and each ends on a line no
/// earlier than the one it starts on.
pub open spec fn chunks_in_tree_order(v: Seq<Chunk>) -> bool {
    &&& forall|i: int, j: int| 0 <= i < j < v.len() ==> {
        &&& (#[trigger] v[i]).span.byte_start <= (#[trigger] v[j]).span.byte_start
        &&& (v[j].span.byte_end <= v[i].span.byte_end || v[i].span.byte_end <= v[j].span.byte_start)
    }
    &&& forall|k: int| 0 <= k < v.len() ==> (#[trigger] v[k]).span.line_start <= v[k].span.line_end
}

/// Whether every node's start row is at most its end row.
pub open spec fn rows_ordered(ns: Seq<(Seq<char>, usize, usize, usize, usize)>) -> bool {
    forall|k: int| 0 <= k < ns.len() ==> (#[trigger] ns[k]).3 <= ns[k].4
}

/// The chunk nodes are some of the nodes, in their order: still in
/// pre-order, with rows in order.
proof fn lemma_chunk_nodes_ordered(lang: ParseableLanguage, ns: Seq<(Seq<char>, usize, usize, usize, usize)>)
    requires
        preordered(ns),
        rows_ordered(ns),
    ensures
        preordered(chunk_nodes(lang, ns)),
        rows_ordered(chunk_nodes(lang, ns)),
        forall|i: int| 0 <= i < chunk_nodes(lang, ns).len() ==> exists|a: int| 0 <= a < ns.len() && #[trigger] chunk_nodes(lang, ns)[i] == ns[a],
    decreases ns.len(),
{
    if ns.len() > 0 {
        let rest = ns.drop_last();
        assert forall|i: int, j: int| 0 <= i < j < rest.len() implies {
            &&& (#[trigger] rest[i]).1 <= (#[trigger] rest[j]).1
            &&& (rest[j].2 <= rest[i].2 || rest[i].2 <= rest[j].1)
        } by {
            assert(rest[i] == ns[i] && rest[j] == ns[j]);
        }
        assert forall|k: int| 0 <= k < rest.len() implies (#[trigger] rest[k]).3 <= rest[k].4 by {
            assert(rest[k] == ns[k]);
        }
        lemma_chunk_nodes_ordered(lang, rest);
        let prev = chunk_nodes(lang, rest);
        let x = ns.last();
        if node_is_chunk(lang, x.0) {
            let cn = prev.push(x);
            assert(chunk_nodes(lang, ns) == cn);
            assert forall|i: int, j: int| 0 <= i < j < cn.len() implies {
                &&& (#[trigger] cn[i]).1 <= (#[trigger] cn[j]).1
                &&& (cn[j].2 <= cn[i].2 || cn[i].2 <= cn[j].1)
            } by {
                if j < prev.len() {
                    assert(cn[i] == prev[i] && cn[j] == prev[j]);
                } else {
                    assert(cn[i] == prev[i]);
                    let a = choose|a: int| 0 <= a < rest.len() && #[trigger] prev[i] == rest[a];
                    assert(rest[a] == ns[a]);
                    assert(cn[j] == ns[ns.len() - 1]);
                }
            }
            assert forall|k: int| 0 <= k < cn.len() implies (#[trigger] cn[k]).3 <= cn[k].4 by {
                if k < prev.len() {
                    assert(cn[k] == prev[k]);
                }
            }
            assert forall|i: int| 0 <= i < cn.len() implies exists|a: int| 0 <= a < ns.len() && #[trigger] cn[i] == ns[a] by {
                if i < prev.len() {
                    let a = choose|a: int| 0 <= a < rest.len() && #[trigger] prev[i] == rest[a];
                    assert(cn[i] == ns[a]);
                } else {
                    assert(cn[i] == ns[ns.len() - 1]);
                }
            }
        } else {
            assert(chunk_nodes(lang, ns) == prev);
            assert forall|i: int| 0 <= i < prev.len() implies exists|a: int| 0 <= a < ns.len() && #[trigger] prev[i] == ns[a] by {
                let a = choose|a: int| 0 <= a < rest.len() && #[trigger] prev[i] == rest[a];
                assert(rest[a] == ns[a]);
            }
        }
    }
}

/// Chunks source text along the definitions of its syntax tree. Chunks
/// made from syntax nodes come in the order of the tree (see
/// `chunks_in_tree_order`).
pub fn chunk_language(text: &str, language: ParseableLanguage) -> (r: Result<Vec<Chunk>, ChunkError>)
    requires
        utf8_len(text@) < usize::MAX,
    ensures
        language_chunks_ok(text@, language, r),
        r matches Ok(v) ==> forall|k: int| 0 <= k < v@.len() ==> stride_safe(#[trigger] v@[k]),
        r matches Ok(v) ==> (match syntax_nodes(text@, grammar_of(language)) {
            Some(nodes) => chunk_nodes(language, nodes).len() > 0 ==> chunks_in_tree_order(v@),
            None => true,
        }),
{
    let nodes = match parse_syntax(text, grammar_constant(grammar_for(language))) {
        Some(nodes) => nodes,
        None => {
            return Err(ChunkError::ParseFailed(language));
        },
    };
    let ghost shapes = nodes@.map_values(|n: SyntaxNode| n.shape());
    let mut chunks: Vec<Chunk> = Vec::new();
    let mut i: usize = 0;
    while i < nodes.len()
        invariant
            i <= nodes@.len(),
            shapes == nodes@.map_values(|n: SyntaxNode| n.shape()),
            utf8_len(text@) < usize::MAX,
            forall|j: int| 0 <= j < nodes@.len() ==> node_in_text(text@, #[trigger] nodes@[j]),
            node_chunks_ok(text@, chunk_nodes(language, shapes.take(i as int)), chunks@),
            forall|k: int| 0 <= k < chunks@.len() ==> stride_safe(#[trigger] chunks@[k]),
        decreases nodes@.len() - i,
    {
        let node = &nodes[i];
        proof {
            assert(shapes.take(i + 1).drop_last() =~= shapes.take(i as int));
            assert(shapes.take(i + 1).last() == node.shape());
        }
        if is_chunk_kind(language, node.kind.as_str()) {
            let c = Chunk {
                span: Span {
                    byte_start: node.start_byte,
                    byte_end: node.end_byte,
                    line_start: node.start_row + 1,
                    line_end: node.end_row + 1,
                },
                text: node.text.clone(),
                chunk_type: chunk_type_of_kind(node.kind.as_str()),
                stride_info: None,
            };
            proof {
                assert(node_in_text(text@, nodes@[i as int]));
                lemma_utf8_len_ge_len(c.text@);
                assert(utf8_len(c.text@) == node.end_byte - node.start_byte);
            }
            let ghost old = chunks@;
            chunks.push(c);
            assert forall|k: int| 0 <= k < chunks@.len() implies stride_safe(#[trigger] chunks@[k]) by {
                if k < old.len() {
                    assert(chunks@[k] == old[k]);
                }
            }
            assert forall|k: int| 0 <= k < chunks@.len() implies node_chunk_ok(text@, chunk_nodes(language, shapes.take(i + 1))[k], #[trigger] chunks@[k]) by {
                if k < old.len() {
                    assert(chunks@[k] == old[k]);
                }
            }
        }
        i += 1;
    }
    assert(shapes.take(nodes@.len() as int) =~= shapes);
    if chunks.len() == 0 {
        return chunk_generic_with_token_config(text, None);
    }
    proof {
        assert forall|k: int| 0 <= k < shapes.len() implies (#[trigger] shapes[k]).3 <= shapes[k].4 by {
            assert(shapes[k] == nodes@[k].shape());
            assert(node_in_text(text@, nodes@[k]));
        }
        lemma_chunk_nodes_ordered(language, shapes);
        let cn = chunk_nodes(language, shapes);
        let v = chunks@;
        assert forall|i: int, j: int| 0 <= i < j < v.len() implies {
            &&& (#[trigger] v[i]).span.byte_start <= (#[trigger] v[j]).span.byte_start
            &&& (v[j].span.byte_end <= v[i].span.byte_end || v[i].span.byte_end <= v[j].span.byte_start)
        } by {
            assert(node_chunk_ok(text@, cn[i], v[i]));
            assert(node_chunk_ok(text@, cn[j], v[j]));
        }
        assert forall|k: int| 0 <= k < v.len() implies (#[trigger] v[k]).span.line_start <= v[k].span.line_end by {
            assert(node_chunk_ok(text@, cn[k], v[k]));
            let n = cn[k];
            let a = choose|a: int| 0 <= a < shapes.len() && #[trigger] cn[k] == shapes[a];
            assert(shapes[a] == nodes@[a].shape());
            assert(node_in_text(text@, nodes@[a]));
        }
    }
    Ok(chunks)
}

/// Generic chunking with the default model's sizes.
pub fn chunk_generic(text: &str) -> (r: Result<Vec<Chunk>, ChunkError>)
    requires
        utf8_len(text@) < usize::MAX,
    ensures
        r matches Ok(v) && generic_chunks_ok(text@, None, v@),
        r matches Ok(v) ==> forall|k: int| 0 <= k < v@.len() ==> stride_safe(#[trigger] v@[k]),
{
    chunk_generic_with_token_config(text, None)
}

/// Syntax-aware chunking; the model does not change language chunking.
pub fn chunk_language_with_model(text: &str, language: ParseableLanguage, model_name: Option<&str>) -> (r: Result<Vec<Chunk>, ChunkError>)
    requires
        utf8_len(text@) < usize::MAX,
    ensures
        language_chunks_ok(text@, language, r),
        r matches Ok(v) ==> forall|k: int| 0 <= k < v@.len() ==> stride_safe(#[trigger] v@[k]),
        r matches Ok(v) ==> (match syntax_nodes(text@, grammar_of(language)) {
            Some(nodes) => chunk_nodes(language, nodes).len() > 0 ==> chunks_in_tree_order(v@),
            None => true,
        }),
{
    chunk_language(text, language)
}

/// The chunks before striding: by syntax tree for a parseable language,
/// by line windows otherwise.
pub open spec fn base_chunks_ok(s: Seq<char>, language: Option<Language>, model_name: Option<Seq<char>>, r: Result<Vec<Chunk>, ChunkError>) -> bool {
    match language {
        Some(l) => match parseable(l) {
            Ok(pl) => language_chunks_ok(s, pl, r),
            Err(_) => r matches Ok(v) && generic_chunks_ok(s, model_name, v@),
        },
        None => r matches Ok(v) && generic_chunks_ok(s, model_name, v@),
    }
}

/// The result of chunking: the base chunks, strided when the configuration
/// asks for it.
pub open spec fn chunking_ok(s: Seq<char>, language: Option<Language>, config: ChunkConfig, model_name: Option<Seq<char>>, r: Result<Vec<Chunk>, ChunkError>) -> bool {
    exists|base: Result<Vec<Chunk>, ChunkError>| {
        &&& base_chunks_ok(s, language, model_name, base)
        &&& match base {
            Err(e) => r == Err::<Vec<Chunk>, ChunkError>(e),
            Ok(b) => if config.enable_striding { striding_ok(b@, config, r) } else { r == Ok::<Vec<Chunk>, ChunkError>(b) },
        }
    }
}

/// Chunks text with the given configuration and model.
pub fn chunk_text_with_config_and_model(
    text: &str,
    language: Option<Language>,
    config: &ChunkConfig,
    model_name: Option<&str>,
) -> (r: Result<Vec<Chunk>, ChunkError>)
    requires
        utf8_len(text@) < usize::MAX,
    ensures
        chunking_ok(text@, language, *config, opt_view(model_name), r),
{
    let parsed = match language {
        Some(l) => match ParseableLanguage::try_from(l) {
            Ok(pl) => Some(pl),
            Err(_) => None,
        },
        None => None,
    };
    let base = match parsed {
        Some(pl) => chunk_language_with_model(text, pl, model_name),
        None => chunk_generic_with_token_config(text, model_name),
    };
    let ghost base_copy = base;
    assert(base_chunks_ok(text@, language, opt_view(model_name), base_copy));
    match base {
        Err(e) => Err(e),
        Ok(chunks) => {
            if config.enable_striding {
                apply_striding(chunks, config)
            } else {
                Ok(chunks)
            }
        },
    }
}

/// Chunks text with the default configuration.
pub fn chunk_text(text: &str, language: Option<Language>) -> (r: Result<Vec<Chunk>, ChunkError>)
    requires
        utf8_len(text@) < usize::MAX,
    ensures
        chunking_ok(text@, language, ChunkConfig { max_tokens: 8192, stride_overlap: 1024, enable_striding: true }, None, r),
{
    chunk_text_with_config(text, language, &ChunkConfig::default())
}

/// Chunks text with the given configuration.
pub fn chunk_text_with_config(text: &str, language: Option<Language>, config: &ChunkConfig) -> (r: Result<Vec<Chunk>, ChunkError>)
    requires
        utf8_len(text@) < usize::MAX,
    ensures
        chunking_ok(text@, language, *config, None, r),
{
    chunk_text_with_config_and_model(text, language, config, None)
}

/// Chunks text for a model: the model's sizes set the generic windows and
/// the striding budget.
pub fn chunk_text_with_model(text: &str, language: Option<Language>, model_name: Option<&str>) -> (r: Result<Vec<Chunk>, ChunkError>)
    requires
        utf8_len(text@) < usize::MAX,
    ensures
        chunking_ok(
            text@,
            language,
            ChunkConfig {
                max_tokens: model_chunk_config(opt_view(model_name)).0,
                stride_overlap: model_chunk_config(opt_view(model_name)).1,
                enable_striding: true,
            },
            opt_view(model_name),
            r,
        ),
{
    let (target_tokens, overlap_tokens) = get_model_chunk_config(model_name);
    let config = ChunkConfig { max_tokens: target_tokens, stride_overlap: overlap_tokens, enable_striding: true };
    chunk_text_with_config_and_model(text, language, &config, model_name)
}

} // verus!
