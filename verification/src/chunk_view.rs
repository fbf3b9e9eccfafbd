//! The chunk view: how the chunks of a file are drawn beside its lines,
//! one bracket column per nesting depth.
use vstd::prelude::*;

use crate::text::{
    clone_string, decimal, has_prefix, join_with, push_all, push_decimal, push_joined, push_str_chars,
    starts_with_seq, str_chars, str_eq, string_from_chars, string_views, trim_bounds, trim_start,
};
use crate::chunk::{Chunk, ChunkType};
use crate::types::Span;

verus! {

/// What is known of a chunk when drawing it.
#[derive(Debug)]
pub struct IndexedChunkMeta {
    pub span: Span,
    pub chunk_type: Option<String>,
    pub breadcrumb: Option<String>,
    pub ancestry: Vec<String>,
    pub estimated_tokens: Option<usize>,
    pub byte_length: Option<usize>,
    pub leading_trivia: Option<Vec<String>>,
    pub trailing_trivia: Option<Vec<String>>,
}

/// One cell of the bracket columns.
#[derive(Debug, Clone, Copy, PartialEq, Eq, Structural)]
pub struct ChunkColumnChar {
    pub ch: char,
    pub is_match: bool,
}

/// A row of the chunk view.
#[derive(Debug)]
pub enum ChunkDisplayLine {
    /// Header of the matched chunk, indented by `prefix` columns.
    Label { prefix: usize, text: String },
    /// A source line with its bracket columns.
    Content {
        columns: Vec<ChunkColumnChar>,
        line_num: usize,
        text: String,
        is_match_line: bool,
        in_matched_chunk: bool,
        has_any_chunk: bool,
    },
    /// A note below the lines.
    Message(String),
}

/// A chunk of type "text" (imports, comments); the others are structural.
pub open spec fn is_text_chunk(m: IndexedChunkMeta) -> bool {
    m.chunk_type matches Some(t) && t@ == "text"@
}

/// Order in which chunks are stacked: by first line, longer first.
pub open spec fn stacked_before(a: Span, b: Span) -> bool {
    a.line_start < b.line_start || (a.line_start == b.line_start && a.line_end > b.line_end)
}

/// Structural chunks among the first `n` that enclose `c` when it is
/// stacked: stacked before it and still open at its first line.
pub open spec fn enclosing_count(all: Seq<IndexedChunkMeta>, n: int, c: Span) -> nat
    decreases n,
{
    if n <= 0 {
        0
    } else {
        enclosing_count(all, n - 1, c) + (if !is_text_chunk(all[n - 1]) && stacked_before(
            all[n - 1].span,
            c,
        ) && all[n - 1].span.line_end > c.line_start {
            1nat
        } else {
            0nat
        })
    }
}

/// Structural chunks among the first `n` with the same lines as `c`.
pub open spec fn same_span_count(all: Seq<IndexedChunkMeta>, n: int, c: Span) -> nat
    decreases n,
{
    if n <= 0 {
        0
    } else {
        same_span_count(all, n - 1, c) + (if !is_text_chunk(all[n - 1])
            && all[n - 1].span.line_start == c.line_start && all[n - 1].span.line_end
            == c.line_end {
            1nat
        } else {
            0nat
        })
    }
}

/// Nesting depth of a structural chunk with lines `c`: chunks are stacked
/// in order of first line (longer first) and a chunk's depth is the number
/// of chunks on the stack still open at its first line; where several
/// chunks share `c`, the depth is that of the last of them.
pub open spec fn chunk_depth(all: Seq<IndexedChunkMeta>, c: Span) -> nat {
    enclosing_count(all, all.len() as int, c) + (if c.line_end > c.line_start && same_span_count(
        all,
        all.len() as int,
        c,
    ) > 0 {
        (same_span_count(all, all.len() as int, c) - 1) as nat
    } else {
        0nat
    })
}

/// One more than the largest depth among the first `n` structural chunks
/// (0 when there is none).
pub open spec fn depth_bound(all: Seq<IndexedChunkMeta>, n: int) -> nat
    decreases n,
{
    if n <= 0 {
        0
    } else {
        let prev = depth_bound(all, n - 1);
        let here = if !is_text_chunk(all[n - 1]) { chunk_depth(all, all[n - 1].span) + 1 } else { 0 };
        if here > prev { here } else { prev }
    }
}

/// Number of bracket columns: one per depth, at least one.
pub open spec fn column_count(all: Seq<IndexedChunkMeta>) -> nat {
    let b = depth_bound(all, all.len() as int);
    if b == 0 { 1 } else { b }
}

/// Whether a chunk is of type "text".
pub fn chunk_is_text(m: &IndexedChunkMeta) -> (r: bool)
    ensures
        r == is_text_chunk(*m),
{
    match &m.chunk_type {
        Some(t) => str_eq(t.as_str(), "text"),
        None => false,
    }
}

/// Depth of the structural chunk with lines `c`.
fn depth_of(all: &[IndexedChunkMeta], c: Span) -> (d: usize)
    ensures
        d == chunk_depth(all@, c),
{
    let mut enclosing: usize = 0;
    let mut same: usize = 0;
    let mut i: usize = 0;
    while i < all.len()
        invariant
            i <= all@.len(),
            enclosing == enclosing_count(all@, i as int, c),
            same == same_span_count(all@, i as int, c),
            enclosing + same <= i,
        decreases all@.len() - i,
    {
        let m = &all[i];
        let text = chunk_is_text(m);
        if !text && (m.span.line_start < c.line_start || (m.span.line_start == c.line_start && m.span.line_end > c.line_end))
            && m.span.line_end > c.line_start {
            enclosing += 1;
        }
        if !text && m.span.line_start == c.line_start && m.span.line_end == c.line_end {
            same += 1;
        }
        i += 1;
    }
    if c.line_end > c.line_start && same > 0 {
        enclosing + (same - 1)
    } else {
        enclosing
    }
}

/// Depth of every chunk (0 for text chunks) and the number of columns.
fn chunk_depths(all: &[IndexedChunkMeta]) -> (r: (Vec<usize>, usize))
    ensures
        r.0@.len() == all@.len(),
        forall|i: int| 0 <= i < all@.len() ==> #[trigger] r.0@[i] < r.1,
        forall|i: int| 0 <= i < all@.len() && !is_text_chunk(all@[i]) ==> #[trigger] r.0@[i] == chunk_depth(all@, all@[i].span),
        r.1 == column_count(all@),
{
    let mut depths: Vec<usize> = Vec::new();
    let mut bound: usize = 0;
    let mut i: usize = 0;
    while i < all.len()
        invariant
            i <= all@.len(),
            depths@.len() == i,
            forall|j: int| 0 <= j < i && !is_text_chunk(all@[j]) ==> #[trigger] depths@[j] == chunk_depth(all@, all@[j].span),
            bound == depth_bound(all@, i as int),
            bound <= all@.len(),
            forall|j: int| 0 <= j < i ==> #[trigger] depths@[j] < bound || (depths@[j] == 0 && bound == 0),
        decreases all@.len() - i,
    {
        if chunk_is_text(&all[i]) {
            depths.push(0);
        } else {
            let d = depth_of(all, all[i].span);
            proof {
                lemma_depth_le(all@, i as int);
            }
            depths.push(d);
            if d + 1 > bound {
                bound = d + 1;
            }
        }
        i += 1;
    }
    let columns = if bound == 0 { 1 } else { bound };
    (depths, columns)
}

proof fn lemma_depth_le(all: Seq<IndexedChunkMeta>, i: int)
    requires
        0 <= i < all.len(),
        !is_text_chunk(all[i]),
    ensures
        chunk_depth(all, all[i].span) + 1 <= all.len(),
{
    lemma_counts_le(all, all.len() as int, all[i].span);
    lemma_same_member(all, all.len() as int, i);
}

proof fn lemma_same_member(all: Seq<IndexedChunkMeta>, n: int, i: int)
    requires
        0 <= i < n <= all.len(),
        !is_text_chunk(all[i]),
    ensures
        same_span_count(all, n, all[i].span) >= 1,
    decreases n,
{
    if i < n - 1 {
        lemma_same_member(all, n - 1, i);
    }
}

proof fn lemma_counts_le(all: Seq<IndexedChunkMeta>, n: int, c: Span)
    requires
        0 <= n,
    ensures
        enclosing_count(all, n, c) + same_span_count(all, n, c) <= n,
    decreases n,
{
    if n > 0 {
        lemma_counts_le(all, n - 1, c);
    }
}


// ---------------------------------------------------------------------------
// Which chunk occupies each bracket column on a given line.
//
// The view covers lines `cs + 1 ..= ce`. Before the first line, each column
// holds the last structural chunk (in input order) of that depth that starts
// before the view and is still open on its first line. On a line `l`, the
// chunks starting there (and ending no earlier than line `cs`) are placed in
// their columns longest first, so a column ends up with the shortest of them,
// the last in input order among equally long ones. A chunk leaves its column
// once the line is past its last line.

/// Lines covered by a span, as `saturating_sub` counts them.
pub open spec fn span_len(s: Span) -> int {
    if s.line_end >= s.line_start { s.line_end - s.line_start } else { 0 }
}

/// The chunk placed in column `d` before the first line, among the first `n`.
pub open spec fn prepop_pick(all: Seq<IndexedChunkMeta>, cs: int, d: int, n: int) -> Option<int>
    decreases n,
{
    if n <= 0 {
        None
    } else if !is_text_chunk(all[n - 1]) && all[n - 1].span.line_start <= cs
        && all[n - 1].span.line_end > cs && chunk_depth(all, all[n - 1].span) == d {
        Some(n - 1)
    } else {
        prepop_pick(all, cs, d, n - 1)
    }
}

/// Whether chunk `i` is placed when line `l` is reached.
pub open spec fn starts_in_view(all: Seq<IndexedChunkMeta>, cs: int, l: int, i: int) -> bool {
    &&& !is_text_chunk(all[i])
    &&& all[i].span.line_start == l
    &&& all[i].span.line_end >= cs
}

/// The chunk that ends up in column `d` among those placed on line `l`,
/// looking at the first `n` chunks.
pub open spec fn group_pick(all: Seq<IndexedChunkMeta>, cs: int, l: int, d: int, n: int) -> Option<int>
    decreases n,
{
    if n <= 0 {
        None
    } else {
        let rest = group_pick(all, cs, l, d, n - 1);
        if starts_in_view(all, cs, l, n - 1) && chunk_depth(all, all[n - 1].span) == d {
            match rest {
                Some(j) => if span_len(all[n - 1].span) <= span_len(all[j].span) {
                    Some(n - 1)
                } else {
                    Some(j)
                },
                None => Some(n - 1),
            }
        } else {
            rest
        }
    }
}

/// The last chunk placed in column `d` up to line `l`, with the line it was
/// placed on (`cs` for those placed before the first line).
pub open spec fn assigned(all: Seq<IndexedChunkMeta>, cs: int, l: int, d: int) -> Option<(int, int)>
    decreases l - cs,
{
    if l <= cs {
        match prepop_pick(all, cs, d, all.len() as int) {
            Some(i) => Some((i, cs)),
            None => None,
        }
    } else {
        match group_pick(all, cs, l, d, all.len() as int) {
            Some(i) => Some((i, l)),
            None => assigned(all, cs, l - 1, d),
        }
    }
}

/// The chunk shown in column `d` on line `l`.
pub open spec fn slot_at(all: Seq<IndexedChunkMeta>, cs: int, l: int, d: int) -> Option<int> {
    match assigned(all, cs, l, d) {
        Some((i, at)) => if all[i].span.line_end >= l || at == l {
            Some(i)
        } else {
            None
        },
        None => None,
    }
}

/// `o` if it names a chunk still open on line `l`.
pub open spec fn open_on(all: Seq<IndexedChunkMeta>, o: Option<int>, l: int) -> Option<int> {
    match o {
        Some(i) => if all[i].span.line_end >= l { Some(i) } else { None },
        None => None,
    }
}

/// The index part of an assignment.
pub open spec fn assigned_index(a: Option<(int, int)>) -> Option<int> {
    match a {
        Some((i, _)) => Some(i),
        None => None,
    }
}

/// The columns as they stand when line `l` is reached, before chunks that
/// ended are taken out.
pub open spec fn slots_entering(all: Seq<IndexedChunkMeta>, cs: int, l: int, cols: int, slots: Seq<Option<usize>>) -> bool {
    &&& slots.len() == cols
    &&& forall|d: int| 0 <= d < cols ==> (#[trigger] slots[d] matches Some(i) ==> i < all.len())
    &&& forall|d: int| 0 <= d < cols ==> open_on(all, opt_int(#[trigger] slots[d]), l)
        == open_on(all, assigned_index(assigned(all, cs, l - 1, d)), l)
}

/// The columns as they are drawn on line `l`.
pub open spec fn slots_on(all: Seq<IndexedChunkMeta>, cs: int, l: int, cols: int, slots: Seq<Option<usize>>) -> bool {
    &&& slots.len() == cols
    &&& forall|d: int| 0 <= d < cols ==> #[trigger] opt_int(slots[d]) == slot_at(all, cs, l, d)
}

/// An optional index as a mathematical integer.
pub open spec fn opt_int(o: Option<usize>) -> Option<int> {
    match o {
        Some(i) => Some(i as int),
        None => None,
    }
}


proof fn lemma_assigned_line(all: Seq<IndexedChunkMeta>, cs: int, l: int, d: int)
    requires
        l >= cs,
    ensures
        assigned(all, cs, l, d) matches Some((i, at)) ==> at <= l,
    decreases l - cs,
{
    if l > cs {
        lemma_assigned_line(all, cs, l - 1, d);
    }
}

/// What the per-chunk facts of the view rest on.
pub open spec fn chunk_facts(all: Seq<IndexedChunkMeta>, text: Seq<bool>, depths: Seq<usize>, cols: int) -> bool {
    &&& text.len() == all.len()
    &&& depths.len() == all.len()
    &&& forall|i: int| 0 <= i < all.len() ==> #[trigger] text[i] == is_text_chunk(all[i])
    &&& forall|i: int| 0 <= i < all.len() && !is_text_chunk(all[i]) ==> #[trigger] depths[i] == chunk_depth(all, all[i].span)
    &&& forall|i: int| 0 <= i < all.len() ==> #[trigger] depths[i] < cols
}

/// A vector of `n` empty columns.
fn empty_slots(n: usize) -> (v: Vec<Option<usize>>)
    ensures
        v@.len() == n,
        forall|d: int| 0 <= d < n ==> #[trigger] v@[d] is None,
{
    let mut v: Vec<Option<usize>> = Vec::new();
    let mut k: usize = 0;
    while k < n
        invariant
            k <= n,
            v@.len() == k,
            forall|d: int| 0 <= d < k ==> #[trigger] v@[d] is None,
        decreases n - k,
    {
        v.push(None);
        k += 1;
    }
    v
}

/// Moves the columns from their state on entering line `l` to the state in
/// which line `l` is drawn: chunks that ended leave, chunks starting on `l`
/// are placed.
fn advance_slots(
    all: &[IndexedChunkMeta],
    text: &Vec<bool>,
    depths: &Vec<usize>,
    cols: usize,
    cs: usize,
    l: usize,
    slots: &mut Vec<Option<usize>>,
)
    requires
        chunk_facts(all@, text@, depths@, cols as int),
        cs < l,
        slots_entering(all@, cs as int, l as int, cols as int, old(slots)@),
    ensures
        slots_on(all@, cs as int, l as int, cols as int, final(slots)@),
        forall|d: int| 0 <= d < cols ==> (#[trigger] final(slots)@[d] matches Some(i) ==> i < all@.len()),
{
    let n = all.len();
    let mut d: usize = 0;
    while d < cols
        invariant
            d <= cols,
            slots@.len() == cols,
            forall|e: int| 0 <= e < cols ==> (#[trigger] slots@[e] matches Some(i) ==> i < n),
            forall|e: int| 0 <= e < d ==> #[trigger] opt_int(slots@[e]) == open_on(all@, assigned_index(assigned(all@, cs as int, l - 1, e)), l as int),
            forall|e: int| d <= e < cols ==> #[trigger] slots@[e] == old(slots)@[e],
            slots_entering(all@, cs as int, l as int, cols as int, old(slots)@),
            n == all@.len(),
        decreases cols - d,
    {
        match slots[d] {
            Some(i) => {
                if all[i].span.line_end < l {
                    slots.set(d, None);
                }
            },
            None => {},
        }
        proof {
            assert(open_on(all@, opt_int(old(slots)@[d as int]), l as int) == open_on(all@, assigned_index(assigned(all@, cs as int, l - 1, d as int)), l as int));
        }
        d += 1;
    }
    let mut picks = empty_slots(cols);
    let mut i: usize = 0;
    while i < n
        invariant
            i <= n == all@.len(),
            chunk_facts(all@, text@, depths@, cols as int),
            picks@.len() == cols,
            forall|e: int| 0 <= e < cols ==> (#[trigger] picks@[e] matches Some(j) ==> j < i),
            forall|e: int| 0 <= e < cols ==> #[trigger] opt_int(picks@[e]) == group_pick(all@, cs as int, l as int, e, i as int),
        decreases n - i,
    {
        let ghost before = picks@;
        if !text[i] && all[i].span.line_start == l && all[i].span.line_end >= cs {
            let dd = depths[i];
            let li = if all[i].span.line_end >= all[i].span.line_start { all[i].span.line_end - all[i].span.line_start } else { 0 };
            match picks[dd] {
                Some(j) => {
                    let lj = if all[j].span.line_end >= all[j].span.line_start { all[j].span.line_end - all[j].span.line_start } else { 0 };
                    if li <= lj {
                        picks.set(dd, Some(i));
                    }
                },
                None => {
                    picks.set(dd, Some(i));
                },
            }
        }
        proof {
            assert forall|e: int| 0 <= e < cols implies #[trigger] opt_int(picks@[e]) == group_pick(all@, cs as int, l as int, e, i + 1) by {
                assert(text@[i as int] == is_text_chunk(all@[i as int]));
                assert(opt_int(before[e]) == group_pick(all@, cs as int, l as int, e, i as int));
                if !is_text_chunk(all@[i as int]) {
                    assert(depths@[i as int] == chunk_depth(all@, all@[i as int].span));
                }
            }
        }
        i += 1;
    }
    let mut d: usize = 0;
    while d < cols
        invariant
            d <= cols,
            slots@.len() == cols,
            picks@.len() == cols,
            forall|e: int| 0 <= e < cols ==> (#[trigger] slots@[e] matches Some(i) ==> i < n),
            forall|e: int| 0 <= e < cols ==> (#[trigger] picks@[e] matches Some(j) ==> j < n),
            forall|e: int| 0 <= e < cols ==> #[trigger] opt_int(picks@[e]) == group_pick(all@, cs as int, l as int, e, n as int),
            forall|e: int| 0 <= e < d ==> #[trigger] opt_int(slots@[e]) == slot_at(all@, cs as int, l as int, e),
            forall|e: int| d <= e < cols ==> #[trigger] opt_int(slots@[e]) == open_on(all@, assigned_index(assigned(all@, cs as int, l - 1, e)), l as int),
            n == all@.len(),
            cs < l,
        decreases cols - d,
    {
        proof {
            lemma_assigned_line(all@, cs as int, l - 1, d as int);
        }
        let ghost before = slots@;
        if picks[d].is_some() {
            let p = picks[d];
            slots.set(d, p);
        }
        proof {
            let dd = d as int;
            assert(opt_int(picks@[dd]) == group_pick(all@, cs as int, l as int, dd, n as int));
            assert(opt_int(before[dd]) == open_on(all@, assigned_index(assigned(all@, cs as int, l - 1, dd)), l as int));
            assert(opt_int(slots@[dd]) == slot_at(all@, cs as int, l as int, dd));
            assert forall|e: int| 0 <= e < d implies #[trigger] opt_int(slots@[e]) == slot_at(all@, cs as int, l as int, e) by {
                assert(slots@[e] == before[e]);
            }
        }
        d += 1;
    }
}


/// The columns placed before the first line of the view.
fn prepopulate(all: &[IndexedChunkMeta], text: &Vec<bool>, depths: &Vec<usize>, cols: usize, cs: usize) -> (slots: Vec<Option<usize>>)
    requires
        chunk_facts(all@, text@, depths@, cols as int),
        cs < usize::MAX,
    ensures
        slots_entering(all@, cs as int, cs + 1, cols as int, slots@),
{
    let n = all.len();
    let mut slots = empty_slots(cols);
    let mut i: usize = 0;
    while i < n
        invariant
            i <= n == all@.len(),
            chunk_facts(all@, text@, depths@, cols as int),
            slots@.len() == cols,
            forall|e: int| 0 <= e < cols ==> (#[trigger] slots@[e] matches Some(j) ==> j < i),
            forall|e: int| 0 <= e < cols ==> #[trigger] opt_int(slots@[e]) == prepop_pick(all@, cs as int, e, i as int),
        decreases n - i,
    {
        let ghost before = slots@;
        if !text[i] && all[i].span.line_start <= cs && all[i].span.line_end > cs {
            slots.set(depths[i], Some(i));
        }
        proof {
            assert forall|e: int| 0 <= e < cols implies #[trigger] opt_int(slots@[e]) == prepop_pick(all@, cs as int, e, i + 1) by {
                assert(text@[i as int] == is_text_chunk(all@[i as int]));
                assert(opt_int(before[e]) == prepop_pick(all@, cs as int, e, i as int));
                if !is_text_chunk(all@[i as int]) {
                    assert(depths@[i as int] == chunk_depth(all@, all@[i as int].span));
                }
            }
        }
        i += 1;
    }
    slots
}

/// A row of the chunk view, as a mathematical value.
pub enum RowView {
    Label { prefix: nat, text: Seq<char> },
    Content {
        columns: Seq<ChunkColumnChar>,
        line_num: nat,
        text: Seq<char>,
        is_match_line: bool,
        in_matched_chunk: bool,
        has_any_chunk: bool,
    },
    Message(Seq<char>),
}

impl View for ChunkDisplayLine {
    type V = RowView;

    open spec fn view(&self) -> RowView {
        match self {
            ChunkDisplayLine::Label { prefix, text } => RowView::Label { prefix: *prefix as nat, text: text@ },
            ChunkDisplayLine::Content {
                columns,
                line_num,
                text,
                is_match_line,
                in_matched_chunk,
                has_any_chunk,
            } => RowView::Content {
                columns: columns@,
                line_num: *line_num as nat,
                text: text@,
                is_match_line: *is_match_line,
                in_matched_chunk: *in_matched_chunk,
                has_any_chunk: *has_any_chunk,
            },
            ChunkDisplayLine::Message(m) => RowView::Message(m@),
        }
    }
}

/// Bracket drawn for a structural chunk on line `l`.
pub open spec fn bracket_glyph(s: Span, l: int) -> char {
    if s.line_start == s.line_end {
        '─'
    } else if l == s.line_start {
        '┌'
    } else if l == s.line_end {
        '└'
    } else {
        '│'
    }
}

/// Bracket drawn for a text chunk on line `l`.
pub open spec fn text_glyph(s: Span, l: int) -> char {
    if s.line_start == s.line_end {
        '·'
    } else if l == s.line_start {
        '┌'
    } else if l == s.line_end {
        '└'
    } else {
        '│'
    }
}

/// Whether `s` has the lines of the highlighted chunk.
pub open spec fn is_target_span(target: Option<&IndexedChunkMeta>, s: Span) -> bool {
    match target {
        Some(m) => m.span.line_start == s.line_start && m.span.line_end == s.line_end,
        None => false,
    }
}

/// Cell of column `d` on line `l`.
pub open spec fn column_at(all: Seq<IndexedChunkMeta>, cs: int, l: int, d: int, target: Option<&IndexedChunkMeta>) -> ChunkColumnChar {
    match slot_at(all, cs, l, d) {
        Some(i) => ChunkColumnChar { ch: bracket_glyph(all[i].span, l), is_match: is_target_span(target, all[i].span) },
        None => ChunkColumnChar { ch: ' ', is_match: false },
    }
}

/// The first text chunk among the first `n` that covers line `l`.
pub open spec fn first_text_cover(all: Seq<IndexedChunkMeta>, l: int, n: int) -> Option<int>
    decreases n,
{
    if n <= 0 {
        None
    } else {
        match first_text_cover(all, l, n - 1) {
            Some(i) => Some(i),
            None => if is_text_chunk(all[n - 1]) && all[n - 1].span.line_start <= l <= all[n - 1].span.line_end {
                Some(n - 1)
            } else {
                None
            },
        }
    }
}

/// Whether some column holds a chunk on line `l`.
pub open spec fn any_slot(all: Seq<IndexedChunkMeta>, cs: int, l: int) -> bool {
    exists|d: int| 0 <= d < column_count(all) && #[trigger] slot_at(all, cs, l, d) is Some
}

/// The bracket columns of line `l`: one cell per column; where no
/// structural chunk is open and a text chunk covers the line, the first
/// cell shows the text chunk.
pub open spec fn content_columns(all: Seq<IndexedChunkMeta>, cs: int, l: int, target: Option<&IndexedChunkMeta>) -> Seq<ChunkColumnChar> {
    let base = Seq::new(column_count(all), |d: int| column_at(all, cs, l, d, target));
    match first_text_cover(all, l, all.len() as int) {
        Some(t) => if !any_slot(all, cs, l) {
            base.update(0, ChunkColumnChar { ch: text_glyph(all[t].span, l), is_match: false })
        } else {
            base
        },
        None => base,
    }
}

/// A line that looks like the start of a definition (used when a file has
/// no chunks at all).
pub open spec fn is_boundary_line(text: Seq<char>) -> bool {
    let t = trim_start(text);
    ||| has_prefix(t, "fn "@)
    ||| has_prefix(t, "func "@)
    ||| has_prefix(t, "def "@)
    ||| has_prefix(t, "class "@)
    ||| has_prefix(t, "impl "@)
    ||| has_prefix(t, "struct "@)
    ||| has_prefix(t, "enum "@)
}

/// The content row of line `l`, whose text is `text`.
pub open spec fn content_row_view(
    all: Seq<IndexedChunkMeta>,
    cs: int,
    l: int,
    match_line: int,
    target: Option<&IndexedChunkMeta>,
    text: Seq<char>,
) -> RowView {
    if all.len() == 0 {
        let b = is_boundary_line(text);
        RowView::Content {
            columns: if b {
                seq![ChunkColumnChar { ch: '┣', is_match: false }, ChunkColumnChar { ch: '━', is_match: false }]
            } else {
                seq![]
            },
            line_num: l as nat,
            text,
            is_match_line: l == match_line,
            in_matched_chunk: false,
            has_any_chunk: b,
        }
    } else {
        RowView::Content {
            columns: content_columns(all, cs, l, target),
            line_num: l as nat,
            text,
            is_match_line: l == match_line,
            in_matched_chunk: match target {
                Some(m) => m.span.line_start <= l <= m.span.line_end,
                None => false,
            },
            has_any_chunk: any_slot(all, cs, l) || first_text_cover(all, l, all.len() as int) is Some,
        }
    }
}

/// The kind shown for a chunk.
pub open spec fn chunk_kind(m: IndexedChunkMeta) -> Seq<char> {
    match m.chunk_type {
        Some(t) => t@,
        None => "chunk"@,
    }
}

/// Where a chunk sits: its breadcrumb if it has a nonempty one, else its
/// ancestry joined by `::`, wrapped in `open` and `close`; empty if it has
/// neither.
pub open spec fn crumb_text(m: IndexedChunkMeta, open: Seq<char>, close: Seq<char>) -> Seq<char> {
    let from_ancestry = if m.ancestry@.len() > 0 {
        open + join_with(string_views(m.ancestry@), "::"@) + close
    } else {
        seq![]
    };
    match m.breadcrumb {
        Some(c) => if c@.len() > 0 { open + c@ + close } else { from_ancestry },
        None => from_ancestry,
    }
}

/// Header of the highlighted chunk in the view.
pub open spec fn label_text(m: IndexedChunkMeta) -> Seq<char> {
    chunk_kind(m) + " "@ + crumb_text(m, " ("@, ")"@) + match m.estimated_tokens {
        Some(t) => " • "@ + decimal(t as nat) + " tokens"@,
        None => seq![],
    }
}

/// The rows of line `l`: the header where the highlighted chunk starts,
/// then the content row.
pub open spec fn rows_for_line(
    lines: Seq<Seq<char>>,
    all: Seq<IndexedChunkMeta>,
    cs: int,
    k: int,
    match_line: int,
    target: Option<&IndexedChunkMeta>,
) -> Seq<RowView> {
    let l = cs + k + 1;
    let label = match target {
        Some(m) => if l == m.span.line_start {
            seq![RowView::Label { prefix: column_count(all), text: label_text(*m) }]
        } else {
            seq![]
        },
        None => seq![],
    };
    label.push(content_row_view(all, cs, l, match_line, target, lines[cs + k]))
}

/// Rows of the first `k` lines of the view.
pub open spec fn rows_upto(
    lines: Seq<Seq<char>>,
    all: Seq<IndexedChunkMeta>,
    cs: int,
    k: int,
    match_line: int,
    target: Option<&IndexedChunkMeta>,
) -> Seq<RowView>
    decreases k,
{
    if k <= 0 {
        seq![]
    } else {
        rows_upto(lines, all, cs, k - 1, match_line, target) + rows_for_line(lines, all, cs, k - 1, match_line, target)
    }
}

/// The note shown when chunks are known but none is highlighted.
pub open spec fn no_match_note() -> Seq<char> {
    "Chunk metadata available but no matching chunk found for this line."@
}

/// The whole chunk view of lines `cs + 1 ..= ce`.
pub open spec fn display_rows(
    lines: Seq<Seq<char>>,
    all: Seq<IndexedChunkMeta>,
    cs: int,
    ce: int,
    match_line: int,
    target: Option<&IndexedChunkMeta>,
    full_file_mode: bool,
) -> Seq<RowView> {
    rows_upto(lines, all, cs, ce - cs, match_line, target) + if !full_file_mode && target is None && all.len() > 0 {
        seq![RowView::Message(no_match_note())]
    } else {
        seq![]
    }
}


fn bracket_char(s: Span, l: usize) -> (c: char)
    ensures
        c == bracket_glyph(s, l as int),
{
    if s.line_start == s.line_end {
        '─'
    } else if l == s.line_start {
        '┌'
    } else if l == s.line_end {
        '└'
    } else {
        '│'
    }
}

fn text_char(s: Span, l: usize) -> (c: char)
    ensures
        c == text_glyph(s, l as int),
{
    if s.line_start == s.line_end {
        '·'
    } else if l == s.line_start {
        '┌'
    } else if l == s.line_end {
        '└'
    } else {
        '│'
    }
}

/// Appends the breadcrumb part of a header.
fn push_crumb(out: &mut Vec<char>, m: &IndexedChunkMeta, open: &str, close: &str)
    ensures
        final(out)@ == old(out)@ + crumb_text(*m, open@, close@),
{
    let mut done = false;
    match &m.breadcrumb {
        Some(c) => {
            if str_chars(c.as_str()).len() > 0 {
                push_str_chars(out, open);
                push_str_chars(out, c.as_str());
                push_str_chars(out, close);
                done = true;
            }
        },
        None => {},
    }
    if !done && m.ancestry.len() > 0 {
        push_str_chars(out, open);
        push_joined(out, &m.ancestry, "::");
        push_str_chars(out, close);
    }
    proof {
        let ghost x = crumb_text(*m, open@, close@);
        assert(out@ =~= old(out)@ + x);
    }
}

/// Header of the highlighted chunk.
fn label_string(m: &IndexedChunkMeta) -> (r: String)
    ensures
        r@ == label_text(*m),
{
    let mut out: Vec<char> = Vec::new();
    match &m.chunk_type {
        Some(t) => push_str_chars(&mut out, t.as_str()),
        None => push_str_chars(&mut out, "chunk"),
    }
    push_str_chars(&mut out, " ");
    push_crumb(&mut out, m, " (", ")");
    match m.estimated_tokens {
        Some(t) => {
            push_str_chars(&mut out, " • ");
            push_decimal(&mut out, t);
            push_str_chars(&mut out, " tokens");
        },
        None => {},
    }
    assert(out@ =~= label_text(*m));
    string_from_chars(out.as_slice())
}

/// Whether `t` starts with the characters of `p`.
fn starts_with_str(t: &[char], p: &str) -> (r: bool)
    ensures
        r == has_prefix(t@, p@),
{
    let pc = str_chars(p);
    starts_with_seq(t, pc.as_slice())
}

/// The content row of a line when the file has no chunks.
fn boundary_row(l: usize, match_line: usize, line: &String) -> (r: ChunkDisplayLine)
    ensures
        r@ == content_row_view(Seq::<IndexedChunkMeta>::empty(), 0, l as int, match_line as int, None, line@),
{
    let chars = str_chars(line.as_str());
    let (a, _b) = trim_bounds(chars.as_slice());
    let mut rest: Vec<char> = Vec::new();
    let mut k: usize = a;
    while k < chars.len()
        invariant
            a <= k <= chars@.len(),
            rest@ == chars@.subrange(a as int, k as int),
        decreases chars@.len() - k,
    {
        rest.push(chars[k]);
        assert(chars@.subrange(a as int, k + 1) =~= chars@.subrange(a as int, k as int).push(chars@[k as int]));
        k += 1;
    }
    let t = rest.as_slice();
    let b = starts_with_str(t, "fn ") || starts_with_str(t, "func ") || starts_with_str(t, "def ")
        || starts_with_str(t, "class ") || starts_with_str(t, "impl ") || starts_with_str(t, "struct ")
        || starts_with_str(t, "enum ");
    let mut columns: Vec<ChunkColumnChar> = Vec::new();
    if b {
        columns.push(ChunkColumnChar { ch: '┣', is_match: false });
        columns.push(ChunkColumnChar { ch: '━', is_match: false });
    }
    proof {
        assert(rest@ == trim_start(line@));
        if b {
            assert(columns@ =~= seq![ChunkColumnChar { ch: '┣', is_match: false }, ChunkColumnChar { ch: '━', is_match: false }]);
        } else {
            assert(columns@ =~= Seq::<ChunkColumnChar>::empty());
        }
    }
    ChunkDisplayLine::Content {
        columns,
        line_num: l,
        text: clone_string(line),
        is_match_line: l == match_line,
        in_matched_chunk: false,
        has_any_chunk: b,
    }
}


/// The content row of line `l` when the file has chunks, from the columns
/// as they are drawn on that line.
fn content_row(
    all: &[IndexedChunkMeta],
    text: &Vec<bool>,
    cols: usize,
    cs: usize,
    l: usize,
    match_line: usize,
    target: Option<&IndexedChunkMeta>,
    slots: &Vec<Option<usize>>,
    line: &String,
) -> (r: ChunkDisplayLine)
    requires
        all@.len() > 0,
        text@.len() == all@.len(),
        forall|i: int| 0 <= i < all@.len() ==> #[trigger] text@[i] == is_text_chunk(all@[i]),
        cols == column_count(all@),
        slots_on(all@, cs as int, l as int, cols as int, slots@),
        forall|d: int| 0 <= d < cols ==> (#[trigger] slots@[d] matches Some(i) ==> i < all@.len()),
    ensures
        r@ == content_row_view(all@, cs as int, l as int, match_line as int, target, line@),
{
    let n = all.len();
    let mut cover: Option<usize> = None;
    let mut i: usize = 0;
    while i < n
        invariant
            i <= n == all@.len(),
            text@.len() == all@.len(),
            forall|j: int| 0 <= j < all@.len() ==> #[trigger] text@[j] == is_text_chunk(all@[j]),
            opt_int(cover) == first_text_cover(all@, l as int, i as int),
            cover matches Some(j) ==> j < i,
        decreases n - i,
    {
        if cover.is_none() && text[i] && all[i].span.line_start <= l && l <= all[i].span.line_end {
            cover = Some(i);
        }
        assert(text@[i as int] == is_text_chunk(all@[i as int]));
        i += 1;
    }
    let mut any = false;
    let mut columns: Vec<ChunkColumnChar> = Vec::new();
    let mut d: usize = 0;
    while d < cols
        invariant
            d <= cols,
            cols == column_count(all@),
            slots_on(all@, cs as int, l as int, cols as int, slots@),
            forall|e: int| 0 <= e < cols ==> (#[trigger] slots@[e] matches Some(i) ==> i < all@.len()),
            any <==> exists|e: int| 0 <= e < d && #[trigger] slot_at(all@, cs as int, l as int, e) is Some,
            columns@ == Seq::new(d as nat, |e: int| column_at(all@, cs as int, l as int, e, target)),
        decreases cols - d,
    {
        let ghost dd = d as int;
        assert(opt_int(slots@[dd]) == slot_at(all@, cs as int, l as int, dd));
        let cell = match slots[d] {
            Some(i) => {
                let s = all[i].span;
                let is_match = match target {
                    Some(m) => m.span.line_start == s.line_start && m.span.line_end == s.line_end,
                    None => false,
                };
                any = true;
                ChunkColumnChar { ch: bracket_char(s, l), is_match }
            },
            None => ChunkColumnChar { ch: ' ', is_match: false },
        };
        columns.push(cell);
        assert(columns@ =~= Seq::new((d + 1) as nat, |e: int| column_at(all@, cs as int, l as int, e, target)));
        d += 1;
    }
    assert(any == any_slot(all@, cs as int, l as int));
    let ghost base = columns@;
    if !any {
        match cover {
            Some(t) => {
                let c = text_char(all[t].span, l);
                columns.set(0, ChunkColumnChar { ch: c, is_match: false });
            },
            None => {},
        }
    }
    assert(columns@ == content_columns(all@, cs as int, l as int, target));
    let in_matched = match target {
        Some(m) => m.span.line_start <= l && l <= m.span.line_end,
        None => false,
    };
    ChunkDisplayLine::Content {
        columns,
        line_num: l,
        text: clone_string(line),
        is_match_line: l == match_line,
        in_matched_chunk: in_matched,
        has_any_chunk: any || cover.is_some(),
    }
}


proof fn lemma_on_to_entering(all: Seq<IndexedChunkMeta>, cs: int, l: int, cols: int, slots: Seq<Option<usize>>)
    requires
        cs < l,
        slots_on(all, cs, l, cols, slots),
        forall|d: int| 0 <= d < cols ==> (#[trigger] slots[d] matches Some(i) ==> i < all.len()),
    ensures
        slots_entering(all, cs, l + 1, cols, slots),
{
    assert forall|d: int| 0 <= d < cols implies open_on(all, opt_int(#[trigger] slots[d]), l + 1)
        == open_on(all, assigned_index(assigned(all, cs, l + 1 - 1, d)), l + 1) by {
        assert(opt_int(slots[d]) == slot_at(all, cs, l, d));
    }
}

/// The views of a sequence of rows.
pub open spec fn row_views(rows: Seq<ChunkDisplayLine>) -> Seq<RowView> {
    rows.map_values(|r: ChunkDisplayLine| r@)
}

/// Whether each chunk is a text chunk.
fn text_flags(all: &[IndexedChunkMeta]) -> (r: Vec<bool>)
    ensures
        r@.len() == all@.len(),
        forall|i: int| 0 <= i < all@.len() ==> #[trigger] r@[i] == is_text_chunk(all@[i]),
{
    let mut r: Vec<bool> = Vec::new();
    let mut i: usize = 0;
    while i < all.len()
        invariant
            i <= all@.len(),
            r@.len() == i,
            forall|j: int| 0 <= j < i ==> #[trigger] r@[j] == is_text_chunk(all@[j]),
        decreases all@.len() - i,
    {
        r.push(chunk_is_text(&all[i]));
        i += 1;
    }
    r
}

/// The chunk view of lines `context_start + 1 ..= context_end` (1-based) of
/// `lines`: for each line, a header row where the highlighted chunk
/// `chunk_meta` starts, then the line with one bracket column per nesting
/// depth of the structural chunks of `all_chunks`; text chunks show in the
/// first column where no structural chunk is open. A file without chunks
/// marks lines that look like definitions. A closing note tells when chunks
/// are known but none is highlighted (outside full-file mode).
pub fn collect_chunk_display_lines(
    lines: &[String],
    context_start: usize,
    context_end: usize,
    match_line: usize,
    chunk_meta: Option<&IndexedChunkMeta>,
    all_chunks: &[IndexedChunkMeta],
    full_file_mode: bool,
) -> (rows: Vec<ChunkDisplayLine>)
    requires
        context_start <= context_end <= lines@.len(),
        context_end < usize::MAX,
    ensures
        row_views(rows@) == display_rows(
            string_views(lines@),
            all_chunks@,
            context_start as int,
            context_end as int,
            match_line as int,
            chunk_meta,
            full_file_mode,
        ),
{
    let n = all_chunks.len();
    let text = text_flags(all_chunks);
    let (depths, cols) = chunk_depths(all_chunks);
    let mut slots = prepopulate(all_chunks, &text, &depths, cols, context_start);
    let mut rows: Vec<ChunkDisplayLine> = Vec::new();
    let count = context_end - context_start;
    let ghost lv = string_views(lines@);
    let mut k: usize = 0;
    while k < count
        invariant
            k <= count,
            count == context_end - context_start,
            context_start <= context_end <= lines@.len(),
            context_end < usize::MAX,
            n == all_chunks@.len(),
            lv == string_views(lines@),
            chunk_facts(all_chunks@, text@, depths@, cols as int),
            cols == column_count(all_chunks@),
            slots_entering(all_chunks@, context_start as int, context_start + k + 1, cols as int, slots@),
            row_views(rows@) == rows_upto(lv, all_chunks@, context_start as int, k as int, match_line as int, chunk_meta),
        decreases count - k,
    {
        let l = context_start + k + 1;
        let ghost prev = rows@;
        advance_slots(all_chunks, &text, &depths, cols, context_start, l, &mut slots);
        match chunk_meta {
            Some(m) => {
                if l == m.span.line_start {
                    rows.push(ChunkDisplayLine::Label { prefix: cols, text: label_string(m) });
                }
            },
            None => {},
        }
        let line = &lines[context_start + k];
        let row = if n == 0 {
            let r = boundary_row(l, match_line, line);
            assert(all_chunks@ =~= Seq::<IndexedChunkMeta>::empty());
            r
        } else {
            content_row(all_chunks, &text, cols, context_start, l, match_line, chunk_meta, &slots, line)
        };
        rows.push(row);
        proof {
            lemma_on_to_entering(all_chunks@, context_start as int, l as int, cols as int, slots@);
            assert(lv[context_start + k] == lines@[context_start + k]@);
            assert(row_views(rows@) =~= row_views(prev) + rows_for_line(lv, all_chunks@, context_start as int, k as int, match_line as int, chunk_meta));
        }
        k += 1;
    }
    if !full_file_mode && chunk_meta.is_none() && n > 0 {
        let ghost prev = rows@;
        rows.push(ChunkDisplayLine::Message("Chunk metadata available but no matching chunk found for this line.".to_owned()));
        assert(row_views(rows@) =~= row_views(prev) + seq![RowView::Message(no_match_note())]);
    } else {
        assert(row_views(rows@) =~= row_views(rows@) + Seq::<RowView>::empty());
    }
    rows
}


/// `n` spaces.
pub open spec fn spaces(n: nat) -> Seq<char> {
    Seq::new(n, |i: int| ' ')
}

/// `s` padded on the left with spaces to width `w`, as `{:w$}` pads a number.
pub open spec fn right_align(s: Seq<char>, w: nat) -> Seq<char> {
    if s.len() < w {
        spaces((w - s.len()) as nat) + s
    } else {
        s
    }
}

/// The characters of the bracket columns.
pub open spec fn column_glyphs(columns: Seq<ChunkColumnChar>) -> Seq<char> {
    columns.map_values(|c: ChunkColumnChar| c.ch)
}

/// A row as plain text, with line numbers at least four wide.
pub open spec fn row_plain_text(r: RowView) -> Seq<char> {
    match r {
        RowView::Label { prefix, text } => spaces(prefix) + text,
        RowView::Content { columns, line_num, text, .. } => column_glyphs(columns) + seq![' ']
            + right_align(decimal(line_num), 4) + " | "@ + text,
        RowView::Message(m) => m,
    }
}

/// Appends `n` spaces.
fn push_spaces(out: &mut Vec<char>, n: usize)
    ensures
        final(out)@ == old(out)@ + spaces(n as nat),
{
    let mut k: usize = 0;
    while k < n
        invariant
            k <= n,
            out@ == old(out)@ + spaces(k as nat),
        decreases n - k,
    {
        out.push(' ');
        assert(old(out)@ + spaces((k + 1) as nat) =~= (old(out)@ + spaces(k as nat)).push(' '));
        k += 1;
    }
}

/// Appends the decimal notation of `n`, padded on the left to width `w`.
fn push_right_aligned(out: &mut Vec<char>, n: usize, w: usize)
    ensures
        final(out)@ == old(out)@ + right_align(decimal(n as nat), w as nat),
{
    let mut digits: Vec<char> = Vec::new();
    push_decimal(&mut digits, n);
    assert(digits@ =~= decimal(n as nat));
    if digits.len() < w {
        push_spaces(out, w - digits.len());
    }
    push_all(out, digits.as_slice());
    assert(out@ =~= old(out)@ + right_align(decimal(n as nat), w as nat));
}

/// Appends the characters of the bracket columns.
fn push_glyphs(out: &mut Vec<char>, columns: &Vec<ChunkColumnChar>)
    ensures
        final(out)@ == old(out)@ + column_glyphs(columns@),
{
    let mut k: usize = 0;
    while k < columns.len()
        invariant
            k <= columns@.len(),
            out@ == old(out)@ + column_glyphs(columns@.take(k as int)),
        decreases columns@.len() - k,
    {
        out.push(columns[k].ch);
        assert(column_glyphs(columns@.take(k + 1)) =~= column_glyphs(columns@.take(k as int)).push(columns@[k as int].ch));
        assert(old(out)@ + column_glyphs(columns@.take(k + 1)) =~= (old(out)@ + column_glyphs(columns@.take(k as int))).push(columns@[k as int].ch));
        k += 1;
    }
    assert(columns@.take(columns@.len() as int) =~= columns@);
}

/// A row of the chunk view as plain text.
pub fn chunk_display_line_to_string(line: &ChunkDisplayLine) -> (r: String)
    ensures
        r@ == row_plain_text(line@),
{
    match line {
        ChunkDisplayLine::Label { prefix, text } => {
            let mut out: Vec<char> = Vec::new();
            push_spaces(&mut out, *prefix);
            push_str_chars(&mut out, text.as_str());
            string_from_chars(out.as_slice())
        },
        ChunkDisplayLine::Content { columns, line_num, text, .. } => {
            let mut out: Vec<char> = Vec::new();
            push_glyphs(&mut out, columns);
            out.push(' ');
            push_right_aligned(&mut out, *line_num, 4);
            push_str_chars(&mut out, " | ");
            push_str_chars(&mut out, text.as_str());
            assert(out@ =~= row_plain_text(line@));
            string_from_chars(out.as_slice())
        },
        ChunkDisplayLine::Message(m) => clone_string(m),
    }
}

/// A row as the chunk dump writes it: line numbers `width` wide, a blank
/// column where there is none, and a marker on the matched line.
pub open spec fn row_dump_text(r: RowView, width: nat) -> Seq<char> {
    match r {
        RowView::Label { prefix, text } => spaces(prefix) + text,
        RowView::Content { columns, line_num, text, is_match_line, .. } => (if columns.len() == 0 {
            seq![' ']
        } else {
            column_glyphs(columns)
        }) + seq![' '] + right_align(decimal(line_num), width) + " | "@ + text + if is_match_line {
            "  <= match"@
        } else {
            seq![]
        },
        RowView::Message(m) => m,
    }
}

/// Width of the line-number column for a file of `n` lines.
pub open spec fn line_number_width(n: nat) -> nat {
    decimal(n).len() + 1
}

/// A row of the chunk dump.
fn dump_row_string(row: &ChunkDisplayLine, width: usize) -> (r: String)
    ensures
        r@ == row_dump_text(row@, width as nat),
{
    match row {
        ChunkDisplayLine::Label { prefix, text } => {
            let mut out: Vec<char> = Vec::new();
            push_spaces(&mut out, *prefix);
            push_str_chars(&mut out, text.as_str());
            string_from_chars(out.as_slice())
        },
        ChunkDisplayLine::Content { columns, line_num, text, is_match_line, .. } => {
            let mut out: Vec<char> = Vec::new();
            if columns.len() == 0 {
                out.push(' ');
            } else {
                push_glyphs(&mut out, columns);
            }
            out.push(' ');
            push_right_aligned(&mut out, *line_num, width);
            push_str_chars(&mut out, " | ");
            push_str_chars(&mut out, text.as_str());
            if *is_match_line {
                push_str_chars(&mut out, "  <= match");
            }
            assert(out@ =~= row_dump_text(row@, width as nat));
            string_from_chars(out.as_slice())
        },
        ChunkDisplayLine::Message(m) => clone_string(m),
    }
}

/// The chunk dump of lines `context_start + 1 ..= context_end`: each row of
/// the chunk view as text, line numbers as wide as the largest line number
/// of the file plus one.
pub fn build_chunk_strings(
    lines: &[String],
    context_start: usize,
    context_end: usize,
    match_line: usize,
    chunk_meta: Option<&IndexedChunkMeta>,
    all_chunks: &[IndexedChunkMeta],
    full_file_mode: bool,
) -> (r: Vec<String>)
    requires
        context_start <= context_end <= lines@.len(),
        context_end < usize::MAX,
    ensures
        string_views(r@) == display_rows(
            string_views(lines@),
            all_chunks@,
            context_start as int,
            context_end as int,
            match_line as int,
            chunk_meta,
            full_file_mode,
        ).map_values(|row: RowView| row_dump_text(row, line_number_width(lines@.len() as nat))),
{
    let mut digits: Vec<char> = Vec::new();
    push_decimal(&mut digits, lines.len());
    proof {
        assert(digits@ =~= decimal(lines@.len() as nat));
        lemma_decimal_short(lines@.len() as nat);
    }
    let width = digits.len() + 1;
    let rows = collect_chunk_display_lines(lines, context_start, context_end, match_line, chunk_meta, all_chunks, full_file_mode);
    let ghost expected = display_rows(
        string_views(lines@),
        all_chunks@,
        context_start as int,
        context_end as int,
        match_line as int,
        chunk_meta,
        full_file_mode,
    ).map_values(|row: RowView| row_dump_text(row, line_number_width(lines@.len() as nat)));
    let mut out: Vec<String> = Vec::new();
    let mut k: usize = 0;
    while k < rows.len()
        invariant
            k <= rows@.len(),
            width == line_number_width(lines@.len() as nat),
            expected == row_views(rows@).map_values(|row: RowView| row_dump_text(row, width as nat)),
            out@.len() == k,
            forall|j: int| 0 <= j < k ==> #[trigger] out@[j]@ == expected[j],
        decreases rows@.len() - k,
    {
        let s = dump_row_string(&rows[k], width);
        out.push(s);
        k += 1;
    }
    assert(string_views(out@) =~= expected);
    out
}

proof fn lemma_decimal_short(n: nat)
    ensures
        n >= 10 ==> decimal(n).len() <= n / 2,
        n < 10 ==> decimal(n).len() == 1,
    decreases n,
{
    if n >= 10 {
        lemma_decimal_short(n / 10);
    }
}


/// The chunk to highlight on line `focus`: among the first `n` chunks that
/// cover it, the first of the fewest lines.
pub open spec fn focus_chunk(spans: Seq<IndexedChunkMeta>, focus: int, n: int) -> Option<int>
    decreases n,
{
    if n <= 0 {
        None
    } else {
        let rest = focus_chunk(spans, focus, n - 1);
        if spans[n - 1].span.line_start <= focus <= spans[n - 1].span.line_end {
            match rest {
                Some(j) => if span_len(spans[n - 1].span) < span_len(spans[j].span) {
                    Some(n - 1)
                } else {
                    Some(j)
                },
                None => Some(n - 1),
            }
        } else {
            rest
        }
    }
}

/// `x` limited to `lo ..= hi`.
pub open spec fn clamp_to(x: int, lo: int, hi: int) -> int {
    if x < lo { lo } else if x > hi { hi } else { x }
}

/// `a - b`, or 0 where that is negative.
pub open spec fn sat_sub(a: int, b: int) -> int {
    if a >= b { a - b } else { 0 }
}

/// Smaller of two integers.
pub open spec fn min_int(a: int, b: int) -> int {
    if a <= b { a } else { b }
}

/// The line the dump centres on: the requested line, else the first line
/// of the first chunk, else line 1, kept within the file.
pub open spec fn focus_line(spans: Seq<IndexedChunkMeta>, match_line: Option<usize>, total: int) -> int {
    let wanted = match match_line {
        Some(m) => m as int,
        None => if spans.len() > 0 { spans[0].span.line_start as int } else { 1 },
    };
    clamp_to(wanted, 1, total)
}

/// Lines shown by the dump, as `(context_start, context_end)`: the whole
/// file in full-file mode, else the highlighted chunk, else six lines
/// before the focus to five after; never empty.
pub open spec fn dump_bounds(spans: Seq<IndexedChunkMeta>, focus: int, total: int, full_file_mode: bool) -> (int, int) {
    let chunk = focus_chunk(spans, focus, spans.len() as int);
    let cs0 = if full_file_mode { 0 } else { min_int(sat_sub(focus, 6), total - 1) };
    let ce0 = if full_file_mode { total } else { min_int(focus + 5, total) };
    let (cs, ce) = match chunk {
        Some(i) => if !full_file_mode {
            (min_int(sat_sub(spans[i].span.line_start as int, 1), total - 1), min_int(spans[i].span.line_end as int, total))
        } else {
            (cs0, ce0)
        },
        None => (cs0, ce0),
    };
    if ce <= cs { (cs, min_int(cs + 1, total)) } else { (cs, ce) }
}

/// The chunk the dump highlights.
pub open spec fn focus_ref(spans: Seq<IndexedChunkMeta>, focus: int) -> Option<&'static IndexedChunkMeta> {
    match focus_chunk(spans, focus, spans.len() as int) {
        Some(i) => Some(&spans[i]),
        None => None,
    }
}

/// The header lines of the dump.
pub open spec fn dump_header(path: Seq<char>, chunk: Option<&IndexedChunkMeta>, is_pdf: bool) -> Seq<Seq<char>> {
    match chunk {
        Some(m) => seq![
            "File: "@ + path,
            chunk_kind(*m) + crumb_text(*m, " • "@, ""@) + (match m.estimated_tokens {
                Some(t) => " • ~"@ + decimal(t as nat) + " tokens"@,
                None => seq![],
            }) + " • L"@ + decimal(m.span.line_start as nat) + "-"@ + decimal(m.span.line_end as nat),
            seq![]
        ],
        None => if is_pdf {
            seq!["File: "@ + path, "PDF chunk (approximate)"@, seq![]]
        } else {
            seq!["File: "@ + path, seq![]]
        },
    }
}

/// The whole chunk dump of a file `path` with lines `lines` and chunks `spans`.
pub open spec fn chunk_dump(
    path: Seq<char>,
    lines: Seq<String>,
    is_pdf: bool,
    spans: Seq<IndexedChunkMeta>,
    match_line: Option<usize>,
    full_file_mode: bool,
) -> Seq<Seq<char>> {
    if lines.len() == 0 {
        seq!["File: "@ + path + " (empty)"@]
    } else {
        let total = lines.len() as int;
        let focus = focus_line(spans, match_line, total);
        let (cs, ce) = dump_bounds(spans, focus, total, full_file_mode);
        let chunk = focus_ref(spans, focus);
        dump_header(path, chunk, is_pdf) + display_rows(string_views(lines), spans, cs, ce, focus, chunk, full_file_mode).map_values(
            |row: RowView| row_dump_text(row, line_number_width(lines.len() as nat)),
        )
    }
}

fn string_of(v: &Vec<char>) -> (s: String)
    ensures
        s@ == v@,
{
    string_from_chars(v.as_slice())
}

/// Appends copies of the strings of `src`.
fn append_strings(out: &mut Vec<String>, src: &Vec<String>)
    ensures
        string_views(final(out)@) == string_views(old(out)@) + string_views(src@),
{
    let mut k: usize = 0;
    while k < src.len()
        invariant
            k <= src@.len(),
            string_views(out@) == string_views(old(out)@) + string_views(src@.take(k as int)),
        decreases src@.len() - k,
    {
        let ghost prev = out@;
        out.push(clone_string(&src[k]));
        assert(string_views(out@) =~= string_views(prev).push(src@[k as int]@));
        assert(string_views(src@.take(k + 1)) =~= string_views(src@.take(k as int)).push(src@[k as int]@));
        k += 1;
    }
    assert(src@.take(src@.len() as int) =~= src@);
}

/// The innermost chunk holding a line: among the chunks whose lines hold
/// it, the first with the fewest lines (see `focus_chunk`).
pub fn innermost_chunk(spans: &[IndexedChunkMeta], focus: usize) -> (r: Option<usize>)
    ensures
        opt_int(r) == focus_chunk(spans@, focus as int, spans@.len() as int),
        r matches Some(j) ==> j < spans@.len(),
{
    let mut pick: Option<usize> = None;
    let mut i: usize = 0;
    while i < spans.len()
        invariant
            i <= spans@.len(),
            opt_int(pick) == focus_chunk(spans@, focus as int, i as int),
            pick matches Some(j) ==> j < i,
        decreases spans@.len() - i,
    {
        let s = spans[i].span;
        if s.line_start <= focus && focus <= s.line_end {
            match pick {
                Some(j) => {
                    let t = spans[j].span;
                    let li = if s.line_end >= s.line_start { s.line_end - s.line_start } else { 0 };
                    let lj = if t.line_end >= t.line_start { t.line_end - t.line_start } else { 0 };
                    if li < lj {
                        pick = Some(i);
                    }
                },
                None => {
                    pick = Some(i);
                },
            }
        }
        i += 1;
    }
    pick
}

/// The chunk to highlight and the lines to show.
fn dump_window(spans: &[IndexedChunkMeta], focus: usize, total: usize, full_file_mode: bool) -> (r: (Option<usize>, usize, usize))
    requires
        1 <= focus <= total,
        total + 6 <= usize::MAX,
    ensures
        opt_int(r.0) == focus_chunk(spans@, focus as int, spans@.len() as int),
        r.0 matches Some(j) ==> j < spans@.len(),
        (r.1 as int, r.2 as int) == dump_bounds(spans@, focus as int, total as int, full_file_mode),
{
    let pick = innermost_chunk(spans, focus);
    let mut cs: usize = if full_file_mode {
        0
    } else {
        let a = if focus >= 6 { focus - 6 } else { 0 };
        if a <= total - 1 { a } else { total - 1 }
    };
    let mut ce: usize = if full_file_mode {
        total
    } else {
        if focus + 5 <= total { focus + 5 } else { total }
    };
    if !full_file_mode {
        match pick {
            Some(j) => {
                let m = &spans[j];
                let a = if m.span.line_start >= 1 { m.span.line_start - 1 } else { 0 };
                cs = if a <= total - 1 { a } else { total - 1 };
                ce = if m.span.line_end <= total { m.span.line_end } else { total };
            },
            None => {},
        }
    }
    if ce <= cs {
        ce = if cs + 1 <= total { cs + 1 } else { total };
    }
    (pick, cs, ce)
}

/// The header lines of the dump.
fn dump_header_lines(path: &str, chunk: Option<&IndexedChunkMeta>, is_pdf: bool) -> (r: Vec<String>)
    ensures
        string_views(r@) == dump_header(path@, chunk, is_pdf),
{
    let mut out: Vec<String> = Vec::new();
    let mut file_line: Vec<char> = Vec::new();
    push_str_chars(&mut file_line, "File: ");
    push_str_chars(&mut file_line, path);
    out.push(string_of(&file_line));
    match chunk {
        Some(m) => {
            let mut h: Vec<char> = Vec::new();
            match &m.chunk_type {
                Some(t) => push_str_chars(&mut h, t.as_str()),
                None => push_str_chars(&mut h, "chunk"),
            }
            push_crumb(&mut h, m, " • ", "");
            match m.estimated_tokens {
                Some(t) => {
                    push_str_chars(&mut h, " • ~");
                    push_decimal(&mut h, t);
                    push_str_chars(&mut h, " tokens");
                },
                None => {},
            }
            push_str_chars(&mut h, " • L");
            push_decimal(&mut h, m.span.line_start);
            push_str_chars(&mut h, "-");
            push_decimal(&mut h, m.span.line_end);
            assert(h@ =~= dump_header(path@, chunk, is_pdf)[1]);
            out.push(string_of(&h));
            out.push(String::new());
        },
        None => {
            if is_pdf {
                out.push("PDF chunk (approximate)".to_owned());
            }
            out.push(String::new());
        },
    }
    assert(string_views(out@) =~= dump_header(path@, chunk, is_pdf));
    out
}

/// The chunk dump of a file whose display name is `path`, lines `lines`
/// and chunks `chunk_spans`: header lines naming the file (and the
/// highlighted chunk with its kind, place, size and lines), then the chunk
/// view of the lines around `match_line` (the first chunk's first line when
/// none is given), or of the whole file in full-file mode.
pub fn dump_chunk_view_internal(
    path: &str,
    lines: &[String],
    is_pdf: bool,
    chunk_spans: &[IndexedChunkMeta],
    match_line: Option<usize>,
    full_file_mode: bool,
) -> (r: Vec<String>)
    requires
        lines@.len() + 6 <= usize::MAX,
    ensures
        string_views(r@) == chunk_dump(path@, lines@, is_pdf, chunk_spans@, match_line, full_file_mode),
{
    if lines.len() == 0 {
        let mut file_line: Vec<char> = Vec::new();
        push_str_chars(&mut file_line, "File: ");
        push_str_chars(&mut file_line, path);
        push_str_chars(&mut file_line, " (empty)");
        let mut out: Vec<String> = Vec::new();
        out.push(string_of(&file_line));
        assert(string_views(out@) =~= chunk_dump(path@, lines@, is_pdf, chunk_spans@, match_line, full_file_mode));
        return out;
    }
    let total = lines.len();
    let wanted = match match_line {
        Some(m) => m,
        None => if chunk_spans.len() > 0 { chunk_spans[0].span.line_start } else { 1 },
    };
    let focus = if wanted < 1 { 1 } else if wanted > total { total } else { wanted };
    let (pick, cs, ce) = dump_window(chunk_spans, focus, total, full_file_mode);
    let chunk_meta: Option<&IndexedChunkMeta> = match pick {
        Some(j) => Some(&chunk_spans[j]),
        None => None,
    };
    assert(chunk_meta == focus_ref(chunk_spans@, focus as int));
    let mut out = dump_header_lines(path, chunk_meta, is_pdf);
    let body = build_chunk_strings(lines, cs, ce, focus, chunk_meta, chunk_spans, full_file_mode);
    append_strings(&mut out, &body);
    out
}


// ---------------------------------------------------------------------------
// Nesting depth by containment: a chunk's depth is one more than the deepest
// chunk that strictly contains it (starts before it and ends after it).

/// Nesting depth of a chunk with lines `t`, looking at the first `n` chunks
/// as containers (and at all of them below those).
pub open spec fn nesting_upto(all: Seq<IndexedChunkMeta>, t: Span, n: int) -> nat
    decreases t.line_start, n,
{
    if n <= 0 {
        0
    } else {
        let prev = nesting_upto(all, t, n - 1);
        let s = all[n - 1].span;
        if s.line_start < t.line_start && s.line_end > t.line_end {
            let d = nesting_upto(all, s, all.len() as int) + 1;
            if d > prev { d } else { prev }
        } else {
            prev
        }
    }
}

/// Nesting depth of a chunk with lines `t` among `all`.
pub open spec fn nesting_depth(all: Seq<IndexedChunkMeta>, t: Span) -> nat {
    nesting_upto(all, t, all.len() as int)
}

proof fn lemma_nesting_le_start(all: Seq<IndexedChunkMeta>, t: Span, n: int)
    ensures
        nesting_upto(all, t, n) <= t.line_start,
    decreases t.line_start, n,
{
    if n > 0 {
        lemma_nesting_le_start(all, t, n - 1);
        let s = all[n - 1].span;
        if s.line_start < t.line_start && s.line_end > t.line_end {
            lemma_nesting_le_start(all, s, all.len() as int);
        }
    }
}

/// Nesting depth of `target` among `all_chunks`: one more than the deepest
/// chunk that starts before it and ends after it, 0 if none does.
pub fn calculate_nesting_depth(target_chunk: &IndexedChunkMeta, all_chunks: &[IndexedChunkMeta]) -> (d: usize)
    ensures
        d == nesting_depth(all_chunks@, target_chunk.span),
    decreases target_chunk.span.line_start,
{
    let t = target_chunk.span;
    let mut max_depth: usize = 0;
    let mut i: usize = 0;
    while i < all_chunks.len()
        invariant
            i <= all_chunks@.len(),
            t == target_chunk.span,
            max_depth == nesting_upto(all_chunks@, t, i as int),
        decreases all_chunks@.len() - i,
    {
        let s = all_chunks[i].span;
        if s.line_start < t.line_start && s.line_end > t.line_end {
            let inner = calculate_nesting_depth(&all_chunks[i], all_chunks);
            proof {
                lemma_nesting_le_start(all_chunks@, s, all_chunks@.len() as int);
            }
            let depth = inner + 1;
            if depth > max_depth {
                max_depth = depth;
            }
        }
        i += 1;
    }
    max_depth
}

/// Largest nesting depth among the first `n` chunks (0 if none).
pub open spec fn max_nesting(all: Seq<IndexedChunkMeta>, n: int) -> nat
    decreases n,
{
    if n <= 0 {
        0
    } else {
        let prev = max_nesting(all, n - 1);
        let d = nesting_depth(all, all[n - 1].span);
        if d > prev { d } else { prev }
    }
}

/// Largest nesting depth among the chunks, 0 when there is none.
pub fn calculate_max_depth(all_chunks: &[IndexedChunkMeta]) -> (d: usize)
    ensures
        d == max_nesting(all_chunks@, all_chunks@.len() as int),
{
    let mut max_depth: usize = 0;
    let mut i: usize = 0;
    while i < all_chunks.len()
        invariant
            i <= all_chunks@.len(),
            max_depth == max_nesting(all_chunks@, i as int),
        decreases all_chunks@.len() - i,
    {
        let depth = calculate_nesting_depth(&all_chunks[i], all_chunks);
        if depth > max_depth {
            max_depth = depth;
        }
        i += 1;
    }
    max_depth
}

/// The last chunk among the first `n` whose lines include line `l`.
pub open spec fn line_owner(all: Seq<IndexedChunkMeta>, l: int, n: int) -> Option<int>
    decreases n,
{
    if n <= 0 {
        None
    } else if all[n - 1].span.line_start <= l <= all[n - 1].span.line_end {
        Some(n - 1)
    } else {
        line_owner(all, l, n - 1)
    }
}

/// `m` maps each line covered by one of the first `n` chunks to the nesting
/// depth of the last such chunk, and holds no other line.
pub open spec fn line_depths_of(m: Map<usize, usize>, all: Seq<IndexedChunkMeta>, n: int) -> bool {
    &&& forall|l: usize| #[trigger] m.contains_key(l) == (line_owner(all, l as int, n) is Some)
    &&& forall|l: usize| #[trigger] m.contains_key(l) ==> m[l] == nesting_depth(all, all[line_owner(all, l as int, n)->0].span)
}

/// Depth of every line that some chunk covers: the nesting depth of the
/// last chunk (in input order) that covers it.
pub fn calculate_chunk_depths(all_chunks: &[IndexedChunkMeta]) -> (r: std::collections::HashMap<usize, usize>)
    ensures
        line_depths_of(r@, all_chunks@, all_chunks@.len() as int),
{
    broadcast use vstd::std_specs::hash::group_hash_axioms;
    let mut depths: std::collections::HashMap<usize, usize> = std::collections::HashMap::new();
    let mut i: usize = 0;
    while i < all_chunks.len()
        invariant
            i <= all_chunks@.len(),
            line_depths_of(depths@, all_chunks@, i as int),
        decreases all_chunks@.len() - i,
    {
        let s = all_chunks[i].span;
        let depth = calculate_nesting_depth(&all_chunks[i], all_chunks);
        if s.line_start <= s.line_end {
            let ghost before = depths@;
            let mut line: usize = s.line_start;
            loop
                invariant_except_break
                    s.line_start <= line <= s.line_end,
                    forall|l: usize| #[trigger] depths@.contains_key(l) == (before.contains_key(l) || (s.line_start <= l < line)),
                    forall|l: usize| #[trigger] depths@.contains_key(l) ==> depths@[l] == if s.line_start <= l < line { depth } else { before[l] },
                invariant
                    s == all_chunks@[i as int].span,
                    depth == nesting_depth(all_chunks@, s),
                    i < all_chunks@.len(),
                    line_depths_of(before, all_chunks@, i as int),
                ensures
                    forall|l: usize| #[trigger] depths@.contains_key(l) == (before.contains_key(l) || (s.line_start <= l <= s.line_end)),
                    forall|l: usize| #[trigger] depths@.contains_key(l) ==> depths@[l] == if s.line_start <= l <= s.line_end { depth } else { before[l] },
                decreases s.line_end - line,
            {
                depths.insert(line, depth);
                if line == s.line_end {
                    break;
                }
                line += 1;
            }
        }
        proof {
            assert forall|l: usize| #[trigger] depths@.contains_key(l) == (line_owner(all_chunks@, l as int, i + 1) is Some) by {}
        }
        i += 1;
    }
    depths
}


/// What the preview pane shows of a result.
#[derive(Debug, Clone, Copy, PartialEq, Eq, Structural)]
pub enum PreviewMode {
    Snippet,
    Chunks,
}

/// A file loaded for previewing, kept so that it is not read again.
#[derive(Debug)]
pub struct PreviewCache {
    pub file: String,
    pub lines: Vec<String>,
    pub is_pdf: bool,
    pub chunks: Vec<IndexedChunkMeta>,
}

/// The name shown for a chunk type.
pub open spec fn chunk_type_name(t: ChunkType) -> Seq<char> {
    match t {
        ChunkType::Function => "function"@,
        ChunkType::Class => "class"@,
        ChunkType::Method => "method"@,
        ChunkType::Module => "module"@,
        ChunkType::Text => "text"@,
    }
}

/// The display facts of chunks cut from a file: their lines and type
/// names. The chunks carry no breadcrumb, ancestry, size or trivia, so
/// those are left empty.
pub fn convert_chunks_to_meta(chunks: Vec<Chunk>) -> (r: Vec<IndexedChunkMeta>)
    ensures
        r@.len() == chunks@.len(),
        forall|i: int| 0 <= i < r@.len() ==> {
            &&& #[trigger] r@[i].span == chunks@[i].span
            &&& r@[i].chunk_type matches Some(t) && t@ == chunk_type_name(chunks@[i].chunk_type)
            &&& r@[i].breadcrumb is None
            &&& r@[i].ancestry@.len() == 0
            &&& r@[i].estimated_tokens is None
            &&& r@[i].byte_length is None
            &&& r@[i].leading_trivia is None
            &&& r@[i].trailing_trivia is None
        },
{
    let mut r: Vec<IndexedChunkMeta> = Vec::new();
    let mut i: usize = 0;
    while i < chunks.len()
        invariant
            i <= chunks@.len(),
            r@.len() == i,
            forall|k: int| 0 <= k < i ==> {
                &&& #[trigger] r@[k].span == chunks@[k].span
                &&& r@[k].chunk_type matches Some(t) && t@ == chunk_type_name(chunks@[k].chunk_type)
                &&& r@[k].breadcrumb is None
                &&& r@[k].ancestry@.len() == 0
                &&& r@[k].estimated_tokens is None
                &&& r@[k].byte_length is None
                &&& r@[k].leading_trivia is None
                &&& r@[k].trailing_trivia is None
            },
        decreases chunks@.len() - i,
    {
        let c = &chunks[i];
        let name = match c.chunk_type {
            ChunkType::Function => "function".to_owned(),
            ChunkType::Class => "class".to_owned(),
            ChunkType::Method => "method".to_owned(),
            ChunkType::Module => "module".to_owned(),
            ChunkType::Text => "text".to_owned(),
        };
        r.push(IndexedChunkMeta {
            span: c.span,
            chunk_type: Some(name),
            breadcrumb: None,
            ancestry: Vec::new(),
            estimated_tokens: None,
            byte_length: None,
            leading_trivia: None,
            trailing_trivia: None,
        });
        i += 1;
    }
    r
}

/// A chunk of type "module".
pub open spec fn is_module_chunk(m: IndexedChunkMeta) -> bool {
    m.chunk_type matches Some(t) && t@ == "module"@
}

/// The chunks without those of type "module", kept in order.
pub open spec fn non_module_chunks(all: Seq<IndexedChunkMeta>, n: int) -> Seq<IndexedChunkMeta>
    decreases n,
{
    if n <= 0 {
        seq![]
    } else if is_module_chunk(all[n - 1]) {
        non_module_chunks(all, n - 1)
    } else {
        non_module_chunks(all, n - 1).push(all[n - 1])
    }
}

/// Chunks as the index lists them for display: module chunks are left out
/// when the file has chunks of another kind too.
pub fn drop_module_chunks(metas: Vec<IndexedChunkMeta>) -> (r: Vec<IndexedChunkMeta>)
    ensures
        (exists|i: int| 0 <= i < metas@.len() && !is_module_chunk(#[trigger] metas@[i])) ==> r@ == non_module_chunks(metas@, metas@.len() as int),
        (forall|i: int| 0 <= i < metas@.len() ==> is_module_chunk(#[trigger] metas@[i])) ==> r@ == metas@,
{
    let mut is_module: Vec<bool> = Vec::new();
    let mut any_other = false;
    let mut i: usize = 0;
    while i < metas.len()
        invariant
            i <= metas@.len(),
            is_module@.len() == i,
            forall|k: int| 0 <= k < i ==> #[trigger] is_module@[k] == is_module_chunk(metas@[k]),
            any_other == exists|k: int| 0 <= k < i && !is_module_chunk(#[trigger] metas@[k]),
        decreases metas@.len() - i,
    {
        let m = match &metas[i].chunk_type {
            Some(t) => str_eq(t.as_str(), "module"),
            None => false,
        };
        is_module.push(m);
        if !m {
            any_other = true;
        }
        i += 1;
    }
    if !any_other {
        return metas;
    }
    let mut r: Vec<IndexedChunkMeta> = Vec::new();
    let ghost all = metas@;
    let mut k: usize = 0;
    let mut rest = metas;
    while k < is_module.len()
        invariant
            k <= is_module@.len() == all.len(),
            rest@ == all.skip(k as int),
            forall|j: int| 0 <= j < all.len() ==> #[trigger] is_module@[j] == is_module_chunk(all[j]),
            r@ == non_module_chunks(all, k as int),
        decreases is_module@.len() - k,
    {
        let m = rest.remove(0);
        assert(m == all[k as int]);
        assert(rest@ =~= all.skip(k + 1));
        if !is_module[k] {
            r.push(m);
        }
        k += 1;
    }
    r
}

} // verus!
