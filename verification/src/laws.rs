//! Properties that hold across the library's operations.
use vstd::prelude::*;

use crate::chunk_view::{
    column_count, content_columns, content_row_view, display_rows, nesting_depth, nesting_upto, rows_for_line, rows_upto,
    IndexedChunkMeta, RowView,
};
use crate::chunk::{
    base_chunks_ok, chunking_ok, generic_chunks_ok, generic_chunk_ok, striding_blocked, striding_ok,
    striding_piece_ok, reported_total_strides, stride_count, stride_fails, stride_ok, stride_overlap_chars,
    stride_window_chars, strides_ok, parseable, Chunk, ChunkConfig, ChunkError, ChunkType,
};
use crate::types::{Language, Span};
use crate::embed::estimated_tokens;
use crate::heatmap::{spec_tokens, token_scan};
use crate::models::{alias_index, default_entry_ok, default_registry_entries, ModelConfig};
use crate::paths::{
    extension_of, file_name_of, is_absolute, keep_name, last_dot, lemma_last_dot_range, original_names,
    original_path, path_names, path_scan, render_path, replace_last, sidecar_path, stem_of,
    strip_names, with_extension,
};
use crate::text::{decimal, has_suffix, join_with};
use crate::path_utils::{
    add_all_new, add_if_new, exclude_globs_upto, excluded_path, expand_step, expansion, holds_path,
    distinct_paths, possible_answers, same_path,
};

verus! {

// ---------------------------------------------------------------------------
// Heatmap tokens.

proof fn lemma_token_scan_rebuilds(s: Seq<char>)
    ensures
        token_scan(s).0.flatten() + token_scan(s).1 == s,
        forall|i: int| 0 <= i < token_scan(s).0.len() ==> #[trigger] token_scan(s).0[i].len() > 0,
    decreases s.len(),
{
    if s.len() > 0 {
        let p = s.drop_last();
        lemma_token_scan_rebuilds(p);
        let (done, cur) = token_scan(p);
        let c = s.last();
        assert(p.push(c) =~= s);
        if crate::heatmap::is_separator(c) {
            let closed = if cur.len() > 0 { done.push(cur) } else { done };
            if cur.len() > 0 {
                done.lemma_flatten_push(cur);
            } else {
                assert(cur =~= Seq::<char>::empty());
            }
            assert(closed.flatten() =~= done.flatten() + cur);
            closed.lemma_flatten_push(seq![c]);
            assert(token_scan(s).0 == closed.push(seq![c]));
            assert(token_scan(s).0.flatten() + token_scan(s).1 =~= s);
        } else {
            assert(token_scan(s).0.flatten() + token_scan(s).1 =~= (done.flatten() + cur).push(c));
        }
    }
}

/// Heatmap tokens lose nothing: the tokens of a text, put back together in
/// order, give the text, and none of them is empty.
pub proof fn law_tokens_rebuild_text(text: Seq<char>)
    ensures
        spec_tokens(text).flatten() == text,
        forall|i: int| 0 <= i < spec_tokens(text).len() ==> #[trigger] spec_tokens(text)[i].len() > 0,
{
    lemma_token_scan_rebuilds(text);
    let (done, cur) = token_scan(text);
    if cur.len() > 0 {
        done.lemma_flatten_push(cur);
    } else {
        assert(done.flatten() + cur =~= done.flatten());
    }
}

// ---------------------------------------------------------------------------
// Excluding and collecting paths.

/// Without exclude patterns the exclude set is empty, and an empty set
/// excludes no path.
pub proof fn law_no_patterns_exclude_nothing(path: Seq<char>, base: Option<Seq<char>>)
    ensures
        exclude_globs_upto(Seq::<Seq<char>>::empty(), 0) == Seq::<Seq<char>>::empty(),
        !excluded_path(Seq::<Seq<char>>::empty(), path, base),
{
}

proof fn lemma_add_if_new_distinct(acc: Seq<Seq<char>>, p: Seq<char>)
    requires
        distinct_paths(acc),
    ensures
        distinct_paths(add_if_new(acc, p)),
{
    if !holds_path(acc, p) {
        let r = acc.push(p);
        assert forall|i: int, j: int| 0 <= i < j < r.len() implies !same_path(#[trigger] r[i], #[trigger] r[j]) by {
            if j == acc.len() {
                assert(!same_path(acc[i], p));
            } else {
                assert(r[i] == acc[i] && r[j] == acc[j]);
            }
        }
    }
}

proof fn lemma_add_all_new_distinct(acc: Seq<Seq<char>>, items: Seq<Seq<char>>)
    requires
        distinct_paths(acc),
    ensures
        distinct_paths(add_all_new(acc, items)),
    decreases items.len(),
{
    if items.len() > 0 {
        lemma_add_all_new_distinct(acc, items.drop_last());
        lemma_add_if_new_distinct(add_all_new(acc, items.drop_last()), items.last());
    }
}

/// However the lookups on disk turn out, the expansion of path arguments
/// never lists the same path twice.
pub proof fn law_expansion_lists_each_path_once(
    qs: Seq<(Seq<char>, Option<Seq<char>>)>,
    ms: Seq<(Seq<Seq<char>>, Seq<Seq<char>>)>,
)
    ensures
        distinct_paths(expansion(qs, ms)),
    decreases qs.len(),
{
    if qs.len() > 0 && ms.len() > 0 {
        law_expansion_lists_each_path_once(qs.drop_last(), ms.drop_last());
        let acc = expansion(qs.drop_last(), ms.drop_last());
        let (q, m) = (qs.last(), ms.last());
        lemma_add_all_new_distinct(acc, m.0);
        let a1 = add_all_new(acc, m.0);
        lemma_add_all_new_distinct(a1, m.1);
        let a2 = match q.1 {
            Some(_) => add_all_new(a1, m.1),
            None => a1,
        };
        lemma_add_if_new_distinct(a2, q.0);
        assert(expansion(qs, ms) == expand_step(acc, q, m));
    }
}

/// Adding a path twice is adding it once; afterwards the path is held.
pub proof fn law_add_if_new_idempotent(acc: Seq<Seq<char>>, p: Seq<char>)
    ensures
        holds_path(add_if_new(acc, p), p),
        add_if_new(add_if_new(acc, p), p) == add_if_new(acc, p),
{
    let r = add_if_new(acc, p);
    if holds_path(acc, p) {
    } else {
        assert(same_path(r[acc.len() as int], p));
    }
}

// ---------------------------------------------------------------------------
// Nesting depth.

proof fn lemma_nesting_monotone(all: Seq<IndexedChunkMeta>, t: crate::types::Span, m: int, n: int)
    requires
        0 <= m <= n,
    ensures
        nesting_upto(all, t, m) <= nesting_upto(all, t, n),
    decreases n - m,
{
    if m < n {
        lemma_nesting_monotone(all, t, m, n - 1);
    }
}

/// A chunk inside another (starting after it and ending before it) is
/// nested deeper than that chunk.
pub proof fn law_nested_chunk_is_deeper(all: Seq<IndexedChunkMeta>, i: int, inner: crate::types::Span)
    requires
        0 <= i < all.len(),
        all[i].span.line_start < inner.line_start,
        all[i].span.line_end > inner.line_end,
    ensures
        nesting_depth(all, inner) >= nesting_depth(all, all[i].span) + 1,
{
    lemma_nesting_monotone(all, inner, i + 1, all.len() as int);
    assert(nesting_upto(all, inner, i + 1) >= nesting_upto(all, all[i].span, all.len() as int) + 1);
}

// ---------------------------------------------------------------------------
// The chunk view.

/// Line numbers of the content rows, in order.
pub open spec fn content_line_numbers(rows: Seq<RowView>) -> Seq<nat>
    decreases rows.len(),
{
    if rows.len() == 0 {
        seq![]
    } else {
        let prev = content_line_numbers(rows.drop_last());
        match rows.last() {
            RowView::Content { line_num, .. } => prev.push(line_num),
            _ => prev,
        }
    }
}

proof fn lemma_content_numbers_concat(a: Seq<RowView>, b: Seq<RowView>)
    ensures
        content_line_numbers(a + b) == content_line_numbers(a) + content_line_numbers(b),
    decreases b.len(),
{
    if b.len() == 0 {
        assert(a + b =~= a);
        assert(content_line_numbers(a) + content_line_numbers(b) =~= content_line_numbers(a));
    } else {
        lemma_content_numbers_concat(a, b.drop_last());
        assert((a + b).drop_last() =~= a + b.drop_last());
        assert((a + b).last() == b.last());
        match b.last() {
            RowView::Content { line_num, .. } => {
                assert(content_line_numbers(a) + content_line_numbers(b) =~= (content_line_numbers(a) + content_line_numbers(b.drop_last())).push(line_num));
            },
            _ => {
                assert(content_line_numbers(a) + content_line_numbers(b) =~= content_line_numbers(a) + content_line_numbers(b.drop_last()));
            },
        }
    }
}

proof fn lemma_rows_upto_numbers(
    lines: Seq<Seq<char>>,
    all: Seq<IndexedChunkMeta>,
    cs: int,
    k: int,
    match_line: int,
    target: Option<&IndexedChunkMeta>,
)
    requires
        0 <= cs,
        0 <= k,
    ensures
        content_line_numbers(rows_upto(lines, all, cs, k, match_line, target)) == Seq::new(k as nat, |i: int| (cs + i + 1) as nat),
    decreases k,
{
    if k > 0 {
        lemma_rows_upto_numbers(lines, all, cs, k - 1, match_line, target);
        let prev = rows_upto(lines, all, cs, k - 1, match_line, target);
        let here = rows_for_line(lines, all, cs, k - 1, match_line, target);
        lemma_content_numbers_concat(prev, here);
        let l = cs + k;
        let c = content_row_view(all, cs, l, match_line, target, lines[cs + k - 1]);
        let label = here.drop_last();
        assert(here.last() == c);
        assert(content_line_numbers(label) =~= Seq::<nat>::empty()) by {
            reveal_with_fuel(content_line_numbers, 2);
        }
        assert(content_line_numbers(here) =~= seq![l as nat]);
        assert(Seq::new(k as nat, |i: int| (cs + i + 1) as nat) =~= Seq::new((k - 1) as nat, |i: int| (cs + i + 1) as nat).push(l as nat));
    }
}

/// The chunk view shows each line of its range exactly once, in order:
/// its content rows are those of lines `cs + 1 ..= ce`.
pub proof fn law_view_shows_each_line_once(
    lines: Seq<Seq<char>>,
    all: Seq<IndexedChunkMeta>,
    cs: int,
    ce: int,
    match_line: int,
    target: Option<&IndexedChunkMeta>,
    full_file_mode: bool,
)
    requires
        0 <= cs <= ce,
    ensures
        content_line_numbers(display_rows(lines, all, cs, ce, match_line, target, full_file_mode))
            == Seq::new((ce - cs) as nat, |i: int| (cs + i + 1) as nat),
{
    lemma_rows_upto_numbers(lines, all, cs, ce - cs, match_line, target);
    let body = rows_upto(lines, all, cs, ce - cs, match_line, target);
    let tail = if !full_file_mode && target is None && all.len() > 0 {
        seq![RowView::Message(crate::chunk_view::no_match_note())]
    } else {
        seq![]
    };
    lemma_content_numbers_concat(body, tail);
    assert(content_line_numbers(tail) =~= Seq::<nat>::empty()) by {
        reveal_with_fuel(content_line_numbers, 2);
    }
    assert(content_line_numbers(body) + content_line_numbers(tail) =~= content_line_numbers(body));
}


// ---------------------------------------------------------------------------
// Striding.

/// The number of strides each stride reports is the number of strides
/// there are.
pub proof fn law_stride_total_is_stride_count(chars: int, window: int, overlap: int)
    requires
        0 <= overlap < window,
        chars >= 1,
    ensures
        reported_total_strides(chars, window, overlap) == stride_count(chars, window, window - overlap),
{
    if chars > window {
        let step = window - overlap;
        let x = chars - window + step - 1;
        assert(chars - overlap + step - 1 == x + step);
        vstd::arithmetic::div_mod::lemma_div_plus_one(x, step);
    }
}

/// Every stride of a chunk reports as its total the number of strides the
/// chunk was cut into.
pub proof fn law_strides_report_their_number(chunk: Chunk, config: ChunkConfig, v: Seq<Chunk>)
    requires
        chunk.text@.len() > 0,
        !stride_fails(chunk, config),
        strides_ok(chunk, config, v),
    ensures
        forall|k: int| 0 <= k < v.len() ==> ((#[trigger] v[k]).stride_info matches Some(info) && info.total_strides == v.len()),
{
    let s = chunk.text@;
    let n = s.len() as int;
    let tokens = estimated_tokens(s) as int;
    let window = stride_window_chars(config.max_tokens as int, n, tokens);
    let overlap = stride_overlap_chars(config.stride_overlap as int, n, tokens);
    assert(overlap >= 0) by (nonlinear_arith)
        requires
            overlap == stride_overlap_chars(config.stride_overlap as int, n, tokens),
            n > 0,
            tokens >= 0,
            config.stride_overlap >= 0,
    ;
    law_stride_total_is_stride_count(n, window, overlap);
    assert forall|k: int| 0 <= k < v.len() implies ((#[trigger] v[k]).stride_info matches Some(info) && info.total_strides == v.len()) by {
        assert(stride_ok(chunk, window, overlap, k, reported_total_strides(n, window, overlap), v[k]));
    }
}

// ---------------------------------------------------------------------------
// Models.

proof fn lemma_alias_first(models: Seq<(String, ModelConfig)>, alias: Seq<char>)
    requires
        models.len() > 0,
        models[0].0@ == alias,
    ensures
        alias_index(models, alias) == Some(0int),
    decreases models.len(),
{
    if models.len() > 1 {
        assert(models.drop_last()[0] == models[0]);
        lemma_alias_first(models.drop_last(), alias);
    } else {
        assert(alias_index(models.drop_last(), alias) is None);
        assert(models.last() == models[0]);
    }
}

/// The built-in registry knows its default model: the default alias names
/// its first entry, `bge-small` with a 512-token limit.
pub proof fn law_default_model_registered(models: Seq<(String, ModelConfig)>)
    requires
        models.len() == default_registry_entries().len(),
        forall|i: int| 0 <= i < models.len() ==> default_entry_ok(models, i),
    ensures
        alias_index(models, "bge-small"@) == Some(0int),
        models[0].1.max_tokens == 512,
{
    assert(default_entry_ok(models, 0));
    lemma_alias_first(models, "bge-small"@);
}


/// Strides put back together: the first whole, each later one without the
/// characters it shares with the one before (its `overlap_start`).
pub open spec fn rejoin_strides(v: Seq<Chunk>) -> Seq<char>
    decreases v.len(),
{
    if v.len() == 0 {
        seq![]
    } else if v.len() == 1 {
        v[0].text@
    } else {
        rejoin_strides(v.drop_last()) + v.last().text@.skip(
            match v.last().stride_info {
                Some(info) => info.overlap_start as int,
                None => 0,
            },
        )
    }
}

proof fn lemma_window_positions(n: int, window: int, step: int, k: int)
    requires
        0 < step <= window < n,
        0 <= k < stride_count(n, window, step),
    ensures
        k < stride_count(n, window, step) - 1 ==> k * step + window < n,
        k == stride_count(n, window, step) - 1 ==> k * step + window >= n,
{
    let q = (n - window + step - 1) / step;
    assert(stride_count(n, window, step) == q + 1);
    vstd::arithmetic::div_mod::lemma_fundamental_div_mod(n - window + step - 1, step);
    let r = (n - window + step - 1) % step;
    assert(0 <= r < step) by {
        vstd::arithmetic::div_mod::lemma_mod_bound(n - window + step - 1, step);
    }
    assert(q * step == n - window + step - 1 - r) by (nonlinear_arith)
        requires
            n - window + step - 1 == step * q + r,
    ;
    if k < q {
        assert(k * step <= (q - 1) * step) by (nonlinear_arith)
            requires
                0 <= k <= q - 1,
                step > 0,
        ;
        assert((q - 1) * step == q * step - step) by (nonlinear_arith);
    }
}

proof fn lemma_rejoin_prefix(chunk: Chunk, window: int, overlap: int, total: int, v: Seq<Chunk>, k: int)
    requires
        0 <= overlap < window,
        chunk.text@.len() > window,
        v.len() == stride_count(chunk.text@.len() as int, window, window - overlap),
        forall|j: int| 0 <= j < v.len() ==> stride_ok(chunk, window, overlap, j, total, #[trigger] v[j]),
        0 <= k < v.len(),
    ensures
        rejoin_strides(v.take(k + 1)) == chunk.text@.take(
            if k * (window - overlap) + window < chunk.text@.len() { k * (window - overlap) + window } else { chunk.text@.len() as int },
        ),
    decreases k,
{
    let s = chunk.text@;
    let n = s.len() as int;
    let step = window - overlap;
    assert(stride_ok(chunk, window, overlap, k, total, v[k]));
    lemma_window_positions(n, window, step, k);
    assert(0 <= k * step) by (nonlinear_arith)
        requires
            k >= 0,
            step > 0,
    ;
    if k == 0 {
        assert(v.take(1) =~= seq![v[0]]);
        assert(s.subrange(0, window) =~= s.take(window));
    } else {
        lemma_rejoin_prefix(chunk, window, overlap, total, v, k - 1);
        lemma_window_positions(n, window, step, k - 1);
        assert(k * step == (k - 1) * step + step) by (nonlinear_arith);
        let prev_end = (k - 1) * step + window;
        let start = k * step;
        let end = if start + window < n { start + window } else { n };
        assert(v.take(k + 1).drop_last() =~= v.take(k));
        assert(v.take(k + 1).last() == v[k]);
        assert(v[k].text@ == s.subrange(start, end));
        assert(s.subrange(start, end).skip(overlap) =~= s.subrange(start + overlap, end));
        assert(start + overlap == prev_end);
        assert(s.take(prev_end) + s.subrange(prev_end, end) =~= s.take(end));
    }
}

/// Striding loses nothing: a chunk's strides, the first whole and each
/// later one without the characters it shares with the one before, put
/// together give the chunk's text.
pub proof fn law_strides_rebuild_text(chunk: Chunk, config: ChunkConfig, v: Seq<Chunk>)
    requires
        chunk.text@.len() > 0,
        !stride_fails(chunk, config),
        strides_ok(chunk, config, v),
    ensures
        rejoin_strides(v) == chunk.text@,
{
    let s = chunk.text@;
    let n = s.len() as int;
    let tokens = estimated_tokens(s) as int;
    let window = stride_window_chars(config.max_tokens as int, n, tokens);
    let overlap = stride_overlap_chars(config.stride_overlap as int, n, tokens);
    let total = reported_total_strides(n, window, overlap);
    assert(overlap >= 0) by (nonlinear_arith)
        requires
            overlap == stride_overlap_chars(config.stride_overlap as int, n, tokens),
            n > 0,
            tokens >= 0,
            config.stride_overlap >= 0,
    ;
    if n <= window {
        assert(v.len() == 1);
        assert(stride_ok(chunk, window, overlap, 0, total, v[0]));
        assert(s.subrange(0, n) =~= s);
    } else {
        let k = v.len() - 1;
        assert(v.len() >= 1) by {
            assert(stride_count(n, window, window - overlap) >= 1) by (nonlinear_arith)
                requires
                    n > window,
                    window - overlap > 0,
            ;
        }
        lemma_rejoin_prefix(chunk, window, overlap, total, v, k);
        lemma_window_positions(n, window, window - overlap, k);
        assert(v.take(k + 1) =~= v);
        assert(s.take(n) =~= s);
    }
}


// ---------------------------------------------------------------------------
// Paths and sidecars.

/// A name as paths hold them: not empty, no slash, not `.`.
pub open spec fn clean_name(n: Seq<char>) -> bool {
    n.len() > 0 && !n.contains('/') && n != seq!['.']
}

/// Every name of `ns` is clean.
pub open spec fn clean_names(ns: Seq<Seq<char>>) -> bool {
    forall|i: int| 0 <= i < ns.len() ==> clean_name(#[trigger] ns[i])
}

proof fn lemma_scan_clean(p: Seq<char>)
    ensures
        clean_names(path_scan(p).0),
        !path_scan(p).1.contains('/'),
    decreases p.len(),
{
    if p.len() > 0 {
        lemma_scan_clean(p.drop_last());
        let (done, cur) = path_scan(p.drop_last());
        if p.last() == '/' {
            let k = keep_name(done, cur);
            assert forall|i: int| 0 <= i < k.len() implies clean_name(#[trigger] k[i]) by {
                if i < done.len() {
                    assert(k[i] == done[i]);
                }
            }
            assert(!Seq::<char>::empty().contains('/'));
        } else {
            assert forall|j: int| 0 <= j < cur.push(p.last()).len() implies cur.push(p.last())[j] != '/' by {
                if j < cur.len() {
                    assert(cur.push(p.last())[j] == cur[j]);
                }
            }
        }
    }
}

/// The names of a path are clean.
pub proof fn lemma_path_names_clean(p: Seq<char>)
    ensures
        clean_names(path_names(p)),
{
    lemma_scan_clean(p);
    let (done, cur) = path_scan(p);
    let k = keep_name(done, cur);
    assert forall|i: int| 0 <= i < k.len() implies clean_name(#[trigger] k[i]) by {
        if i < done.len() {
            assert(k[i] == done[i]);
        }
    }
}

proof fn lemma_scan_word(x: Seq<char>, n: Seq<char>)
    requires
        !n.contains('/'),
    ensures
        path_scan(x + n) == (path_scan(x).0, path_scan(x).1 + n),
    decreases n.len(),
{
    if n.len() == 0 {
        assert(x + n =~= x);
        assert(path_scan(x).1 + n =~= path_scan(x).1);
    } else {
        assert(!n.drop_last().contains('/')) by {
            assert forall|j: int| 0 <= j < n.drop_last().len() implies n.drop_last()[j] != '/' by {
                assert(n.drop_last()[j] == n[j]);
            }
        }
        lemma_scan_word(x, n.drop_last());
        assert((x + n).drop_last() =~= x + n.drop_last());
        assert((x + n).last() == n.last());
        assert(n.last() != '/') by {
            assert(n[n.len() - 1] == n.last());
        }
        assert(path_scan(x).1 + n =~= (path_scan(x).1 + n.drop_last()).push(n.last()));
    }
}

proof fn lemma_scan_rendered(abs: bool, ns: Seq<Seq<char>>)
    requires
        clean_names(ns),
        ns.len() >= 1,
    ensures
        path_scan(render_path(abs, ns)) == (ns.drop_last(), ns.last()),
    decreases ns.len(),
{
    let pre: Seq<char> = if abs { seq!['/'] } else { seq![] };
    assert(path_scan(pre).0 =~= Seq::<Seq<char>>::empty() && path_scan(pre).1 =~= Seq::<char>::empty()) by {
        if abs {
            assert(pre.drop_last() =~= Seq::<char>::empty());
            reveal_with_fuel(path_scan, 2);
        }
    }
    assert(clean_name(ns.last()));
    if ns.len() == 1 {
        assert(join_with(ns, seq!['/']) == ns[0]);
        lemma_scan_word(pre, ns[0]);
        assert(Seq::<char>::empty() + ns[0] =~= ns[0]);
        assert(ns.drop_last() =~= Seq::<Seq<char>>::empty());
    } else {
        let dl = ns.drop_last();
        assert(clean_names(dl)) by {
            assert forall|i: int| 0 <= i < dl.len() implies clean_name(#[trigger] dl[i]) by {
                assert(dl[i] == ns[i]);
            }
        }
        lemma_scan_rendered(abs, dl);
        let x = render_path(abs, dl);
        assert(render_path(abs, ns) =~= x.push('/') + ns.last());
        assert(x.push('/').drop_last() =~= x);
        assert(clean_name(dl.last()));
        assert(keep_name(dl.drop_last(), dl.last()) =~= dl);
        lemma_scan_word(x.push('/'), ns.last());
        assert(Seq::<char>::empty() + ns.last() =~= ns.last());
    }
}

/// A path written out from clean names reads back as those names.
pub proof fn lemma_render_parse(abs: bool, ns: Seq<Seq<char>>)
    requires
        clean_names(ns),
    ensures
        path_names(render_path(abs, ns)) == ns,
        is_absolute(render_path(abs, ns)) == abs,
{
    let r = render_path(abs, ns);
    if ns.len() == 0 {
        if abs {
            assert(r =~= seq!['/']);
            assert(r.drop_last() =~= Seq::<char>::empty());
            reveal_with_fuel(path_scan, 2);
            assert(path_names(r) =~= ns);
        } else {
            assert(r =~= Seq::<char>::empty());
            assert(path_names(r) =~= ns);
        }
    } else {
        lemma_scan_rendered(abs, ns);
        assert(clean_name(ns.last()));
        assert(keep_name(ns.drop_last(), ns.last()) =~= ns);
        if !abs {
            lemma_join_starts_with_first(ns);
            assert(clean_name(ns[0]));
            assert(ns[0][0] != '/');
        }
    }
}

proof fn lemma_join_starts_with_first(ns: Seq<Seq<char>>)
    requires
        ns.len() >= 1,
        ns[0].len() > 0,
    ensures
        join_with(ns, seq!['/']).len() > 0,
        join_with(ns, seq!['/'])[0] == ns[0][0],
    decreases ns.len(),
{
    if ns.len() > 1 {
        assert(ns.drop_last()[0] == ns[0]);
        lemma_join_starts_with_first(ns.drop_last());
    }
}

proof fn lemma_stem_and_extension(name: Seq<char>)
    ensures
        extension_of(name) matches Some(e) ==> stem_of(name) + seq!['.'] + e == name,
{
    lemma_last_dot_range(name);
    if let Some(e) = extension_of(name) {
        let i = last_dot(name)->0;
        assert(stem_of(name) + seq!['.'] + e =~= name);
    }
}

proof fn lemma_ck_extension(name: Seq<char>)
    requires
        name.len() > 0,
    ensures
        extension_of(name + seq!['.', 'c', 'k']) == Some(seq!['c', 'k']),
        stem_of(name + seq!['.', 'c', 'k']) == name,
{
    let x = name + seq!['.', 'c', 'k'];
    assert(x.drop_last() =~= name + seq!['.', 'c']);
    assert(x.drop_last().drop_last() =~= name + seq!['.']);
    assert(last_dot(name + seq!['.']) == Some(name.len() as int));
    assert(last_dot(name + seq!['.', 'c']) == Some(name.len() as int));
    assert(last_dot(x) == Some(name.len() as int));
    assert(x != seq!['.', '.']) by {
        assert(x.len() != 2);
    }
    assert(x.subrange(name.len() + 1int, x.len() as int) =~= seq!['c', 'k']);
    assert(x.subrange(0, x.len() - 2 - 1) =~= name);
}

/// A file under a repository, named by `file` (not ending in `..` or
/// `.ck`), is found back from its sidecar: the sidecar under `.ck` in the
/// root leads back to the file itself.
pub proof fn law_sidecar_round_trip(root: Seq<char>, file: Seq<char>)
    requires
        is_absolute(file) == is_absolute(root),
        path_names(root).len() < path_names(file).len(),
        path_names(file).take(path_names(root).len() as int) == path_names(root),
        path_names(file).last() != seq!['.', '.'],
        !has_suffix(path_names(file).last(), seq!['.', 'c', 'k']),
    ensures
        original_path(
            sidecar_path(root, file),
            render_path(is_absolute(root), path_names(root).push(seq!['.', 'c', 'k'])),
            root,
        ) == Some(render_path(is_absolute(file), path_names(file))),
{
    let a = is_absolute(root);
    let r = path_names(root);
    let f = path_names(file);
    let t = f.skip(r.len() as int);
    let ck = seq!['.', 'c', 'k'];
    let name = f.last();
    lemma_path_names_clean(root);
    lemma_path_names_clean(file);
    assert(strip_names(a, f, a, r) == Some(t));
    assert(t.last() == name);
    assert(file_name_of(t) == Some(name));
    assert(clean_name(name)) by {
        assert(f[f.len() - 1] == name);
    }
    // the sidecar's names
    let joined = r.push(ck) + t;
    assert(joined.last() == name);
    lemma_stem_and_extension(name);
    let ext = match extension_of(name) {
        Some(e) => e + ck,
        None => seq!['c', 'k'],
    };
    let new_name = name + ck;
    assert(stem_of(name) + seq!['.'] + ext =~= new_name);
    let side_names = joined.update(joined.len() - 1, new_name);
    assert(with_extension(joined, ext) == side_names);
    assert(sidecar_path(root, file) == render_path(a, side_names));
    // all names are clean, so the sidecar reads back as its names
    assert(clean_name(new_name)) by {
        assert forall|j: int| 0 <= j < new_name.len() implies new_name[j] != '/' by {
            if j < name.len() {
                assert(new_name[j] == name[j]);
            }
        }
        assert(new_name.len() != 1);
    }
    assert(clean_name(ck)) by {
        assert(ck.len() != 1);
    }
    assert(clean_names(side_names)) by {
        assert forall|i: int| 0 <= i < side_names.len() implies clean_name(#[trigger] side_names[i]) by {
            if i < r.len() {
                assert(side_names[i] == r[i]);
            } else if i == r.len() {
                assert(side_names[i] == ck);
            } else if i < side_names.len() - 1 {
                assert(side_names[i] == f[i - 1]);
            }
        }
    }
    assert(clean_names(r.push(ck))) by {
        assert forall|i: int| 0 <= i < r.push(ck).len() implies clean_name(#[trigger] r.push(ck)[i]) by {
            if i < r.len() {
                assert(r.push(ck)[i] == r[i]);
            }
        }
    }
    lemma_render_parse(a, side_names);
    lemma_render_parse(a, r.push(ck));
    // back from the sidecar
    let t2 = side_names.skip(r.len() + 1int);
    assert(side_names.take(r.len() + 1int) =~= r.push(ck));
    assert(t2 =~= t.update(t.len() - 1, new_name));
    assert(strip_names(a, side_names, a, r.push(ck)) == Some(t2));
    lemma_ck_extension(name);
    assert(file_name_of(t2) == Some(new_name));
    assert(with_extension(t2, seq![]) =~= t);
    assert(original_names(sidecar_path(root, file), render_path(a, r.push(ck))) == Some(t));
    assert(r + t =~= f);
}

/// `base` joined with a relative path `rel`, written by its names as paths
/// compare (by components): the names of `base`, then those of `rel`.
pub open spec fn joined_path(base: Seq<char>, rel: Seq<char>) -> Seq<char> {
    render_path(is_absolute(base), path_names(base) + path_names(rel))
}

/// A file given as a repository root joined with a relative path (whose
/// file name is not `..` and does not end in `.ck`) is found back from its
/// sidecar, with the index directory given as the root joined with `.ck`.
pub proof fn law_joined_sidecar_round_trip(root: Seq<char>, rel: Seq<char>)
    requires
        !is_absolute(rel),
        path_names(rel).len() > 0,
        path_names(rel).last() != seq!['.', '.'],
        !has_suffix(path_names(rel).last(), seq!['.', 'c', 'k']),
    ensures
        original_path(
            sidecar_path(root, joined_path(root, rel)),
            joined_path(root, seq!['.', 'c', 'k']),
            root,
        ) == Some(joined_path(root, rel)),
{
    let a = is_absolute(root);
    let r = path_names(root);
    let f = r + path_names(rel);
    let ck = seq!['.', 'c', 'k'];
    lemma_path_names_clean(root);
    lemma_path_names_clean(rel);
    assert(clean_names(f)) by {
        assert forall|i: int| 0 <= i < f.len() implies clean_name(#[trigger] f[i]) by {
            if i < r.len() {
                assert(f[i] == r[i]);
            } else {
                assert(f[i] == path_names(rel)[i - r.len()]);
            }
        }
    }
    let file = joined_path(root, rel);
    lemma_render_parse(a, f);
    assert(f.take(r.len() as int) =~= r);
    assert(f.last() == path_names(rel).last());
    law_sidecar_round_trip(root, file);
    assert(clean_names(seq![ck])) by {
        assert(clean_name(ck)) by {
            assert(ck.len() != 1);
        }
    }
    lemma_render_parse(false, seq![ck]);
    assert(render_path(false, seq![ck]) =~= ck);
    assert(r + path_names(ck) =~= r.push(ck));
}


proof fn lemma_add_all_new_from(acc: Seq<Seq<char>>, items: Seq<Seq<char>>)
    ensures
        forall|x: Seq<char>| add_all_new(acc, items).contains(x) ==> acc.contains(x) || items.contains(x),
    decreases items.len(),
{
    if items.len() > 0 {
        lemma_add_all_new_from(acc, items.drop_last());
        let prev = add_all_new(acc, items.drop_last());
        assert forall|x: Seq<char>| add_all_new(acc, items).contains(x) implies acc.contains(x) || items.contains(x) by {
            if prev.contains(x) {
                if items.drop_last().contains(x) {
                    let j = choose|j: int| 0 <= j < items.drop_last().len() && items.drop_last()[j] == x;
                    assert(items[j] == x);
                }
            } else {
                assert(add_all_new(acc, items) == add_if_new(prev, items.last()));
                if !holds_path(prev, items.last()) {
                    let r = prev.push(items.last());
                    let j = choose|j: int| 0 <= j < r.len() && r[j] == x;
                    if j < prev.len() {
                        assert(prev[j] == x);
                    }
                    assert(items[items.len() - 1] == x);
                }
            }
        }
    }
}

proof fn lemma_add_if_new_from(acc: Seq<Seq<char>>, p: Seq<char>)
    ensures
        forall|x: Seq<char>| add_if_new(acc, p).contains(x) ==> acc.contains(x) || x == p,
{
    assert forall|x: Seq<char>| add_if_new(acc, p).contains(x) implies acc.contains(x) || x == p by {
        if !holds_path(acc, p) {
            let r = acc.push(p);
            let j = choose|j: int| 0 <= j < r.len() && r[j] == x;
            if j < acc.len() {
                assert(acc[j] == x);
            }
        }
    }
}

/// However the lookups on disk turn out, a path the exclude patterns cover
/// is listed only as a pattern that stands for itself (one whose lookups
/// found nothing).
pub proof fn law_excluded_paths_stay_out(
    qs: Seq<(Seq<char>, Option<Seq<char>>)>,
    ms: Seq<(Seq<Seq<char>>, Seq<Seq<char>>)>,
    patterns: Seq<Seq<char>>,
    base: Option<Seq<char>>,
)
    requires
        possible_answers(qs, ms, patterns, base),
    ensures
        forall|x: Seq<char>| #[trigger] expansion(qs, ms).contains(x) && excluded_path(patterns, x, base)
            ==> exists|i: int| 0 <= i < qs.len() && qs[i].0 == x,
    decreases qs.len(),
{
    if qs.len() > 0 {
        let pq = qs.drop_last();
        let pm = ms.drop_last();
        assert(possible_answers(pq, pm, patterns, base)) by {
            assert forall|i: int, j: int| 0 <= i < pm.len() && 0 <= j < pm[i].0.len() implies !excluded_path(patterns, #[trigger] pm[i].0[j], base) by {
                assert(pm[i] == ms[i]);
            }
            assert forall|i: int, j: int| 0 <= i < pm.len() && 0 <= j < pm[i].1.len() implies !excluded_path(patterns, #[trigger] pm[i].1[j], base) by {
                assert(pm[i] == ms[i]);
            }
            assert forall|i: int| 0 <= i < pm.len() && !crate::path_utils::glob_pattern_ok(#[trigger] pq[i].0) implies pm[i].0.len() == 0 by {
                assert(pm[i] == ms[i]);
                assert(pq[i] == qs[i]);
            }
        }
        law_excluded_paths_stay_out(pq, pm, patterns, base);
        let acc = expansion(pq, pm);
        let (q, m) = (qs.last(), ms.last());
        assert(m == ms[ms.len() - 1]);
        lemma_add_all_new_from(acc, m.0);
        let a1 = add_all_new(acc, m.0);
        lemma_add_all_new_from(a1, m.1);
        let a2 = match q.1 {
            Some(_) => add_all_new(a1, m.1),
            None => a1,
        };
        lemma_add_if_new_from(a2, q.0);
        assert(expansion(qs, ms) == expand_step(acc, q, m));
        assert forall|x: Seq<char>| #[trigger] expansion(qs, ms).contains(x) && excluded_path(patterns, x, base)
            implies exists|i: int| 0 <= i < qs.len() && qs[i].0 == x by {
            if x == q.0 {
                assert(qs[qs.len() - 1].0 == x);
            } else if acc.contains(x) {
                let i = choose|i: int| 0 <= i < pq.len() && pq[i].0 == x;
                assert(qs[i] == pq[i]);
            } else if m.0.contains(x) {
                let j = choose|j: int| 0 <= j < m.0.len() && m.0[j] == x;
                assert(!excluded_path(patterns, ms[ms.len() - 1].0[j], base));
            } else {
                assert(m.1.contains(x));
                let j = choose|j: int| 0 <= j < m.1.len() && m.1[j] == x;
                assert(!excluded_path(patterns, ms[ms.len() - 1].1[j], base));
            }
        }
    }
}

/// On a file with chunks, every line of the chunk view has one bracket
/// column per nesting depth (at least one column).
pub proof fn law_view_rows_have_all_columns(
    all: Seq<IndexedChunkMeta>,
    cs: int,
    l: int,
    match_line: int,
    target: Option<&IndexedChunkMeta>,
    text: Seq<char>,
)
    requires
        all.len() > 0,
    ensures
        content_row_view(all, cs, l, match_line, target, text) matches RowView::Content { columns, .. }
            && columns.len() == column_count(all) && columns.len() >= 1,
{
    assert(content_columns(all, cs, l, target).len() == column_count(all));
}


// ---------------------------------------------------------------------------
// Chunking without a known language.

/// Two chunks with the same lines, bytes, text, type and stride facts.
pub open spec fn same_chunk(a: Chunk, b: Chunk) -> bool {
    &&& a.span == b.span
    &&& a.text@ == b.text@
    &&& a.chunk_type == b.chunk_type
    &&& a.stride_info is None
    &&& b.stride_info is None
}

proof fn lemma_flatten_singletons(pieces: Seq<Seq<Chunk>>, b: Seq<Chunk>)
    requires
        pieces.len() == b.len(),
        forall|i: int| 0 <= i < b.len() ==> #[trigger] pieces[i] == seq![b[i]],
    ensures
        pieces.flatten() == b,
    decreases b.len(),
{
    if b.len() > 0 {
        let pl = pieces.drop_last();
        let bl = b.drop_last();
        assert forall|i: int| 0 <= i < bl.len() implies #[trigger] pl[i] == seq![bl[i]] by {
            assert(pl[i] == pieces[i]);
        }
        lemma_flatten_singletons(pl, bl);
        assert(pieces =~= pl.push(pieces.last()));
        pl.lemma_flatten_push(pieces.last());
        assert(pieces.last() == seq![b.last()]);
        assert(bl + seq![b.last()] =~= b);
    }
}

/// Text in an unknown language is cut as generic chunking cuts it: when
/// every generic chunk is within the default budget, chunking without a
/// language gives exactly the generic chunks.
pub proof fn law_unknown_language_is_generic(
    s: Seq<char>,
    r: Result<Vec<Chunk>, crate::chunk::ChunkError>,
    v: Seq<Chunk>,
)
    requires
        chunking_ok(s, None, ChunkConfig { max_tokens: 8192, stride_overlap: 1024, enable_striding: true }, None, r),
        generic_chunks_ok(s, None, v),
        forall|k: int| 0 <= k < v.len() ==> estimated_tokens(#[trigger] v[k].text@) <= 8192,
    ensures
        r matches Ok(w) && w@.len() == v.len(),
        r matches Ok(w) ==> forall|k: int| 0 <= k < v.len() ==> same_chunk(#[trigger] w@[k], v[k]),
{
    let config = ChunkConfig { max_tokens: 8192, stride_overlap: 1024, enable_striding: true };
    let base = choose|base: Result<Vec<Chunk>, crate::chunk::ChunkError>| {
        &&& base_chunks_ok(s, None, None, base)
        &&& match base {
            Err(e) => r == Err::<Vec<Chunk>, crate::chunk::ChunkError>(e),
            Ok(b) => if config.enable_striding { striding_ok(b@, config, r) } else { r == Ok::<Vec<Chunk>, crate::chunk::ChunkError>(b) },
        }
    };
    let b = base->Ok_0@;
    assert(generic_chunks_ok(s, None, b));
    let (t, o) = crate::chunk::model_chunk_config(None);
    let size = crate::chunk::generic_window_lines(t);
    let step = size - crate::chunk::generic_overlap_lines(o);
    assert(b.len() == v.len());
    assert forall|k: int| 0 <= k < v.len() implies same_chunk(#[trigger] b[k], v[k]) by {
        assert(generic_chunk_ok(s, size, step, k, b[k]));
        assert(generic_chunk_ok(s, size, step, k, v[k]));
    }
    assert forall|i: int| 0 <= i < b.len() implies !striding_blocked(#[trigger] b[i], config) by {
        assert(same_chunk(b[i], v[i]));
    }
    assert(striding_ok(b, config, r));
    let w = r->Ok_0@;
    let pieces = choose|pieces: Seq<Seq<Chunk>>| {
        &&& pieces.len() == b.len()
        &&& w == pieces.flatten()
        &&& forall|i: int| 0 <= i < b.len() ==> striding_piece_ok(#[trigger] b[i], config, pieces[i])
    };
    assert forall|i: int| 0 <= i < b.len() implies #[trigger] pieces[i] == seq![b[i]] by {
        assert(striding_piece_ok(b[i], config, pieces[i]));
        assert(same_chunk(b[i], v[i]));
    }
    lemma_flatten_singletons(pieces, b);
}

/// Each stride's lines are those of its text: its line span counts the
/// lines of its text, and never ends before it starts.
pub proof fn law_stride_lines_match_text(chunk: Chunk, window: int, overlap: int, k: int, total: int, c: Chunk)
    requires
        stride_ok(chunk, window, overlap, k, total, c),
    ensures
        c.span.line_end >= c.span.line_start,
        crate::text::spec_lines(c.text@).len() > 0 ==> c.span.line_end - c.span.line_start + 1 == crate::text::spec_lines(c.text@).len(),
{
}

/// What a chunk holds, as plain values: its span, text, kind and stride
/// details.
pub open spec fn chunk_view(c: Chunk) -> (Span, Seq<char>, ChunkType, Option<(Seq<char>, usize, usize, usize, usize)>) {
    (
        c.span,
        c.text@,
        c.chunk_type,
        match c.stride_info {
            Some(i) => Some((i.original_chunk_id@, i.stride_index, i.total_strides, i.overlap_start, i.overlap_end)),
            None => None,
        },
    )
}

/// Two chunk lists hold the same chunks, field by field, in the same order.
pub open spec fn same_chunks(a: Seq<Chunk>, b: Seq<Chunk>) -> bool {
    &&& a.len() == b.len()
    &&& forall|k: int| 0 <= k < a.len() ==> chunk_view(#[trigger] a[k]) == chunk_view(b[k])
}

/// Two chunking results agree: both fail with the same error, or both give
/// the same chunks.
pub open spec fn same_chunking(a: Result<Vec<Chunk>, ChunkError>, b: Result<Vec<Chunk>, ChunkError>) -> bool {
    match a {
        Err(x) => b is Err && b->Err_0 == x,
        Ok(x) => b is Ok && same_chunks(x@, b->Ok_0@),
    }
}

proof fn lemma_generic_chunks_same(s: Seq<char>, m: Option<Seq<char>>, a: Seq<Chunk>, b: Seq<Chunk>)
    requires
        generic_chunks_ok(s, m, a),
        generic_chunks_ok(s, m, b),
    ensures
        same_chunks(a, b),
{
    let (t, o) = crate::chunk::model_chunk_config(m);
    let size = crate::chunk::generic_window_lines(t);
    let step = size - crate::chunk::generic_overlap_lines(o);
    assert forall|k: int| 0 <= k < a.len() implies chunk_view(#[trigger] a[k]) == chunk_view(b[k]) by {
        assert(generic_chunk_ok(s, size, step, k, a[k]));
        assert(generic_chunk_ok(s, size, step, k, b[k]));
    }
}

proof fn lemma_pieces_same(c: Chunk, d: Chunk, config: ChunkConfig, p: Seq<Chunk>, q: Seq<Chunk>)
    requires
        chunk_view(c) == chunk_view(d),
        striding_piece_ok(c, config, p),
        striding_piece_ok(d, config, q),
    ensures
        same_chunks(p, q),
{
    assert(c.text@ == d.text@ && c.span == d.span && c.chunk_type == d.chunk_type);
    if estimated_tokens(c.text@) <= config.max_tokens {
        assert(p[0] == c && q[0] == d);
    } else if c.text@.len() == 0 {
        assert(p[0] == c && q[0] == d);
    } else {
        let s = c.text@;
        let n = s.len() as int;
        let tokens = estimated_tokens(s) as int;
        let window = stride_window_chars(config.max_tokens as int, n, tokens);
        let overlap = stride_overlap_chars(config.stride_overlap as int, n, tokens);
        let total = reported_total_strides(n, window, overlap);
        assert(strides_ok(c, config, p) && strides_ok(d, config, q));
        assert forall|k: int| 0 <= k < p.len() implies chunk_view(#[trigger] p[k]) == chunk_view(q[k]) by {
            assert(stride_ok(c, window, overlap, k, total, p[k]));
            assert(stride_ok(d, window, overlap, k, total, q[k]));
        }
    }
}

proof fn lemma_flatten_same(p: Seq<Seq<Chunk>>, q: Seq<Seq<Chunk>>)
    requires
        p.len() == q.len(),
        forall|i: int| 0 <= i < p.len() ==> same_chunks(#[trigger] p[i], q[i]),
    ensures
        same_chunks(p.flatten(), q.flatten()),
    decreases p.len(),
{
    if p.len() > 0 {
        let (pr, qr) = (p.drop_first(), q.drop_first());
        assert forall|i: int| 0 <= i < pr.len() implies same_chunks(#[trigger] pr[i], qr[i]) by {
            assert(pr[i] == p[i + 1] && qr[i] == q[i + 1]);
        }
        lemma_flatten_same(pr, qr);
        let (a, b) = (p.first() + pr.flatten(), q.first() + qr.flatten());
        assert(p.flatten() == a && q.flatten() == b);
        assert(same_chunks(p[0], q[0]));
        assert forall|k: int| 0 <= k < a.len() implies chunk_view(#[trigger] a[k]) == chunk_view(b[k]) by {
            if k < p.first().len() {
                assert(a[k] == p[0][k] && b[k] == q[0][k]);
            } else {
                let j = k - p.first().len();
                assert(a[k] == pr.flatten()[j] && b[k] == qr.flatten()[j]);
            }
        }
    }
}

/// Text in a language that has no syntax-aware chunking is chunked exactly
/// as text without a language: for every text, configuration and model the
/// two results fail with the same error or give the same chunks.
pub proof fn law_unsupported_language_is_generic(
    s: Seq<char>,
    language: Language,
    config: ChunkConfig,
    model_name: Option<Seq<char>>,
    with_language: Result<Vec<Chunk>, ChunkError>,
    without_language: Result<Vec<Chunk>, ChunkError>,
)
    requires
        parseable(language) is Err,
        chunking_ok(s, Some(language), config, model_name, with_language),
        chunking_ok(s, None, config, model_name, without_language),
    ensures
        same_chunking(with_language, without_language),
{
    let (r1, r2) = (with_language, without_language);
    let base1 = choose|base: Result<Vec<Chunk>, ChunkError>| {
        &&& base_chunks_ok(s, Some(language), model_name, base)
        &&& match base {
            Err(e) => r1 == Err::<Vec<Chunk>, ChunkError>(e),
            Ok(b) => if config.enable_striding { striding_ok(b@, config, r1) } else { r1 == Ok::<Vec<Chunk>, ChunkError>(b) },
        }
    };
    let base2 = choose|base: Result<Vec<Chunk>, ChunkError>| {
        &&& base_chunks_ok(s, None, model_name, base)
        &&& match base {
            Err(e) => r2 == Err::<Vec<Chunk>, ChunkError>(e),
            Ok(b) => if config.enable_striding { striding_ok(b@, config, r2) } else { r2 == Ok::<Vec<Chunk>, ChunkError>(b) },
        }
    };
    let b1 = base1->Ok_0@;
    let b2 = base2->Ok_0@;
    lemma_generic_chunks_same(s, model_name, b1, b2);
    if config.enable_striding {
        assert(striding_ok(b1, config, r1) && striding_ok(b2, config, r2));
        if exists|i: int| 0 <= i < b1.len() && striding_blocked(#[trigger] b1[i], config) {
            let i = choose|i: int| 0 <= i < b1.len() && striding_blocked(#[trigger] b1[i], config);
            assert(chunk_view(b1[i]) == chunk_view(b2[i]));
            assert(striding_blocked(b2[i], config));
        } else {
            assert forall|i: int| 0 <= i < b2.len() implies !striding_blocked(#[trigger] b2[i], config) by {
                assert(chunk_view(b1[i]) == chunk_view(b2[i]));
                assert(!striding_blocked(b1[i], config));
            }
            let w1 = r1->Ok_0@;
            let w2 = r2->Ok_0@;
            let p1 = choose|pieces: Seq<Seq<Chunk>>| {
                &&& pieces.len() == b1.len()
                &&& w1 == pieces.flatten()
                &&& forall|i: int| 0 <= i < b1.len() ==> striding_piece_ok(#[trigger] b1[i], config, pieces[i])
            };
            let p2 = choose|pieces: Seq<Seq<Chunk>>| {
                &&& pieces.len() == b2.len()
                &&& w2 == pieces.flatten()
                &&& forall|i: int| 0 <= i < b2.len() ==> striding_piece_ok(#[trigger] b2[i], config, pieces[i])
            };
            assert forall|i: int| 0 <= i < p1.len() implies same_chunks(#[trigger] p1[i], p2[i]) by {
                assert(chunk_view(b1[i]) == chunk_view(b2[i]));
                assert(striding_piece_ok(b1[i], config, p1[i]));
                assert(striding_piece_ok(b2[i], config, p2[i]));
                lemma_pieces_same(b1[i], b2[i], config, p1[i], p2[i]);
            }
            lemma_flatten_same(p1, p2);
        }
    }
}

proof fn lemma_flatten_every(pieces: Seq<Seq<Chunk>>, p: spec_fn(Chunk) -> bool)
    requires
        forall|i: int, j: int| 0 <= i < pieces.len() && 0 <= j < pieces[i].len() ==> p(#[trigger] pieces[i][j]),
    ensures
        forall|t: int| 0 <= t < pieces.flatten().len() ==> p(#[trigger] pieces.flatten()[t]),
    decreases pieces.len(),
{
    if pieces.len() > 0 {
        let rest = pieces.drop_first();
        assert forall|i: int, j: int| 0 <= i < rest.len() && 0 <= j < rest[i].len() implies p(#[trigger] rest[i][j]) by {
            assert(rest[i] == pieces[i + 1]);
        }
        lemma_flatten_every(rest, p);
        let f = pieces.first() + rest.flatten();
        assert(pieces.flatten() == f);
        assert forall|t: int| 0 <= t < f.len() implies p(#[trigger] f[t]) by {
            if t < pieces.first().len() {
                assert(f[t] == pieces[0][t]);
            } else {
                assert(f[t] == rest.flatten()[t - pieces.first().len()]);
            }
        }
    }
}

proof fn lemma_base_chunks_unstrided(
    s: Seq<char>,
    language: Option<Language>,
    model_name: Option<Seq<char>>,
    base: Result<Vec<Chunk>, ChunkError>,
)
    requires
        base_chunks_ok(s, language, model_name, base),
        base is Ok,
    ensures
        forall|k: int| 0 <= k < base->Ok_0@.len() ==> (#[trigger] base->Ok_0@[k]).stride_info is None,
{
    let b = base->Ok_0@;
    let generic = |m: Option<Seq<char>>| {
        let (t, o) = crate::chunk::model_chunk_config(m);
        let size = crate::chunk::generic_window_lines(t);
        (size, size - crate::chunk::generic_overlap_lines(o))
    };
    assert forall|k: int| 0 <= k < b.len() implies (#[trigger] b[k]).stride_info is None by {
        match language {
            Some(l) => match parseable(l) {
                Ok(pl) => {
                    let nodes = crate::syntax::syntax_nodes(s, crate::syntax::grammar_of(pl))->Some_0;
                    let sel = crate::chunk::chunk_nodes(pl, nodes);
                    if sel.len() == 0 {
                        let (size, step) = generic(None);
                        assert(generic_chunk_ok(s, size, step, k, b[k]));
                    } else {
                        assert(crate::chunk::node_chunk_ok(s, sel[k], b[k]));
                    }
                },
                Err(_) => {
                    let (size, step) = generic(model_name);
                    assert(generic_chunk_ok(s, size, step, k, b[k]));
                },
            },
            None => {
                let (size, step) = generic(model_name);
                assert(generic_chunk_ok(s, size, step, k, b[k]));
            },
        }
    }
}

/// A chunk that striding left whole fits the token budget: with striding,
/// every chunk without stride details is estimated at no more than
/// `max_tokens` tokens; without striding, no chunk has stride details.
pub proof fn law_whole_chunks_fit_budget(
    s: Seq<char>,
    language: Option<Language>,
    config: ChunkConfig,
    model_name: Option<Seq<char>>,
    r: Result<Vec<Chunk>, ChunkError>,
)
    requires
        chunking_ok(s, language, config, model_name, r),
        r is Ok,
    ensures
        config.enable_striding ==> forall|k: int|
            0 <= k < r->Ok_0@.len() && (#[trigger] r->Ok_0@[k]).stride_info is None
                ==> estimated_tokens(r->Ok_0@[k].text@) <= config.max_tokens,
        !config.enable_striding ==> forall|k: int|
            0 <= k < r->Ok_0@.len() ==> (#[trigger] r->Ok_0@[k]).stride_info is None,
{
    let base = choose|base: Result<Vec<Chunk>, ChunkError>| {
        &&& base_chunks_ok(s, language, model_name, base)
        &&& match base {
            Err(e) => r == Err::<Vec<Chunk>, ChunkError>(e),
            Ok(b) => if config.enable_striding { striding_ok(b@, config, r) } else { r == Ok::<Vec<Chunk>, ChunkError>(b) },
        }
    };
    lemma_base_chunks_unstrided(s, language, model_name, base);
    if config.enable_striding {
        let b = base->Ok_0@;
        let w = r->Ok_0@;
        assert(striding_ok(b, config, r));
        let pieces = choose|pieces: Seq<Seq<Chunk>>| {
            &&& pieces.len() == b.len()
            &&& w == pieces.flatten()
            &&& forall|i: int| 0 <= i < b.len() ==> striding_piece_ok(#[trigger] b[i], config, pieces[i])
        };
        let fits = |c: Chunk| c.stride_info is None ==> estimated_tokens(c.text@) <= config.max_tokens;
        assert forall|i: int, j: int| 0 <= i < pieces.len() && 0 <= j < pieces[i].len() implies fits(#[trigger] pieces[i][j]) by {
            let c = b[i];
            assert(striding_piece_ok(c, config, pieces[i]));
            if estimated_tokens(c.text@) <= config.max_tokens {
                assert(pieces[i][j] == c);
            } else if c.text@.len() == 0 {
                assert(pieces[i][j] == c);
            } else {
                let n = c.text@.len() as int;
                let tokens = estimated_tokens(c.text@) as int;
                let window = stride_window_chars(config.max_tokens as int, n, tokens);
                let overlap = stride_overlap_chars(config.stride_overlap as int, n, tokens);
                assert(stride_ok(c, window, overlap, j, reported_total_strides(n, window, overlap), pieces[i][j]));
            }
        }
        lemma_flatten_every(pieces, fits);
        assert forall|k: int| 0 <= k < w.len() && (#[trigger] w[k]).stride_info is None implies estimated_tokens(w[k].text@) <= config.max_tokens by {
            assert(fits(pieces.flatten()[k]));
        }
    }
}

// ---------------------------------------------------------------------------
// Listing files, selecting them, and the search history.

/// The files that `-l` lists name each path once.
pub proof fn law_listed_files_once(files: Seq<Seq<char>>)
    ensures
        distinct_paths(crate::cli_plan::listed_files(files)),
    decreases files.len(),
{
    if files.len() > 0 {
        law_listed_files_once(files.drop_last());
        lemma_add_if_new_distinct(crate::cli_plan::listed_files(files.drop_last()), files.last());
    }
}

/// Selecting a file that is not selected and then toggling it again
/// gives back the selection as it was.
pub proof fn law_toggle_twice_restores(s: Seq<Seq<char>>, f: Seq<char>)
    requires
        distinct_paths(s),
        !holds_path(s, f),
    ensures
        crate::tui_logic::toggled(crate::tui_logic::toggled(s, f), f) == s,
{
    let once = s.push(f);
    assert(crate::tui_logic::toggled(s, f) == once);
    assert(same_path(once[s.len() as int], f));
    let i = choose|i: int| 0 <= i < once.len() && #[trigger] same_path(once[i], f);
    if i < s.len() {
        assert(same_path(s[i], f));
    }
    assert(crate::tui_logic::path_position(once, f) == Some(i));
    assert(once.remove(s.len() as int) =~= s);
}

/// Deselecting a selected file and then toggling it again keeps the same
/// paths selected, each once.
pub proof fn law_toggle_twice_keeps_paths(s: Seq<Seq<char>>, f: Seq<char>, p: Seq<char>)
    requires
        distinct_paths(s),
        holds_path(s, f),
    ensures
        holds_path(crate::tui_logic::toggled(crate::tui_logic::toggled(s, f), f), p) == holds_path(s, p),
{
    let i = choose|i: int| 0 <= i < s.len() && #[trigger] same_path(s[i], f);
    let once = s.remove(i);
    assert(crate::tui_logic::toggled(s, f) == once);
    assert forall|k: int| 0 <= k < once.len() implies !same_path(#[trigger] once[k], f) by {
        let k0 = if k < i { k } else { k + 1 };
        assert(once[k] == s[k0]);
        if same_path(s[k0], f) {
            if k0 < i {
                assert(!same_path(s[k0], s[i]));
            } else {
                assert(!same_path(s[i], s[k0]));
            }
        }
    }
    assert(!holds_path(once, f));
    let twice = once.push(f);
    assert(crate::tui_logic::toggled(once, f) == twice);
    if holds_path(s, p) {
        let j = choose|j: int| 0 <= j < s.len() && #[trigger] same_path(s[j], p);
        if j == i {
            assert(same_path(twice[once.len() as int], p));
        } else {
            let j1 = if j < i { j } else { j - 1 };
            assert(twice[j1] == s[j]);
            assert(same_path(twice[j1], p));
        }
    }
    if holds_path(twice, p) {
        let j = choose|j: int| 0 <= j < twice.len() && #[trigger] same_path(twice[j], p);
        if j == once.len() {
            assert(same_path(s[i], p));
        } else {
            let j0 = if j < i { j } else { j + 1 };
            assert(twice[j] == s[j0]);
            assert(same_path(s[j0], p));
        }
    }
}

/// Recording the same completed search twice records it once, for a
/// history within its limit.
pub proof fn law_record_search_idempotent(history: Seq<Seq<char>>, query: Seq<char>)
    requires
        history.len() <= crate::tui_logic::HISTORY_LIMIT,
    ensures
        crate::tui_logic::recorded(crate::tui_logic::recorded(history, query), query) == crate::tui_logic::recorded(history, query),
{
    let once = crate::tui_logic::recorded(history, query);
    assert(once.len() > 0 && once.last() == query);
}

// ---------------------------------------------------------------------------
// Cleaning the index.

/// The entries a cleanup removes are exactly the manifest entries whose
/// file is no longer among the current files.
pub proof fn law_orphans_are_the_missing_files(manifest: Seq<Seq<char>>, current: Seq<Seq<char>>, n: int, p: Seq<char>)
    requires
        0 <= n <= manifest.len(),
    ensures
        crate::index_update::orphans(manifest, current, n).contains(p)
            <==> (manifest.take(n).contains(p) && !holds_path(current, p)),
    decreases n,
{
    if n > 0 {
        law_orphans_are_the_missing_files(manifest, current, n - 1, p);
        assert(manifest.take(n) =~= manifest.take(n - 1).push(manifest[n - 1]));
        let prev = crate::index_update::orphans(manifest, current, n - 1);
        if !holds_path(current, manifest[n - 1]) {
            assert(prev.push(manifest[n - 1]).contains(p) == (prev.contains(p) || p == manifest[n - 1])) by {
                if prev.push(manifest[n - 1]).contains(p) {
                    let k = choose|k: int| 0 <= k < prev.len() + 1 && #[trigger] prev.push(manifest[n - 1])[k] == p;
                    if k < prev.len() {
                        assert(prev[k] == p);
                    }
                }
                if prev.contains(p) {
                    let k = choose|k: int| 0 <= k < prev.len() && #[trigger] prev[k] == p;
                    assert(prev.push(manifest[n - 1])[k] == p);
                }
                if p == manifest[n - 1] {
                    assert(prev.push(manifest[n - 1])[prev.len() as int] == p);
                }
            }
        }
        assert(manifest.take(n).contains(p) == (manifest.take(n - 1).contains(p) || p == manifest[n - 1])) by {
            if manifest.take(n).contains(p) {
                let k = choose|k: int| 0 <= k < n && #[trigger] manifest.take(n)[k] == p;
                if k < n - 1 {
                    assert(manifest.take(n - 1)[k] == p);
                }
            }
            if manifest.take(n - 1).contains(p) {
                let k = choose|k: int| 0 <= k < n - 1 && #[trigger] manifest.take(n - 1)[k] == p;
                assert(manifest.take(n)[k] == p);
            }
            if p == manifest[n - 1] {
                assert(manifest.take(n)[n - 1] == p);
            }
        }
    } else {
        assert(manifest.take(0) =~= Seq::<Seq<char>>::empty());
    }
}

// ---------------------------------------------------------------------------
// The preview pane.

/// A search mode saved by name is read back as the same mode.
pub proof fn law_saved_mode_reads_back(m: crate::types::SearchMode)
    ensures
        crate::tui_logic::mode_of_name(crate::tui_logic::mode_name_text(m)) == m,
{
    reveal_strlit("semantic");
    reveal_strlit("regex");
    reveal_strlit("hybrid");
    reveal_strlit("lexical");
    assert("semantic"@[0] == 's' && "regex"@[0] == 'r' && "hybrid"@[0] == 'h' && "lexical"@[0] == 'l');
}

/// Cycling the preview style three times comes back to where it started.
pub proof fn law_preview_style_cycle_returns(m: crate::tui_logic::PreviewStyle)
    ensures
        crate::tui_logic::next_style(crate::tui_logic::next_style(crate::tui_logic::next_style(m))) == m,
{
}

// ---------------------------------------------------------------------------
// User settings.

/// The text a setting reads back after being set to `value`: the value
/// itself for a text setting, and the count or truth value it was read as
/// otherwise.
pub open spec fn read_back(k: crate::user_config::ConfigKey, value: Seq<char>) -> Seq<char> {
    match k {
        crate::user_config::ConfigKey::DefaultTopk => decimal(crate::user_config::parsed_count(value)->0 as nat),
        crate::user_config::ConfigKey::ShowScoresDefault
        | crate::user_config::ConfigKey::LineNumbersDefault
        | crate::user_config::ConfigKey::RerankEnabled
        | crate::user_config::ConfigKey::QuietMode => crate::user_config::bool_text(crate::user_config::parsed_bool(value)->0),
        _ => value,
    }
}

/// After a setting is set, reading it gives back what was written (the
/// value, or the count or truth value read from it), and every other
/// setting reads as before.
pub proof fn law_get_after_set(c: crate::user_config::ConfigView, key: Seq<char>, value: Seq<char>, other: crate::user_config::ConfigKey)
    requires
        crate::user_config::set_outcome(c, key, value) is Ok,
        crate::user_config::set_outcome(c, key, value)->Ok_0.1 == crate::user_config::SetEffect::Applied,
    ensures
        crate::user_config::key_of(key) matches Some(k) && crate::user_config::value_text(
            crate::user_config::set_outcome(c, key, value)->Ok_0.0,
            k,
        ) == Some(read_back(k, value)),
        crate::user_config::key_of(key) != Some(other) ==> crate::user_config::value_text(
            crate::user_config::set_outcome(c, key, value)->Ok_0.0,
            other,
        ) == crate::user_config::value_text(c, other),
{
}

proof fn lemma_decimal_digits(n: nat)
    ensures
        decimal(n).len() > 0,
        decimal(n)[0] != '+',
        crate::user_config::all_digits(decimal(n)),
        crate::user_config::digits_value(decimal(n)) == n,
    decreases n,
{
    let c = crate::text::digit_char(n % 10);
    assert(crate::user_config::digit_value(c) == n % 10);
    assert(crate::user_config::is_digit(c));
    if n >= 10 {
        lemma_decimal_digits(n / 10);
        let d = decimal(n / 10);
        assert(decimal(n) == d.push(c));
        assert(decimal(n).drop_last() =~= d);
        assert(decimal(n)[0] == d[0]);
        assert forall|i: int| 0 <= i < decimal(n).len() implies crate::user_config::is_digit(#[trigger] decimal(n)[i]) by {
            if i < d.len() {
                assert(decimal(n)[i] == d[i]);
            }
        }
        assert(crate::user_config::digits_value(decimal(n)) == crate::user_config::digits_value(d) * 10 + (n % 10));
        assert((n / 10) * 10 + n % 10 == n) by (nonlinear_arith);
    } else {
        assert(decimal(n) == seq![c]);
        assert(seq![c].drop_last() =~= Seq::<char>::empty());
        assert(crate::user_config::digits_value(seq![c]) == crate::user_config::digits_value(Seq::<char>::empty()) * 10 + n % 10);
    }
}

/// Setting a setting to the text it reads as leaves the settings as they
/// are; for a count or a truth value the text is always taken.
pub proof fn law_set_what_get_reads(c: crate::user_config::ConfigView, key: Seq<char>)
    requires
        crate::user_config::key_of(key) is Some,
        crate::user_config::value_text(c, crate::user_config::key_of(key)->0) is Some,
    ensures
        crate::user_config::set_outcome(c, key, crate::user_config::value_text(c, crate::user_config::key_of(key)->0)->0) matches Ok(r)
            ==> r.0 == c,
        ({
            let k = crate::user_config::key_of(key)->0;
            (k == crate::user_config::ConfigKey::IndexModel || k == crate::user_config::ConfigKey::QueryModel
                || k == crate::user_config::ConfigKey::DefaultTopk || k == crate::user_config::ConfigKey::ShowScoresDefault
                || k == crate::user_config::ConfigKey::LineNumbersDefault || k == crate::user_config::ConfigKey::RerankEnabled
                || k == crate::user_config::ConfigKey::QuietMode) ==> crate::user_config::set_outcome(
                c,
                key,
                crate::user_config::value_text(c, k)->0,
            ) is Ok
        }),
{
    let k = crate::user_config::key_of(key)->0;
    if k == crate::user_config::ConfigKey::DefaultTopk {
        lemma_decimal_digits(c.default_topk as nat);
        assert(crate::user_config::count_digits(decimal(c.default_topk as nat)) == decimal(c.default_topk as nat));
    }
    reveal_strlit("true");
    reveal_strlit("false");
}

/// Whether a setting takes `value`: a count, a truth value, a known search
/// mode, output format or rerank model where the setting asks for one; any
/// text for a model name, and anything for the threshold (read elsewhere).
pub open spec fn value_accepted(k: crate::user_config::ConfigKey, value: Seq<char>) -> bool {
    match k {
        crate::user_config::ConfigKey::DefaultTopk => crate::user_config::parsed_count(value) is Some,
        crate::user_config::ConfigKey::DefaultSearchMode => crate::user_config::is_search_mode(value),
        crate::user_config::ConfigKey::DefaultOutputFormat => crate::user_config::is_output_format(value),
        crate::user_config::ConfigKey::RerankModel => crate::user_config::is_rerank_model(value),
        crate::user_config::ConfigKey::ShowScoresDefault
        | crate::user_config::ConfigKey::LineNumbersDefault
        | crate::user_config::ConfigKey::RerankEnabled
        | crate::user_config::ConfigKey::QuietMode => crate::user_config::parsed_bool(value) is Some,
        _ => true,
    }
}

/// Whether a setting holds text as it was given.
pub open spec fn is_text_setting(k: crate::user_config::ConfigKey) -> bool {
    ||| k == crate::user_config::ConfigKey::IndexModel
    ||| k == crate::user_config::ConfigKey::QueryModel
    ||| k == crate::user_config::ConfigKey::DefaultSearchMode
    ||| k == crate::user_config::ConfigKey::DefaultOutputFormat
    ||| k == crate::user_config::ConfigKey::RerankModel
}

/// Changing a setting and reading the settings back. Taking settings
/// `before` to `after` with result `r`, as `UserConfig::set` does: the
/// change is refused exactly when the key names no setting or the value
/// does not suit it, and then every setting reads as before; an accepted
/// change of a text setting reads back the value given, any accepted
/// change reads back what the value was read as, and every other setting
/// reads as before.
pub proof fn law_change_then_read(
    before: crate::user_config::ConfigView,
    key: Seq<char>,
    value: Seq<char>,
    r: Result<crate::user_config::SetEffect, crate::user_config::ConfigError>,
    after: crate::user_config::ConfigView,
)
    requires
        match r {
            Ok(e) => crate::user_config::set_outcome(before, key, value) == Ok::<
                (crate::user_config::ConfigView, crate::user_config::SetEffect),
                crate::user_config::ConfigError,
            >((after, e)),
            Err(err) => crate::user_config::set_outcome(before, key, value) == Err::<
                (crate::user_config::ConfigView, crate::user_config::SetEffect),
                crate::user_config::ConfigError,
            >(err) && after == before,
        },
    ensures
        r is Err <==> (crate::user_config::key_of(key) is None || !value_accepted(
            crate::user_config::key_of(key)->0,
            value,
        )),
        r is Err ==> forall|k: crate::user_config::ConfigKey|
            #[trigger] crate::user_config::value_text(after, k) == crate::user_config::value_text(before, k),
        r is Ok ==> forall|k: crate::user_config::ConfigKey|
            crate::user_config::key_of(key) != Some(k) ==> #[trigger] crate::user_config::value_text(after, k)
                == crate::user_config::value_text(before, k),
        r is Ok && is_text_setting(crate::user_config::key_of(key)->0) ==> crate::user_config::value_text(
            after,
            crate::user_config::key_of(key)->0,
        ) == Some(value),
        r == Ok::<crate::user_config::SetEffect, crate::user_config::ConfigError>(crate::user_config::SetEffect::Applied)
            ==> crate::user_config::value_text(after, crate::user_config::key_of(key)->0) == Some(
            read_back(crate::user_config::key_of(key)->0, value),
        ),
{
    if r == Ok::<crate::user_config::SetEffect, crate::user_config::ConfigError>(crate::user_config::SetEffect::Applied) {
        law_get_after_set(before, key, value, crate::user_config::ConfigKey::IndexModel);
    }
}

// ---------------------------------------------------------------------------
// Sections around a match.

proof fn lemma_section_lookup_upto(sections: Seq<(usize, usize, String)>, idx: int, n: int)
    requires
        0 <= n <= sections.len(),
    ensures
        crate::search::containing_section(sections, idx, n) is Some
            <==> exists|i: int| 0 <= i < n && sections[i].0 <= idx <= #[trigger] sections[i].1,
        crate::search::containing_section(sections, idx, n) matches Some(k) ==> {
            &&& 0 <= k < n
            &&& sections[k].0 <= idx <= sections[k].1
            &&& forall|j: int| 0 <= j < k ==> !(sections[j].0 <= idx <= #[trigger] sections[j].1)
        },
    decreases n,
{
    if n > 0 {
        lemma_section_lookup_upto(sections, idx, n - 1);
        if crate::search::containing_section(sections, idx, n - 1) is None {
            assert forall|j: int| 0 <= j < n - 1 implies !(sections[j].0 <= idx <= #[trigger] sections[j].1) by {
                if sections[j].0 <= idx <= sections[j].1 {
                    assert(exists|i: int| 0 <= i < n - 1 && sections[i].0 <= idx <= #[trigger] sections[i].1);
                }
            }
        }
    }
}

/// Looking up the section that holds a line takes each section's lines
/// with both ends included: a section is found exactly when some section
/// holds the line (its first line, its last line or one between), and the
/// one found is the first section that holds it.
pub proof fn law_section_lookup_inclusive(sections: Seq<(usize, usize, String)>, idx: int)
    ensures
        crate::search::containing_section(sections, idx, sections.len() as int) is Some
            <==> exists|i: int| 0 <= i < sections.len() && sections[i].0 <= idx <= #[trigger] sections[i].1,
        crate::search::containing_section(sections, idx, sections.len() as int) matches Some(k) ==> {
            &&& 0 <= k < sections.len()
            &&& sections[k].0 <= idx <= sections[k].1
            &&& forall|j: int| 0 <= j < k ==> !(sections[j].0 <= idx <= #[trigger] sections[j].1)
        },
{
    lemma_section_lookup_upto(sections, idx, sections.len() as int);
}

// ---------------------------------------------------------------------------
// Search patterns.

/// The text a pattern matches when it is made only of plain characters and
/// meta characters each escaped by a backslash, read from the left; `None`
/// when a meta character (the backslash among them) stands bare.
pub open spec fn literal_reading(p: Seq<char>) -> Option<Seq<char>>
    decreases p.len(),
{
    if p.len() == 0 {
        Some(seq![])
    } else if p[0] == '\\' && p.len() >= 2 && crate::regex_match::is_meta_character(p[1]) {
        match literal_reading(p.subrange(2, p.len() as int)) {
            Some(rest) => Some(seq![p[1]] + rest),
            None => None,
        }
    } else if crate::regex_match::is_meta_character(p[0]) {
        None
    } else {
        match literal_reading(p.subrange(1, p.len() as int)) {
            Some(rest) => Some(seq![p[0]] + rest),
            None => None,
        }
    }
}

proof fn lemma_escaped_concat(a: Seq<char>, b: Seq<char>)
    ensures
        crate::regex_match::escaped(a + b) == crate::regex_match::escaped(a) + crate::regex_match::escaped(b),
    decreases b.len(),
{
    if b.len() == 0 {
        assert(a + b =~= a);
    } else {
        lemma_escaped_concat(a, b.drop_last());
        assert((a + b).drop_last() =~= a + b.drop_last());
        assert((a + b).last() == b.last());
    }
}

proof fn lemma_literal_reading_escaped(q: Seq<char>, t: Seq<char>)
    ensures
        literal_reading(crate::regex_match::escaped(q) + t) == match literal_reading(t) {
            Some(r) => Some(q + r),
            None => None::<Seq<char>>,
        },
    decreases q.len(),
{
    if q.len() == 0 {
        assert(crate::regex_match::escaped(q) + t =~= t);
        match literal_reading(t) {
            Some(r) => assert(q + r =~= r),
            None => {},
        }
    } else {
        let c = q[0];
        let rest = q.drop_first();
        assert(q =~= seq![c] + rest);
        lemma_escaped_concat(seq![c], rest);
        assert(seq![c].drop_last() =~= Seq::<char>::empty());
        assert(seq![c].last() == c);
        assert(crate::regex_match::escaped(Seq::<char>::empty()) == Seq::<char>::empty());
        let e0 = crate::regex_match::escaped(seq![c]);
        lemma_literal_reading_escaped(rest, t);
        let x = crate::regex_match::escaped(rest) + t;
        let p = e0 + x;
        assert(crate::regex_match::escaped(q) + t =~= p);
        if crate::regex_match::is_meta_character(c) {
            assert(e0 =~= seq!['\\', c]);
            assert(p.subrange(2, p.len() as int) =~= x);
        } else {
            assert(e0 =~= seq![c]);
            assert(p.subrange(1, p.len() as int) =~= x);
        }
        match literal_reading(t) {
            Some(r) => assert(seq![c] + (rest + r) =~= q + r),
            None => {},
        }
    }
}

/// A whole-word search looks for the query itself: its pattern is the
/// fixed-string pattern of the query between two word boundaries (`\b`),
/// and the fixed-string pattern has every meta character escaped, so that
/// it matches exactly the text of the query.
pub proof fn law_whole_word_query_is_literal(query: Seq<char>)
    ensures
        crate::regex_match::search_pattern(query, false, true)
            == seq!['\\', 'b'] + crate::regex_match::search_pattern(query, true, false) + seq!['\\', 'b'],
        crate::regex_match::search_pattern(query, true, true) == crate::regex_match::search_pattern(query, true, false),
        literal_reading(crate::regex_match::search_pattern(query, true, false)) == Some(query),
{
    lemma_literal_reading_escaped(query, seq![]);
    assert(crate::regex_match::escaped(query) + Seq::<char>::empty() =~= crate::regex_match::escaped(query));
    assert(query + Seq::<char>::empty() =~= query);
}

// ---------------------------------------------------------------------------
// Pieces of text for embedding requests.

/// The lines one after another, each followed by a line feed.
pub open spec fn lines_with_feeds(lines: Seq<Seq<char>>) -> Seq<char>
    decreases lines.len(),
{
    if lines.len() == 0 {
        seq![]
    } else {
        lines_with_feeds(lines.drop_last()) + lines.last().push('\n')
    }
}

/// A piece that respects the byte limit: not empty, and within `max` bytes
/// unless it is a single line (with its line feed) of `lines`.
pub open spec fn piece_fits(p: Seq<char>, lines: Seq<Seq<char>>, max: int) -> bool {
    &&& p.len() > 0
    &&& (crate::text::utf8_len(p) <= max || exists|k: int| 0 <= k < lines.len() && p == (#[trigger] lines[k]).push('\n'))
}

/// `q` begins with a line of `lines` (with its line feed), and `p` with
/// that line would pass `max` bytes.
pub open spec fn begins_with_overflow(p: Seq<char>, q: Seq<char>, lines: Seq<Seq<char>>, max: int) -> bool {
    exists|k: int| {
        &&& 0 <= k < lines.len()
        &&& (#[trigger] lines[k]).len() + 1 <= q.len()
        &&& q.take(lines[k].len() + 1int) == lines[k].push('\n')
        &&& crate::text::utf8_len(p) + crate::text::utf8_len(lines[k]) + 1 > max
    }
}

/// `q` begins with a line of `lines` (with its line feed).
pub open spec fn begins_with_line(q: Seq<char>, lines: Seq<Seq<char>>) -> bool {
    exists|k: int| 0 <= k < lines.len() && (#[trigger] lines[k]).len() + 1 <= q.len() && q.take(lines[k].len() + 1int) == lines[k].push('\n')
}

proof fn lemma_feed_line_len(l: Seq<char>)
    ensures
        crate::text::utf8_len(l.push('\n')) == crate::text::utf8_len(l) + 1,
{
    crate::text::lemma_utf8_len_push(l, '\n');
    crate::text::lemma_encode_char_len('\n');
    assert(('\n' as u32) == 10);
}

proof fn lemma_piece_scan(lines: Seq<Seq<char>>, max: int, n: int)
    requires
        0 <= n <= lines.len(),
    ensures
        ({
            let (done, cur) = crate::embed::piece_scan(lines, max, n);
            &&& done.flatten() + cur == lines_with_feeds(lines.take(n))
            &&& n == 0 ==> done.len() == 0 && cur.len() == 0
            &&& n > 0 ==> piece_fits(cur, lines, max) && begins_with_line(cur, lines)
            &&& forall|i: int| 0 <= i < done.len() ==> piece_fits(#[trigger] done[i], lines, max)
            &&& forall|i: int| 0 <= i < done.len() ==> begins_with_overflow(
                #[trigger] done[i],
                if i + 1 < done.len() { done[i + 1] } else { cur },
                lines,
                max,
            )
        }),
    decreases n,
{
    if n == 0 {
        assert(lines.take(0) =~= Seq::<Seq<char>>::empty());
    } else {
        lemma_piece_scan(lines, max, n - 1);
        let (done, cur) = crate::embed::piece_scan(lines, max, n - 1);
        let ln = lines[n - 1];
        let l = ln.push('\n');
        lemma_feed_line_len(ln);
        assert(lines.take(n).drop_last() =~= lines.take(n - 1));
        assert(lines.take(n).last() == ln);
        assert(lines_with_feeds(lines.take(n)) == lines_with_feeds(lines.take(n - 1)) + l);
        assert(l.take(ln.len() + 1int) =~= l);
        let (done2, cur2) = crate::embed::piece_scan(lines, max, n);
        if cur.len() > 0 && crate::text::utf8_len(cur) + crate::text::utf8_len(l) > max {
            assert(done2 == done.push(cur) && cur2 == l);
            done.lemma_flatten_push(cur);
            assert(done2.flatten() + cur2 =~= (done.flatten() + cur) + l);
            assert(piece_fits(cur2, lines, max)) by {
                assert(cur2 == lines[n - 1].push('\n'));
            }
            assert(begins_with_line(cur2, lines)) by {
                assert(lines[n - 1].len() + 1 <= cur2.len());
            }
            assert forall|i: int| 0 <= i < done2.len() implies piece_fits(#[trigger] done2[i], lines, max) by {
                if i < done.len() {
                    assert(done2[i] == done[i]);
                }
            }
            assert forall|i: int| 0 <= i < done2.len() implies begins_with_overflow(
                #[trigger] done2[i],
                if i + 1 < done2.len() { done2[i + 1] } else { cur2 },
                lines,
                max,
            ) by {
                if i < done.len() {
                    assert(done2[i] == done[i]);
                    if i + 1 < done.len() {
                        assert(done2[i + 1] == done[i + 1]);
                    } else {
                        assert(done2[i + 1] == cur);
                    }
                    assert(begins_with_overflow(done[i], if i + 1 < done.len() { done[i + 1] } else { cur }, lines, max));
                } else {
                    assert(done2[i] == cur);
                    assert(lines[n - 1].len() + 1 <= cur2.len());
                    assert(cur2.take(lines[n - 1].len() + 1int) == lines[n - 1].push('\n'));
                }
            }
        } else {
            assert(done2 == done && cur2 == cur + l);
            assert(done2.flatten() + cur2 =~= (done.flatten() + cur) + l);
            crate::text::lemma_encode_utf8_concat(cur, l);
            if cur.len() == 0 {
                assert(cur2 =~= l);
                assert(piece_fits(cur2, lines, max)) by {
                    assert(cur2 == lines[n - 1].push('\n'));
                }
                assert(begins_with_line(cur2, lines)) by {
                    assert(lines[n - 1].len() + 1 <= cur2.len());
                }
            } else {
                assert(crate::text::utf8_len(cur2) == crate::text::utf8_len(cur) + crate::text::utf8_len(l));
                assert(begins_with_line(cur2, lines)) by {
                    let k = choose|k: int| 0 <= k < lines.len() && (#[trigger] lines[k]).len() + 1 <= cur.len() && cur.take(lines[k].len() + 1int) == lines[k].push('\n');
                    assert(cur2.take(lines[k].len() + 1int) =~= cur.take(lines[k].len() + 1int));
                }
            }
            assert forall|i: int| 0 <= i < done2.len() implies begins_with_overflow(
                #[trigger] done2[i],
                if i + 1 < done2.len() { done2[i + 1] } else { cur2 },
                lines,
                max,
            ) by {
                assert(begins_with_overflow(done[i], if i + 1 < done.len() { done[i + 1] } else { cur }, lines, max));
                if i + 1 == done.len() {
                    let k = choose|k: int| {
                        &&& 0 <= k < lines.len()
                        &&& (#[trigger] lines[k]).len() + 1 <= cur.len()
                        &&& cur.take(lines[k].len() + 1int) == lines[k].push('\n')
                        &&& crate::text::utf8_len(done[i]) + crate::text::utf8_len(lines[k]) + 1 > max
                    };
                    assert(cur2.take(lines[k].len() + 1int) =~= cur.take(lines[k].len() + 1int));
                }
            }
        }
    }
}

/// Splitting text for embedding requests keeps the lines whole and in
/// order and respects the byte limit: the pieces, put together, are the
/// lines of the text each followed by a line feed; no piece is empty; a
/// piece passes `max` bytes only when it is a single line; and each piece
/// ends only where the first line of the next one would have taken it past
/// `max` bytes.
pub proof fn law_split_text_pieces(s: Seq<char>, max: int)
    ensures
        crate::embed::text_pieces(s, max).flatten() == lines_with_feeds(crate::text::spec_lines(s)),
        forall|i: int| 0 <= i < crate::embed::text_pieces(s, max).len()
            ==> piece_fits(#[trigger] crate::embed::text_pieces(s, max)[i], crate::text::spec_lines(s), max),
        forall|i: int| 0 <= i < crate::embed::text_pieces(s, max).len() - 1
            ==> begins_with_overflow(
                #[trigger] crate::embed::text_pieces(s, max)[i],
                crate::embed::text_pieces(s, max)[i + 1],
                crate::text::spec_lines(s),
                max,
            ),
{
    let lines = crate::text::spec_lines(s);
    let n = lines.len() as int;
    lemma_piece_scan(lines, max, n);
    assert(lines.take(n) =~= lines);
    let (done, cur) = crate::embed::piece_scan(lines, max, n);
    let pieces = crate::embed::text_pieces(s, max);
    if cur.len() > 0 {
        assert(pieces == done.push(cur));
        done.lemma_flatten_push(cur);
        assert forall|i: int| 0 <= i < pieces.len() implies piece_fits(#[trigger] pieces[i], lines, max) by {
            if i < done.len() {
                assert(pieces[i] == done[i]);
            }
        }
        assert forall|i: int| 0 <= i < pieces.len() - 1 implies begins_with_overflow(#[trigger] pieces[i], pieces[i + 1], lines, max) by {
            assert(pieces[i] == done[i]);
            assert(begins_with_overflow(done[i], if i + 1 < done.len() { done[i + 1] } else { cur }, lines, max));
            if i + 1 < done.len() {
                assert(pieces[i + 1] == done[i + 1]);
            }
        }
    } else {
        assert(pieces == done);
        assert(done.flatten() + cur =~= done.flatten());
    }
}

// ---------------------------------------------------------------------------
// Regular-expression search.

/// The matches found in a file come line by line: their line numbers never
/// go down, each is a line of the file (1-based), and a match starts and
/// ends on the same line.
pub proof fn law_search_results_follow_lines(
    file: Seq<char>,
    pattern: Seq<char>,
    case_insensitive: bool,
    lines: Seq<Seq<char>>,
    sections: Option<Seq<(usize, usize, String)>>,
    full_section: bool,
    before: int,
    after: int,
    context: int,
    n: int,
)
    requires
        0 <= n <= lines.len(),
        n < usize::MAX,
    ensures
        ({
            let r = crate::regex_search::file_results(file, pattern, case_insensitive, lines, sections, full_section, before, after, context, n);
            &&& forall|i: int, j: int| 0 <= i < j < r.len() ==> (#[trigger] r[i]).1.line_start <= (#[trigger] r[j]).1.line_start
            &&& forall|i: int| 0 <= i < r.len() ==> 1 <= (#[trigger] r[i]).1.line_start <= n && r[i].1.line_end == r[i].1.line_start
        }),
    decreases n,
{
    if n > 0 {
        law_search_results_follow_lines(file, pattern, case_insensitive, lines, sections, full_section, before, after, context, n - 1);
        let prev = crate::regex_search::file_results(file, pattern, case_insensitive, lines, sections, full_section, before, after, context, n - 1);
        let last = crate::regex_search::line_results(file, pattern, case_insensitive, lines, sections, full_section, before, after, context, n - 1);
        let r = crate::regex_search::file_results(file, pattern, case_insensitive, lines, sections, full_section, before, after, context, n);
        assert(r == prev + last);
        assert forall|k: int| 0 <= k < last.len() implies (#[trigger] last[k]).1.line_start == n && last[k].1.line_end == n by {}
        assert forall|i: int| 0 <= i < r.len() implies 1 <= (#[trigger] r[i]).1.line_start <= n && r[i].1.line_end == r[i].1.line_start by {
            if i < prev.len() {
                assert(r[i] == prev[i]);
            } else {
                assert(r[i] == last[i - prev.len()]);
            }
        }
        assert forall|i: int, j: int| 0 <= i < j < r.len() implies (#[trigger] r[i]).1.line_start <= (#[trigger] r[j]).1.line_start by {
            if j < prev.len() {
                assert(r[i] == prev[i] && r[j] == prev[j]);
            } else if i < prev.len() {
                assert(r[i] == prev[i]);
                assert(r[j] == last[j - prev.len()]);
            } else {
                assert(r[i] == last[i - prev.len()]);
                assert(r[j] == last[j - prev.len()]);
            }
        }
    }
}

// ---------------------------------------------------------------------------
// Highlighting matches.

proof fn lemma_char_index_monotone(s: Seq<char>, x: int, y: int)
    requires
        crate::regex_match::char_boundary(s, x),
        crate::regex_match::char_boundary(s, y),
        x <= y,
    ensures
        0 <= crate::highlight::char_index(s, x) <= crate::highlight::char_index(s, y) <= s.len(),
{
    crate::highlight::lemma_prefix_lengths_increase(s);
    let kx = crate::highlight::char_index(s, x);
    let ky = crate::highlight::char_index(s, y);
    assert(0 <= kx <= s.len() && crate::text::utf8_len(s.take(kx)) == x);
    assert(0 <= ky <= s.len() && crate::text::utf8_len(s.take(ky)) == y);
    if kx > ky {
        assert(crate::text::utf8_len(s.take(ky)) < crate::text::utf8_len(s.take(kx)));
    }
}

proof fn lemma_uncoloured_upto(s: Seq<char>, ranges: Seq<(usize, usize)>, colored: Seq<bool>, n: int)
    requires
        crate::highlight::ranges_fit(s, ranges),
        colored.len() == ranges.len(),
        forall|i: int| 0 <= i < colored.len() ==> !(#[trigger] colored[i]),
        0 <= n <= ranges.len(),
    ensures
        n == 0 ==> crate::highlight::marked_upto(s, ranges, colored, n) == Seq::<char>::empty(),
        n > 0 ==> 0 <= crate::highlight::char_index(s, ranges[n - 1].1 as int) <= s.len()
            && crate::highlight::marked_upto(s, ranges, colored, n) == s.subrange(0, crate::highlight::char_index(s, ranges[n - 1].1 as int)),
    decreases n,
{
    if n > 0 {
        lemma_uncoloured_upto(s, ranges, colored, n - 1);
        let r = ranges[n - 1];
        let prev = if n >= 2 { crate::highlight::char_index(s, ranges[n - 2].1 as int) } else { 0 };
        let a = crate::highlight::char_index(s, r.0 as int);
        let b = crate::highlight::char_index(s, r.1 as int);
        lemma_char_index_monotone(s, r.0 as int, r.1 as int);
        if n >= 2 {
            assert(ranges[n - 2].1 <= r.0);
            lemma_char_index_monotone(s, ranges[n - 2].1 as int, r.0 as int);
        }
        assert(!colored[n - 1]);
        assert(crate::highlight::marked_upto(s, ranges, colored, n)
            == crate::highlight::marked_upto(s, ranges, colored, n - 1) + s.subrange(prev, a) + s.subrange(a, b));
        assert(s.subrange(0, prev) + s.subrange(prev, a) + s.subrange(a, b) =~= s.subrange(0, b));
    }
}

/// Marking the matches of a text without colour (as happens when the
/// terminal takes none) gives back the text itself.
pub proof fn law_uncoloured_marking_keeps_text(s: Seq<char>, ranges: Seq<(usize, usize)>, colored: Seq<bool>)
    requires
        crate::highlight::ranges_fit(s, ranges),
        colored.len() == ranges.len(),
        forall|i: int| 0 <= i < colored.len() ==> !(#[trigger] colored[i]),
    ensures
        crate::highlight::marked_text(s, ranges, colored) == s,
{
    let n = ranges.len() as int;
    lemma_uncoloured_upto(s, ranges, colored, n);
    if n >= 1 {
        let last = crate::highlight::char_index(s, ranges[n - 1].1 as int);
        assert(s.subrange(0, last) + s.subrange(last, s.len() as int) =~= s);
    } else {
        assert(s.subrange(0, s.len() as int) =~= s);
    }
}

// ---------------------------------------------------------------------------
// The statistics cache.

/// Statistics stored for a directory are served for it until their time
/// to live has passed, under any spelling of its path.
pub proof fn law_cache_serves_what_was_stored(
    entries: Map<(bool, Seq<Seq<char>>), (crate::stats_cache::StatsView, u64)>,
    stored: Seq<char>,
    asked: Seq<char>,
    stats: crate::stats_cache::StatsView,
    stored_at: u64,
    now: u64,
    ttl: u64,
)
    requires
        same_path(stored, asked),
        stored_at <= now,
        now - stored_at < ttl,
    ensures
        ({
            let after = entries.insert(crate::stats_cache::path_key(stored), (stats, stored_at));
            &&& after.contains_key(crate::stats_cache::path_key(asked))
            &&& crate::stats_cache::fresh(after[crate::stats_cache::path_key(asked)].1, now, ttl)
            &&& after[crate::stats_cache::path_key(asked)].0 == stats
        }),
{
}

/// Once a directory is invalidated, nothing is served for it, and what is
/// stored for other directories stays.
pub proof fn law_cache_forgets_invalidated(
    entries: Map<(bool, Seq<Seq<char>>), (crate::stats_cache::StatsView, u64)>,
    path: Seq<char>,
    other: Seq<char>,
)
    ensures
        !entries.remove(crate::stats_cache::path_key(path)).contains_key(crate::stats_cache::path_key(path)),
        !same_path(path, other) ==> (entries.remove(crate::stats_cache::path_key(path)).contains_key(crate::stats_cache::path_key(other))
            == entries.contains_key(crate::stats_cache::path_key(other))),
{
}

} // verus!
