//! Moving through search results, query history and the preview of the
//! interactive view.
use vstd::prelude::*;

use crate::types::SearchMode;

verus! {

/// The result after `selected` among `count`, wrapping to the first.
pub open spec fn next_index(selected: int, count: int) -> int {
    (selected + 1) % count
}

/// The result before `selected` among `count`, wrapping to the last.
pub open spec fn previous_index(selected: int, count: int) -> int {
    if selected == 0 { count - 1 } else { selected - 1 }
}

/// The scroll position after scrolling up in the given mode.
pub open spec fn scrolled_up(offset: int, full_file_mode: bool) -> int {
    if full_file_mode && offset > 0 { if offset >= 10 { offset - 10 } else { 0 } } else { offset }
}

/// The scroll position after scrolling down in the given mode.
pub open spec fn scrolled_down(offset: int, full_file_mode: bool) -> int {
    if full_file_mode { offset + 10 } else { offset }
}

/// The result after `selected`, wrapping to the first.
pub fn next_result_index(selected: usize, count: usize) -> (r: usize)
    requires
        selected < count,
    ensures
        r == next_index(selected as int, count as int),
        r < count,
{
    (selected + 1) % count
}

/// The result before `selected`, wrapping to the last.
pub fn previous_result_index(selected: usize, count: usize) -> (r: usize)
    requires
        selected < count,
    ensures
        r == previous_index(selected as int, count as int),
        r < count,
{
    if selected == 0 {
        count - 1
    } else {
        selected - 1
    }
}

/// Where the full-file preview scrolls to show a result starting on
/// `line_start`: six lines above it, or the top.
pub fn scroll_for_line(line_start: usize) -> (r: usize)
    ensures
        r == if line_start >= 6 { line_start - 6 } else { 0 },
{
    if line_start >= 6 {
        line_start - 6
    } else {
        0
    }
}

/// The older history entry to show, if any.
pub fn history_previous_index(index: usize, len: usize) -> (r: Option<usize>)
    ensures
        r == if len > 0 && index > 0 { Some((index - 1) as usize) } else { None::<usize> },
{
    if len == 0 {
        return None;
    }
    if index > 0 {
        Some(index - 1)
    } else {
        None
    }
}

/// The newer history entry to show, if any.
pub fn history_next_index(index: usize, len: usize) -> (r: Option<usize>)
    ensures
        r == if len >= 1 && index < len - 1 { Some((index + 1) as usize) } else { None::<usize> },
{
    let last = if len >= 1 { len - 1 } else { 0 };
    if index < last {
        Some(index + 1)
    } else {
        None
    }
}

/// The search mode that follows `m` in the interactive view: semantic,
/// regex, hybrid, and back to semantic (lexical goes to semantic).
pub open spec fn next_mode(m: SearchMode) -> SearchMode {
    match m {
        SearchMode::Semantic => SearchMode::Regex,
        SearchMode::Regex => SearchMode::Hybrid,
        SearchMode::Hybrid => SearchMode::Semantic,
        SearchMode::Lexical => SearchMode::Semantic,
    }
}

/// The search mode that follows `m`; see `next_mode`.
pub fn cycle_mode(m: SearchMode) -> (r: SearchMode)
    ensures
        r == next_mode(m),
{
    match m {
        SearchMode::Semantic => SearchMode::Regex,
        SearchMode::Regex => SearchMode::Hybrid,
        SearchMode::Hybrid => SearchMode::Semantic,
        SearchMode::Lexical => SearchMode::Semantic,
    }
}

/// The scroll position after scrolling up: ten lines, not past the top;
/// unchanged outside full-file mode.
pub fn scroll_up(offset: usize, full_file_mode: bool) -> (r: usize)
    ensures
        r == scrolled_up(offset as int, full_file_mode),
{
    if full_file_mode && offset > 0 {
        if offset >= 10 { offset - 10 } else { 0 }
    } else {
        offset
    }
}

/// The scroll position after scrolling down: ten lines; unchanged outside
/// full-file mode.
pub fn scroll_down(offset: usize, full_file_mode: bool) -> (r: usize)
    requires
        full_file_mode ==> offset + 10 <= usize::MAX,
    ensures
        r == scrolled_down(offset as int, full_file_mode),
{
    if full_file_mode {
        offset + 10
    } else {
        offset
    }
}

/// Stepping back to the previous result undoes stepping to the next, and
/// the other way round.
pub proof fn law_previous_undoes_next(selected: usize, count: usize)
    requires
        selected < count,
    ensures
        previous_index(next_index(selected as int, count as int), count as int) == selected,
        next_index(previous_index(selected as int, count as int), count as int) == selected,
{
    let c = count as int;
    if selected + 1 < c {
        vstd::arithmetic::div_mod::lemma_small_mod((selected + 1) as nat, c as nat);
    } else {
        vstd::arithmetic::div_mod::lemma_mod_self_0(c);
    }
    if selected == 0 {
        vstd::arithmetic::div_mod::lemma_mod_self_0(c);
    } else {
        vstd::arithmetic::div_mod::lemma_small_mod(selected as nat, c as nat);
    }
}

/// Three steps of the mode cycle come back to a semantic, regex or hybrid
/// search.
pub proof fn law_mode_cycle_returns(m: SearchMode)
    requires
        m != SearchMode::Lexical,
    ensures
        next_mode(next_mode(next_mode(m))) == m,
{
}

/// Scrolling down and then up in full-file mode comes back to where it was.
pub proof fn law_scroll_down_then_up(offset: usize)
    requires
        offset + 10 <= usize::MAX,
    ensures
        scrolled_up(scrolled_down(offset as int, true), true) == offset,
{
}

} // verus!
