//! The decisions of the interactive search screen: slash commands, the
//! search history, multi-selection, which files an editor opens and how it
//! is invoked, and the text of the history and index panels.
use vstd::prelude::*;

use crate::types::SearchMode;
use crate::chunk_view::{focus_chunk, innermost_chunk, min_int, sat_sub, IndexedChunkMeta};
use crate::path_utils::{distinct_paths, paths_equal, same_path};
use crate::paths::{file_name_of, parse_path, path_names};
use crate::text::{
    char_views, clone_string, contains_seq, decimal, has_infix, has_prefix, matches_at, occurs_at, push_decimal, push_str_chars,
    starts_with_seq, str_chars, str_eq, string_from_chars, string_views, trim, trim_bounds,
};

verus! {

// ---------------------------------------------------------------------------
// Slash commands.

/// A command typed after `/` in the query box.
#[derive(Debug, Clone, Copy, PartialEq, Eq, Structural)]
pub enum TuiCommand {
    Help,
    Clear,
    History,
    Stats,
    Unknown,
}

/// The command a query names, once trimmed.
pub open spec fn command_of(t: Seq<char>) -> TuiCommand {
    if t == "/help"@ || t == "/h"@ || t == "/?"@ {
        TuiCommand::Help
    } else if t == "/clear"@ || t == "/c"@ {
        TuiCommand::Clear
    } else if t == "/history"@ {
        TuiCommand::History
    } else if t == "/stats"@ {
        TuiCommand::Stats
    } else {
        TuiCommand::Unknown
    }
}

/// A string slice without its leading and trailing whitespace.
fn trimmed(s: &str) -> (r: String)
    ensures
        r@ == trim(s@),
{
    let cs = str_chars(s);
    let (a, b) = trim_bounds(cs.as_slice());
    let mut out: Vec<char> = Vec::new();
    let mut i = a;
    while i < b
        invariant
            a <= i <= b <= cs@.len(),
            out@ == cs@.subrange(a as int, i as int),
        decreases b - i,
    {
        out.push(cs[i]);
        assert(cs@.subrange(a as int, i + 1) =~= cs@.subrange(a as int, i as int).push(cs@[i as int]));
        i += 1;
    }
    string_from_chars(out.as_slice())
}

/// The command a query names (see `command_of`), with the trimmed query.
pub fn parse_command(query: &str) -> (r: (TuiCommand, String))
    ensures
        r.1@ == trim(query@),
        r.0 == command_of(trim(query@)),
{
    let t = trimmed(query);
    let s = t.as_str();
    let c = if str_eq(s, "/help") || str_eq(s, "/h") || str_eq(s, "/?") {
        TuiCommand::Help
    } else if str_eq(s, "/clear") || str_eq(s, "/c") {
        TuiCommand::Clear
    } else if str_eq(s, "/history") {
        TuiCommand::History
    } else if str_eq(s, "/stats") {
        TuiCommand::Stats
    } else {
        TuiCommand::Unknown
    };
    (c, t)
}

/// The status line for a command that is not known.
pub fn unknown_command_message(command: &str) -> (r: String)
    ensures
        r@ == "Unknown command: "@ + command@ + ". Type /help for available commands"@,
{
    let mut out: Vec<char> = Vec::new();
    push_str_chars(&mut out, "Unknown command: ");
    push_str_chars(&mut out, command);
    push_str_chars(&mut out, ". Type /help for available commands");
    string_from_chars(out.as_slice())
}

// ---------------------------------------------------------------------------
// Search history.

/// The most queries the history keeps.
pub const HISTORY_LIMIT: usize = 20;

/// The history after a completed search for `query`: the query is added
/// unless it is already the last entry, and the oldest entry is dropped
/// when there are more than twenty.
pub open spec fn recorded(history: Seq<Seq<char>>, query: Seq<char>) -> Seq<Seq<char>> {
    let h = if history.len() > 0 && history.last() == query { history } else { history.push(query) };
    if h.len() > HISTORY_LIMIT { h.drop_first() } else { h }
}

/// Records a completed search; returns the history position of its query,
/// the last one.
pub fn record_search(history: &mut Vec<String>, query: String) -> (index: usize)
    ensures
        string_views(final(history)@) == recorded(string_views(old(history)@), query@),
        final(history)@.len() > 0,
        index == final(history)@.len() - 1,
        string_views(final(history)@).last() == query@,
        old(history)@.len() <= HISTORY_LIMIT ==> final(history)@.len() <= HISTORY_LIMIT,
{
    let ghost before = string_views(history@);
    let n = history.len();
    let same = n > 0 && str_eq(history[n - 1].as_str(), query.as_str());
    if !same {
        history.push(query);
        assert(string_views(history@) =~= before.push(query@));
    }
    if history.len() > HISTORY_LIMIT {
        let ghost h = string_views(history@);
        history.remove(0);
        assert(string_views(history@) =~= h.drop_first());
    }
    history.len() - 1
}

// ---------------------------------------------------------------------------
// Multi-selection.

/// The entry naming the same path as `p`, if any.
pub open spec fn path_position(s: Seq<Seq<char>>, p: Seq<char>) -> Option<int> {
    if exists|i: int| 0 <= i < s.len() && #[trigger] same_path(s[i], p) {
        Some(choose|i: int| 0 <= i < s.len() && #[trigger] same_path(s[i], p))
    } else {
        None
    }
}

/// The selection after toggling `f`: without the entry naming its path
/// when there is one, else with `f` added at the end.
pub open spec fn toggled(s: Seq<Seq<char>>, f: Seq<char>) -> Seq<Seq<char>> {
    match path_position(s, f) {
        Some(i) => s.remove(i),
        None => s.push(f),
    }
}

proof fn lemma_same_path_equiv()
    ensures
        forall|a: Seq<char>, b: Seq<char>| #[trigger] same_path(a, b) ==> same_path(b, a),
        forall|a: Seq<char>, b: Seq<char>, c: Seq<char>| #[trigger] same_path(a, b) && #[trigger] same_path(b, c) ==> same_path(a, c),
{
}

/// Selects the file of the current result, or deselects it when it is
/// selected already; returns the status line. The selection holds each
/// path once.
pub fn toggle_selection(selected: &mut Vec<String>, file: &str) -> (message: String)
    requires
        distinct_paths(string_views(old(selected)@)),
    ensures
        distinct_paths(string_views(final(selected)@)),
        string_views(final(selected)@) == toggled(string_views(old(selected)@), file@),
        message@ == (match path_position(string_views(old(selected)@), file@) {
            Some(_) => "Deselected "@ + file@,
            None => "Selected "@ + file@ + " ("@ + decimal(final(selected)@.len() as nat) + " total)"@,
        }),
{
    let ghost before = string_views(selected@);
    proof {
        lemma_same_path_equiv();
    }
    let mut i: usize = 0;
    while i < selected.len()
        invariant
            i <= selected@.len(),
            before == string_views(selected@),
            before == string_views(old(selected)@),
            distinct_paths(before),
            forall|k: int| 0 <= k < i ==> !same_path(#[trigger] before[k], file@),
        decreases selected@.len() - i,
    {
        if paths_equal(selected[i].as_str(), file) {
            proof {
                assert(same_path(before[i as int], file@));
                let c = choose|k: int| 0 <= k < before.len() && #[trigger] same_path(before[k], file@);
                if c != i {
                    assert(same_path(before[c], before[i as int]));
                    if c < i {
                        assert(!same_path(before[c], before[i as int]));
                    } else {
                        assert(same_path(before[i as int], before[c]));
                    }
                }
            }
            selected.remove(i);
            assert(string_views(selected@) =~= before.remove(i as int));
            proof {
                let after = string_views(selected@);
                assert forall|a: int, b: int| 0 <= a < b < after.len() implies !same_path(#[trigger] after[a], #[trigger] after[b]) by {
                    let a0 = if a < i { a } else { a + 1 };
                    let b0 = if b < i { b } else { b + 1 };
                    assert(after[a] == before[a0]);
                    assert(after[b] == before[b0]);
                }
            }
            let mut out: Vec<char> = Vec::new();
            push_str_chars(&mut out, "Deselected ");
            push_str_chars(&mut out, file);
            assert(out@ =~= "Deselected "@ + file@);
            assert(path_position(before, file@) == Some(i as int));
            return string_from_chars(out.as_slice());
        }
        i += 1;
    }
    selected.push(file.to_owned());
    assert(string_views(selected@) =~= before.push(file@));
    proof {
        let after = string_views(selected@);
        assert forall|a: int, b: int| 0 <= a < b < after.len() implies !same_path(#[trigger] after[a], #[trigger] after[b]) by {
            if b == before.len() {
                assert(!same_path(before[a], file@));
            }
        }
    }
    let mut out: Vec<char> = Vec::new();
    push_str_chars(&mut out, "Selected ");
    push_str_chars(&mut out, file);
    push_str_chars(&mut out, " (");
    push_decimal(&mut out, selected.len());
    push_str_chars(&mut out, " total)");
    assert(out@ =~= "Selected "@ + file@ + " ("@ + decimal(selected@.len() as nat) + " total)"@);
    string_from_chars(out.as_slice())
}

// ---------------------------------------------------------------------------
// Opening files in an editor.

/// The line of the first of the first `n` results that is in file `f`.
pub open spec fn first_line_in(results: Seq<(Seq<char>, usize)>, f: Seq<char>, n: int) -> Option<usize>
    decreases n,
{
    if n <= 0 {
        None
    } else {
        match first_line_in(results, f, n - 1) {
            Some(l) => Some(l),
            None => if same_path(results[n - 1].0, f) { Some(results[n - 1].1) } else { None },
        }
    }
}

/// Each of the first `n` selected files that has a result, at the line of
/// its first result.
pub open spec fn selected_to_open(selected: Seq<Seq<char>>, results: Seq<(Seq<char>, usize)>, n: int) -> Seq<(Seq<char>, usize)>
    decreases n,
{
    if n <= 0 {
        seq![]
    } else {
        let prev = selected_to_open(selected, results, n - 1);
        match first_line_in(results, selected[n - 1], results.len() as int) {
            Some(l) => prev.push((selected[n - 1], l)),
            None => prev,
        }
    }
}

/// The files to open: the selected files (in the order given) at their
/// first result, or, with none selected, the current result.
pub open spec fn files_to_open_spec(selected: Seq<Seq<char>>, results: Seq<(Seq<char>, usize)>, current: int) -> Seq<(Seq<char>, usize)> {
    if selected.len() == 0 {
        if 0 <= current < results.len() { seq![results[current]] } else { seq![] }
    } else {
        selected_to_open(selected, results, selected.len() as int)
    }
}

/// A file and line as character sequences.
pub open spec fn located_views(v: Seq<(String, usize)>) -> Seq<(Seq<char>, usize)> {
    v.map_values(|p: (String, usize)| (p.0@, p.1))
}

/// The files an editor opens; see `files_to_open_spec`. `results` holds
/// each result's file and first line.
pub fn files_to_open(selected: &Vec<String>, results: &Vec<(String, usize)>, current: usize) -> (r: Vec<(String, usize)>)
    ensures
        located_views(r@) == files_to_open_spec(string_views(selected@), located_views(results@), current as int),
{
    let ghost rv = located_views(results@);
    let mut out: Vec<(String, usize)> = Vec::new();
    if selected.len() == 0 {
        if current < results.len() {
            out.push((clone_string(&results[current].0), results[current].1));
            assert(located_views(out@) =~= seq![rv[current as int]]);
        } else {
            assert(located_views(out@) =~= Seq::<(Seq<char>, usize)>::empty());
        }
        return out;
    }
    let ghost sv = string_views(selected@);
    let mut i: usize = 0;
    while i < selected.len()
        invariant
            i <= selected@.len(),
            sv == string_views(selected@),
            rv == located_views(results@),
            located_views(out@) == selected_to_open(sv, rv, i as int),
        decreases selected@.len() - i,
    {
        let mut j: usize = 0;
        let mut found: Option<usize> = None;
        while j < results.len()
            invariant_except_break
                j <= results@.len(),
                rv == located_views(results@),
                found is None,
                first_line_in(rv, sv[i as int], j as int) is None,
            invariant
                i < selected@.len(),
                sv == string_views(selected@),
            ensures
                found == first_line_in(rv, sv[i as int], results@.len() as int),
            decreases results@.len() - j,
        {
            if paths_equal(results[j].0.as_str(), selected[i].as_str()) {
                found = Some(results[j].1);
                proof {
                    assert(first_line_in(rv, sv[i as int], j + 1) == Some(results@[j as int].1));
                    lemma_first_line_stays(rv, sv[i as int], j + 1, results@.len() as int);
                }
                break;
            }
            j += 1;
        }
        match found {
            Some(l) => {
                let ghost before = located_views(out@);
                out.push((clone_string(&selected[i]), l));
                assert(located_views(out@) =~= before.push((sv[i as int], l)));
            },
            None => {},
        }
        i += 1;
    }
    out
}

proof fn lemma_first_line_stays(results: Seq<(Seq<char>, usize)>, f: Seq<char>, j: int, n: int)
    requires
        0 <= j <= n,
        first_line_in(results, f, j) is Some,
    ensures
        first_line_in(results, f, n) == first_line_in(results, f, j),
    decreases n - j,
{
    if j < n {
        lemma_first_line_stays(results, f, j, n - 1);
    }
}

/// The words of a command line as `shlex::split` finds them: none when its
/// quoting is malformed.
pub uninterp spec fn shell_words(s: Seq<char>) -> Option<Seq<Seq<char>>>;

/// `shlex::split`: the words of a command line, parsed as a POSIX shell
/// does, or none when the line is malformed.
#[verifier::external_body]
fn split_shell_words(s: &str) -> (r: Option<Vec<String>>)
    ensures
        match r {
            Some(v) => shell_words(s@) == Some(string_views(v@)),
            None => shell_words(s@) is None,
        },
{
    shlex::split(s)
}

/// How an editor is told which files to open, by the name of its program.
#[derive(Debug, Clone, Copy, PartialEq, Eq, Structural)]
pub enum EditorKind {
    /// Cursor or VS Code: `-g file:line` for each file.
    Code,
    /// Sublime Text: `file:line` for each file.
    Sublime,
    /// Emacs: `+line file` for the first file.
    Emacs,
    /// Nano: `+line file` for the first file.
    Nano,
    /// Vim and the rest: `+line file` for each file, in tabs when several.
    Vim,
}

/// The kind of an editor from the base name of its program.
pub open spec fn editor_kind_of(base: Seq<char>) -> EditorKind {
    if has_infix(base, "cursor"@) || has_infix(base, "code"@) {
        EditorKind::Code
    } else if has_infix(base, "subl"@) {
        EditorKind::Sublime
    } else if has_infix(base, "emacs"@) {
        EditorKind::Emacs
    } else if has_infix(base, "nano"@) {
        EditorKind::Nano
    } else {
        EditorKind::Vim
    }
}

/// The base name of a program path: its file name, or the whole path when
/// it has none.
pub open spec fn program_base_name(p: Seq<char>) -> Seq<char> {
    match file_name_of(path_names(p)) {
        Some(n) => n,
        None => p,
    }
}

/// `file:line`.
pub open spec fn file_at_line(f: (Seq<char>, usize)) -> Seq<char> {
    f.0 + ":"@ + decimal(f.1 as nat)
}

/// `+line`.
pub open spec fn plus_line(f: (Seq<char>, usize)) -> Seq<char> {
    "+"@ + decimal(f.1 as nat)
}

/// The arguments for the first `n` files, by kind.
pub open spec fn editor_file_args(kind: EditorKind, files: Seq<(Seq<char>, usize)>, n: int) -> Seq<Seq<char>>
    decreases n,
{
    if n <= 0 {
        seq![]
    } else {
        let prev = editor_file_args(kind, files, n - 1);
        let f = files[n - 1];
        match kind {
            EditorKind::Code => prev + seq!["-g"@, file_at_line(f)],
            EditorKind::Sublime => prev.push(file_at_line(f)),
            EditorKind::Vim => prev + seq![plus_line(f), f.0],
            _ => if n == 1 { seq![plus_line(f), f.0] } else { prev },
        }
    }
}

/// All the arguments an editor of a kind gets after its own: the files,
/// and `-p` for Vim with several files.
pub open spec fn editor_args(kind: EditorKind, files: Seq<(Seq<char>, usize)>) -> Seq<Seq<char>> {
    let a = editor_file_args(kind, files, files.len() as int);
    if kind == EditorKind::Vim && files.len() > 1 { a.push("-p"@) } else { a }
}

/// The program and its own arguments: the words of the editor setting, or
/// the setting as one word when its quoting is malformed or it has none.
pub open spec fn editor_words(editor: Seq<char>) -> (Seq<char>, Seq<Seq<char>>) {
    match shell_words(editor) {
        Some(w) if w.len() > 0 => (w[0], w.drop_first()),
        Some(w) => (editor, seq![]),
        None => (editor, seq![]),
    }
}

/// The command that opens `files` in the editor named by the `editor`
/// setting: the program, and its own arguments followed by the files as
/// that kind of editor takes them.
pub open spec fn editor_invocation_spec(editor: Seq<char>, files: Seq<(Seq<char>, usize)>) -> (Seq<char>, Seq<Seq<char>>) {
    let (program, own) = editor_words(editor);
    (program, own + editor_args(editor_kind_of(program_base_name(program)), files))
}

/// Whether a string holds a literal.
fn holds(s: &str, lit: &str) -> (r: bool)
    ensures
        r == has_infix(s@, lit@),
{
    let a = str_chars(s);
    let b = str_chars(lit);
    contains_seq(a.as_slice(), b.as_slice())
}

/// The base name of a program path; see `program_base_name`.
fn base_name(p: &str) -> (r: String)
    ensures
        r@ == program_base_name(p@),
{
    let (_abs, names) = parse_path(p);
    let n = names.len();
    if n > 0 {
        let last = &names[n - 1];
        let is_dotdot = last.len() == 2 && last[0] == '.' && last[1] == '.';
        proof {
            assert(char_views(names@).last() == last@);
            if is_dotdot {
                assert(last@ =~= seq!['.', '.']);
            } else {
                assert(last@ != seq!['.', '.']);
            }
        }
        if !is_dotdot {
            return string_from_chars(last.as_slice());
        }
    }
    p.to_owned()
}

/// Appends `file:line` (or `+line`) for one file.
fn push_located(out: &mut Vec<String>, f: &(String, usize), plus: bool)
    ensures
        string_views(final(out)@) == string_views(old(out)@).push(
            if plus { plus_line((f.0@, f.1)) } else { file_at_line((f.0@, f.1)) },
        ),
{
    let mut cs: Vec<char> = Vec::new();
    if plus {
        cs.push('+');
        push_decimal(&mut cs, f.1);
        assert(cs@ =~= "+"@ + decimal(f.1 as nat)) by {
            reveal_strlit("+");
        }
    } else {
        push_str_chars(&mut cs, f.0.as_str());
        cs.push(':');
        push_decimal(&mut cs, f.1);
        assert(cs@ =~= f.0@ + ":"@ + decimal(f.1 as nat)) by {
            reveal_strlit(":");
        }
    }
    let ghost before = string_views(out@);
    out.push(string_from_chars(cs.as_slice()));
    assert(string_views(out@) =~= before.push(cs@));
}

/// The command that opens the files in the editor named by the `editor`
/// setting; see `editor_invocation_spec`.
pub fn editor_invocation(editor: &str, files: &Vec<(String, usize)>) -> (r: (String, Vec<String>))
    requires
        files@.len() > 0,
    ensures
        (r.0@, string_views(r.1@)) == editor_invocation_spec(editor@, located_views(files@)),
{
    let ghost fv = located_views(files@);
    let (program, mut args) = match split_shell_words(editor) {
        Some(mut w) => {
            if w.len() > 0 {
                let ghost wv = string_views(w@);
                let first = w.remove(0);
                assert(string_views(w@) =~= wv.drop_first());
                (first, w)
            } else {
                (editor.to_owned(), Vec::new())
            }
        },
        None => (editor.to_owned(), Vec::new()),
    };
    assert((program@, string_views(args@)) == editor_words(editor@));
    let base = base_name(program.as_str());
    let b = base.as_str();
    let kind = if holds(b, "cursor") || holds(b, "code") {
        EditorKind::Code
    } else if holds(b, "subl") {
        EditorKind::Sublime
    } else if holds(b, "emacs") {
        EditorKind::Emacs
    } else if holds(b, "nano") {
        EditorKind::Nano
    } else {
        EditorKind::Vim
    };
    assert(kind == editor_kind_of(program_base_name(program@)));
    let ghost own = string_views(args@);
    match kind {
        EditorKind::Emacs | EditorKind::Nano => {
            push_located(&mut args, &files[0], true);
            let ghost with_line = string_views(args@);
            args.push(clone_string(&files[0].0));
            assert(string_views(args@) =~= with_line.push(files@[0].0@));
            assert(editor_file_args(kind, fv, 1) =~= seq![plus_line(fv[0]), fv[0].0]);
            proof {
                lemma_first_only_args(kind, fv, fv.len() as int);
            }
            assert(string_views(args@) =~= own + editor_args(kind, fv));
        },
        _ => {
            let mut i: usize = 0;
            while i < files.len()
                invariant
                    i <= files@.len(),
                    fv == located_views(files@),
                    kind == EditorKind::Code || kind == EditorKind::Sublime || kind == EditorKind::Vim,
                    string_views(args@) == own + editor_file_args(kind, fv, i as int),
                decreases files@.len() - i,
            {
                let ghost before = string_views(args@);
                match kind {
                    EditorKind::Code => {
                        args.push("-g".to_owned());
                        push_located(&mut args, &files[i], false);
                        assert(string_views(args@) =~= before + seq!["-g"@, file_at_line(fv[i as int])]);
                    },
                    EditorKind::Sublime => {
                        push_located(&mut args, &files[i], false);
                    },
                    _ => {
                        push_located(&mut args, &files[i], true);
                        let ghost mid = string_views(args@);
                        args.push(clone_string(&files[i].0));
                        assert(string_views(args@) =~= mid.push(files@[i as int].0@));
                        assert(string_views(args@) =~= before + seq![plus_line(fv[i as int]), fv[i as int].0]);
                    },
                }
                i += 1;
            }
            if kind == EditorKind::Vim && files.len() > 1 {
                let ghost before = string_views(args@);
                args.push("-p".to_owned());
                assert(string_views(args@) =~= before.push("-p"@));
            }
            assert(string_views(args@) =~= own + editor_args(kind, fv));
        },
    }
    (program, args)
}

proof fn lemma_first_only_args(kind: EditorKind, files: Seq<(Seq<char>, usize)>, n: int)
    requires
        kind == EditorKind::Emacs || kind == EditorKind::Nano,
        1 <= n,
    ensures
        editor_file_args(kind, files, n) == editor_file_args(kind, files, 1),
    decreases n,
{
    if n > 1 {
        lemma_first_only_args(kind, files, n - 1);
    }
}

// ---------------------------------------------------------------------------
// Panels.

/// Counts of an index, as the status bar and the statistics panel show
/// them.
#[derive(Debug, Clone, Copy, PartialEq, Eq, Structural)]
pub struct IndexStats {
    pub total_files: usize,
    pub total_chunks: usize,
    pub embedded_chunks: usize,
    pub total_size_bytes: u64,
    pub index_size_bytes: u64,
    pub index_created: u64,
    pub index_updated: u64,
}

impl Default for IndexStats {
    fn default() -> (r: IndexStats)
        ensures
            r == (IndexStats {
                total_files: 0,
                total_chunks: 0,
                embedded_chunks: 0,
                total_size_bytes: 0,
                index_size_bytes: 0,
                index_created: 0,
                index_updated: 0,
            }),
    {
        IndexStats {
            total_files: 0,
            total_chunks: 0,
            embedded_chunks: 0,
            total_size_bytes: 0,
            index_size_bytes: 0,
            index_created: 0,
            index_updated: 0,
        }
    }
}

/// The index part of the status bar: the counts when known, else the
/// error when there is one, else `--`.
pub open spec fn index_info_text(stats: Option<IndexStats>, error: Option<Seq<char>>) -> Seq<char> {
    match stats {
        Some(s) => "Index: "@ + decimal(s.total_files as nat) + " files, "@ + decimal(s.total_chunks as nat) + " chunks"@,
        None => match error {
            Some(e) => "Index error: "@ + e,
            None => "Index: --"@,
        },
    }
}

/// The index part of the status bar; see `index_info_text`.
pub fn index_info(stats: Option<&IndexStats>, error: Option<&str>) -> (r: String)
    ensures
        r@ == index_info_text(match stats { Some(s) => Some(*s), None => None }, match error { Some(e) => Some(e@), None => None }),
{
    let mut out: Vec<char> = Vec::new();
    match stats {
        Some(s) => {
            push_str_chars(&mut out, "Index: ");
            push_decimal(&mut out, s.total_files);
            push_str_chars(&mut out, " files, ");
            push_decimal(&mut out, s.total_chunks);
            push_str_chars(&mut out, " chunks");
        },
        None => match error {
            Some(e) => {
                push_str_chars(&mut out, "Index error: ");
                push_str_chars(&mut out, e);
            },
            None => {
                push_str_chars(&mut out, "Index: --");
            },
        },
    }
    string_from_chars(out.as_slice())
}

/// The lines of the history panel, most recent query first and numbered
/// from one; none when the history is empty.
pub open spec fn history_panel(history: Seq<Seq<char>>) -> Option<Seq<Seq<char>>> {
    if history.len() == 0 {
        None
    } else {
        Some(seq!["━━━ SEARCH HISTORY ━━━"@, ""@] + Seq::new(
            history.len(),
            |i: int| "  "@ + decimal((i + 1) as nat) + ": "@ + history[history.len() - 1 - i],
        ) + seq![""@, "Use Ctrl+Up/Down to navigate history"@])
    }
}

/// The lines of the history panel; see `history_panel`.
pub fn history_lines(history: &Vec<String>) -> (r: Option<Vec<String>>)
    ensures
        match r {
            Some(v) => history_panel(string_views(history@)) == Some(string_views(v@)),
            None => history_panel(string_views(history@)) is None,
        },
{
    let ghost hv = string_views(history@);
    let n = history.len();
    if n == 0 {
        return None;
    }
    let mut out: Vec<String> = Vec::new();
    out.push("━━━ SEARCH HISTORY ━━━".to_owned());
    out.push("".to_owned());
    let ghost head = seq!["━━━ SEARCH HISTORY ━━━"@, ""@];
    assert(string_views(out@) =~= head);
    let ghost rows = Seq::new(hv.len(), |i: int| "  "@ + decimal((i + 1) as nat) + ": "@ + hv[hv.len() - 1 - i]);
    let mut i: usize = 0;
    while i < n
        invariant
            i <= n == history@.len(),
            hv == string_views(history@),
            rows == Seq::new(hv.len(), |i: int| "  "@ + decimal((i + 1) as nat) + ": "@ + hv[hv.len() - 1 - i]),
            string_views(out@) == head + rows.take(i as int),
        decreases n - i,
    {
        let mut cs: Vec<char> = Vec::new();
        push_str_chars(&mut cs, "  ");
        push_decimal(&mut cs, i + 1);
        push_str_chars(&mut cs, ": ");
        push_str_chars(&mut cs, history[n - 1 - i].as_str());
        assert(cs@ =~= rows[i as int]);
        let ghost before = string_views(out@);
        out.push(string_from_chars(cs.as_slice()));
        assert(string_views(out@) =~= before.push(cs@));
        assert(rows.take(i + 1) =~= rows.take(i as int).push(rows[i as int]));
        i += 1;
    }
    let ghost mid = string_views(out@);
    out.push("".to_owned());
    out.push("Use Ctrl+Up/Down to navigate history".to_owned());
    assert(rows.take(n as int) =~= rows);
    assert(string_views(out@) =~= mid + seq![""@, "Use Ctrl+Up/Down to navigate history"@]);
    Some(out)
}

/// The lines of the statistics panel: the counts when known, else the
/// error when there is one, else a note that there are none.
pub open spec fn stats_panel(path: Seq<char>, stats: Option<IndexStats>, error: Option<Seq<char>>) -> Seq<Seq<char>> {
    match stats {
        Some(s) => seq![
            "━━━ INDEX STATISTICS ━━━"@,
            ""@,
            "  Path: "@ + path,
            "  Files: "@ + decimal(s.total_files as nat),
            "  Chunks: "@ + decimal(s.total_chunks as nat) + " ("@ + decimal(s.embedded_chunks as nat) + " embedded)"@,
            "  Total size: "@ + decimal(s.total_size_bytes as nat) + " bytes"@,
            "  Index size: "@ + decimal(s.index_size_bytes as nat) + " bytes"@,
            ""@,
        ],
        None => match error {
            Some(e) => seq!["━━━ INDEX STATISTICS ━━━"@, ""@, "  Error: "@ + e, ""@],
            None => seq!["━━━ INDEX STATISTICS ━━━"@, ""@, "  Index data unavailable"@, ""@],
        },
    }
}

/// A line made of a literal, a count and a literal.
fn count_line(label: &str, n: u64, tail: &str) -> (r: String)
    ensures
        r@ == label@ + decimal(n as nat) + tail@,
{
    let mut cs: Vec<char> = Vec::new();
    push_str_chars(&mut cs, label);
    push_u128_decimal(&mut cs, n as u128);
    push_str_chars(&mut cs, tail);
    string_from_chars(cs.as_slice())
}

/// Appends the decimal notation of a 128-bit count.
fn push_u128_decimal(out: &mut Vec<char>, n: u128)
    ensures
        final(out)@ == old(out)@ + decimal(n as nat),
    decreases n,
{
    if n >= 10 {
        push_u128_decimal(out, n / 10);
    }
    let d = (n % 10) as u8;
    out.push((48u8 + d) as char);
    proof {
        if n < 10 {
            assert(old(out)@ + decimal(n as nat) =~= old(out)@.push(crate::text::digit_char(n as nat)));
        } else {
            assert(old(out)@ + decimal(n as nat) =~= (old(out)@ + decimal((n / 10) as nat)).push(
                crate::text::digit_char((n % 10) as nat),
            ));
        }
    }
}

/// The lines of the statistics panel; see `stats_panel`.
pub fn stats_lines(path: &str, stats: Option<&IndexStats>, error: Option<&str>) -> (r: Vec<String>)
    ensures
        string_views(r@) == stats_panel(path@, match stats { Some(s) => Some(*s), None => None }, match error { Some(e) => Some(e@), None => None }),
{
    let title = "━━━ INDEX STATISTICS ━━━".to_owned();
    match stats {
        Some(s) => {
            let mut p: Vec<char> = Vec::new();
            push_str_chars(&mut p, "  Path: ");
            push_str_chars(&mut p, path);
            let mut f: Vec<char> = Vec::new();
            push_str_chars(&mut f, "  Files: ");
            push_decimal(&mut f, s.total_files);
            let mut c: Vec<char> = Vec::new();
            push_str_chars(&mut c, "  Chunks: ");
            push_decimal(&mut c, s.total_chunks);
            push_str_chars(&mut c, " (");
            push_decimal(&mut c, s.embedded_chunks);
            push_str_chars(&mut c, " embedded)");
            let total = count_line("  Total size: ", s.total_size_bytes, " bytes");
            let index = count_line("  Index size: ", s.index_size_bytes, " bytes");
            let out = vec![
                title,
                "".to_owned(),
                string_from_chars(p.as_slice()),
                string_from_chars(f.as_slice()),
                string_from_chars(c.as_slice()),
                total,
                index,
                "".to_owned(),
            ];
            assert(string_views(out@) =~= stats_panel(path@, Some(*s), match error { Some(e) => Some(e@), None => None }));
            out
        },
        None => {
            let detail = match error {
                Some(e) => {
                    let mut cs: Vec<char> = Vec::new();
                    push_str_chars(&mut cs, "  Error: ");
                    push_str_chars(&mut cs, e);
                    string_from_chars(cs.as_slice())
                },
                None => "  Index data unavailable".to_owned(),
            };
            let out = vec![title, "".to_owned(), detail, "".to_owned()];
            assert(string_views(out@) =~= stats_panel(path@, None, match error { Some(e) => Some(e@), None => None }));
            out
        },
    }
}

// ---------------------------------------------------------------------------
// The help panel.

/// The lines of the help panel.
pub open spec fn help_text() -> Seq<Seq<char>> {
    seq![
        "━━━ COMMAND MENU ━━━"@,
        ""@,
        "Available commands:"@,
        "  /help, /h, /?    - Show this help"@,
        "  /clear, /c       - Clear results and search"@,
        "  /history         - Show search history"@,
        "  /stats           - Show index statistics"@,
        ""@,
        "━━━ KEYBINDINGS ━━━"@,
        ""@,
        "  Tab              - Cycle search modes (SEM/REG/HYB)"@,
        "  Ctrl+V           - Cycle preview modes (Heatmap/Syntax/Chunks)"@,
        "  Ctrl+F           - Toggle snippet/full file view"@,
        "  Ctrl+D           - Show chunk metadata (debug)"@,
        "  Ctrl+Space       - Multi-select files"@,
        "  Ctrl+Up/Down     - Navigate search history"@,
        "  Up/Down          - Navigate results"@,
        "  PgUp/PgDn        - Scroll preview"@,
        "  Enter            - Open in $EDITOR"@,
        "  Esc, q, Ctrl+C   - Quit"@,
        ""@,
        "━━━ SEARCH MODES ━━━"@,
        ""@,
        "  SEM - Semantic: Find code by meaning"@,
        "  REG - Regex: Pattern matching"@,
        "  HYB - Hybrid: Combined semantic + regex"@,
        ""@,
        "━━━ PREVIEW MODES ━━━"@,
        ""@,
        "  Heatmap - Semantic similarity coloring"@,
        "  Syntax  - Syntax highlighting"@,
        "  Chunks  - Function/class boundaries"@,
        ""@,
        "Press Esc to close help"@,
    ]
}

/// The lines of the help panel; see `help_text`.
pub fn help_lines() -> (r: Vec<String>)
    ensures
        string_views(r@) == help_text(),
{
    let r = vec![
        "━━━ COMMAND MENU ━━━".to_owned(),
        "".to_owned(),
        "Available commands:".to_owned(),
        "  /help, /h, /?    - Show this help".to_owned(),
        "  /clear, /c       - Clear results and search".to_owned(),
        "  /history         - Show search history".to_owned(),
        "  /stats           - Show index statistics".to_owned(),
        "".to_owned(),
        "━━━ KEYBINDINGS ━━━".to_owned(),
        "".to_owned(),
        "  Tab              - Cycle search modes (SEM/REG/HYB)".to_owned(),
        "  Ctrl+V           - Cycle preview modes (Heatmap/Syntax/Chunks)".to_owned(),
        "  Ctrl+F           - Toggle snippet/full file view".to_owned(),
        "  Ctrl+D           - Show chunk metadata (debug)".to_owned(),
        "  Ctrl+Space       - Multi-select files".to_owned(),
        "  Ctrl+Up/Down     - Navigate search history".to_owned(),
        "  Up/Down          - Navigate results".to_owned(),
        "  PgUp/PgDn        - Scroll preview".to_owned(),
        "  Enter            - Open in $EDITOR".to_owned(),
        "  Esc, q, Ctrl+C   - Quit".to_owned(),
        "".to_owned(),
        "━━━ SEARCH MODES ━━━".to_owned(),
        "".to_owned(),
        "  SEM - Semantic: Find code by meaning".to_owned(),
        "  REG - Regex: Pattern matching".to_owned(),
        "  HYB - Hybrid: Combined semantic + regex".to_owned(),
        "".to_owned(),
        "━━━ PREVIEW MODES ━━━".to_owned(),
        "".to_owned(),
        "  Heatmap - Semantic similarity coloring".to_owned(),
        "  Syntax  - Syntax highlighting".to_owned(),
        "  Chunks  - Function/class boundaries".to_owned(),
        "".to_owned(),
        "Press Esc to close help".to_owned(),
    ];
    assert(string_views(r@) =~= help_text());
    r
}

/// How a line of a panel is drawn.
#[derive(Debug, PartialEq, Eq)]
pub enum PanelLine {
    /// A heading, in bold cyan.
    Heading,
    /// A key or command, in bold yellow, and the text that explains it.
    KeyAndText(String, String),
    /// Plain text.
    Plain,
}

/// The beginnings that mark a line of the help panel as naming a key,
/// command or mode.
pub open spec fn key_line_prefixes() -> Seq<Seq<char>> {
    seq![
        "  /"@, "  Ctrl"@, "  Tab"@, "  Up"@, "  PgUp"@, "  Enter"@, "  Esc"@, "  SEM"@, "  REG"@, "  HYB"@,
        "  Heatmap"@, "  Syntax"@, "  Chunks"@,
    ]
}

/// Whether a help line names a key, command or mode.
pub open spec fn is_key_line(l: Seq<char>) -> bool {
    exists|i: int| 0 <= i < key_line_prefixes().len() && has_prefix(l, #[trigger] key_line_prefixes()[i])
}

/// The first position among the first `n` where `p` occurs in `s`.
pub open spec fn first_occurrence(s: Seq<char>, p: Seq<char>, n: int) -> Option<int>
    decreases n,
{
    if n <= 0 {
        None
    } else {
        match first_occurrence(s, p, n - 1) {
            Some(i) => Some(i),
            None => if occurs_at(s, p, n - 1) { Some(n - 1) } else { None },
        }
    }
}

/// How a help line is drawn: headings start with `━━━`; a line naming a
/// key is cut before its first ` - ` into the key and its explanation;
/// everything else is plain.
pub open spec fn help_line_kind(l: Seq<char>) -> (bool, Option<int>) {
    if has_prefix(l, "━━━"@) {
        (true, None)
    } else if is_key_line(l) {
        (false, first_occurrence(l, " - "@, l.len() + 1int))
    } else {
        (false, None)
    }
}

/// The first position where `p` occurs in `s`; see `first_occurrence`.
fn find_seq(s: &Vec<char>, p: &Vec<char>) -> (r: Option<usize>)
    ensures
        match r {
            Some(i) => first_occurrence(s@, p@, s@.len() + 1int) == Some(i as int) && i <= s@.len(),
            None => first_occurrence(s@, p@, s@.len() + 1int) is None,
        },
{
    let n = s.len();
    let mut i: usize = 0;
    loop
        invariant
            i <= n == s@.len(),
            first_occurrence(s@, p@, i as int) is None,
        decreases n - i,
    {
        if matches_at(s.as_slice(), p.as_slice(), i) {
            proof {
                lemma_first_occurrence_stays(s@, p@, i + 1, s@.len() + 1int);
            }
            return Some(i);
        }
        if i == n {
            return None;
        }
        i += 1;
    }
}

proof fn lemma_first_occurrence_stays(s: Seq<char>, p: Seq<char>, j: int, n: int)
    requires
        0 <= j <= n,
        first_occurrence(s, p, j) is Some,
    ensures
        first_occurrence(s, p, n) == first_occurrence(s, p, j),
    decreases n - j,
{
    if j < n {
        lemma_first_occurrence_stays(s, p, j, n - 1);
    }
}

/// How a help line is drawn; see `help_line_kind`.
pub fn classify_help_line(line: &str) -> (r: PanelLine)
    ensures
        match help_line_kind(line@) {
            (true, _) => r == PanelLine::Heading,
            (false, Some(i)) => r matches PanelLine::KeyAndText(k, t) && k@ == line@.take(i) && t@ == line@.skip(i),
            (false, None) => r == PanelLine::Plain,
        },
{
    let cs = str_chars(line);
    let bar = str_chars("━━━");
    if starts_with_seq(cs.as_slice(), bar.as_slice()) {
        return PanelLine::Heading;
    }
    let prefixes: [&str; 13] = [
        "  /", "  Ctrl", "  Tab", "  Up", "  PgUp", "  Enter", "  Esc", "  SEM", "  REG", "  HYB", "  Heatmap", "  Syntax",
        "  Chunks",
    ];
    let ghost want = key_line_prefixes();
    assert(prefixes@.map_values(|p: &str| p@) =~= want);
    let mut key_line = false;
    let mut i: usize = 0;
    while i < 13
        invariant
            i <= 13,
            prefixes@.map_values(|p: &str| p@) == want,
            want == key_line_prefixes(),
            cs@ == line@,
            key_line == (exists|k: int| 0 <= k < i && has_prefix(line@, #[trigger] want[k])),
        decreases 13 - i,
    {
        let pc = str_chars(prefixes[i]);
        assert(pc@ == want[i as int]);
        if starts_with_seq(cs.as_slice(), pc.as_slice()) {
            key_line = true;
        }
        i += 1;
    }
    if !key_line {
        return PanelLine::Plain;
    }
    let dash = str_chars(" - ");
    match find_seq(&cs, &dash) {
        Some(at) => {
            let mut key: Vec<char> = Vec::new();
            let mut text: Vec<char> = Vec::new();
            let mut k: usize = 0;
            while k < cs.len()
                invariant
                    k <= cs@.len(),
                    at <= cs@.len(),
                    k <= at ==> key@ == cs@.take(k as int) && text@.len() == 0,
                    k > at ==> key@ == cs@.take(at as int) && text@ == cs@.subrange(at as int, k as int),
                decreases cs@.len() - k,
            {
                if k < at {
                    key.push(cs[k]);
                    assert(cs@.take(k + 1) =~= cs@.take(k as int).push(cs@[k as int]));
                } else {
                    text.push(cs[k]);
                    assert(cs@.subrange(at as int, k + 1) =~= cs@.subrange(at as int, k as int).push(cs@[k as int]));
                    if k == at {
                        assert(text@ =~= cs@.subrange(at as int, k + 1));
                    }
                }
                k += 1;
            }
            proof {
                if at == cs@.len() {
                    assert(text@ =~= cs@.skip(at as int));
                } else {
                    assert(cs@.subrange(at as int, cs@.len() as int) =~= cs@.skip(at as int));
                }
            }
            PanelLine::KeyAndText(string_from_chars(key.as_slice()), string_from_chars(text.as_slice()))
        },
        None => PanelLine::Plain,
    }
}

// ---------------------------------------------------------------------------
// The preview pane.

/// How the preview pane colours the lines of a result.
#[derive(Debug, Clone, Copy, PartialEq, Eq, Structural)]
pub enum PreviewStyle {
    /// Similarity to the query.
    Heatmap,
    /// Syntax highlighting.
    Syntax,
    /// Chunk boundaries.
    Chunks,
}

/// The style after `m`: heatmap, syntax, chunks, and round again.
pub open spec fn next_style(m: PreviewStyle) -> PreviewStyle {
    match m {
        PreviewStyle::Heatmap => PreviewStyle::Syntax,
        PreviewStyle::Syntax => PreviewStyle::Chunks,
        PreviewStyle::Chunks => PreviewStyle::Heatmap,
    }
}

/// The style after `m`, with the status line announcing it.
pub fn cycle_preview_style(m: PreviewStyle) -> (r: (PreviewStyle, &'static str))
    ensures
        r.0 == next_style(m),
        r.1@ == (match r.0 {
            PreviewStyle::Heatmap => "Preview: Heatmap"@,
            PreviewStyle::Syntax => "Preview: Syntax"@,
            PreviewStyle::Chunks => "Preview: Chunks"@,
        }),
{
    match m {
        PreviewStyle::Heatmap => (PreviewStyle::Syntax, "Preview: Syntax"),
        PreviewStyle::Syntax => (PreviewStyle::Chunks, "Preview: Chunks"),
        PreviewStyle::Chunks => (PreviewStyle::Heatmap, "Preview: Heatmap"),
    }
}

/// The view after switching between the snippet and the whole file, with
/// the status line announcing it; the scroll position starts again at the
/// top.
pub fn toggle_full_file(full_file_mode: bool) -> (r: (bool, usize, &'static str))
    ensures
        r.0 == !full_file_mode,
        r.1 == 0,
        r.2@ == (if r.0 { "View: Full File"@ } else { "View: Snippet"@ }),
{
    if full_file_mode {
        (false, 0, "View: Snippet")
    } else {
        (true, 0, "View: Full File")
    }
}

/// The lines (0-based, end excluded) the preview shows of a file of
/// `total` lines for a result on line `line` (1-based): the whole-file view
/// shows forty lines from the scroll position, the snippet five lines
/// before the match to ten after, and the snippet in chunk style the
/// innermost chunk holding the match instead; at least one line. None when
/// no valid range remains.
pub open spec fn preview_bounds(
    spans: Seq<IndexedChunkMeta>,
    line: int,
    total: int,
    full_file_mode: bool,
    scroll_offset: int,
    chunk_style: bool,
) -> Option<(int, int)> {
    let start_line = min_int(sat_sub(line, 1), total - 1);
    let cs0 = if full_file_mode { min_int(scroll_offset, total - 1) } else { sat_sub(start_line, 5) };
    let ce0 = if full_file_mode { min_int(cs0 + 40, total) } else { min_int(start_line + 10, total) };
    let (cs, ce1) = match focus_chunk(spans, line, spans.len() as int) {
        Some(i) => if chunk_style && !full_file_mode {
            (min_int(sat_sub(spans[i].span.line_start as int, 1), total - 1), min_int(spans[i].span.line_end as int, total))
        } else {
            (cs0, ce0)
        },
        None => (cs0, ce0),
    };
    let ce = if ce1 <= cs { min_int(cs + 1, total) } else { ce1 };
    if cs >= ce || ce > total { None } else { Some((cs, ce)) }
}

/// The lines the preview shows; see `preview_bounds`.
pub fn preview_window(
    spans: &[IndexedChunkMeta],
    line: usize,
    total: usize,
    full_file_mode: bool,
    scroll_offset: usize,
    chunk_style: bool,
) -> (r: Option<(usize, usize)>)
    requires
        total >= 1,
        total + 40 <= usize::MAX,
    ensures
        match r {
            Some((a, b)) => preview_bounds(spans@, line as int, total as int, full_file_mode, scroll_offset as int, chunk_style)
                == Some((a as int, b as int)),
            None => preview_bounds(spans@, line as int, total as int, full_file_mode, scroll_offset as int, chunk_style) is None,
        },
{
    let sl = if line >= 1 { line - 1 } else { 0 };
    let start_line = if sl <= total - 1 { sl } else { total - 1 };
    let mut cs: usize = if full_file_mode {
        if scroll_offset <= total - 1 { scroll_offset } else { total - 1 }
    } else {
        if start_line >= 5 { start_line - 5 } else { 0 }
    };
    let mut ce: usize = if full_file_mode {
        if cs + 40 <= total { cs + 40 } else { total }
    } else {
        if start_line + 10 <= total { start_line + 10 } else { total }
    };
    let pick = innermost_chunk(spans, line);
    if chunk_style && !full_file_mode {
        match pick {
            Some(j) => {
                let m = &spans[j];
                let a = if m.span.line_start >= 1 { m.span.line_start - 1 } else { 0 };
                cs = if a <= total - 1 { a } else { total - 1 };
                ce = if m.span.line_end <= total { m.span.line_end } else { total };
            },
            None => {},
        }
    }
    if ce <= cs {
        ce = if cs + 1 <= total { cs + 1 } else { total };
    }
    if cs >= ce || ce > total {
        None
    } else {
        Some((cs, ce))
    }
}

// ---------------------------------------------------------------------------
// Saved screen settings.

/// The name a search mode is saved under.
pub open spec fn mode_name_text(m: SearchMode) -> Seq<char> {
    match m {
        SearchMode::Semantic => "semantic"@,
        SearchMode::Regex => "regex"@,
        SearchMode::Hybrid => "hybrid"@,
        SearchMode::Lexical => "lexical"@,
    }
}

/// The name a search mode is saved under; see `mode_name_text`.
pub fn search_mode_name(m: SearchMode) -> (r: &'static str)
    ensures
        r@ == mode_name_text(m),
{
    match m {
        SearchMode::Semantic => "semantic",
        SearchMode::Regex => "regex",
        SearchMode::Hybrid => "hybrid",
        SearchMode::Lexical => "lexical",
    }
}

/// The search mode a saved name stands for; an unknown name gives the
/// semantic mode.
pub open spec fn mode_of_name(s: Seq<char>) -> SearchMode {
    if s == "semantic"@ {
        SearchMode::Semantic
    } else if s == "regex"@ {
        SearchMode::Regex
    } else if s == "hybrid"@ {
        SearchMode::Hybrid
    } else if s == "lexical"@ {
        SearchMode::Lexical
    } else {
        SearchMode::Semantic
    }
}

/// The search mode a saved name stands for; see `mode_of_name`.
pub fn search_mode_from_name(s: &str) -> (r: SearchMode)
    ensures
        r == mode_of_name(s@),
{
    if str_eq(s, "semantic") {
        SearchMode::Semantic
    } else if str_eq(s, "regex") {
        SearchMode::Regex
    } else if str_eq(s, "hybrid") {
        SearchMode::Hybrid
    } else if str_eq(s, "lexical") {
        SearchMode::Lexical
    } else {
        SearchMode::Semantic
    }
}

/// The screen settings that are saved between runs.
#[derive(Debug, Clone, Copy, PartialEq, Eq, Structural)]
pub struct TuiSettings {
    pub search_mode: SearchMode,
    pub preview_style: PreviewStyle,
    pub full_file_mode: bool,
}

impl TuiSettings {
    /// The settings of a first run: semantic search, heatmap preview, the
    /// whole file shown.
    pub fn default() -> (r: TuiSettings)
        ensures
            r == (TuiSettings { search_mode: SearchMode::Semantic, preview_style: PreviewStyle::Heatmap, full_file_mode: true }),
    {
        TuiSettings { search_mode: SearchMode::Semantic, preview_style: PreviewStyle::Heatmap, full_file_mode: true }
    }
}

// ---------------------------------------------------------------------------
// Background work.

/// The status line when a search starts, and the indexing note shown with
/// it: a search other than regex on a directory whose index cannot be read
/// first prepares the index.
pub fn search_start_status(mode: SearchMode, index_readable: bool) -> (r: (&'static str, Option<&'static str>))
    ensures
        (mode != SearchMode::Regex && !index_readable) ==> (r.0@ == "Preparing index..."@
            && (r.1 matches Some(m) && m@ == "Indexing repository for semantic search..."@)),
        !(mode != SearchMode::Regex && !index_readable) ==> r.0@ == "Searching..."@ && r.1 is None,
{
    match mode {
        SearchMode::Regex => ("Searching...", None),
        _ => if !index_readable {
            ("Preparing index...", Some("Indexing repository for semantic search..."))
        } else {
            ("Searching...", None)
        },
    }
}

/// The status line when a search is done: how many results, and how many
/// milliseconds it took.
pub open spec fn search_summary_text(count: nat, elapsed_ms: nat) -> Seq<char> {
    if count == 0 {
        "No results ("@ + decimal(elapsed_ms) + " ms)"@
    } else {
        "Found "@ + decimal(count) + " results ("@ + decimal(elapsed_ms) + " ms)"@
    }
}

/// The status line when a search is done; see `search_summary_text`.
pub fn search_summary(count: usize, elapsed_ms: u128) -> (r: String)
    ensures
        r@ == search_summary_text(count as nat, elapsed_ms as nat),
{
    let mut out: Vec<char> = Vec::new();
    if count == 0 {
        push_str_chars(&mut out, "No results (");
    } else {
        push_str_chars(&mut out, "Found ");
        push_decimal(&mut out, count);
        push_str_chars(&mut out, " results (");
    }
    push_u128_decimal(&mut out, elapsed_ms);
    push_str_chars(&mut out, " ms)");
    assert(out@ =~= search_summary_text(count as nat, elapsed_ms as nat));
    string_from_chars(out.as_slice())
}

/// The indexing note while a search embeds files: the file, its place
/// among the files and the chunk's place among its chunks, each counted
/// from one, with at least one file and one chunk.
pub open spec fn indexing_note_text(file: Seq<char>, file_index: nat, total_files: nat, chunk_index: nat, total_chunks: nat) -> Seq<char> {
    let files = if total_files >= 1 { total_files } else { 1 };
    let chunks = if total_chunks >= 1 { total_chunks } else { 1 };
    file + " • "@ + decimal(file_index + 1) + "/"@ + decimal(files) + " files • "@ + decimal(chunk_index + 1) + "/"@
        + decimal(chunks) + " chunks"@
}

/// The indexing note; see `indexing_note_text`.
pub fn indexing_note(file: &str, file_index: usize, total_files: usize, chunk_index: usize, total_chunks: usize) -> (r: String)
    requires
        file_index < usize::MAX,
        chunk_index < usize::MAX,
    ensures
        r@ == indexing_note_text(file@, file_index as nat, total_files as nat, chunk_index as nat, total_chunks as nat),
{
    let files = if total_files >= 1 { total_files } else { 1 };
    let chunks = if total_chunks >= 1 { total_chunks } else { 1 };
    let mut out: Vec<char> = Vec::new();
    push_str_chars(&mut out, file);
    push_str_chars(&mut out, " • ");
    push_decimal(&mut out, file_index + 1);
    push_str_chars(&mut out, "/");
    push_decimal(&mut out, files);
    push_str_chars(&mut out, " files • ");
    push_decimal(&mut out, chunk_index + 1);
    push_str_chars(&mut out, "/");
    push_decimal(&mut out, chunks);
    push_str_chars(&mut out, " chunks");
    assert(out@ =~= indexing_note_text(file@, file_index as nat, total_files as nat, chunk_index as nat, total_chunks as nat));
    string_from_chars(out.as_slice())
}

/// What a background search or indexing task reports.
#[derive(Debug, Clone, Copy, PartialEq, Eq, Structural)]
pub enum ProgressKind {
    Indexing,
    IndexingDone,
    SearchProgress,
    SearchCompleted,
    SearchFailed,
}

/// Whether a report is acted on: only one from the current search
/// generation, and a search progress report only while a search runs.
pub fn progress_applies(kind: ProgressKind, generation: u64, current_generation: u64, search_in_progress: bool) -> (r: bool)
    ensures
        r == (generation == current_generation && (kind != ProgressKind::SearchProgress || search_in_progress)),
{
    if generation != current_generation {
        return false;
    }
    match kind {
        ProgressKind::SearchProgress => search_in_progress,
        _ => true,
    }
}

} // verus!
