//! What a command-line run does: which command the switches select, the
//! search settings they imply, and the text shown about models, progress
//! and results.
use vstd::prelude::*;

use crate::path_utils::{add_if_new, push_if_new};
use crate::text::{clone_string, decimal, push_decimal, push_str_chars, str_chars, str_eq, string_from_chars, string_views};
use crate::types::SearchMode;

verus! {

/// The switches and arguments of a run that choose its command.
pub struct CliFlags {
    pub switch_model: Option<String>,
    pub index: bool,
    pub clean: bool,
    pub clean_orphans: bool,
    pub add: bool,
    pub status: bool,
    pub status_verbose: bool,
    pub inspect: bool,
    pub files_with_matches: bool,
    pub files_without_matches: bool,
    pub pattern: Option<String>,
    pub files: Vec<String>,
}

/// A command a run carries out.
#[derive(Debug, PartialEq, Eq)]
pub enum CliCommand {
    SwitchModel { path: String, model: String },
    Index { path: String },
    Clean { path: String, orphans_only: bool },
    Add { file: String },
    Status { path: String, verbose: bool },
    Inspect { file: String },
    Search { pattern: String },
}

/// Why the switches select no command.
#[derive(Debug, Clone, Copy, PartialEq, Eq, Structural)]
pub enum CliError {
    /// `--add` without a file.
    AddWithoutFile,
    /// `--inspect` without a file.
    InspectWithoutFile,
    /// `-l` and `-L` together.
    ListFlagsConflict,
    /// A search without a pattern.
    NoPattern,
}

/// A command, its texts taken as character sequences.
pub enum CommandSpec {
    SwitchModel { path: Seq<char>, model: Seq<char> },
    Index { path: Seq<char> },
    Clean { path: Seq<char>, orphans_only: bool },
    Add { file: Seq<char> },
    Status { path: Seq<char>, verbose: bool },
    Inspect { file: Seq<char> },
    Search { pattern: Seq<char> },
}

impl View for CliCommand {
    type V = CommandSpec;

    open spec fn view(&self) -> CommandSpec {
        match self {
            CliCommand::SwitchModel { path, model } => CommandSpec::SwitchModel { path: path@, model: model@ },
            CliCommand::Index { path } => CommandSpec::Index { path: path@ },
            CliCommand::Clean { path, orphans_only } => CommandSpec::Clean { path: path@, orphans_only: *orphans_only },
            CliCommand::Add { file } => CommandSpec::Add { file: file@ },
            CliCommand::Status { path, verbose } => CommandSpec::Status { path: path@, verbose: *verbose },
            CliCommand::Inspect { file } => CommandSpec::Inspect { file: file@ },
            CliCommand::Search { pattern } => CommandSpec::Search { pattern: pattern@ },
        }
    }
}

/// The path a command works on: the first file given, else `.`.
pub open spec fn target_path(files: Seq<Seq<char>>) -> Seq<char> {
    if files.len() > 0 { files[0] } else { "."@ }
}

/// The file `--add` takes: the pattern argument when no files follow it,
/// else the first file.
pub open spec fn add_target(pattern: Option<Seq<char>>, files: Seq<Seq<char>>) -> Option<Seq<char>> {
    match pattern {
        Some(p) if files.len() == 0 => Some(p),
        _ => if files.len() > 0 { Some(files[0]) } else { None },
    }
}

/// The file `--inspect` takes: the pattern argument, else the first file.
pub open spec fn inspect_target(pattern: Option<Seq<char>>, files: Seq<Seq<char>>) -> Option<Seq<char>> {
    match pattern {
        Some(p) => Some(p),
        None => if files.len() > 0 { Some(files[0]) } else { None },
    }
}

/// An optional text as a character sequence.
pub open spec fn opt_text(o: Option<String>) -> Option<Seq<char>> {
    match o {
        Some(s) => Some(s@),
        None => None,
    }
}

/// The command the switches select. Model switching comes first, then
/// indexing, cleaning, adding a file, status and inspection; then `-l` with
/// `-L` is refused, and otherwise the pattern is searched for.
pub open spec fn planned(f: CliFlags) -> Result<CommandSpec, CliError> {
    let files = string_views(f.files@);
    let pattern = opt_text(f.pattern);
    if f.switch_model is Some {
        Ok(CommandSpec::SwitchModel { path: target_path(files), model: f.switch_model->0@ })
    } else if f.index {
        Ok(CommandSpec::Index { path: target_path(files) })
    } else if f.clean || f.clean_orphans {
        Ok(CommandSpec::Clean { path: target_path(files), orphans_only: f.clean_orphans })
    } else if f.add {
        match add_target(pattern, files) {
            Some(file) => Ok(CommandSpec::Add { file }),
            None => Err(CliError::AddWithoutFile),
        }
    } else if f.status || f.status_verbose {
        Ok(CommandSpec::Status { path: target_path(files), verbose: f.status_verbose })
    } else if f.inspect {
        match inspect_target(pattern, files) {
            Some(file) => Ok(CommandSpec::Inspect { file }),
            None => Err(CliError::InspectWithoutFile),
        }
    } else if f.files_with_matches && f.files_without_matches {
        Err(CliError::ListFlagsConflict)
    } else {
        match pattern {
            Some(p) => Ok(CommandSpec::Search { pattern: p }),
            None => Err(CliError::NoPattern),
        }
    }
}

/// The first file given, else `.`.
fn first_path(files: &Vec<String>) -> (r: String)
    ensures
        r@ == target_path(string_views(files@)),
{
    if files.len() > 0 {
        clone_string(&files[0])
    } else {
        ".".to_owned()
    }
}

/// The command the switches select, or why there is none; see `planned`.
pub fn plan_command(flags: &CliFlags) -> (r: Result<CliCommand, CliError>)
    ensures
        match r {
            Ok(c) => planned(*flags) == Ok::<CommandSpec, CliError>(c@),
            Err(e) => planned(*flags) == Err::<CommandSpec, CliError>(e),
        },
{
    let ghost files = string_views(flags.files@);
    if let Some(model) = &flags.switch_model {
        return Ok(CliCommand::SwitchModel { path: first_path(&flags.files), model: clone_string(model) });
    }
    if flags.index {
        return Ok(CliCommand::Index { path: first_path(&flags.files) });
    }
    if flags.clean || flags.clean_orphans {
        return Ok(CliCommand::Clean { path: first_path(&flags.files), orphans_only: flags.clean_orphans });
    }
    if flags.add {
        let file = match &flags.pattern {
            Some(p) => if flags.files.len() == 0 {
                Some(clone_string(p))
            } else {
                Some(clone_string(&flags.files[0]))
            },
            None => if flags.files.len() > 0 {
                Some(clone_string(&flags.files[0]))
            } else {
                None
            },
        };
        return match file {
            Some(file) => Ok(CliCommand::Add { file }),
            None => Err(CliError::AddWithoutFile),
        };
    }
    if flags.status || flags.status_verbose {
        return Ok(CliCommand::Status { path: first_path(&flags.files), verbose: flags.status_verbose });
    }
    if flags.inspect {
        return match &flags.pattern {
            Some(p) => Ok(CliCommand::Inspect { file: clone_string(p) }),
            None => if flags.files.len() > 0 {
                Ok(CliCommand::Inspect { file: clone_string(&flags.files[0]) })
            } else {
                Err(CliError::InspectWithoutFile)
            },
        };
    }
    if flags.files_with_matches && flags.files_without_matches {
        return Err(CliError::ListFlagsConflict);
    }
    match &flags.pattern {
        Some(p) => Ok(CliCommand::Search { pattern: clone_string(p) }),
        None => Err(CliError::NoPattern),
    }
}

/// The search mode the switches pick: semantic, lexical or hybrid when
/// asked for (in that order of precedence), regex otherwise.
pub fn search_mode_from_flags(semantic: bool, lexical: bool, hybrid: bool) -> (r: SearchMode)
    ensures
        r == (if semantic {
            SearchMode::Semantic
        } else if lexical {
            SearchMode::Lexical
        } else if hybrid {
            SearchMode::Hybrid
        } else {
            SearchMode::Regex
        }),
{
    if semantic {
        SearchMode::Semantic
    } else if lexical {
        SearchMode::Lexical
    } else if hybrid {
        SearchMode::Hybrid
    } else {
        SearchMode::Regex
    }
}

/// Lines of context around a match: `-C` (default none), and `-B` and `-A`
/// each defaulting to it. Returns (context, before, after).
pub fn context_lines(context: Option<usize>, before: Option<usize>, after: Option<usize>) -> (r: (usize, usize, usize))
    ensures
        r.0 == (match context { Some(c) => c, None => 0 }),
        r.1 == (match before { Some(b) => b, None => r.0 }),
        r.2 == (match after { Some(a) => a, None => r.0 }),
{
    let c = match context {
        Some(c) => c,
        None => 0,
    };
    let b = match before {
        Some(b) => b,
        None => c,
    };
    let a = match after {
        Some(a) => a,
        None => c,
    };
    (c, b, a)
}

/// The number of results asked for: the one given, else ten for a
/// semantic search and no limit for the others.
pub fn default_top_k(mode: SearchMode, top_k: Option<usize>) -> (r: Option<usize>)
    ensures
        r == (match top_k {
            Some(k) => Some(k),
            None => if mode == SearchMode::Semantic { Some(10usize) } else { None },
        }),
{
    match top_k {
        Some(k) => Some(k),
        None => match mode {
            SearchMode::Semantic => Some(10),
            _ => None,
        },
    }
}

/// Whether results name their file, as grep does: when there are several
/// files or a directory, unless `-h` says never; `-H` says always.
pub fn show_filenames(file_count: usize, any_directory: bool, no_filenames: bool, with_filenames: bool) -> (r: bool)
    ensures
        r == (with_filenames || (!no_filenames && (file_count > 1 || any_directory))),
{
    let mut show = file_count > 1 || any_directory;
    if no_filenames {
        show = false;
    }
    if with_filenames {
        show = true;
    }
    show
}

/// How a model is described: its name and dimensions, and the alias it
/// was chosen by when that differs from the name.
pub open spec fn model_description_text(alias: Seq<char>, name: Seq<char>, dims: nat) -> Seq<char> {
    if alias == name {
        name + " ("@ + decimal(dims) + " dims)"@
    } else {
        name + " (alias '"@ + alias + "', "@ + decimal(dims) + " dims)"@
    }
}

/// The description of a model; see `model_description_text`.
pub fn model_description(alias: &str, name: &str, dims: usize) -> (r: String)
    ensures
        r@ == model_description_text(alias@, name@, dims as nat),
{
    let mut out: Vec<char> = Vec::new();
    push_str_chars(&mut out, name);
    if str_eq(alias, name) {
        push_str_chars(&mut out, " (");
        push_decimal(&mut out, dims);
        push_str_chars(&mut out, " dims)");
        assert(out@ =~= name@ + " ("@ + decimal(dims as nat) + " dims)"@);
    } else {
        push_str_chars(&mut out, " (alias '");
        push_str_chars(&mut out, alias);
        push_str_chars(&mut out, "', ");
        push_decimal(&mut out, dims);
        push_str_chars(&mut out, " dims)");
        assert(out@ =~= name@ + " (alias '"@ + alias@ + "', "@ + decimal(dims as nat) + " dims)"@);
    }
    string_from_chars(out.as_slice())
}

/// The part of a file name after its last `/` (all of it when it has none).
pub open spec fn after_last_slash(s: Seq<char>) -> Seq<char>
    decreases s.len(),
{
    if s.len() == 0 {
        s
    } else if s.last() == '/' {
        seq![]
    } else {
        after_last_slash(s.drop_last()).push(s.last())
    }
}

/// The short form of a file name shown in progress messages; see
/// `after_last_slash`.
pub fn short_file_name(file_name: &str) -> (r: String)
    ensures
        r@ == after_last_slash(file_name@),
{
    let chars = str_chars(file_name);
    let mut cur: Vec<char> = Vec::new();
    let mut i: usize = 0;
    while i < chars.len()
        invariant
            i <= chars@.len(),
            chars@ == file_name@,
            cur@ == after_last_slash(chars@.take(i as int)),
        decreases chars@.len() - i,
    {
        let c = chars[i];
        assert(chars@.take(i + 1).drop_last() =~= chars@.take(i as int));
        if c == '/' {
            cur = Vec::new();
            assert(cur@ =~= after_last_slash(chars@.take(i + 1)));
        } else {
            cur.push(c);
        }
        i += 1;
    }
    assert(chars@.take(chars@.len() as int) =~= chars@);
    string_from_chars(cur.as_slice())
}

/// The progress line for a chunk being embedded: the short file name, the
/// chunk's place counted from one, the number of chunks and its size.
pub open spec fn chunk_progress_text(file_name: Seq<char>, chunk_index: nat, total_chunks: nat, chunk_size: nat) -> Seq<char> {
    after_last_slash(file_name) + " (chunk "@ + decimal(chunk_index + 1) + "/"@ + decimal(total_chunks) + ", "@
        + decimal(chunk_size) + "B)"@
}

/// The progress line for a chunk; see `chunk_progress_text`.
pub fn chunk_progress_message(file_name: &str, chunk_index: usize, total_chunks: usize, chunk_size: usize) -> (r: String)
    requires
        chunk_index < usize::MAX,
    ensures
        r@ == chunk_progress_text(file_name@, chunk_index as nat, total_chunks as nat, chunk_size as nat),
{
    let short = short_file_name(file_name);
    let mut out: Vec<char> = Vec::new();
    push_str_chars(&mut out, short.as_str());
    push_str_chars(&mut out, " (chunk ");
    push_decimal(&mut out, chunk_index + 1);
    push_str_chars(&mut out, "/");
    push_decimal(&mut out, total_chunks);
    push_str_chars(&mut out, ", ");
    push_decimal(&mut out, chunk_size);
    push_str_chars(&mut out, "B)");
    assert(out@ =~= chunk_progress_text(file_name@, chunk_index as nat, total_chunks as nat, chunk_size as nat));
    string_from_chars(out.as_slice())
}

/// A result line: the score text, then the file heading and the line
/// number followed by `:` as the switches ask, then the preview.
pub open spec fn result_line_text(
    score: Seq<char>,
    file: Seq<char>,
    line: Seq<char>,
    preview: Seq<char>,
    line_numbers: bool,
    show_filenames: bool,
) -> Seq<char> {
    if line_numbers && show_filenames {
        score + file + line + ":"@ + preview
    } else if line_numbers {
        score + line + ":"@ + preview
    } else {
        score + file + preview
    }
}

/// Puts a result line together; see `result_line_text`.
pub fn compose_result_line(score: &str, file: &str, line: &str, preview: &str, line_numbers: bool, show_filenames: bool) -> (r: String)
    ensures
        r@ == result_line_text(score@, file@, line@, preview@, line_numbers, show_filenames),
{
    let mut out: Vec<char> = Vec::new();
    push_str_chars(&mut out, score);
    if line_numbers && show_filenames {
        push_str_chars(&mut out, file);
        push_str_chars(&mut out, line);
        push_str_chars(&mut out, ":");
        push_str_chars(&mut out, preview);
        assert(out@ =~= score@ + file@ + line@ + ":"@ + preview@);
    } else if line_numbers {
        push_str_chars(&mut out, line);
        push_str_chars(&mut out, ":");
        push_str_chars(&mut out, preview);
        assert(out@ =~= score@ + line@ + ":"@ + preview@);
    } else {
        push_str_chars(&mut out, file);
        push_str_chars(&mut out, preview);
        assert(out@ =~= score@ + file@ + preview@);
    }
    string_from_chars(out.as_slice())
}

/// The files listed by `-l`, each once, in the order their first result
/// comes.
pub open spec fn listed_files(files: Seq<Seq<char>>) -> Seq<Seq<char>>
    decreases files.len(),
{
    if files.len() == 0 {
        seq![]
    } else {
        add_if_new(listed_files(files.drop_last()), files.last())
    }
}

/// The files with matches, for `-l`; see `listed_files`.
pub fn files_with_matches(result_files: &Vec<String>) -> (r: Vec<String>)
    ensures
        string_views(r@) == listed_files(string_views(result_files@)),
{
    let mut out: Vec<String> = Vec::new();
    let mut i: usize = 0;
    while i < result_files.len()
        invariant
            i <= result_files@.len(),
            string_views(out@) == listed_files(string_views(result_files@).take(i as int)),
        decreases result_files@.len() - i,
    {
        assert(string_views(result_files@).take(i + 1).drop_last() =~= string_views(result_files@).take(i as int));
        push_if_new(&mut out, clone_string(&result_files[i]));
        i += 1;
    }
    assert(string_views(result_files@).take(result_files@.len() as int) =~= string_views(result_files@));
    out
}

} // verus!
