# semcs

The verified core of a semantic and lexical code search tool, written in
Verus. Every function in `src/` is proved against its contract, except the
few small wrappers around outside crates (tree-sitter, glob, globset, regex,
console, shlex, blake3) and a few functions of std, whose contracts are
trusted.

Layout:

- `src/text.rs` — characters, UTF-8 lengths, lines, trimming, decimal notation.
- `src/types.rs` — languages, spans, search modes, default exclude patterns.
- `src/embed.rs` — token estimation and splitting text for embedding requests.
- `src/syntax.rs` — which grammar parses each language, and the tree-sitter
  parse and grammar constants behind trusted wrappers.
- `src/chunk.rs` — cutting files into chunks (by syntax tree or by lines) and
  striding chunks that exceed the token budget.
- `src/chunk_view.rs` — the chunk view: bracket columns per nesting depth,
  headers, the chunk dump, nesting depths.
- `src/paths.rs` — paths as names: sidecar locations and their inverse.
- `src/path_utils.rs` — expanding path arguments with `glob`, excluding with
  `globset`.
- `src/search.rs` — context previews, code sections, span contents, file
  summaries.
- `src/regex_match.rs` — the `regex` interface and the pattern a query gives.
- `src/regex_search.rs` — grep-like search of file contents: spans, lines and
  previews of each match.
- `src/highlight.rs` — marking matches in output lines.
- `src/index_update.rs` — per-file decisions of an incremental index update,
  content hashes, and what a cleanup removes.
- `src/cli_plan.rs` — which command the switches select, search settings,
  and the text of model, progress and result lines.
- `src/tui_logic.rs` — the interactive screen's decisions: slash commands,
  history, selection, editor invocation, preview window, panels.
- `src/user_config.rs` — user settings read and changed by key.
- `src/stats_cache.rs` — index statistics per directory with a time to live.
- `src/navigation.rs` — moving through results, history and the preview.
- `src/heatmap.rs`, `src/ast.rs`, `src/models.rs`, `src/mcp.rs` — heatmap
  tokens and colours, structural query detection, the model registry, error
  codes.
- `src/laws.rs` — properties across operations, proved.
- `app/main.rs` — a command-line front end: file and directory access,
  printing, floating-point similarity scores and thresholds, JSON and TOML
  files.
