//! Recognising structural (ast-grep) queries and naming their languages.
use vstd::prelude::*;

use crate::text::{has_infix, str_eq};

verus! {

/// Whether `p` occurs in `s`.
fn str_contains(s: &str, p: &str) -> (r: bool)
    ensures
        r == has_infix(s@, p@),
{
    let a = crate::text::str_chars(s);
    let b = crate::text::str_chars(p);
    crate::text::contains_seq(a.as_slice(), b.as_slice())
}

/// A query that looks like an AST pattern: a metavariable `$`, or a
/// definition keyword followed by a space.
pub open spec fn looks_like_ast_pattern(q: Seq<char>) -> bool {
    has_infix(q, "$"@) || has_infix(q, "function "@) || has_infix(q, "class "@) || has_infix(
        q,
        "impl "@,
    ) || has_infix(q, "struct "@)
}

/// Whether a query looks like an AST pattern (metavariables such as `$VAR`,
/// or a definition keyword).
pub fn is_ast_pattern(query: &str) -> (r: bool)
    ensures
        r == looks_like_ast_pattern(query@),
{
    str_contains(query, "$") || str_contains(query, "function ") || str_contains(query, "class ")
        || str_contains(query, "impl ") || str_contains(query, "struct ")
}

/// `str::to_lowercase` of `s`: each character mapped to its Unicode lower
/// case.
pub uninterp spec fn lowercase(s: Seq<char>) -> Seq<char>;

/// Calls `str::to_lowercase`. Claimed: the result is `lowercase(s)`, a
/// function of `s` alone.
#[verifier::external_body]
fn to_lowercase(s: &str) -> (r: String)
    ensures
        r@ == lowercase(s@),
{
    s.to_lowercase()
}

/// The ast-grep name for a lower-cased language name, or `lang` unchanged.
pub open spec fn astgrep_name(lower: Seq<char>, lang: Seq<char>) -> Seq<char> {
    if lower == "rust"@ || lower == "rs"@ {
        "rust"@
    } else if lower == "python"@ || lower == "py"@ {
        "python"@
    } else if lower == "javascript"@ || lower == "js"@ {
        "javascript"@
    } else if lower == "typescript"@ || lower == "ts"@ {
        "typescript"@
    } else if lower == "tsx"@ {
        "tsx"@
    } else if lower == "go"@ {
        "go"@
    } else if lower == "java"@ {
        "java"@
    } else if lower == "c"@ {
        "c"@
    } else if lower == "cpp"@ || lower == "c++"@ {
        "cpp"@
    } else if lower == "csharp"@ || lower == "c#"@ || lower == "cs"@ {
        "csharp"@
    } else if lower == "ruby"@ || lower == "rb"@ {
        "ruby"@
    } else if lower == "kotlin"@ || lower == "kt"@ {
        "kotlin"@
    } else if lower == "swift"@ {
        "swift"@
    } else if lower == "html"@ {
        "html"@
    } else if lower == "css"@ {
        "css"@
    } else if lower == "yaml"@ || lower == "yml"@ {
        "yaml"@
    } else {
        lang
    }
}

/// The ast-grep language for an already lower-cased name; unknown names
/// give `lang` back.
pub fn astgrep_language_for<'a>(lower: &str, lang: &'a str) -> (r: &'a str)
    ensures
        r@ == astgrep_name(lower@, lang@),
{
    if str_eq(lower, "rust") || str_eq(lower, "rs") {
        "rust"
    } else if str_eq(lower, "python") || str_eq(lower, "py") {
        "python"
    } else if str_eq(lower, "javascript") || str_eq(lower, "js") {
        "javascript"
    } else if str_eq(lower, "typescript") || str_eq(lower, "ts") {
        "typescript"
    } else if str_eq(lower, "tsx") {
        "tsx"
    } else if str_eq(lower, "go") {
        "go"
    } else if str_eq(lower, "java") {
        "java"
    } else if str_eq(lower, "c") {
        "c"
    } else if str_eq(lower, "cpp") || str_eq(lower, "c++") {
        "cpp"
    } else if str_eq(lower, "csharp") || str_eq(lower, "c#") || str_eq(lower, "cs") {
        "csharp"
    } else if str_eq(lower, "ruby") || str_eq(lower, "rb") {
        "ruby"
    } else if str_eq(lower, "kotlin") || str_eq(lower, "kt") {
        "kotlin"
    } else if str_eq(lower, "swift") {
        "swift"
    } else if str_eq(lower, "html") {
        "html"
    } else if str_eq(lower, "css") {
        "css"
    } else if str_eq(lower, "yaml") || str_eq(lower, "yml") {
        "yaml"
    } else {
        lang
    }
}

/// Maps a language name, in any case, to the name ast-grep uses; unknown
/// names pass through unchanged.
pub fn map_language_to_astgrep(lang: &str) -> (r: &str)
    ensures
        r@ == astgrep_name(lowercase(lang@), lang@),
{
    let lower = to_lowercase(lang);
    astgrep_language_for(lower.as_str(), lang)
}

} // verus!
