//! Syntax trees from tree-sitter, flattened into plain nodes.
use vstd::prelude::*;
use vstd::utf8::encode_utf8;

use crate::chunk::ParseableLanguage;
use crate::text::utf8_len;

verus! {

/// A syntax node: its kind, byte range, rows (0-based) and text.
pub struct SyntaxNode {
    pub kind: String,
    pub start_byte: usize,
    pub end_byte: usize,
    pub start_row: usize,
    pub end_row: usize,
    pub text: String,
}

impl SyntaxNode {
    /// Kind, byte range and rows.
    pub open spec fn shape(&self) -> (Seq<char>, usize, usize, usize, usize) {
        (self.kind@, self.start_byte, self.end_byte, self.start_row, self.end_row)
    }
}

/// A tree-sitter grammar.
#[derive(Debug, Clone, Copy, PartialEq, Eq, Structural)]
pub enum Grammar {
    Python,
    TypeScript,
    Haskell,
    Rust,
    Ruby,
    Go,
    CSharp,
    Zig,
}

/// The grammar a language is parsed with: its own, but TypeScript's for
/// JavaScript.
pub open spec fn grammar_of(lang: ParseableLanguage) -> Grammar {
    match lang {
        ParseableLanguage::Python => Grammar::Python,
        ParseableLanguage::TypeScript => Grammar::TypeScript,
        ParseableLanguage::JavaScript => Grammar::TypeScript,
        ParseableLanguage::Haskell => Grammar::Haskell,
        ParseableLanguage::Rust => Grammar::Rust,
        ParseableLanguage::Ruby => Grammar::Ruby,
        ParseableLanguage::Go => Grammar::Go,
        ParseableLanguage::CSharp => Grammar::CSharp,
        ParseableLanguage::Zig => Grammar::Zig,
    }
}

/// The grammar a language is parsed with; see `grammar_of`.
pub fn grammar_for(lang: ParseableLanguage) -> (r: Grammar)
    ensures
        r == grammar_of(lang),
{
    match lang {
        ParseableLanguage::Python => Grammar::Python,
        ParseableLanguage::TypeScript => Grammar::TypeScript,
        ParseableLanguage::JavaScript => Grammar::TypeScript,
        ParseableLanguage::Haskell => Grammar::Haskell,
        ParseableLanguage::Rust => Grammar::Rust,
        ParseableLanguage::Ruby => Grammar::Ruby,
        ParseableLanguage::Go => Grammar::Go,
        ParseableLanguage::CSharp => Grammar::CSharp,
        ParseableLanguage::Zig => Grammar::Zig,
    }
}

#[verifier::external_type_specification]
#[verifier::external_body]
pub struct ExLanguageFn(tree_sitter_language::LanguageFn);

/// The grammar a tree-sitter grammar constant is.
pub uninterp spec fn grammar_tag(f: tree_sitter_language::LanguageFn) -> Grammar;

/// `tree_sitter_python::LANGUAGE`.
#[verifier::external_body]
fn python_grammar() -> (r: tree_sitter_language::LanguageFn)
    ensures
        grammar_tag(r) == Grammar::Python,
{
    tree_sitter_python::LANGUAGE
}

/// `tree_sitter_typescript::LANGUAGE_TYPESCRIPT`.
#[verifier::external_body]
fn typescript_grammar() -> (r: tree_sitter_language::LanguageFn)
    ensures
        grammar_tag(r) == Grammar::TypeScript,
{
    tree_sitter_typescript::LANGUAGE_TYPESCRIPT
}

/// `tree_sitter_haskell::LANGUAGE`.
#[verifier::external_body]
fn haskell_grammar() -> (r: tree_sitter_language::LanguageFn)
    ensures
        grammar_tag(r) == Grammar::Haskell,
{
    tree_sitter_haskell::LANGUAGE
}

/// `tree_sitter_rust::LANGUAGE`.
#[verifier::external_body]
fn rust_grammar() -> (r: tree_sitter_language::LanguageFn)
    ensures
        grammar_tag(r) == Grammar::Rust,
{
    tree_sitter_rust::LANGUAGE
}

/// `tree_sitter_ruby::LANGUAGE`.
#[verifier::external_body]
fn ruby_grammar() -> (r: tree_sitter_language::LanguageFn)
    ensures
        grammar_tag(r) == Grammar::Ruby,
{
    tree_sitter_ruby::LANGUAGE
}

/// `tree_sitter_go::LANGUAGE`.
#[verifier::external_body]
fn go_grammar() -> (r: tree_sitter_language::LanguageFn)
    ensures
        grammar_tag(r) == Grammar::Go,
{
    tree_sitter_go::LANGUAGE
}

/// `tree_sitter_c_sharp::LANGUAGE`.
#[verifier::external_body]
fn csharp_grammar() -> (r: tree_sitter_language::LanguageFn)
    ensures
        grammar_tag(r) == Grammar::CSharp,
{
    tree_sitter_c_sharp::LANGUAGE
}

/// `tree_sitter_zig::LANGUAGE`.
#[verifier::external_body]
fn zig_grammar() -> (r: tree_sitter_language::LanguageFn)
    ensures
        grammar_tag(r) == Grammar::Zig,
{
    tree_sitter_zig::LANGUAGE
}

/// The grammar constant of a grammar.
pub fn grammar_constant(g: Grammar) -> (r: tree_sitter_language::LanguageFn)
    ensures
        grammar_tag(r) == g,
{
    match g {
        Grammar::Python => python_grammar(),
        Grammar::TypeScript => typescript_grammar(),
        Grammar::Haskell => haskell_grammar(),
        Grammar::Rust => rust_grammar(),
        Grammar::Ruby => ruby_grammar(),
        Grammar::Go => go_grammar(),
        Grammar::CSharp => csharp_grammar(),
        Grammar::Zig => zig_grammar(),
    }
}

/// The nodes of the syntax tree that tree-sitter builds for `text` with
/// grammar `g`, in pre-order, each as (kind, start byte, end byte, start
/// row, end row); none when no tree is built.
pub uninterp spec fn syntax_nodes(text: Seq<char>, g: Grammar) -> Option<Seq<(Seq<char>, usize, usize, usize, usize)>>;

/// A node lies within `s` and holds the text of its byte range.
pub open spec fn node_in_text(s: Seq<char>, n: SyntaxNode) -> bool {
    &&& n.start_byte <= n.end_byte <= utf8_len(s)
    &&& encode_utf8(n.text@) == encode_utf8(s).subrange(n.start_byte as int, n.end_byte as int)
    &&& n.start_row <= n.start_byte
    &&& n.end_row <= n.end_byte
    &&& n.start_row <= n.end_row
}

/// Nodes listed in pre-order: each starts no earlier than the one before
/// it, and a later node either lies inside an earlier one (a node inside
/// it) or starts where that one ends or after.
pub open spec fn preordered(ns: Seq<(Seq<char>, usize, usize, usize, usize)>) -> bool {
    forall|i: int, j: int| 0 <= i < j < ns.len() ==> {
        &&& (#[trigger] ns[i]).1 <= (#[trigger] ns[j]).1
        &&& (ns[j].2 <= ns[i].2 || ns[i].2 <= ns[j].1)
    }
}

/// Parses `text` with tree-sitter (`Parser::set_language`, `Parser::parse`)
/// and lists the nodes of the tree in pre-order (`TreeCursor`). Claimed: the
/// list is `syntax_nodes(text, grammar_tag(grammar))`; each node's byte range
/// lies within the text, its text is the text of that range, its rows are
/// at most its byte offsets (a row starts after a line feed byte) and do not
/// decrease from start to end; and the list is in pre-order, as tree-sitter
/// lays children out one after another inside their parent.
#[verifier::external_body]
pub(crate) fn parse_syntax(text: &str, grammar: tree_sitter_language::LanguageFn) -> (r: Option<Vec<SyntaxNode>>)
    ensures
        match r {
            None => syntax_nodes(text@, grammar_tag(grammar)) is None,
            Some(v) => syntax_nodes(text@, grammar_tag(grammar)) == Some(v@.map_values(|n: SyntaxNode| n.shape())),
        },
        r matches Some(v) ==> forall|i: int| 0 <= i < v@.len() ==> node_in_text(text@, #[trigger] v@[i]),
        r matches Some(v) ==> preordered(v@.map_values(|n: SyntaxNode| n.shape())),
{
    let mut parser = tree_sitter::Parser::new();
    parser.set_language(&grammar.into()).ok()?;
    let tree = parser.parse(text, None)?;
    let (mut c, mut out) = (tree.walk(), Vec::new());
    loop {
        let n = c.node();
        let (a, b) = (n.start_byte(), n.end_byte());
        out.push(SyntaxNode { kind: n.kind().to_string(), start_byte: a, end_byte: b, start_row: n.start_position().row, end_row: n.end_position().row, text: text[a..b].to_string() });
        if c.goto_first_child() { continue; }
        while !c.goto_next_sibling() { if !c.goto_parent() { return Some(out); } }
    }
}

} // verus!
