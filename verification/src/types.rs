//! Shared types: languages, spans, search modes and index locations.
use vstd::prelude::*;

use crate::text::{str_eq, string_views};


verus! {

/// A source language recognised from a file extension.
#[derive(Debug, Clone, Copy, PartialEq, Eq, Hash, Structural)]
pub enum Language {
    Rust,
    Python,
    JavaScript,
    TypeScript,
    Haskell,
    Go,
    Java,
    C,
    Cpp,
    CSharp,
    Ruby,
    Php,
    Swift,
    Kotlin,
}

/// A region of a file: byte offsets (end exclusive) and 1-based lines
/// (end inclusive).
#[derive(Debug, Clone, Copy, PartialEq, Eq, Structural)]
pub struct Span {
    pub byte_start: usize,
    pub byte_end: usize,
    pub line_start: usize,
    pub line_end: usize,
}


/// The language of a file extension.
pub open spec fn language_of_extension(e: Seq<char>) -> Option<Language> {
    if e == "rs"@ {
        Some(Language::Rust)
    } else if e == "py"@ {
        Some(Language::Python)
    } else if e == "js"@ {
        Some(Language::JavaScript)
    } else if e == "ts"@ || e == "tsx"@ {
        Some(Language::TypeScript)
    } else if e == "hs"@ || e == "lhs"@ {
        Some(Language::Haskell)
    } else if e == "go"@ {
        Some(Language::Go)
    } else if e == "java"@ {
        Some(Language::Java)
    } else if e == "c"@ {
        Some(Language::C)
    } else if e == "cpp"@ || e == "cc"@ || e == "cxx"@ || e == "c++"@ || e == "h"@ || e == "hpp"@ {
        Some(Language::Cpp)
    } else if e == "cs"@ {
        Some(Language::CSharp)
    } else if e == "rb"@ {
        Some(Language::Ruby)
    } else if e == "php"@ {
        Some(Language::Php)
    } else if e == "swift"@ {
        Some(Language::Swift)
    } else if e == "kt"@ || e == "kts"@ {
        Some(Language::Kotlin)
    } else {
        None
    }
}

/// The lower-case name of a language.
pub open spec fn language_name(l: Language) -> Seq<char> {
    match l {
        Language::Rust => "rust"@,
        Language::Python => "python"@,
        Language::JavaScript => "javascript"@,
        Language::TypeScript => "typescript"@,
        Language::Haskell => "haskell"@,
        Language::Go => "go"@,
        Language::Java => "java"@,
        Language::C => "c"@,
        Language::Cpp => "cpp"@,
        Language::CSharp => "csharp"@,
        Language::Ruby => "ruby"@,
        Language::Php => "php"@,
        Language::Swift => "swift"@,
        Language::Kotlin => "kotlin"@,
    }
}

impl Language {
    /// The language of a file extension (without the dot); headers count as C++.
    pub fn from_extension(ext: &str) -> (r: Option<Language>)
        ensures
            r == language_of_extension(ext@),
    {
        if str_eq(ext, "rs") {
            Some(Language::Rust)
        } else if str_eq(ext, "py") {
            Some(Language::Python)
        } else if str_eq(ext, "js") {
            Some(Language::JavaScript)
        } else if str_eq(ext, "ts") || str_eq(ext, "tsx") {
            Some(Language::TypeScript)
        } else if str_eq(ext, "hs") || str_eq(ext, "lhs") {
            Some(Language::Haskell)
        } else if str_eq(ext, "go") {
            Some(Language::Go)
        } else if str_eq(ext, "java") {
            Some(Language::Java)
        } else if str_eq(ext, "c") {
            Some(Language::C)
        } else if str_eq(ext, "cpp") || str_eq(ext, "cc") || str_eq(ext, "cxx") || str_eq(ext, "c++")
            || str_eq(ext, "h") || str_eq(ext, "hpp") {
            Some(Language::Cpp)
        } else if str_eq(ext, "cs") {
            Some(Language::CSharp)
        } else if str_eq(ext, "rb") {
            Some(Language::Ruby)
        } else if str_eq(ext, "php") {
            Some(Language::Php)
        } else if str_eq(ext, "swift") {
            Some(Language::Swift)
        } else if str_eq(ext, "kt") || str_eq(ext, "kts") {
            Some(Language::Kotlin)
        } else {
            None
        }
    }

    /// The lower-case name of the language, as displayed.
    pub fn name(&self) -> (r: &'static str)
        ensures
            r@ == language_name(*self),
    {
        match self {
            Language::Rust => "rust",
            Language::Python => "python",
            Language::JavaScript => "javascript",
            Language::TypeScript => "typescript",
            Language::Haskell => "haskell",
            Language::Go => "go",
            Language::Java => "java",
            Language::C => "c",
            Language::Cpp => "cpp",
            Language::CSharp => "csharp",
            Language::Ruby => "ruby",
            Language::Php => "php",
            Language::Swift => "swift",
            Language::Kotlin => "kotlin",
        }
    }
}

/// Metadata recorded for an indexed file.
#[derive(Debug, Clone)]
pub struct FileMetadata {
    pub path: String,
    pub hash: String,
    pub last_modified: u64,
    pub size: u64,
}

/// How a query is matched.
#[derive(Debug, Clone, Copy, PartialEq, Eq, Structural)]
pub enum SearchMode {
    Regex,
    Lexical,
    Semantic,
    Hybrid,
}

/// Directories skipped by default: the index, caches, version control,
/// build output, virtual environments, editor settings and temporary
/// directories.
pub open spec fn default_exclude_patterns() -> Seq<Seq<char>> {
    seq![
        ".ck"@, ".fastembed_cache"@, ".cache"@, "__pycache__"@, ".git"@, ".svn"@, ".hg"@,
        "target"@, "build"@, "dist"@, "node_modules"@, ".gradle"@, ".mvn"@, "bin"@, "obj"@,
        "venv"@, ".venv"@, "env"@, ".env"@, "virtualenv"@, ".vscode"@, ".idea"@, ".eclipse"@,
        "tmp"@, "temp"@, ".tmp"@,
    ]
}

/// Default exclusion patterns for directories skipped during search.
pub fn get_default_exclude_patterns() -> (r: Vec<String>)
    ensures
        string_views(r@) == default_exclude_patterns(),
{
    let names: [&str; 26] = [
        ".ck", ".fastembed_cache", ".cache", "__pycache__", ".git", ".svn", ".hg", "target",
        "build", "dist", "node_modules", ".gradle", ".mvn", "bin", "obj", "venv", ".venv", "env",
        ".env", "virtualenv", ".vscode", ".idea", ".eclipse", "tmp", "temp", ".tmp",
    ];
    let mut r: Vec<String> = Vec::new();
    let mut i: usize = 0;
    while i < 26
        invariant
            i <= 26,
            names@.map_values(|p: &str| p@) == default_exclude_patterns(),
            string_views(r@) == names@.map_values(|p: &str| p@).take(i as int),
        decreases 26 - i,
    {
        let nm: &str = names[i];
        let o = nm.to_owned();
        assert(o@ == names@[i as int]@);
        let ghost old_r = r@;
        r.push(o);
        assert(string_views(r@) =~= string_views(old_r).push(o@));
        assert(string_views(r@) =~= names@.map_values(|p: &str| p@).take(i + 1));
        i += 1;
    }
    r
}

} // verus!
