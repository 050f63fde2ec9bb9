//! Highlighting of code, free of any colour: the language of a fence, and the
//! class of a token.
use vstd::prelude::*;
use crate::text::same;

verus! {

/// The file extension for the name of a language in a fence.
pub open spec fn extension_for(lang: Seq<char>) -> Option<Seq<char>> {
    if lang == "rust"@ || lang == "rs"@ {
        Some("rs"@)
    } else if lang == "python"@ || lang == "py"@ {
        Some("py"@)
    } else if lang == "javascript"@ || lang == "js"@ || lang == "jsx"@ {
        Some("js"@)
    } else if lang == "typescript"@ || lang == "ts"@ || lang == "tsx"@ {
        Some("ts"@)
    } else if lang == "go"@ {
        Some("go"@)
    } else if lang == "c"@ || lang == "h"@ {
        Some("c"@)
    } else if lang == "cpp"@ || lang == "c++"@ || lang == "cc"@ || lang == "cxx"@ {
        Some("cpp"@)
    } else if lang == "csharp"@ || lang == "cs"@ || lang == "c#"@ {
        Some("cs"@)
    } else if lang == "java"@ {
        Some("java"@)
    } else if lang == "kotlin"@ || lang == "kt"@ {
        Some("kt"@)
    } else if lang == "swift"@ {
        Some("swift"@)
    } else if lang == "scala"@ {
        Some("scala"@)
    } else if lang == "ruby"@ || lang == "rb"@ {
        Some("rb"@)
    } else if lang == "php"@ {
        Some("php"@)
    } else if lang == "lua"@ {
        Some("lua"@)
    } else if lang == "haskell"@ || lang == "hs"@ {
        Some("hs"@)
    } else if lang == "r"@ {
        Some("r"@)
    } else if lang == "dart"@ {
        Some("dart"@)
    } else if lang == "json"@ {
        Some("json"@)
    } else if lang == "toml"@ {
        Some("toml"@)
    } else if lang == "yaml"@ || lang == "yml"@ {
        Some("yaml"@)
    } else if lang == "xml"@ {
        Some("xml"@)
    } else if lang == "html"@ || lang == "htm"@ {
        Some("html"@)
    } else if lang == "css"@ {
        Some("css"@)
    } else if lang == "sql"@ {
        Some("sql"@)
    } else if lang == "bash"@ || lang == "sh"@ || lang == "shell"@ || lang == "zsh"@ {
        Some("sh"@)
    } else if lang == "diff"@ || lang == "patch"@ {
        Some("diff"@)
    } else if lang == "markdown"@ || lang == "md"@ {
        Some("md"@)
    } else {
        None
    }
}

/// Computes [`extension_for`].
pub fn lang_to_ext(lang: &str) -> (r: Option<&'static str>)
    ensures
        match r {
            Some(e) => extension_for(lang@) == Some(e@),
            None => extension_for(lang@) is None,
        },
{
    if same(lang, "rust") || same(lang, "rs") {
        Some("rs")
    } else if same(lang, "python") || same(lang, "py") {
        Some("py")
    } else if same(lang, "javascript") || same(lang, "js") || same(lang, "jsx") {
        Some("js")
    } else if same(lang, "typescript") || same(lang, "ts") || same(lang, "tsx") {
        Some("ts")
    } else if same(lang, "go") {
        Some("go")
    } else if same(lang, "c") || same(lang, "h") {
        Some("c")
    } else if same(lang, "cpp") || same(lang, "c++") || same(lang, "cc") || same(lang, "cxx") {
        Some("cpp")
    } else if same(lang, "csharp") || same(lang, "cs") || same(lang, "c#") {
        Some("cs")
    } else if same(lang, "java") {
        Some("java")
    } else if same(lang, "kotlin") || same(lang, "kt") {
        Some("kt")
    } else if same(lang, "swift") {
        Some("swift")
    } else if same(lang, "scala") {
        Some("scala")
    } else if same(lang, "ruby") || same(lang, "rb") {
        Some("rb")
    } else if same(lang, "php") {
        Some("php")
    } else if same(lang, "lua") {
        Some("lua")
    } else if same(lang, "haskell") || same(lang, "hs") {
        Some("hs")
    } else if same(lang, "r") {
        Some("r")
    } else if same(lang, "dart") {
        Some("dart")
    } else if same(lang, "json") {
        Some("json")
    } else if same(lang, "toml") {
        Some("toml")
    } else if same(lang, "yaml") || same(lang, "yml") {
        Some("yaml")
    } else if same(lang, "xml") {
        Some("xml")
    } else if same(lang, "html") || same(lang, "htm") {
        Some("html")
    } else if same(lang, "css") {
        Some("css")
    } else if same(lang, "sql") {
        Some("sql")
    } else if same(lang, "bash") || same(lang, "sh") || same(lang, "shell") || same(lang, "zsh") {
        Some("sh")
    } else if same(lang, "diff") || same(lang, "patch") {
        Some("diff")
    } else if same(lang, "markdown") || same(lang, "md") {
        Some("md")
    } else {
        None
    }
}

/// The class of a token; each front-end has a colour for it.
#[derive(Clone, Copy, Debug, PartialEq, Eq, Structural)]
pub enum SynRole {
    Comment,
    Keyword,
    Str,
    Number,
    Function,
    Type,
    Reference,
    Macro,
    Heading,
    Link,
    Plain,
}

/// The class that the name of a token's kind stands for.
pub open spec fn role_of(name: Seq<char>) -> SynRole {
    if name == "comment"@ {
        SynRole::Comment
    } else if name == "keyword"@ {
        SynRole::Keyword
    } else if name == "string"@ || name == "character"@ {
        SynRole::Str
    } else if name == "digit"@ || name == "number"@ || name == "boolean"@ {
        SynRole::Number
    } else if name == "function"@ {
        SynRole::Function
    } else if name == "struct"@ || name == "type"@ {
        SynRole::Type
    } else if name == "namespace"@ || name == "reference"@ {
        SynRole::Reference
    } else if name == "macro"@ || name == "attribute"@ || name == "tag"@ {
        SynRole::Macro
    } else if name == "heading"@ {
        SynRole::Heading
    } else if name == "link"@ {
        SynRole::Link
    } else {
        SynRole::Plain
    }
}

/// Computes [`role_of`].
pub fn syn_role(name: &str) -> (r: SynRole)
    ensures
        r == role_of(name@),
{
    if same(name, "comment") {
        SynRole::Comment
    } else if same(name, "keyword") {
        SynRole::Keyword
    } else if same(name, "string") || same(name, "character") {
        SynRole::Str
    } else if same(name, "digit") || same(name, "number") || same(name, "boolean") {
        SynRole::Number
    } else if same(name, "function") {
        SynRole::Function
    } else if same(name, "struct") || same(name, "type") {
        SynRole::Type
    } else if same(name, "namespace") || same(name, "reference") {
        SynRole::Reference
    } else if same(name, "macro") || same(name, "attribute") || same(name, "tag") {
        SynRole::Macro
    } else if same(name, "heading") {
        SynRole::Heading
    } else if same(name, "link") {
        SynRole::Link
    } else {
        SynRole::Plain
    }
}

} // verus!
