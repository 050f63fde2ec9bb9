//! Grounding: the paths, symbols and counts that a text names, and what is true
//! of them in the project. The lookup is mechanical; a fact is stated neutrally
//! and only where it is certain.
use vstd::prelude::*;
use crate::paths::{closes_with, components, path_before, path_ends_with, path_precedes, rel, seen_from};
use crate::patterns::{find_groups, find_parts, pairs_view, regex_groups, regex_parts};
use crate::text::{
    begins, cat2, cat3, cat4, cat5, cat7, char_is_space, comes_before, contains, decimal, ends,
    ends_with, holds, is_one_of, is_space, join, joined, lemma_order_irreflexive, lemma_order_total,
    lemma_order_transitive, parse_number, parsed_number, precedes, push_new, same, size_text, split,
    split_on, starts_with, texts, to_chars, trim, trimmed, with_new, words,
};

verus! {

/// How many facts are stated at most.
pub const MAX_FACTS: usize = 20;

/// A symbol that is declared in more files than this has no useful place.
pub const MAX_SYMBOL_DECLS: usize = 5;

/// A span in backticks; the group is what it holds.
pub const BACKTICK: &'static str = "`([^`\\n]+)`";

/// The name of a symbol.
pub const IDENT: &'static str = "^[A-Za-z_]\\w*$";

/// A path, with or without a line or a range of lines; the group is the path.
pub const PATH_TOK: &'static str = "^([A-Za-z0-9_][\\w./\\-]*?)(?::\\d+(?:-\\d+)?)?$";

/// A count of a name in the plural: the number, then the name.
pub const COUNT_PLURAL: &'static str = "(\\d{1,7})\\s+`([A-Za-z_]\\w*)`s\\b";

/// A count before a cue: the number, then the name.
pub const COUNT_CUE_PRE: &'static str = "(?i)(\\d{1,7})\\s+(?:occurrences?|instances?|calls?|\
copies|usages?|uses?)\\s+(?:of\\s+|to\\s+)?`([A-Za-z_]\\w*)`";

/// A count behind a cue: the name, then the number.
pub const COUNT_CUE_POST: &'static str = "(?i)`([A-Za-z_]\\w*)`[^`\\n]{0,20}?\\b(\\d{1,7})\\s+\
(?:times|occurrences?|instances?|calls?)\\b";

/// The entities that a text refers to, each once.
#[derive(Debug)]
pub struct Refs {
    pub paths: Vec<String>,
    pub symbols: Vec<String>,
    /// Each name with the number that the text claims of it.
    pub counts: Vec<(usize, String)>,
}

/// A span in backticks, and what the patterns say of it.
#[derive(Debug)]
pub struct Token {
    /// The span without the white space around it.
    pub text: String,
    /// Whether it is the name of a symbol.
    pub is_name: bool,
    /// The path that it spells, without the line.
    pub path: Option<String>,
}

/// What a [`Token`] stands for.
pub struct TokenV {
    pub text: Seq<char>,
    pub is_name: bool,
    pub path: Option<Seq<char>>,
}

impl View for Token {
    type V = TokenV;

    open spec fn view(&self) -> TokenV {
        TokenV {
            text: self.text@,
            is_name: self.is_name,
            path: crate::checks::text_view(self.path),
        }
    }
}

/// What some tokens stand for.
pub open spec fn token_views(v: Seq<Token>) -> Seq<TokenV> {
    v.map_values(|t: Token| t@)
}

// ------------------------------------------------------------ what is a path

/// The extensions that make a word without a slash a path.
pub open spec fn path_extensions() -> Seq<Seq<char>> {
    seq![
        "rs"@, "py"@, "pyi"@, "js"@, "jsx"@, "ts"@, "tsx"@, "mjs"@, "cjs"@, "sql"@, "toml"@,
        "json"@, "yaml"@, "yml"@, "lock"@, "md"@, "sh"@, "rb"@, "go"@, "c"@, "h"@, "cpp"@, "hpp"@,
        "java"@, "kt"@, "swift"@, "scala"@, "php"@, "pl"@, "ex"@, "exs"@, "dart"@, "jl"@, "rkt"@,
    ]
}

/// The word looks like a path: it holds a slash, or what stands behind its last
/// dot is an extension of [`path_extensions`].
pub open spec fn path_like(tok: Seq<char>) -> bool {
    let pieces = split_on(tok, '.');
    tok.contains('/') || (pieces.len() > 1 && path_extensions().contains(pieces.last()))
}

fn holds_char(s: &str, c: char) -> (b: bool)
    ensures
        b == s@.contains(c),
{
    let chars = to_chars(s);
    let mut i: usize = 0;
    while i < chars.len()
        invariant
            i <= chars@.len(),
            chars@ == s@,
            forall|k: int| 0 <= k < i ==> s@[k] != c,
        decreases chars@.len() - i,
    {
        if chars[i] == c {
            assert(s@[i as int] == c);
            return true;
        }
        i += 1;
    }
    false
}

/// Decides [`path_like`].
pub fn looks_like_path(tok: &str) -> (b: bool)
    ensures
        b == path_like(tok@),
{
    if holds_char(tok, '/') {
        return true;
    }
    let list: Vec<&str> = vec![
        "rs", "py", "pyi", "js", "jsx", "ts", "tsx", "mjs", "cjs", "sql", "toml", "json", "yaml",
        "yml", "lock", "md", "sh", "rb", "go", "c", "h", "cpp", "hpp", "java", "kt", "swift",
        "scala", "php", "pl", "ex", "exs", "dart", "jl", "rkt",
    ];
    assert(words(list@) =~= path_extensions());
    let pieces = split(tok, '.');
    assert(split_on(tok@, '.') == texts(pieces@));
    if pieces.len() > 1 {
        assert(texts(pieces@).last() == pieces@[pieces@.len() - 1]@);
        is_one_of(pieces[pieces.len() - 1].as_str(), &list)
    } else {
        false
    }
}

/// The token is one word: not empty, and without white space.
pub open spec fn one_word(t: Seq<char>) -> bool {
    t.len() > 0 && forall|i: int| 0 <= i < t.len() ==> !is_space(#[trigger] t[i])
}

fn is_one_word(t: &str) -> (b: bool)
    ensures
        b == one_word(t@),
{
    let chars = to_chars(t);
    let mut i: usize = 0;
    while i < chars.len()
        invariant
            i <= chars@.len(),
            chars@ == t@,
            forall|k: int| 0 <= k < i ==> !is_space(#[trigger] t@[k]),
        decreases chars@.len() - i,
    {
        if char_is_space(chars[i]) {
            assert(is_space(t@[i as int]));
            return false;
        }
        i += 1;
    }
    chars.len() > 0
}

/// The symbol that a token names.
pub open spec fn symbol_of(t: TokenV) -> Option<Seq<char>> {
    if one_word(t.text) && t.is_name {
        Some(t.text)
    } else {
        None
    }
}

/// The path that a token names: no symbol, glob, address or absolute path.
pub open spec fn path_of(t: TokenV) -> Option<Seq<char>> {
    if one_word(t.text) && !t.is_name && !t.text.contains('*') && !t.text.contains('?') && !holds(
        t.text,
        "://"@,
    ) && !begins(t.text, "/"@) && t.path is Some && path_like(t.path->0) {
        t.path
    } else {
        None
    }
}

/// The symbols that some tokens name, each where it comes first.
pub open spec fn symbols_in(tokens: Seq<TokenV>) -> Seq<Seq<char>>
    decreases tokens.len(),
{
    if tokens.len() == 0 {
        Seq::empty()
    } else {
        let before = symbols_in(tokens.drop_last());
        match symbol_of(tokens.last()) {
            Some(s) => with_new(before, s),
            None => before,
        }
    }
}

/// The paths that some tokens name, each where it comes first.
pub open spec fn paths_in(tokens: Seq<TokenV>) -> Seq<Seq<char>>
    decreases tokens.len(),
{
    if tokens.len() == 0 {
        Seq::empty()
    } else {
        let before = paths_in(tokens.drop_last());
        match path_of(tokens.last()) {
            Some(p) => with_new(before, p),
            None => before,
        }
    }
}

// ------------------------------------------------------------ counts

/// What some counts stand for.
pub open spec fn count_views(v: Seq<(usize, String)>) -> Seq<(nat, Seq<char>)> {
    v.map_values(|c: (usize, String)| (c.0 as nat, c.1@))
}

/// A count comes before another: by the number, then by the name.
pub open spec fn count_precedes(a: (nat, Seq<char>), b: (nat, Seq<char>)) -> bool {
    a.0 < b.0 || (a.0 == b.0 && precedes(a.1, b.1))
}

/// Each count comes before the one behind it.
pub open spec fn counts_ascend(s: Seq<(nat, Seq<char>)>) -> bool {
    forall|i: int, j: int|
        0 <= i < j < s.len() ==> count_precedes(#[trigger] s[i], #[trigger] s[j])
}

/// One of the matches claims the count; `number_first` says which group is the
/// number.
pub open spec fn claimed(
    matches: Seq<(Seq<char>, Seq<char>)>,
    number_first: bool,
    c: (nat, Seq<char>),
) -> bool {
    exists|i: int|
        0 <= i < matches.len() && #[trigger] claim_of(matches[i], number_first) == Some(c)
}

/// The count that a match claims, where its number is one.
pub open spec fn claim_of(m: (Seq<char>, Seq<char>), number_first: bool) -> Option<
    (nat, Seq<char>),
> {
    let (number, name) = if number_first {
        (m.0, m.1)
    } else {
        (m.1, m.0)
    };
    match parsed_number(number, usize::MAX as nat) {
        Some(n) => Some((n, name)),
        None => None,
    }
}

proof fn lemma_counts_total(a: (nat, Seq<char>), b: (nat, Seq<char>))
    ensures
        count_precedes(a, b) || count_precedes(b, a) || a == b,
{
    lemma_order_total(a.1, b.1);
}

proof fn lemma_counts_transitive(
    a: (nat, Seq<char>),
    b: (nat, Seq<char>),
    c: (nat, Seq<char>),
)
    requires
        count_precedes(a, b),
        count_precedes(b, c),
    ensures
        count_precedes(a, c),
{
    if a.0 == b.0 && b.0 == c.0 {
        lemma_order_transitive(a.1, b.1, c.1);
    }
}

fn count_before(a: &(usize, String), n: usize, t: &str) -> (b: bool)
    ensures
        b == count_precedes((a.0 as nat, a.1@), (n as nat, t@)),
{
    a.0 < n || (a.0 == n && comes_before(a.1.as_str(), t))
}

fn insert_count(v: &mut Vec<(usize, String)>, n: usize, t: String)
    requires
        counts_ascend(count_views(old(v)@)),
    ensures
        counts_ascend(count_views(final(v)@)),
        forall|x: (nat, Seq<char>)|
            #[trigger] count_views(final(v)@).contains(x) <==> (count_views(old(v)@).contains(x)
                || x == (n as nat, t@)),
{
    let ghost before = count_views(v@);
    let ghost new = (n as nat, t@);
    let mut i: usize = 0;
    while i < v.len() && count_before(&v[i], n, t.as_str())
        invariant
            i <= v@.len(),
            before == count_views(v@),
            new == (n as nat, t@),
            forall|k: int| 0 <= k < i ==> count_precedes(#[trigger] before[k], new),
        decreases v@.len() - i,
    {
        assert(before[i as int] == (v@[i as int].0 as nat, v@[i as int].1@));
        i += 1;
    }
    if i < v.len() && v[i].0 == n && same(v[i].1.as_str(), t.as_str()) {
        assert(before[i as int] == new);
        assert(v@ =~= old(v)@);
        return ;
    }
    v.insert(i, (n, t));
    proof {
        let after = count_views(v@);
        assert(after =~= before.insert(i as int, new));
        if i < before.len() {
            lemma_counts_total(before[i as int], new);
            assert(count_precedes(new, before[i as int]));
        }
        assert forall|a: int, b: int| 0 <= a < b < after.len() implies count_precedes(
            #[trigger] after[a],
            #[trigger] after[b],
        ) by {
            if a < i && b == i {
                assert(count_precedes(before[a], new));
            } else if a == i && b > i {
                if b - 1 > i {
                    assert(count_precedes(before[i as int], before[b - 1]));
                    lemma_counts_transitive(new, before[i as int], before[b - 1]);
                }
            } else if a < i && b < i {
                assert(count_precedes(before[a], before[b]));
            } else if a < i && b > i {
                assert(count_precedes(before[a], before[b - 1]));
            } else {
                assert(count_precedes(before[a - 1], before[b - 1]));
            }
        }
        assert forall|x: (nat, Seq<char>)| after.contains(x) <==> (before.contains(x) || x == new) by {
            if before.contains(x) {
                let k = choose|k: int| 0 <= k < before.len() && before[k] == x;
                if k < i {
                    assert(after[k] == x);
                } else {
                    assert(after[k + 1] == x);
                }
            }
            if x == new {
                assert(after[i as int] == x);
            }
            if after.contains(x) {
                let k = choose|k: int| 0 <= k < after.len() && after[k] == x;
                if k < i {
                    assert(before[k] == x);
                } else if k > i {
                    assert(before[k - 1] == x);
                }
            }
        }
    }
}

fn add_claims(v: &mut Vec<(usize, String)>, matches: &Vec<(String, String)>, number_first: bool)
    requires
        counts_ascend(count_views(old(v)@)),
    ensures
        counts_ascend(count_views(final(v)@)),
        forall|x: (nat, Seq<char>)|
            #[trigger] count_views(final(v)@).contains(x) <==> (count_views(old(v)@).contains(x)
                || claimed(pairs_view(matches@), number_first, x)),
{
    let ghost before = count_views(v@);
    let ghost ms = pairs_view(matches@);
    let mut i: usize = 0;
    while i < matches.len()
        invariant
            i <= matches@.len(),
            ms == pairs_view(matches@),
            counts_ascend(count_views(v@)),
            forall|x: (nat, Seq<char>)| #[trigger]
                count_views(v@).contains(x) <==> (before.contains(x) || (exists|k: int|
                    0 <= k < i && #[trigger] claim_of(ms[k], number_first) == Some(x))),
        decreases matches@.len() - i,
    {
        assert(ms[i as int] == (matches@[i as int].0@, matches@[i as int].1@));
        let ghost at = count_views(v@);
        let (number, name) = if number_first {
            (matches[i].0.as_str(), &matches[i].1)
        } else {
            (matches[i].1.as_str(), &matches[i].0)
        };
        let ghost c = claim_of(ms[i as int], number_first);
        let n = parse_number(number, usize::MAX as u64);
        if let Some(n) = n {
            insert_count(v, n as usize, name.clone());
        }
        assert forall|x: (nat, Seq<char>)| #[trigger]
            count_views(v@).contains(x) <==> (before.contains(x) || (exists|k: int|
                0 <= k < i + 1 && #[trigger] claim_of(ms[k], number_first) == Some(x))) by {
            if count_views(v@).contains(x) {
                if at.contains(x) {
                    if !before.contains(x) {
                        let k = choose|k: int|
                            0 <= k < i && #[trigger] claim_of(ms[k], number_first) == Some(x);
                        assert(0 <= k < i + 1);
                    }
                } else {
                    assert(c == Some(x));
                }
            }
            if exists|k: int|
                0 <= k < i + 1 && #[trigger] claim_of(ms[k], number_first) == Some(x) {
                let k = choose|k: int|
                    0 <= k < i + 1 && #[trigger] claim_of(ms[k], number_first) == Some(x);
                if k < i {
                    assert(at.contains(x));
                } else {
                    assert(c == Some(x));
                }
            }
        }
        i += 1;
    }
}

// ------------------------------------------------------------ references

/// The references are those that the matches give: the counts that the three
/// patterns claim, each once and in order, and the symbols and paths of the
/// tokens, each where it comes first.
pub open spec fn gathered(
    r: Refs,
    plural: Seq<(Seq<char>, Seq<char>)>,
    pre: Seq<(Seq<char>, Seq<char>)>,
    post: Seq<(Seq<char>, Seq<char>)>,
    tokens: Seq<TokenV>,
) -> bool {
    &&& texts(r.paths@) == paths_in(tokens)
    &&& texts(r.symbols@) == symbols_in(tokens)
    &&& counts_ascend(count_views(r.counts@))
    &&& forall|x: (nat, Seq<char>)| #[trigger]
        count_views(r.counts@).contains(x) <==> (claimed(plural, true, x) || claimed(pre, true, x)
            || claimed(post, false, x))
}

/// Gathers the references from what the patterns matched.
pub fn gather_refs(
    plural: &Vec<(String, String)>,
    pre: &Vec<(String, String)>,
    post: &Vec<(String, String)>,
    tokens: &Vec<Token>,
) -> (r: Refs)
    ensures
        gathered(
            r,
            pairs_view(plural@),
            pairs_view(pre@),
            pairs_view(post@),
            token_views(tokens@),
        ),
{
    let mut counts: Vec<(usize, String)> = Vec::new();
    add_claims(&mut counts, plural, true);
    add_claims(&mut counts, pre, true);
    add_claims(&mut counts, post, false);
    let ghost ts = token_views(tokens@);
    let mut paths: Vec<String> = Vec::new();
    let mut symbols: Vec<String> = Vec::new();
    let mut i: usize = 0;
    assert(ts.take(0) =~= Seq::empty());
    assert(texts(paths@) =~= Seq::empty());
    assert(texts(symbols@) =~= Seq::empty());
    while i < tokens.len()
        invariant
            i <= tokens@.len(),
            ts == token_views(tokens@),
            texts(paths@) == paths_in(ts.take(i as int)),
            texts(symbols@) == symbols_in(ts.take(i as int)),
        decreases tokens@.len() - i,
    {
        assert(ts.take(i + 1).drop_last() =~= ts.take(i as int));
        assert(ts.take(i + 1).last() == tokens@[i as int]@);
        let t = &tokens[i];
        let word = t.text.as_str();
        if is_one_word(word) {
            if t.is_name {
                push_new(&mut symbols, t.text.clone());
            } else if !holds_char(word, '*') && !holds_char(word, '?') && !contains(word, "://")
                && !starts_with(word, "/") {
                if let Some(p) = &t.path {
                    if looks_like_path(p.as_str()) {
                        push_new(&mut paths, p.clone());
                    }
                }
            }
        }
        i += 1;
    }
    assert(ts.take(i as int) =~= ts);
    Refs { paths, symbols, counts }
}

/// What the patterns say of a span.
pub open spec fn token_of(span: Seq<char>) -> TokenV {
    let t = trimmed(span);
    let p = regex_groups(PATH_TOK@, t);
    TokenV {
        text: t,
        is_name: regex_parts(IDENT@, t) is Some,
        path: if p.len() > 0 {
            Some(p[0].0)
        } else {
            None
        },
    }
}

/// The tokens of the spans in backticks of a text.
pub open spec fn tokens_of(draft: Seq<char>) -> Seq<TokenV> {
    regex_groups(BACKTICK@, draft).map_values(|m: (Seq<char>, Seq<char>)| token_of(m.0))
}

/// Lifts the paths, symbols and counts that a text refers to out of it.
pub fn extract_refs(draft: &str) -> (r: Refs)
    ensures
        gathered(
            r,
            regex_groups(COUNT_PLURAL@, draft@),
            regex_groups(COUNT_CUE_PRE@, draft@),
            regex_groups(COUNT_CUE_POST@, draft@),
            tokens_of(draft@),
        ),
{
    let plural = find_groups(COUNT_PLURAL, draft);
    let pre = find_groups(COUNT_CUE_PRE, draft);
    let post = find_groups(COUNT_CUE_POST, draft);
    let spans = find_groups(BACKTICK, draft);
    let ghost sv = pairs_view(spans@);
    let mut tokens: Vec<Token> = Vec::new();
    let mut i: usize = 0;
    while i < spans.len()
        invariant
            i <= spans@.len(),
            sv == pairs_view(spans@),
            tokens@.len() == i,
            forall|k: int| 0 <= k < i ==> (#[trigger] tokens@[k])@ == token_of(sv[k].0),
        decreases spans@.len() - i,
    {
        assert(sv[i as int].0 == spans@[i as int].0@);
        let text = trim(spans[i].0.as_str());
        let is_name = find_parts(IDENT, text.as_str()).is_some();
        let groups = find_groups(PATH_TOK, text.as_str());
        assert(pairs_view(groups@).len() == groups@.len());
        let path = if groups.len() > 0 {
            assert(pairs_view(groups@)[0].0 == groups@[0].0@);
            Some(groups[0].0.clone())
        } else {
            None
        };
        tokens.push(Token { text, is_name, path });
        i += 1;
    }
    assert(token_views(tokens@) =~= tokens_of(draft@));
    gather_refs(&plural, &pre, &post, &tokens)
}

// ------------------------------------------------------------ facts

/// A path is absent from the project: no file has it, and none of the files ends
/// in it. A bare name that several files have is present.
pub open spec fn absent(exists_there: bool, files: Seq<Seq<char>>, path: Seq<char>) -> bool {
    !exists_there && forall|i: int|
        0 <= i < files.len() ==> !closes_with(#[trigger] files[i], path) && !ends(files[i], path)
}

/// Decides [`absent`]; `exists_there` says whether the project's directory has
/// something under the path.
pub fn path_is_absent(exists_there: bool, files: &Vec<String>, claimed: &str) -> (b: bool)
    ensures
        b == absent(exists_there, texts(files@), claimed@),
{
    if exists_there {
        return false;
    }
    let ghost fs = texts(files@);
    let mut i: usize = 0;
    while i < files.len()
        invariant
            i <= files@.len(),
            fs == texts(files@),
            forall|k: int|
                0 <= k < i ==> !closes_with(#[trigger] fs[k], claimed@) && !ends(fs[k], claimed@),
        decreases files@.len() - i,
    {
        assert(fs[i as int] == files@[i as int]@);
        let f = files[i].as_str();
        if path_ends_with(f, claimed) || ends_with(f, claimed) {
            return false;
        }
        i += 1;
    }
    true
}

/// How a list says that it holds more than its first.
pub open spec fn more_than_one(n: nat) -> Seq<char> {
    if n > 1 {
        " (+"@ + decimal((n - 1) as nat) + " more)"@
    } else {
        Seq::empty()
    }
}

fn more(n: usize) -> (r: String)
    ensures
        r@ == more_than_one(n as nat),
{
    if n > 1 {
        cat3(" (+", size_text(n - 1).as_str(), " more)")
    } else {
        String::new()
    }
}

/// The facts on the paths of a text: those that are absent.
pub open spec fn path_facts(
    paths: Seq<Seq<char>>,
    present: Seq<bool>,
    files: Seq<Seq<char>>,
) -> Seq<Seq<char>>
    decreases paths.len(),
{
    if paths.len() == 0 {
        Seq::empty()
    } else {
        let before = path_facts(paths.drop_last(), present, files);
        if absent(present[paths.len() - 1], files, paths.last()) {
            before.push("path `"@ + paths.last() + "` is not a current file in the project"@)
        } else {
            before
        }
    }
}

/// The facts on the symbols of a text: where each is declared, unless it is
/// declared nowhere or in too many files.
pub open spec fn symbol_facts(
    root: Seq<char>,
    symbols: Seq<Seq<char>>,
    declared: Seq<Seq<Seq<char>>>,
) -> Seq<Seq<char>>
    decreases symbols.len(),
{
    if symbols.len() == 0 {
        Seq::empty()
    } else {
        let before = symbol_facts(root, symbols.drop_last(), declared);
        let d = declared[symbols.len() - 1];
        if 0 < d.len() <= MAX_SYMBOL_DECLS {
            before.push(
                "`"@ + symbols.last() + "` is defined in "@ + seen_from(root, d[0])
                    + more_than_one(d.len()),
            )
        } else {
            before
        }
    }
}

/// The facts on the counts of a text: the real number where it differs from the
/// claim.
pub open spec fn count_facts(counts: Seq<(nat, Seq<char>)>, actual: Seq<usize>) -> Seq<Seq<char>>
    decreases counts.len(),
{
    if counts.len() == 0 {
        Seq::empty()
    } else {
        let before = count_facts(counts.drop_last(), actual);
        let n = actual[counts.len() - 1];
        if n != counts.last().0 {
            before.push(
                "`"@ + counts.last().1 + "` occurs "@ + decimal(n as nat)
                    + " times in the project (you wrote "@ + decimal(counts.last().0) + ")"@,
            )
        } else {
            before
        }
    }
}

/// The first [`MAX_FACTS`] lines.
pub open spec fn capped(lines: Seq<Seq<char>>) -> Seq<Seq<char>> {
    if lines.len() > MAX_FACTS {
        lines.take(MAX_FACTS as int)
    } else {
        lines
    }
}

/// What the project says of the references of a text.
#[derive(Debug)]
pub struct Lookup {
    /// For each path: whether the project's directory has something under it.
    pub present: Vec<bool>,
    /// The files of the project.
    pub files: Vec<String>,
    /// For each symbol: the files that declare it.
    pub declared: Vec<Vec<String>>,
    /// For each count: how often the name occurs.
    pub occurrences: Vec<usize>,
}

/// What some lists of texts stand for.
pub open spec fn text_lists(v: Seq<Vec<String>>) -> Seq<Seq<Seq<char>>> {
    v.map_values(|l: Vec<String>| texts(l@))
}

fn cap_lines(lines: &mut Vec<String>)
    ensures
        texts(final(lines)@) == capped(texts(old(lines)@)),
{
    let ghost before = texts(lines@);
    if lines.len() > MAX_FACTS {
        lines.truncate(MAX_FACTS);
        assert(texts(lines@) =~= before.take(MAX_FACTS as int));
    }
}

/// States what is true of the references of a text, in neutral lines: the paths
/// that are absent, the places of its symbols, the counts that differ.
pub fn facts(root: &str, refs: &Refs, lookup: &Lookup) -> (r: Vec<String>)
    requires
        lookup.present@.len() == refs.paths@.len(),
        lookup.declared@.len() == refs.symbols@.len(),
        lookup.occurrences@.len() == refs.counts@.len(),
    ensures
        texts(r@) == capped(
            path_facts(texts(refs.paths@), lookup.present@, texts(lookup.files@)) + symbol_facts(
                root@,
                texts(refs.symbols@),
                text_lists(lookup.declared@),
            ) + count_facts(count_views(refs.counts@), lookup.occurrences@),
        ),
{
    let ghost ps = texts(refs.paths@);
    let ghost ss = texts(refs.symbols@);
    let ghost cs = count_views(refs.counts@);
    let ghost fs = texts(lookup.files@);
    let ghost ds = text_lists(lookup.declared@);
    let mut out: Vec<String> = Vec::new();
    let mut i: usize = 0;
    assert(ps.take(0) =~= Seq::empty());
    assert(texts(out@) =~= Seq::empty());
    while i < refs.paths.len()
        invariant
            i <= refs.paths@.len(),
            lookup.present@.len() == refs.paths@.len(),
            ps == texts(refs.paths@),
            fs == texts(lookup.files@),
            texts(out@) == path_facts(ps.take(i as int), lookup.present@, fs),
        decreases refs.paths@.len() - i,
    {
        assert(ps.take(i + 1).drop_last() =~= ps.take(i as int));
        assert(ps.take(i + 1).last() == refs.paths@[i as int]@);
        let ghost before = texts(out@);
        let p = refs.paths[i].as_str();
        if path_is_absent(lookup.present[i], &lookup.files, p) {
            out.push(cat3("path `", p, "` is not a current file in the project"));
            assert(texts(out@) =~= before.push(out@.last()@));
        }
        i += 1;
    }
    assert(ps.take(i as int) =~= ps);
    let ghost first = texts(out@);
    i = 0;
    assert(ss.take(0) =~= Seq::empty());
    assert(first + symbol_facts(root@, ss.take(0), ds) =~= first);
    while i < refs.symbols.len()
        invariant
            i <= refs.symbols@.len(),
            lookup.declared@.len() == refs.symbols@.len(),
            ss == texts(refs.symbols@),
            ds == text_lists(lookup.declared@),
            texts(out@) == first + symbol_facts(root@, ss.take(i as int), ds),
        decreases refs.symbols@.len() - i,
    {
        assert(ss.take(i + 1).drop_last() =~= ss.take(i as int));
        assert(ss.take(i + 1).last() == refs.symbols@[i as int]@);
        assert(ds[i as int] == texts(lookup.declared@[i as int]@));
        let ghost before = texts(out@);
        let d = &lookup.declared[i];
        if d.len() > 0 && d.len() <= MAX_SYMBOL_DECLS {
            assert(ds[i as int][0] == d@[0]@);
            let line = cat5(
                "`",
                refs.symbols[i].as_str(),
                "` is defined in ",
                rel(root, d[0].as_str()).as_str(),
                more(d.len()).as_str(),
            );
            out.push(line);
            assert(texts(out@) =~= before.push(line@));
            assert(before.push(line@) =~= first + symbol_facts(root@, ss.take(i as int), ds).push(
                line@,
            ));
        }
        i += 1;
    }
    assert(ss.take(i as int) =~= ss);
    let ghost second = texts(out@);
    i = 0;
    assert(cs.take(0) =~= Seq::empty());
    assert(second + count_facts(cs.take(0), lookup.occurrences@) =~= second);
    while i < refs.counts.len()
        invariant
            i <= refs.counts@.len(),
            lookup.occurrences@.len() == refs.counts@.len(),
            cs == count_views(refs.counts@),
            texts(out@) == second + count_facts(cs.take(i as int), lookup.occurrences@),
        decreases refs.counts@.len() - i,
    {
        assert(cs.take(i + 1).drop_last() =~= cs.take(i as int));
        assert(cs.take(i + 1).last() == (refs.counts@[i as int].0 as nat, refs.counts@[i as int].1@));
        let ghost before = texts(out@);
        let n: usize = lookup.occurrences[i];
        if n != refs.counts[i].0 {
            let line = cat7(
                "`",
                refs.counts[i].1.as_str(),
                "` occurs ",
                size_text(n).as_str(),
                " times in the project (you wrote ",
                size_text(refs.counts[i].0).as_str(),
                ")",
            );
            out.push(line);
            assert(texts(out@) =~= before.push(line@));
            assert(before.push(line@) =~= second + count_facts(
                cs.take(i as int),
                lookup.occurrences@,
            ).push(line@));
        }
        i += 1;
    }
    assert(cs.take(i as int) =~= cs);
    cap_lines(&mut out);
    out
}

// ------------------------------------------------------------ the blocks

/// Each line behind a dash.
pub open spec fn dashed(lines: Seq<Seq<char>>) -> Seq<Seq<char>> {
    lines.map_values(|l: Seq<char>| "- "@ + l)
}

fn with_dashes(lines: &Vec<String>) -> (r: String)
    ensures
        r@ == joined(dashed(texts(lines@)), "\n"@),
{
    let mut out: Vec<String> = Vec::new();
    let mut i: usize = 0;
    while i < lines.len()
        invariant
            i <= lines@.len(),
            out@.len() == i,
            forall|k: int| 0 <= k < i ==> (#[trigger] out@[k])@ == "- "@ + lines@[k]@,
        decreases lines@.len() - i,
    {
        out.push(cat2("- ", lines[i].as_str()));
        i += 1;
    }
    assert(texts(out@) =~= dashed(texts(lines@)));
    join(&out, "\n")
}

/// What stands above the facts.
pub const FACTS_HEADER: &'static str = "VERIFIED FACTS — checked mechanically against the code (no \
model in the loop). Reconcile your answer with these before finishing; some may differ from what \
you wrote, and a path that \"is not a current file\" is expected if you intend to create it:\n";

/// Wraps the facts into the block that the model gets; without facts there is
/// none.
pub fn facts_block(facts: &Vec<String>) -> (r: Option<String>)
    ensures
        match r {
            Some(b) => facts@.len() > 0 && b@ == FACTS_HEADER@ + joined(
                dashed(texts(facts@)),
                "\n"@,
            ),
            None => facts@.len() == 0,
        },
{
    if facts.len() == 0 {
        return None;
    }
    Some(cat2(FACTS_HEADER, with_dashes(facts).as_str()))
}

/// The place where a symbol is declared comes before another: by the path, then
/// by the signature.
pub open spec fn hit_precedes(a: (Seq<char>, Seq<char>), b: (Seq<char>, Seq<char>)) -> bool {
    path_precedes(components(a.0), components(b.0)) || (components(a.0) == components(b.0)
        && precedes(a.1, b.1))
}

/// The index of the first of the first `n` places.
pub open spec fn first_hit(hits: Seq<(Seq<char>, Seq<char>)>, n: int) -> int
    decreases n,
{
    if n <= 1 {
        0
    } else {
        let best = first_hit(hits, n - 1);
        if hit_precedes(hits[n - 1], hits[best]) {
            n - 1
        } else {
            best
        }
    }
}

fn find_first_hit(hits: &Vec<(String, String)>) -> (best: usize)
    requires
        hits@.len() > 0,
    ensures
        best < hits@.len(),
        best == first_hit(pairs_view(hits@), hits@.len() as int),
{
    let ghost hs = pairs_view(hits@);
    let mut best: usize = 0;
    let mut i: usize = 1;
    while i < hits.len()
        invariant
            1 <= i <= hits@.len(),
            best < hits@.len(),
            hs == pairs_view(hits@),
            best == first_hit(hs, i as int),
        decreases hits@.len() - i,
    {
        assert(hs[i as int] == (hits@[i as int].0@, hits@[i as int].1@));
        assert(hs[best as int] == (hits@[best as int].0@, hits@[best as int].1@));
        let a = hits[i].0.as_str();
        let b = hits[best].0.as_str();
        if path_before(a, b) {
            best = i;
        } else if !path_before(b, a) {
            proof {
                lemma_paths_total(components(a@), components(b@));
            }
            if comes_before(hits[i].1.as_str(), hits[best].1.as_str()) {
                best = i;
            }
        } else {
            proof {
                lemma_paths_total(components(a@), components(b@));
            }
        }
        i += 1;
    }
    best
}

proof fn lemma_paths_total(a: Seq<Seq<char>>, b: Seq<Seq<char>>)
    ensures
        path_precedes(a, b) || path_precedes(b, a) || a == b,
        path_precedes(a, b) ==> a != b,
    decreases a.len(),
{
    if a.len() > 0 && b.len() > 0 {
        lemma_order_total(a[0], b[0]);
        if a[0] == b[0] {
            lemma_paths_total(a.drop_first(), b.drop_first());
            assert(a =~= seq![a[0]] + a.drop_first());
            assert(b =~= seq![b[0]] + b.drop_first());
        }
    } else if a.len() == 0 && b.len() == 0 {
        assert(a =~= b);
    }
}

/// The line on a symbol, from the places where it is declared: none where there
/// are none or too many.
pub open spec fn place_line(
    root: Seq<char>,
    symbol: Seq<char>,
    hits: Seq<(Seq<char>, Seq<char>)>,
) -> Option<Seq<char>> {
    if 0 < hits.len() <= MAX_SYMBOL_DECLS {
        let (path, sig) = hits[first_hit(hits, hits.len() as int)];
        let place = "`"@ + symbol + "` → "@ + seen_from(root, path);
        Some(
            (if trimmed(sig).len() == 0 {
                place
            } else {
                place + " : `"@ + sig + "`"@
            }) + more_than_one(hits.len()),
        )
    } else {
        None
    }
}

fn place_of(root: &str, symbol: &str, hits: &Vec<(String, String)>) -> (r: Option<String>)
    ensures
        crate::checks::text_view(r) == place_line(root@, symbol@, pairs_view(hits@)),
{
    let ghost hs = pairs_view(hits@);
    assert(hs.len() == hits@.len());
    if hits.len() == 0 || hits.len() > MAX_SYMBOL_DECLS {
        return None;
    }
    let best: usize = find_first_hit(hits);
    assert(hs[best as int] == (hits@[best as int].0@, hits@[best as int].1@));
    let place = cat4("`", symbol, "` → ", rel(root, hits[best].0.as_str()).as_str());
    let sig = hits[best].1.as_str();
    let extra = more(hits.len());
    if trim(sig).as_str().is_empty() {
        Some(cat2(place.as_str(), extra.as_str()))
    } else {
        Some(cat5(place.as_str(), " : `", sig, "`", extra.as_str()))
    }
}

/// The lines on the symbols of a prompt.
pub open spec fn place_lines(
    root: Seq<char>,
    symbols: Seq<Seq<char>>,
    hits: Seq<Seq<(Seq<char>, Seq<char>)>>,
) -> Seq<Seq<char>>
    decreases symbols.len(),
{
    if symbols.len() == 0 {
        Seq::empty()
    } else {
        let before = place_lines(root, symbols.drop_last(), hits);
        match place_line(root, symbols.last(), hits[symbols.len() - 1]) {
            Some(l) => before.push(l),
            None => before,
        }
    }
}

/// The lines on the paths of a prompt: those that are present.
pub open spec fn present_lines(
    paths: Seq<Seq<char>>,
    present: Seq<bool>,
    files: Seq<Seq<char>>,
) -> Seq<Seq<char>>
    decreases paths.len(),
{
    if paths.len() == 0 {
        Seq::empty()
    } else {
        let before = present_lines(paths.drop_last(), present, files);
        if absent(present[paths.len() - 1], files, paths.last()) {
            before
        } else {
            before.push("`"@ + paths.last() + "` exists"@)
        }
    }
}

/// What some lists of pairs stand for.
pub open spec fn pair_lists(v: Seq<Vec<(String, String)>>) -> Seq<Seq<(Seq<char>, Seq<char>)>> {
    v.map_values(|l: Vec<(String, String)>| pairs_view(l@))
}

/// The lines on what a prompt names.
pub open spec fn context_lines(
    root: Seq<char>,
    refs: Refs,
    hits: Seq<Seq<(Seq<char>, Seq<char>)>>,
    present: Seq<bool>,
    files: Seq<Seq<char>>,
) -> Seq<Seq<char>> {
    capped(
        place_lines(root, texts(refs.symbols@), hits) + present_lines(
            texts(refs.paths@),
            present,
            files,
        ),
    )
}

/// What stands above the places.
pub const CONTEXT_HEADER: &'static str = "RELEVANT CODE (verified, deterministic — these are the \
real locations; go straight to them, don't search):\n";

/// The block on what a prompt names, given before the run: where its symbols are
/// declared, with the signature, and which of its paths exist. `hits` holds, for
/// each symbol, the files that declare it with the signature there; `present`
/// says of each path whether the project's directory has something under it.
pub fn prompt_context(
    root: &str,
    refs: &Refs,
    hits: &Vec<Vec<(String, String)>>,
    present: &Vec<bool>,
    files: &Vec<String>,
) -> (r: Option<String>)
    requires
        hits@.len() == refs.symbols@.len(),
        present@.len() == refs.paths@.len(),
    ensures
        ({
            let lines = context_lines(root@, *refs, pair_lists(hits@), present@, texts(files@));
            match r {
                Some(b) => lines.len() > 0 && b@ == CONTEXT_HEADER@ + joined(dashed(lines), "\n"@),
                None => lines.len() == 0,
            }
        }),
{
    let ghost ss = texts(refs.symbols@);
    let ghost ps = texts(refs.paths@);
    let ghost hs = pair_lists(hits@);
    let ghost fs = texts(files@);
    let mut lines: Vec<String> = Vec::new();
    let mut i: usize = 0;
    assert(ss.take(0) =~= Seq::empty());
    assert(texts(lines@) =~= Seq::empty());
    while i < refs.symbols.len()
        invariant
            i <= refs.symbols@.len(),
            hits@.len() == refs.symbols@.len(),
            ss == texts(refs.symbols@),
            hs == pair_lists(hits@),
            texts(lines@) == place_lines(root@, ss.take(i as int), hs),
        decreases refs.symbols@.len() - i,
    {
        assert(ss.take(i + 1).drop_last() =~= ss.take(i as int));
        assert(ss.take(i + 1).last() == refs.symbols@[i as int]@);
        assert(hs[i as int] == pairs_view(hits@[i as int]@));
        let ghost before = texts(lines@);
        if let Some(l) = place_of(root, refs.symbols[i].as_str(), &hits[i]) {
            lines.push(l);
            assert(texts(lines@) =~= before.push(l@));
        }
        i += 1;
    }
    assert(ss.take(i as int) =~= ss);
    let ghost first = texts(lines@);
    i = 0;
    assert(ps.take(0) =~= Seq::empty());
    assert(first + present_lines(ps.take(0), present@, fs) =~= first);
    while i < refs.paths.len()
        invariant
            i <= refs.paths@.len(),
            present@.len() == refs.paths@.len(),
            ps == texts(refs.paths@),
            fs == texts(files@),
            texts(lines@) == first + present_lines(ps.take(i as int), present@, fs),
        decreases refs.paths@.len() - i,
    {
        assert(ps.take(i + 1).drop_last() =~= ps.take(i as int));
        assert(ps.take(i + 1).last() == refs.paths@[i as int]@);
        let ghost before = texts(lines@);
        let p = refs.paths[i].as_str();
        if !path_is_absent(present[i], files, p) {
            let line = cat3("`", p, "` exists");
            lines.push(line);
            assert(texts(lines@) =~= before.push(line@));
            assert(before.push(line@) =~= first + present_lines(
                ps.take(i as int),
                present@,
                fs,
            ).push(line@));
        }
        i += 1;
    }
    assert(ps.take(i as int) =~= ps);
    cap_lines(&mut lines);
    assert(texts(lines@).len() == lines@.len());
    if lines.len() == 0 {
        return None;
    }
    Some(cat2(CONTEXT_HEADER, with_dashes(&lines).as_str()))
}

// ------------------------------------------------------------ laws

/// The facts never flood a turn: there are at most [`MAX_FACTS`].
pub proof fn law_facts_are_capped(lines: Seq<Seq<char>>)
    ensures
        capped(lines).len() <= MAX_FACTS,
        capped(lines).is_prefix_of(lines),
{
}

/// A symbol that is declared nowhere, or in too many files, gives no fact and no
/// line: nothing is said that is not certain.
pub proof fn law_no_fact_without_a_place(
    root: Seq<char>,
    symbols: Seq<Seq<char>>,
    declared: Seq<Seq<Seq<char>>>,
)
    requires
        declared.len() == symbols.len(),
        forall|i: int|
            0 <= i < declared.len() ==> (#[trigger] declared[i]).len() == 0 || declared[i].len()
                > MAX_SYMBOL_DECLS,
    ensures
        symbol_facts(root, symbols, declared).len() == 0,
{
    lemma_no_fact(root, symbols, declared);
}

proof fn lemma_no_fact(root: Seq<char>, symbols: Seq<Seq<char>>, declared: Seq<Seq<Seq<char>>>)
    requires
        declared.len() >= symbols.len(),
        forall|i: int|
            0 <= i < declared.len() ==> (#[trigger] declared[i]).len() == 0 || declared[i].len()
                > MAX_SYMBOL_DECLS,
    ensures
        symbol_facts(root, symbols, declared).len() == 0,
    decreases symbols.len(),
{
    if symbols.len() > 0 {
        lemma_no_fact(root, symbols.drop_last(), declared);
    }
}

/// A count that the text has right gives no fact.
pub proof fn law_right_counts_give_no_fact(counts: Seq<(nat, Seq<char>)>, actual: Seq<usize>)
    requires
        actual.len() >= counts.len(),
        forall|i: int| 0 <= i < counts.len() ==> (#[trigger] counts[i]).0 == actual[i],
    ensures
        count_facts(counts, actual).len() == 0,
    decreases counts.len(),
{
    if counts.len() > 0 {
        law_right_counts_give_no_fact(counts.drop_last(), actual);
    }
}

/// A path that some file of the project ends in is never called absent.
pub proof fn law_present_paths_are_not_called_absent(
    exists_there: bool,
    files: Seq<Seq<char>>,
    path: Seq<char>,
    i: int,
)
    requires
        0 <= i < files.len(),
        ends(files[i], path),
    ensures
        !absent(exists_there, files, path),
{
}

/// No path and no symbol is named twice.
pub proof fn law_references_are_distinct(tokens: Seq<TokenV>)
    ensures
        symbols_in(tokens).no_duplicates(),
        paths_in(tokens).no_duplicates(),
    decreases tokens.len(),
{
    if tokens.len() > 0 {
        law_references_are_distinct(tokens.drop_last());
    }
}

proof fn lemma_named_is_listed(tokens: Seq<TokenV>, i: int)
    requires
        0 <= i < tokens.len(),
    ensures
        symbol_of(tokens[i]) matches Some(t) ==> symbols_in(tokens).contains(t),
        path_of(tokens[i]) matches Some(t) ==> paths_in(tokens).contains(t),
    decreases tokens.len(),
{
    let front = tokens.drop_last();
    if i < front.len() {
        lemma_named_is_listed(front, i);
        assert(front[i] == tokens[i]);
        if let Some(t) = symbol_of(tokens[i]) {
            if let Some(last) = symbol_of(tokens.last()) {
                lemma_with_new_keeps(symbols_in(front), last, t);
            }
        }
        if let Some(t) = path_of(tokens[i]) {
            if let Some(last) = path_of(tokens.last()) {
                lemma_with_new_keeps(paths_in(front), last, t);
            }
        }
    } else {
        if let Some(t) = symbol_of(tokens.last()) {
            lemma_with_new_keeps(symbols_in(front), t, t);
        }
        if let Some(t) = path_of(tokens.last()) {
            lemma_with_new_keeps(paths_in(front), t, t);
        }
    }
}

proof fn lemma_with_new_keeps(list: Seq<Seq<char>>, new: Seq<char>, t: Seq<char>)
    requires
        list.contains(t) || t == new,
    ensures
        with_new(list, new).contains(t),
{
    if list.contains(t) {
        let k = choose|k: int| 0 <= k < list.len() && list[k] == t;
        assert(with_new(list, new)[k] == t);
    } else {
        assert(list.push(new)[list.len() as int] == t);
    }
}

proof fn lemma_known_tokens_add_nothing(tokens: Seq<TokenV>, more: Seq<TokenV>)
    requires
        forall|i: int| 0 <= i < more.len() ==> tokens.contains(#[trigger] more[i]),
    ensures
        symbols_in(tokens + more) == symbols_in(tokens),
        paths_in(tokens + more) == paths_in(tokens),
    decreases more.len(),
{
    if more.len() == 0 {
        assert(tokens + more =~= tokens);
    } else {
        let front = more.drop_last();
        assert forall|i: int| 0 <= i < front.len() implies tokens.contains(#[trigger] front[i]) by {
            assert(front[i] == more[i]);
        }
        lemma_known_tokens_add_nothing(tokens, front);
        assert((tokens + more).drop_last() =~= tokens + front);
        assert(tokens.contains(more[more.len() - 1]));
        let k = choose|k: int| 0 <= k < tokens.len() && tokens[k] == more.last();
        lemma_named_is_listed(tokens, k);
    }
}

proof fn lemma_claimed_twice(
    matches: Seq<(Seq<char>, Seq<char>)>,
    number_first: bool,
    c: (nat, Seq<char>),
)
    ensures
        claimed(matches + matches, number_first, c) == claimed(matches, number_first, c),
{
    let both = matches + matches;
    if claimed(matches, number_first, c) {
        let i = choose|i: int|
            0 <= i < matches.len() && #[trigger] claim_of(matches[i], number_first) == Some(c);
        assert(both[i] == matches[i]);
        assert(claim_of(both[i], number_first) == Some(c));
    }
    if claimed(both, number_first, c) {
        let i = choose|i: int|
            0 <= i < both.len() && #[trigger] claim_of(both[i], number_first) == Some(c);
        let j = if i < matches.len() {
            i
        } else {
            i - matches.len()
        };
        assert(both[i] == matches[j]);
        assert(claim_of(matches[j], number_first) == Some(c));
    }
}

proof fn lemma_count_before_itself(a: (nat, Seq<char>))
    ensures
        !count_precedes(a, a),
{
    lemma_order_irreflexive(a.1);
}

proof fn lemma_same_counts(a: Seq<(nat, Seq<char>)>, b: Seq<(nat, Seq<char>)>)
    requires
        counts_ascend(a),
        counts_ascend(b),
        forall|x: (nat, Seq<char>)| #[trigger] a.contains(x) <==> b.contains(x),
    ensures
        a == b,
    decreases a.len(),
{
    if a.len() == 0 {
        if b.len() > 0 {
            assert(b.contains(b[0]));
            assert(a.contains(b[0]));
        }
        assert(a =~= b);
    } else {
        assert(a.contains(a[0]));
        assert(b.contains(a[0]));
        let j = choose|j: int| 0 <= j < b.len() && b[j] == a[0];
        assert(b.contains(b[0]));
        assert(a.contains(b[0]));
        let i = choose|i: int| 0 <= i < a.len() && a[i] == b[0];
        if j > 0 {
            assert(count_precedes(b[0], b[j]));
            if i > 0 {
                assert(count_precedes(a[0], a[i]));
                lemma_counts_transitive(a[0], b[0], a[0]);
            }
            lemma_count_before_itself(a[0]);
        }
        assert(a[0] == b[0]);
        let (x, y) = (a.drop_first(), b.drop_first());
        lemma_behind_the_first(a);
        lemma_behind_the_first(b);
        assert forall|c: (nat, Seq<char>)| #[trigger] x.contains(c) <==> y.contains(c) by {
            assert(a.contains(c) <==> b.contains(c));
        }
        lemma_same_counts(x, y);
        assert(a =~= seq![a[0]] + x);
        assert(b =~= seq![b[0]] + y);
    }
}

proof fn lemma_behind_the_first(a: Seq<(nat, Seq<char>)>)
    requires
        a.len() > 0,
        counts_ascend(a),
    ensures
        counts_ascend(a.drop_first()),
        forall|c: (nat, Seq<char>)| #[trigger]
            a.drop_first().contains(c) <==> a.contains(c) && c != a[0],
{
    let x = a.drop_first();
    assert forall|i: int, j: int| 0 <= i < j < x.len() implies count_precedes(
        #[trigger] x[i],
        #[trigger] x[j],
    ) by {
        assert(count_precedes(a[i + 1], a[j + 1]));
    }
    assert forall|c: (nat, Seq<char>)| #[trigger] x.contains(c) <==> a.contains(c) && c != a[0] by {
        if x.contains(c) {
            let k = choose|k: int| 0 <= k < x.len() && x[k] == c;
            assert(a[k + 1] == c);
            assert(count_precedes(a[0], a[k + 1]));
            lemma_count_before_itself(c);
        }
        if a.contains(c) && c != a[0] {
            let k = choose|k: int| 0 <= k < a.len() && a[k] == c;
            assert(x[k - 1] == c);
        }
    }
}

/// What is named again adds nothing: where the patterns find in a text twice over
/// what they find in another, the references of the two are the same, in the same
/// order.
pub proof fn law_repeated_matches_add_nothing(
    r: Refs,
    again: Refs,
    draft: Seq<char>,
    repeated: Seq<char>,
)
    requires
        gathered(
            r,
            regex_groups(COUNT_PLURAL@, draft),
            regex_groups(COUNT_CUE_PRE@, draft),
            regex_groups(COUNT_CUE_POST@, draft),
            tokens_of(draft),
        ),
        gathered(
            again,
            regex_groups(COUNT_PLURAL@, repeated),
            regex_groups(COUNT_CUE_PRE@, repeated),
            regex_groups(COUNT_CUE_POST@, repeated),
            tokens_of(repeated),
        ),
        forall|p: Seq<char>|
            p == COUNT_PLURAL@ || p == COUNT_CUE_PRE@ || p == COUNT_CUE_POST@ || p == BACKTICK@
                ==> #[trigger] regex_groups(p, repeated) == regex_groups(p, draft) + regex_groups(
                p,
                draft,
            ),
    ensures
        texts(again.paths@) == texts(r.paths@),
        texts(again.symbols@) == texts(r.symbols@),
        count_views(again.counts@) == count_views(r.counts@),
{
    let tokens = tokens_of(draft);
    let f = |m: (Seq<char>, Seq<char>)| token_of(m.0);
    let spans = regex_groups(BACKTICK@, draft);
    assert(regex_groups(BACKTICK@, repeated) == spans + spans);
    assert(tokens_of(repeated) =~= tokens + tokens) by {
        assert((spans + spans).map_values(f) =~= spans.map_values(f) + spans.map_values(f));
    }
    assert forall|i: int| 0 <= i < tokens.len() implies tokens.contains(#[trigger] tokens[i]) by {}
    lemma_known_tokens_add_nothing(tokens, tokens);
    let (a, b) = (count_views(r.counts@), count_views(again.counts@));
    assert forall|x: (nat, Seq<char>)| #[trigger] a.contains(x) <==> b.contains(x) by {
        lemma_claimed_twice(regex_groups(COUNT_PLURAL@, draft), true, x);
        lemma_claimed_twice(regex_groups(COUNT_CUE_PRE@, draft), true, x);
        lemma_claimed_twice(regex_groups(COUNT_CUE_POST@, draft), false, x);
        assert(regex_groups(COUNT_PLURAL@, repeated) == regex_groups(COUNT_PLURAL@, draft)
            + regex_groups(COUNT_PLURAL@, draft));
    }
    lemma_same_counts(a, b);
}

// ------------------------------------------------------------ what the facts say

/// How many of the claimed counts are wrong.
pub open spec fn wrong_counts(counts: Seq<(nat, Seq<char>)>, actual: Seq<usize>) -> nat
    decreases counts.len(),
{
    if counts.len() == 0 {
        0
    } else {
        let last = counts.len() - 1;
        wrong_counts(counts.drop_last(), actual) + (if counts[last].0 < actual[last]
            || actual[last] < counts[last].0 {
            1nat
        } else {
            0
        })
    }
}

/// What is said of a name that occurs another number of times than was claimed.
pub open spec fn correction(name: Seq<char>, found: nat, claim: nat) -> Seq<char> {
    "`"@ + name + "` occurs "@ + decimal(found) + " times in the project (you wrote "@ + decimal(
        claim,
    ) + ")"@
}

/// A wrong count is always corrected, be it too high or too low: there is a line
/// with the name and both numbers for each, and none for any other.
pub proof fn law_wrong_counts_are_corrected(
    counts: Seq<(nat, Seq<char>)>,
    actual: Seq<usize>,
    i: int,
)
    requires
        actual.len() >= counts.len(),
    ensures
        count_facts(counts, actual).len() == wrong_counts(counts, actual),
        0 <= i < counts.len() && counts[i].0 != actual[i] ==> count_facts(
            counts,
            actual,
        ).contains(correction(counts[i].1, actual[i] as nat, counts[i].0)),
        forall|l: int|
            0 <= l < count_facts(counts, actual).len() ==> exists|k: int|
                0 <= k < counts.len() && counts[k].0 != actual[k] && #[trigger] count_facts(
                    counts,
                    actual,
                )[l] == correction(#[trigger] counts[k].1, actual[k] as nat, counts[k].0),
    decreases counts.len(),
{
    let facts = count_facts(counts, actual);
    if counts.len() > 0 {
        let front = counts.drop_last();
        let last = counts.len() - 1;
        let before = count_facts(front, actual);
        law_wrong_counts_are_corrected(front, actual, i);
        let line = correction(counts[last].1, actual[last] as nat, counts[last].0);
        if 0 <= i < counts.len() && counts[i].0 != actual[i] {
            let wanted = correction(counts[i].1, actual[i] as nat, counts[i].0);
            if i < last {
                assert(front[i] == counts[i]);
                let k = choose|k: int| 0 <= k < before.len() && before[k] == wanted;
                assert(facts[k] == wanted);
            } else {
                assert(facts[facts.len() - 1] == line);
            }
        }
        assert forall|l: int| 0 <= l < facts.len() implies exists|k: int|
            0 <= k < counts.len() && counts[k].0 != actual[k] && #[trigger] facts[l] == correction(
                #[trigger] counts[k].1,
                actual[k] as nat,
                counts[k].0,
            ) by {
            if l < before.len() {
                assert(facts[l] == before[l]);
                let k = choose|k: int|
                    0 <= k < front.len() && front[k].0 != actual[k] && before[l] == correction(
                        #[trigger] front[k].1,
                        actual[k] as nat,
                        front[k].0,
                    );
                assert(front[k] == counts[k]);
                assert(facts[l] == correction(counts[k].1, actual[k] as nat, counts[k].0));
            } else {
                assert(facts[l] == correction(counts[last].1, actual[last] as nat, counts[last].0));
            }
        }
    }
}

/// How many of the named paths are missing.
pub open spec fn missing_paths(
    paths: Seq<Seq<char>>,
    present: Seq<bool>,
    files: Seq<Seq<char>>,
) -> nat
    decreases paths.len(),
{
    if paths.len() == 0 {
        0
    } else {
        let last = paths.len() - 1;
        missing_paths(paths.drop_last(), present, files) + (if is_missing(
            present[last],
            files,
            paths[last],
        ) {
            1nat
        } else {
            0
        })
    }
}

/// Nothing stands under the path, and no file ends in it, neither by its text nor by
/// its components.
pub open spec fn is_missing(there: bool, files: Seq<Seq<char>>, path: Seq<char>) -> bool {
    !there && !(exists|f: int|
        0 <= f < files.len() && (ends(#[trigger] files[f], path) || closes_with(files[f], path)))
}

/// A path that the project lacks is always called out, and no other is; a path that
/// it has is told to exist, and no other is.
pub proof fn law_missing_paths_are_called_out(
    paths: Seq<Seq<char>>,
    present: Seq<bool>,
    files: Seq<Seq<char>>,
    i: int,
)
    requires
        present.len() >= paths.len(),
    ensures
        path_facts(paths, present, files).len() == missing_paths(paths, present, files),
        path_facts(paths, present, files).len() + present_lines(paths, present, files).len()
            == paths.len(),
        0 <= i < paths.len() && is_missing(present[i], files, paths[i]) ==> path_facts(
            paths,
            present,
            files,
        ).contains("path `"@ + paths[i] + "` is not a current file in the project"@),
        0 <= i < paths.len() && !is_missing(present[i], files, paths[i]) ==> present_lines(
            paths,
            present,
            files,
        ).contains("`"@ + paths[i] + "` exists"@),
    decreases paths.len(),
{
    if paths.len() > 0 {
        let front = paths.drop_last();
        let last = paths.len() - 1;
        law_missing_paths_are_called_out(front, present, files, i);
        assert(absent(present[last], files, paths[last]) == is_missing(
            present[last],
            files,
            paths[last],
        ));
        let (a, b) = (path_facts(front, present, files), path_facts(paths, present, files));
        let (c, d) = (present_lines(front, present, files), present_lines(paths, present, files));
        if 0 <= i < last {
            assert(front[i] == paths[i]);
            let gone = "path `"@ + paths[i] + "` is not a current file in the project"@;
            let there = "`"@ + paths[i] + "` exists"@;
            if is_missing(present[i], files, paths[i]) {
                let k = choose|k: int| 0 <= k < a.len() && a[k] == gone;
                assert(b[k] == gone);
            } else {
                let k = choose|k: int| 0 <= k < c.len() && c[k] == there;
                assert(d[k] == there);
            }
        } else if i == last {
            if is_missing(present[i], files, paths[i]) {
                assert(b[b.len() - 1] == b.last());
            } else {
                assert(d[d.len() - 1] == d.last());
            }
        }
    }
}

/// A symbol with one to five declarations is given its place: the first of them,
/// as seen from the root, and how many others there are.
pub proof fn law_declared_symbols_are_placed(
    root: Seq<char>,
    symbols: Seq<Seq<char>>,
    declared: Seq<Seq<Seq<char>>>,
    i: int,
)
    requires
        declared.len() >= symbols.len(),
        0 <= i < symbols.len(),
        1 <= declared[i].len() <= 5,
    ensures
        ({
            let place = "`"@ + symbols[i] + "` is defined in "@ + seen_from(root, declared[i][0]);
            symbol_facts(root, symbols, declared).contains(
                if declared[i].len() == 1 {
                    place
                } else {
                    place + " (+"@ + decimal((declared[i].len() - 1) as nat) + " more)"@
                },
            )
        }),
        symbol_facts(root, symbols, declared).len() <= symbols.len(),
    decreases symbols.len(),
{
    let facts = symbol_facts(root, symbols, declared);
    let place = "`"@ + symbols[i] + "` is defined in "@ + seen_from(root, declared[i][0]);
    let wanted = if declared[i].len() == 1 {
        place
    } else {
        place + " (+"@ + decimal((declared[i].len() - 1) as nat) + " more)"@
    };
    let front = symbols.drop_last();
    lemma_symbol_facts_len(root, symbols, declared);
    if i < symbols.len() - 1 {
        law_declared_symbols_are_placed(root, front, declared, i);
        let before = symbol_facts(root, front, declared);
        assert(front[i] == symbols[i]);
        let k = choose|k: int| 0 <= k < before.len() && before[k] == wanted;
        assert(facts[k] == wanted);
    } else {
        assert(facts[facts.len() - 1] =~= wanted);
    }
}

proof fn lemma_symbol_facts_len(
    root: Seq<char>,
    symbols: Seq<Seq<char>>,
    declared: Seq<Seq<Seq<char>>>,
)
    ensures
        symbol_facts(root, symbols, declared).len() <= symbols.len(),
    decreases symbols.len(),
{
    if symbols.len() > 0 {
        lemma_symbol_facts_len(root, symbols.drop_last(), declared);
    }
}

/// Up to twenty facts are all stated, in their order; of more, the first twenty.
pub proof fn law_few_facts_are_all_stated(lines: Seq<Seq<char>>)
    ensures
        lines.len() <= 20 ==> capped(lines) == lines,
        lines.len() > 20 ==> capped(lines).len() == 20,
        forall|i: int| 0 <= i < capped(lines).len() ==> #[trigger] capped(lines)[i] == lines[i],
{
}

proof fn lemma_joined_holds(parts: Seq<Seq<char>>, sep: Seq<char>, i: int)
    requires
        0 <= i < parts.len(),
    ensures
        holds(joined(parts, sep), parts[i]),
    decreases parts.len(),
{
    let all = joined(parts, sep);
    let wanted = parts[i];
    if parts.len() == 1 {
        assert(all.subrange(0, wanted.len() as int) =~= wanted);
        assert(crate::text::occurs_at(all, wanted, 0));
    } else if i == parts.len() - 1 {
        let at = all.len() - wanted.len();
        assert(all.subrange(at, at + wanted.len()) =~= wanted);
        assert(crate::text::occurs_at(all, wanted, at));
    } else {
        let front = joined(parts.drop_last(), sep);
        lemma_joined_holds(parts.drop_last(), sep, i);
        let at = choose|at: int| crate::text::occurs_at(front, wanted, at);
        assert(all.subrange(at, at + wanted.len()) =~= front.subrange(at, at + wanted.len()));
        assert(crate::text::occurs_at(all, wanted, at));
    }
}

/// Every line of a block stands in it, behind a dash.
pub proof fn law_every_line_is_in_the_block(lines: Seq<Seq<char>>, i: int)
    requires
        0 <= i < lines.len(),
    ensures
        holds(joined(dashed(lines), "\n"@), "- "@ + lines[i]),
{
    lemma_joined_holds(dashed(lines), "\n"@, i);
}

/// A symbol is placed where it is declared first, by path and then by signature, and
/// the line tells it.
pub proof fn law_first_place_is_told(
    root: Seq<char>,
    symbol: Seq<char>,
    hits: Seq<(Seq<char>, Seq<char>)>,
    k: int,
)
    ensures
        place_line(root, symbol, hits) is Some <==> 1 <= hits.len() <= 5,
        0 <= k < hits.len() <= 5 ==> exists|f: int|
            0 <= f < hits.len() && !hit_precedes(hits[k], #[trigger] hits[f]) && begins(
                place_line(root, symbol, hits)->0,
                "`"@ + symbol + "` → "@ + seen_from(root, hits[f].0),
            ) && (trimmed(hits[f].1).len() > 0 ==> holds(
                place_line(root, symbol, hits)->0,
                " : `"@ + hits[f].1 + "`"@,
            )) && (hits.len() > 1 ==> ends(
                place_line(root, symbol, hits)->0,
                " (+"@ + decimal((hits.len() - 1) as nat) + " more)"@,
            )),
{
    if 0 <= k < hits.len() <= 5 {
        let n = hits.len() as int;
        lemma_first_hit(hits, n, k);
        let f = first_hit(hits, n);
        let line = place_line(root, symbol, hits)->0;
        let place = "`"@ + symbol + "` → "@ + seen_from(root, hits[f].0);
        assert(line.subrange(0, place.len() as int) =~= place);
        let sig = " : `"@ + hits[f].1 + "`"@;
        let at = place.len() as int;
        if trimmed(hits[f].1).len() > 0 {
            assert(line.subrange(at, at + sig.len()) =~= sig);
            assert(crate::text::occurs_at(line, sig, at));
        }
        if n > 1 {
            let more = " (+"@ + decimal((n - 1) as nat) + " more)"@;
            assert(line.subrange(line.len() - more.len(), line.len() as int) =~= more);
        }
    }
}

proof fn lemma_path_order_transitive(a: Seq<Seq<char>>, b: Seq<Seq<char>>, c: Seq<Seq<char>>)
    requires
        path_precedes(a, b),
        path_precedes(b, c),
    ensures
        path_precedes(a, c),
    decreases a.len(),
{
    if a.len() > 0 && b.len() > 0 && c.len() > 0 {
        if a[0] == b[0] && b[0] == c[0] {
            lemma_path_order_transitive(a.drop_first(), b.drop_first(), c.drop_first());
        } else if a[0] == b[0] || b[0] == c[0] {
        } else {
            lemma_order_transitive(a[0], b[0], c[0]);
            lemma_order_irreflexive(a[0]);
        }
    }
}

proof fn lemma_hit_order(
    a: (Seq<char>, Seq<char>),
    b: (Seq<char>, Seq<char>),
    c: (Seq<char>, Seq<char>),
)
    ensures
        hit_precedes(a, b) && hit_precedes(b, c) ==> hit_precedes(a, c),
        !hit_precedes(a, a),
{
    lemma_paths_total(components(a.0), components(a.0));
    lemma_order_irreflexive(a.1);
    if hit_precedes(a, b) && hit_precedes(b, c) {
        let (x, y, z) = (components(a.0), components(b.0), components(c.0));
        if path_precedes(x, y) && path_precedes(y, z) {
            lemma_path_order_transitive(x, y, z);
        } else if x == y && y == z && !path_precedes(x, y) && !path_precedes(y, z) {
            lemma_order_transitive(a.1, b.1, c.1);
        }
    }
}

proof fn lemma_first_hit(hits: Seq<(Seq<char>, Seq<char>)>, n: int, k: int)
    requires
        0 <= k < n <= hits.len(),
    ensures
        0 <= first_hit(hits, n) < n,
        !hit_precedes(hits[k], hits[first_hit(hits, n)]),
    decreases n,
{
    let now = first_hit(hits, n);
    if n > 1 {
        lemma_first_hit(hits, n - 1, if k < n - 1 {
            k
        } else {
            0
        });
        let best = first_hit(hits, n - 1);
        lemma_hit_order(hits[k], hits[now], hits[best]);
        lemma_hit_order(hits[n - 1], hits[k], hits[best]);
    } else {
        lemma_hit_order(hits[0], hits[0], hits[0]);
    }
}

/// Every word in backticks that is the name of a symbol is looked up as one, and
/// every other that spells a path is looked up as that, unless it is a glob, an
/// address or absolute; nothing else is looked up.
pub proof fn law_named_things_are_looked_up(tokens: Seq<TokenV>, i: int)
    ensures
        0 <= i < tokens.len() && one_word(tokens[i].text) ==> {
            let t = tokens[i];
            &&& t.is_name ==> symbols_in(tokens).contains(t.text)
            &&& !t.is_name && !t.text.contains('*') && !t.text.contains('?') && !holds(
                t.text,
                "://"@,
            ) && !begins(t.text, "/"@) && t.path is Some && path_like(t.path->0)
                ==> paths_in(tokens).contains(t.path->0)
        },
        forall|x: Seq<char>| #[trigger]
            symbols_in(tokens).contains(x) ==> exists|k: int|
                0 <= k < tokens.len() && (#[trigger] tokens[k]).text == x && tokens[k].is_name
                    && one_word(x),
        forall|x: Seq<char>| #[trigger]
            paths_in(tokens).contains(x) ==> exists|k: int|
                0 <= k < tokens.len() && (#[trigger] tokens[k]).path == Some(x)
                    && !tokens[k].is_name && one_word(tokens[k].text) && path_like(x)
                    && !tokens[k].text.contains('*') && !tokens[k].text.contains('?') && !holds(
                    tokens[k].text,
                    "://"@,
                ) && !begins(tokens[k].text, "/"@),
    decreases tokens.len(),
{
    if 0 <= i < tokens.len() {
        lemma_named_is_listed(tokens, i);
    }
    if tokens.len() > 0 {
        let front = tokens.drop_last();
        let last = tokens.len() - 1;
        law_named_things_are_looked_up(front, 0);
        assert forall|x: Seq<char>| #[trigger] symbols_in(tokens).contains(x) implies exists|k: int|
            0 <= k < tokens.len() && (#[trigger] tokens[k]).text == x && tokens[k].is_name
                && one_word(x) by {
            if symbols_in(front).contains(x) {
                let k = choose|k: int|
                    0 <= k < front.len() && (#[trigger] front[k]).text == x && front[k].is_name
                        && one_word(x);
                assert(tokens[k] == front[k]);
            } else {
                lemma_new_is_last(symbols_in(front), tokens, symbol_of(tokens.last()), x);
                assert(tokens[last].text == x);
            }
        }
        assert forall|x: Seq<char>| #[trigger] paths_in(tokens).contains(x) implies exists|k: int|
            0 <= k < tokens.len() && (#[trigger] tokens[k]).path == Some(x) && !tokens[k].is_name
                && one_word(tokens[k].text) && path_like(x) && !tokens[k].text.contains('*')
                && !tokens[k].text.contains('?') && !holds(tokens[k].text, "://"@) && !begins(
                tokens[k].text,
                "/"@,
            ) by {
            if paths_in(front).contains(x) {
                let k = choose|k: int|
                    0 <= k < front.len() && (#[trigger] front[k]).path == Some(x)
                        && !front[k].is_name && one_word(front[k].text) && path_like(x)
                        && !front[k].text.contains('*') && !front[k].text.contains('?') && !holds(
                        front[k].text,
                        "://"@,
                    ) && !begins(front[k].text, "/"@);
                assert(tokens[k] == front[k]);
            } else {
                lemma_new_is_last(paths_in(front), tokens, path_of(tokens.last()), x);
                assert(tokens[last].path == Some(x));
            }
        }
    }
}

proof fn lemma_new_is_last(
    list: Seq<Seq<char>>,
    tokens: Seq<TokenV>,
    new: Option<Seq<char>>,
    x: Seq<char>,
)
    requires
        !list.contains(x),
        (match new {
            Some(t) => with_new(list, t),
            None => list,
        }).contains(x),
    ensures
        new == Some(x),
{
    let t = new->0;
    let after = with_new(list, t);
    let k = choose|k: int| 0 <= k < after.len() && after[k] == x;
    if k < list.len() {
        assert(list[k] == x);
    }
}

proof fn lemma_placed(
    root: Seq<char>,
    symbols: Seq<Seq<char>>,
    hits: Seq<Seq<(Seq<char>, Seq<char>)>>,
    i: int,
)
    requires
        0 <= i < symbols.len() <= hits.len(),
        place_line(root, symbols[i], hits[i]) is Some,
    ensures
        place_lines(root, symbols, hits).contains(place_line(root, symbols[i], hits[i])->0),
    decreases symbols.len(),
{
    let all = place_lines(root, symbols, hits);
    let l = place_line(root, symbols[i], hits[i])->0;
    if i == symbols.len() - 1 {
        assert(all[all.len() - 1] == l);
    } else {
        lemma_placed(root, symbols.drop_last(), hits, i);
        let before = place_lines(root, symbols.drop_last(), hits);
        let k = choose|k: int| 0 <= k < before.len() && before[k] == l;
        assert(all[k] == l);
    }
}

/// Every symbol that is declared in few enough places is placed in what the model is told
/// beforehand, as long as there are no more facts than fit.
pub proof fn law_context_places_the_symbols(
    root: Seq<char>,
    refs: Refs,
    hits: Seq<Seq<(Seq<char>, Seq<char>)>>,
    present: Seq<bool>,
    files: Seq<Seq<char>>,
    i: int,
)
    requires
        0 <= i < refs.symbols@.len() <= hits.len(),
        1 <= hits[i].len() <= 5,
        place_lines(root, texts(refs.symbols@), hits).len() <= 20,
    ensures
        ({
            let told = context_lines(root, refs, hits, present, files);
            exists|k: int|
                0 <= k < told.len() && begins(#[trigger] told[k], "`"@ + refs.symbols@[i]@ + "` → "@)
        }),
{
    let symbols = texts(refs.symbols@);
    let placed = place_lines(root, symbols, hits);
    let all = placed + present_lines(texts(refs.paths@), present, files);
    lemma_placed(root, symbols, hits, i);
    law_first_place_is_told(root, symbols[i], hits[i], 0);
    let l = place_line(root, symbols[i], hits[i])->0;
    let k = choose|k: int| 0 <= k < placed.len() && placed[k] == l;
    law_few_facts_are_all_stated(all);
    let told = context_lines(root, refs, hits, present, files);
    assert(told[k] == l);
    let lead = "`"@ + symbols[i] + "` → "@;
    let f = choose|f: int|
        0 <= f < hits[i].len() && !hit_precedes(hits[i][0], #[trigger] hits[i][f]) && begins(
            l,
            "`"@ + symbols[i] + "` → "@ + seen_from(root, hits[i][f].0),
        ) && (trimmed(hits[i][f].1).len() > 0 ==> holds(l, " : `"@ + hits[i][f].1 + "`"@)) && (
        hits[i].len() > 1 ==> ends(
            l,
            " (+"@ + decimal((hits[i].len() - 1) as nat) + " more)"@,
        ));
    let long = lead + seen_from(root, hits[i][f].0);
    assert(long.subrange(0, lead.len() as int) =~= lead);
    assert(l.subrange(0, lead.len() as int) =~= l.subrange(0, long.len() as int).subrange(
        0,
        lead.len() as int,
    ));
    assert(begins(told[k], lead));
}

} // verus!
