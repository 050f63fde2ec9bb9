//! Switching features off, for measuring what they are worth.
//!
//! The setting `SIRBONE_DISABLE` is a list of `kind:name`, separated by commas;
//! the name `*` stands for every name of its kind. `SIRBONE_TOOLS` is a list of
//! the only tools there are. Both are handed in as they stand in the
//! environment: `None` where they are not set.
use vstd::prelude::*;
use crate::text::{law_parting_cuts_at_the_first, parted, same, split, split_on, split_once, texts, trim, trimmed};

verus! {

/// One entry of the list names `kind:name`, or `kind:*` where that counts.
pub open spec fn entry_matches(
    entry: Seq<char>,
    kind: Seq<char>,
    name: Seq<char>,
    wildcard: bool,
) -> bool {
    match parted(trimmed(entry), ':') {
        Some((k, n)) => trimmed(k) == kind && (trimmed(n) == name || (wildcard && trimmed(n)
            == "*"@)),
        None => false,
    }
}

/// The list names `kind:name`, or `kind:*` where that counts.
pub open spec fn listed(spec: Seq<char>, kind: Seq<char>, name: Seq<char>, wildcard: bool) -> bool {
    exists|i: int|
        0 <= i < split_on(spec, ',').len() && entry_matches(
            #[trigger] split_on(spec, ',')[i],
            kind,
            name,
            wildcard,
        )
}

/// A setting that may not be set names `kind:name` or `kind:*`.
pub open spec fn off(setting: Option<&str>, kind: Seq<char>, name: Seq<char>) -> bool {
    setting is Some && listed(setting->0@, kind, name, true)
}

/// Decides [`listed`].
pub fn spec_matches(spec: &str, kind: &str, name: &str, wildcard: bool) -> (b: bool)
    ensures
        b == listed(spec@, kind@, name@, wildcard),
{
    let entries = split(spec, ',');
    let ghost es = split_on(spec@, ',');
    let mut i: usize = 0;
    while i < entries.len()
        invariant
            i <= entries@.len(),
            es == texts(entries@),
            es == split_on(spec@, ','),
            forall|k: int|
                0 <= k < i ==> !entry_matches(#[trigger] es[k], kind@, name@, wildcard),
        decreases entries@.len() - i,
    {
        assert(es[i as int] == entries@[i as int]@);
        let entry = trim(entries[i].as_str());
        if let Some((k, n)) = split_once(entry.as_str(), ':') {
            let k = trim(k.as_str());
            let n = trim(n.as_str());
            if same(k.as_str(), kind) && (same(n.as_str(), name) || (wildcard && same(
                n.as_str(),
                "*",
            ))) {
                assert(entry_matches(es[i as int], kind@, name@, wildcard));
                return true;
            }
        }
        i += 1;
    }
    false
}

/// Decides whether the list names `kind:name` or `kind:*`.
pub fn spec_has(spec: &str, kind: &str, name: &str) -> (b: bool)
    ensures
        b == listed(spec@, kind@, name@, true),
{
    spec_matches(spec, kind, name, true)
}

/// A list of allowed names allows `name`; an empty list allows every name.
pub open spec fn allowed(spec: Seq<char>, name: Seq<char>) -> bool {
    trimmed(spec).len() == 0 || exists|i: int|
        0 <= i < split_on(spec, ',').len() && trimmed(#[trigger] split_on(spec, ',')[i]) == name
}

/// Decides [`allowed`].
pub fn spec_allows(spec: &str, name: &str) -> (b: bool)
    ensures
        b == allowed(spec@, name@),
{
    if trim(spec).as_str().is_empty() {
        return true;
    }
    let entries = split(spec, ',');
    let ghost es = split_on(spec@, ',');
    let mut i: usize = 0;
    while i < entries.len()
        invariant
            i <= entries@.len(),
            es == texts(entries@),
            es == split_on(spec@, ','),
            forall|k: int| 0 <= k < i ==> trimmed(#[trigger] es[k]) != name@,
        decreases entries@.len() - i,
    {
        assert(es[i as int] == entries@[i as int]@);
        if same(trim(entries[i].as_str()).as_str(), name) {
            assert(trimmed(es[i as int]) == name@);
            return true;
        }
        i += 1;
    }
    false
}

fn setting_has(setting: Option<&str>, kind: &str, name: &str) -> (b: bool)
    ensures
        b == off(setting, kind@, name@),
{
    match setting {
        Some(spec) => spec_has(spec, kind, name),
        None => false,
    }
}

/// Whether a tool must not be registered: it is switched off, or it is missing
/// from a list of allowed tools.
pub fn disabled_tool(disable: Option<&str>, tools: Option<&str>, name: &str) -> (b: bool)
    ensures
        b == (off(disable, "tool"@, name@) || (tools is Some && !allowed(tools->0@, name@))),
{
    setting_has(disable, "tool", name) || match tools {
        Some(spec) => !spec_allows(spec, name),
        None => false,
    }
}

/// Whether a skill is hidden.
pub fn disabled_skill(disable: Option<&str>, name: &str) -> (b: bool)
    ensures
        b == off(disable, "skill"@, name@),
{
    setting_has(disable, "skill", name)
}

/// Whether a kind of hook is switched off.
pub fn disabled_hook(disable: Option<&str>, name: &str) -> (b: bool)
    ensures
        b == off(disable, "hook"@, name@),
{
    setting_has(disable, "hook", name)
}

/// Whether several questions at once may be asked: opted in, and not switched
/// off.
pub fn ask_rounds_enabled(opted_in: bool, disable: Option<&str>) -> (b: bool)
    ensures
        b == (opted_in && !off(disable, "ask"@, "rounds"@)),
{
    opted_in && !setting_has(disable, "ask", "rounds")
}

/// Whether the named block of the system prompt is left out.
pub fn disabled_prompt(disable: Option<&str>, name: &str) -> (b: bool)
    ensures
        b == off(disable, "prompt"@, name@),
{
    setting_has(disable, "prompt", name)
}

/// Whether the named block of the system prompt is left out by its own name;
/// `prompt:*` does not count. This is for what the user wrote.
pub fn disabled_prompt_exact(disable: Option<&str>, name: &str) -> (b: bool)
    ensures
        b == (disable is Some && listed(disable->0@, "prompt"@, name@, false)),
{
    match disable {
        Some(spec) => spec_matches(spec, "prompt", name, false),
        None => false,
    }
}

/// Whether the oracle no longer decides on the end of a run (`oracle:gate`).
pub fn oracle_gate_disabled(disable: Option<&str>) -> (b: bool)
    ensures
        b == off(disable, "oracle"@, "gate"@),
{
    setting_has(disable, "oracle", "gate")
}

/// Whether truncated tool output is no longer written to a file (`tool:spill`).
pub fn spill_disabled(disable: Option<&str>) -> (b: bool)
    ensures
        b == off(disable, "tool"@, "spill"@),
{
    setting_has(disable, "tool", "spill")
}

/// Whether the structural reading of files is switched off (`read:outline`).
pub fn read_outline_disabled(disable: Option<&str>) -> (b: bool)
    ensures
        b == off(disable, "read"@, "outline"@),
{
    setting_has(disable, "read", "outline")
}

/// Whether lines are read and patched without their tags (`patch:anchors`).
pub fn patch_anchors_disabled(disable: Option<&str>) -> (b: bool)
    ensures
        b == off(disable, "patch"@, "anchors"@),
{
    setting_has(disable, "patch", "anchors")
}

/// Whether references are answered with bare paths (`code_map:lines`).
pub fn code_map_lines_disabled(disable: Option<&str>) -> (b: bool)
    ensures
        b == off(disable, "code_map"@, "lines"@),
{
    setting_has(disable, "code_map", "lines")
}

/// Whether references are no longer ranked by their matches (`code_map:ref_rank`).
pub fn ref_rank_disabled(disable: Option<&str>) -> (b: bool)
    ensures
        b == off(disable, "code_map"@, "ref_rank"@),
{
    setting_has(disable, "code_map", "ref_rank")
}

/// Whether references are listed by the older budget (`code_map:ref_budget`).
pub fn ref_budget_disabled(disable: Option<&str>) -> (b: bool)
    ensures
        b == off(disable, "code_map"@, "ref_budget"@),
{
    setting_has(disable, "code_map", "ref_budget")
}

/// Whether the rules on the stream of the model are switched off (`stream:rules`).
pub fn stream_rules_disabled(disable: Option<&str>) -> (b: bool)
    ensures
        b == off(disable, "stream"@, "rules"@),
{
    setting_has(disable, "stream", "rules")
}

/// Whether nothing is said after a write to a test file (`test:notice`).
pub fn test_notice_disabled(disable: Option<&str>) -> (b: bool)
    ensures
        b == off(disable, "test"@, "notice"@),
{
    setting_has(disable, "test", "notice")
}

/// Whether requests carry no marks for the prompt cache (`cache:prompt`).
pub fn cache_disabled(disable: Option<&str>) -> (b: bool)
    ensures
        b == off(disable, "cache"@, "prompt"@),
{
    setting_has(disable, "cache", "prompt")
}

/// What is switched off by its name is switched off where `*` counts as well.
pub proof fn law_wildcard_switches_off_more(
    spec: Seq<char>,
    kind: Seq<char>,
    name: Seq<char>,
)
    requires
        listed(spec, kind, name, false),
    ensures
        listed(spec, kind, name, true),
{
    let i = choose|i: int|
        0 <= i < split_on(spec, ',').len() && entry_matches(
            #[trigger] split_on(spec, ',')[i],
            kind,
            name,
            false,
        );
    assert(entry_matches(split_on(spec, ',')[i], kind, name, true));
}

/// A setting that is not set switches nothing off.
pub proof fn law_unset_switches_nothing_off(kind: Seq<char>, name: Seq<char>)
    ensures
        !off(None, kind, name),
{
}

/// The empty list switches nothing off, and as a list of the allowed tools it
/// allows them all.
pub proof fn law_empty_list_changes_nothing(kind: Seq<char>, name: Seq<char>, wildcard: bool)
    ensures
        !listed(Seq::empty(), kind, name, wildcard),
        allowed(Seq::empty(), name),
{
    let e = Seq::<char>::empty();
    assert(split_on(e, ',') =~= seq![Seq::<char>::empty()]);
    assert(trimmed(e) == e);
    assert(parted(e, ':') is None);
}

/// A star counts for its own kind only: entries of another kind switch nothing
/// of this kind off.
pub proof fn law_kinds_are_independent(
    entry: Seq<char>,
    kind: Seq<char>,
    other: Seq<char>,
    name: Seq<char>,
    wildcard: bool,
)
    requires
        entry_matches(entry, kind, name, wildcard),
        other != kind,
    ensures
        !entry_matches(entry, other, name, wildcard),
{
}

proof fn lemma_parted_at(a: Seq<char>, b: Seq<char>, c: char)
    requires
        !a.contains(c),
    ensures
        parted(a.push(c) + b, c) == Some((a, b)),
{
    let s = a.push(c) + b;
    law_parting_cuts_at_the_first(s, c);
    assert(s[a.len() as int] == c);
    assert(s.contains(c));
    let (x, y) = parted(s, c)->0;
    assert(s == x.push(c) + y);
    assert((x.push(c) + y)[x.len() as int] == c);
    if x.len() < a.len() {
        assert(s[x.len() as int] == a[x.len() as int]);
        assert(a.contains(c));
    }
    if x.len() > a.len() {
        assert((x.push(c) + y)[a.len() as int] == x[a.len() as int]);
        assert(x.contains(c));
    }
    assert(x =~= s.take(x.len() as int));
    assert(a =~= s.take(a.len() as int));
    assert(y =~= s.skip(x.len() as int + 1));
    assert(b =~= s.skip(a.len() as int + 1));
}

/// An entry `kind:name` switches off what it names, wherever it stands in the list; with a
/// star in place of the name it switches off all of its kind where that counts, and
/// nothing where it does not.
pub proof fn law_entries_switch_off_what_they_name(
    spec: Seq<char>,
    i: int,
    kind: Seq<char>,
    name: Seq<char>,
    other: Seq<char>,
    wildcard: bool,
)
    requires
        0 <= i < split_on(spec, ',').len(),
        trimmed(split_on(spec, ',')[i]) == kind.push(':') + name,
        !kind.contains(':'),
        trimmed(kind) == kind,
        trimmed(name) == name,
    ensures
        listed(spec, kind, name, wildcard),
        name == "*"@ ==> listed(spec, kind, other, true),
{
    lemma_parted_at(kind, name, ':');
    assert(entry_matches(split_on(spec, ',')[i], kind, name, wildcard));
    if name == "*"@ {
        assert(entry_matches(split_on(spec, ',')[i], kind, other, true));
    }
}

/// Nothing is switched off that no entry names: what is switched off has an entry of its
/// kind, with its name or a star.
pub proof fn law_only_named_things_are_switched_off(
    spec: Seq<char>,
    kind: Seq<char>,
    name: Seq<char>,
    wildcard: bool,
)
    requires
        listed(spec, kind, name, wildcard),
    ensures
        exists|i: int|
            #![trigger split_on(spec, ',')[i]]
            0 <= i < split_on(spec, ',').len() && trimmed(split_on(spec, ',')[i]).contains(':')
                && ({
                let (k, n) = parted(trimmed(split_on(spec, ',')[i]), ':')->0;
                trimmed(k) == kind && (trimmed(n) == name || (wildcard && trimmed(n) == "*"@))
            }),
{
    let i = choose|i: int|
        0 <= i < split_on(spec, ',').len() && entry_matches(
            #[trigger] split_on(spec, ',')[i],
            kind,
            name,
            wildcard,
        );
    law_parting_cuts_at_the_first(trimmed(split_on(spec, ',')[i]), ':');
}

/// A list of tools that says something allows exactly those that it names.
pub proof fn law_lists_allow_what_they_name(spec: Seq<char>, i: int, name: Seq<char>)
    ensures
        0 <= i < split_on(spec, ',').len() && trimmed(split_on(spec, ',')[i]) == name ==> allowed(
            spec,
            name,
        ),
        trimmed(spec).len() > 0 && (forall|k: int|
            0 <= k < split_on(spec, ',').len() ==> trimmed(#[trigger] split_on(spec, ',')[k])
                != name) ==> !allowed(spec, name),
{
}

} // verus!
