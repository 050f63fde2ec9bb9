//! The `high_risk` policy: which calls change what others build on.
use vstd::prelude::*;
use crate::json::{field, text_field, text_in, Json, JsonV};
use crate::text::{
    begins, contains, contains_any, ends, ends_in_any, ends_with, ends_with_any, holds, holds_any,
    is_one_of, join, joined, law_joined_parts_stand_in_order, lines, lines_of, lower_ascii,
    occurs_at, replace_char, same, split, split_on,
    starts_with, swapped, texts, to_lower_ascii, trim_front, trim_start, words,
};

verus! {

/// Commands that change what a project depends on.
pub open spec fn dependency_commands() -> Seq<Seq<char>> {
    seq![
        "cargo add"@,
        "cargo remove"@,
        "cargo update"@,
        "npm install"@,
        "npm uninstall"@,
        "npm update"@,
        "pnpm add"@,
        "pnpm remove"@,
        "pnpm update"@,
        "yarn add"@,
        "yarn remove"@,
        "yarn upgrade"@,
        "pip install"@,
        "pip uninstall"@,
        "uv add"@,
        "uv remove"@,
        "uv lock"@,
        "poetry add"@,
        "poetry remove"@,
        "poetry update"@,
        "go get"@,
        "go mod tidy"@,
        "bundle add"@,
        "bundle remove"@,
        "bundle update"@,
    ]
}

fn list_dependency_commands() -> (r: Vec<&'static str>)
    ensures
        words(r@) == dependency_commands(),
{
    let r = vec![
        "cargo add",
        "cargo remove",
        "cargo update",
        "npm install",
        "npm uninstall",
        "npm update",
        "pnpm add",
        "pnpm remove",
        "pnpm update",
        "yarn add",
        "yarn remove",
        "yarn upgrade",
        "pip install",
        "pip uninstall",
        "uv add",
        "uv remove",
        "uv lock",
        "poetry add",
        "poetry remove",
        "poetry update",
        "go get",
        "go mod tidy",
        "bundle add",
        "bundle remove",
        "bundle update",
    ];
    assert(words(r@) =~= dependency_commands());
    r
}

/// Commands that migrate a database.
pub open spec fn migration_commands() -> Seq<Seq<char>> {
    seq![
        "alembic upgrade"@,
        "alembic downgrade"@,
        "diesel migration"@,
        "sqlx migrate"@,
        "prisma migrate"@,
        "prisma db push"@,
        "rails db:migrate"@,
        "rake db:migrate"@,
        "typeorm migration"@,
        "sequelize db:migrate"@,
        "knex migrate"@,
        "flyway migrate"@,
        "liquibase update"@,
        " migrate up"@,
        " migrate down"@,
        "migration apply"@,
        "migration reset"@,
    ]
}

fn list_migration_commands() -> (r: Vec<&'static str>)
    ensures
        words(r@) == migration_commands(),
{
    let r = vec![
        "alembic upgrade",
        "alembic downgrade",
        "diesel migration",
        "sqlx migrate",
        "prisma migrate",
        "prisma db push",
        "rails db:migrate",
        "rake db:migrate",
        "typeorm migration",
        "sequelize db:migrate",
        "knex migrate",
        "flyway migrate",
        "liquibase update",
        " migrate up",
        " migrate down",
        "migration apply",
        "migration reset",
    ];
    assert(words(r@) =~= migration_commands());
    r
}

/// Names in a command that point at manifests, schemas and migrations.
pub open spec fn protected_names() -> Seq<Seq<char>> {
    seq![
        "cargo.toml"@,
        "cargo.lock"@,
        "package.json"@,
        "package-lock.json"@,
        "pnpm-lock.yaml"@,
        "yarn.lock"@,
        "pyproject.toml"@,
        "poetry.lock"@,
        "uv.lock"@,
        "requirements"@,
        "go.mod"@,
        "go.sum"@,
        "gemfile"@,
        "composer.json"@,
        "composer.lock"@,
        "pom.xml"@,
        "build.gradle"@,
        ".proto"@,
        ".graphql"@,
        ".gql"@,
        "openapi"@,
        "swagger"@,
        "/migrations/"@,
        "/migration/"@,
    ]
}

fn list_protected_names() -> (r: Vec<&'static str>)
    ensures
        words(r@) == protected_names(),
{
    let r = vec![
        "cargo.toml",
        "cargo.lock",
        "package.json",
        "package-lock.json",
        "pnpm-lock.yaml",
        "yarn.lock",
        "pyproject.toml",
        "poetry.lock",
        "uv.lock",
        "requirements",
        "go.mod",
        "go.sum",
        "gemfile",
        "composer.json",
        "composer.lock",
        "pom.xml",
        "build.gradle",
        ".proto",
        ".graphql",
        ".gql",
        "openapi",
        "swagger",
        "/migrations/",
        "/migration/",
    ];
    assert(words(r@) =~= protected_names());
    r
}

/// Parts of a command that write, move or remove files.
pub open spec fn mutating_operators() -> Seq<Seq<char>> {
    seq![
        "sed -i"@,
        "perl -pi"@,
        "tee "@,
        "cat >"@,
        " >"@,
        ">>"@,
        "cp "@,
        "mv "@,
        "rm "@,
        "touch "@,
    ]
}

fn list_mutating_operators() -> (r: Vec<&'static str>)
    ensures
        words(r@) == mutating_operators(),
{
    let r = vec![
        "sed -i",
        "perl -pi",
        "tee ",
        "cat >",
        " >",
        ">>",
        "cp ",
        "mv ",
        "rm ",
        "touch ",
    ];
    assert(words(r@) =~= mutating_operators());
    r
}

/// Endings of source files.
pub open spec fn source_extensions() -> Seq<Seq<char>> {
    seq![
        ".rs"@,
        ".ts"@,
        ".tsx"@,
        ".js"@,
        ".jsx"@,
        ".py"@,
        ".java"@,
        ".kt"@,
    ]
}

fn list_source_extensions() -> (r: Vec<&'static str>)
    ensures
        words(r@) == source_extensions(),
{
    let r = vec![
        ".rs",
        ".ts",
        ".tsx",
        ".js",
        ".jsx",
        ".py",
        ".java",
        ".kt",
    ];
    assert(words(r@) =~= source_extensions());
    r
}

/// Words that declare something public.
pub open spec fn public_markers() -> Seq<Seq<char>> {
    seq![
        "pub fn "@,
        "pub struct "@,
        "pub enum "@,
        "pub trait "@,
        "pub type "@,
        "pub mod "@,
        "pub use "@,
        "export "@,
        "export default "@,
        "__all__"@,
        "public class "@,
        "public interface "@,
        "public fun "@,
    ]
}

fn list_public_markers() -> (r: Vec<&'static str>)
    ensures
        words(r@) == public_markers(),
{
    let r = vec![
        "pub fn ",
        "pub struct ",
        "pub enum ",
        "pub trait ",
        "pub type ",
        "pub mod ",
        "pub use ",
        "export ",
        "export default ",
        "__all__",
        "public class ",
        "public interface ",
        "public fun ",
    ];
    assert(words(r@) =~= public_markers());
    r
}

/// File names of manifests and lock files.
pub open spec fn manifest_names() -> Seq<Seq<char>> {
    seq![
        "cargo.toml"@,
        "cargo.lock"@,
        "package.json"@,
        "package-lock.json"@,
        "npm-shrinkwrap.json"@,
        "pnpm-lock.yaml"@,
        "yarn.lock"@,
        "pyproject.toml"@,
        "poetry.lock"@,
        "uv.lock"@,
        "requirements.txt"@,
        "go.mod"@,
        "go.sum"@,
        "gemfile"@,
        "gemfile.lock"@,
        "composer.json"@,
        "composer.lock"@,
        "pom.xml"@,
        "build.gradle"@,
        "build.gradle.kts"@,
        "gradle.lockfile"@,
        "mix.exs"@,
        "mix.lock"@,
    ]
}

fn list_manifest_names() -> (r: Vec<&'static str>)
    ensures
        words(r@) == manifest_names(),
{
    let r = vec![
        "cargo.toml",
        "cargo.lock",
        "package.json",
        "package-lock.json",
        "npm-shrinkwrap.json",
        "pnpm-lock.yaml",
        "yarn.lock",
        "pyproject.toml",
        "poetry.lock",
        "uv.lock",
        "requirements.txt",
        "go.mod",
        "go.sum",
        "gemfile",
        "gemfile.lock",
        "composer.json",
        "composer.lock",
        "pom.xml",
        "build.gradle",
        "build.gradle.kts",
        "gradle.lockfile",
        "mix.exs",
        "mix.lock",
    ];
    assert(words(r@) =~= manifest_names());
    r
}

/// A line defines a Python function that is not private by its name.
pub open spec fn defines_function(line: Seq<char>) -> bool {
    let l = trim_start(line);
    begins(l, "def "@) && !begins(l.skip(4), "_"@)
}

/// Some line defines a function that is not private by its name.
pub open spec fn some_defines_function(ls: Seq<Seq<char>>) -> bool {
    exists|i: int| 0 <= i < ls.len() && defines_function(#[trigger] ls[i])
}

/// Why a shell command is of high risk, if it is: it changes dependencies, it
/// migrates, it writes a manifest, a schema or a migration, or it writes a
/// source file with something public in it.
pub open spec fn command_risk(command: Seq<char>) -> Option<Seq<char>> {
    let writes = holds_any(command, mutating_operators());
    if holds_any(command, dependency_commands()) {
        Some("high_risk preset: dependency or lockfile operation"@)
    } else if holds_any(command, migration_commands()) {
        Some("high_risk preset: migration apply/reset operation"@)
    } else if holds_any(command, protected_names()) && writes {
        Some("high_risk preset: manifest, schema, or migration file change"@)
    } else if holds_any(command, source_extensions()) && writes && (holds_any(
        command,
        public_markers(),
    ) || some_defines_function(lines_of(command))) {
        Some("high_risk preset: recognizable public API surface change"@)
    } else {
        None
    }
}

/// The name is one of a manifest or a lock file.
pub open spec fn is_manifest(name: Seq<char>) -> bool {
    manifest_names().contains(name) || (begins(name, "requirements"@) && ends(name, ".txt"@))
}

/// The path leads through a directory of migrations.
pub open spec fn in_migrations(pieces: Seq<Seq<char>>) -> bool {
    exists|i: int|
        0 <= i < pieces.len() && (#[trigger] pieces[i] == "migrations"@ || pieces[i]
            == "migration"@)
}

/// The path is one of a schema or a migration.
pub open spec fn is_schema(name: Seq<char>, pieces: Seq<Seq<char>>) -> bool {
    ||| ends(name, ".proto"@)
    ||| ends(name, ".graphql"@)
    ||| ends(name, ".gql"@)
    ||| holds(name, "openapi"@)
    ||| holds(name, "swagger"@)
    ||| name == "schema.json"@
    ||| name == "schema.yaml"@
    ||| name == "schema.yml"@
    ||| in_migrations(pieces)
}

/// Why a change of the file at `path` to what `changes` says is of high risk, if
/// it is: the file is a manifest, a schema or a migration, or it is a source
/// file and the change names something public.
pub open spec fn file_risk(path: Seq<char>, changes: Seq<char>) -> Option<Seq<char>> {
    let normalized = lower_ascii(swapped(path, '\\', '/'));
    let pieces = split_on(normalized, '/');
    if is_manifest(pieces.last()) {
        Some("high_risk preset: dependency manifest or lockfile change"@)
    } else if is_schema(pieces.last(), pieces) {
        Some("high_risk preset: schema or migration file change"@)
    } else if ends_in_any(normalized, source_extensions()) && holds_any(changes, public_markers()) {
        Some("high_risk preset: recognizable public API surface change"@)
    } else {
        None
    }
}

/// The text of a field, or the empty text.
pub open spec fn text_or_empty(t: Option<Seq<char>>) -> Seq<char> {
    match t {
        Some(x) => x,
        None => Seq::empty(),
    }
}

/// The path that a call names: under `path`, else under `file_path`.
pub open spec fn path_named(input: JsonV) -> Seq<char> {
    match field(input, "path"@) {
        Some(p) => text_or_empty(text_in(p)),
        None => text_or_empty(text_field(input, "file_path"@)),
    }
}

/// The texts of the fields that are there, in this order.
pub open spec fn texts_named(input: JsonV, keys: Seq<Seq<char>>) -> Seq<Seq<char>>
    decreases keys.len(),
{
    if keys.len() == 0 {
        Seq::empty()
    } else {
        let before = texts_named(input, keys.drop_last());
        match text_field(input, keys.last()) {
            Some(t) => before.push(t),
            None => before,
        }
    }
}

/// What a call would write or replace, line by line.
pub open spec fn changes_named(input: JsonV) -> Seq<char> {
    joined(texts_named(input, seq!["old_string"@, "new_string"@, "content"@]), "\n"@)
}

/// Why a call is of high risk, if it is.
pub open spec fn risk_of(tool: Seq<char>, input: JsonV) -> Option<Seq<char>> {
    let command = lower_ascii(text_or_empty(text_field(input, "command"@)));
    if tool == "bash"@ && command_risk(command) is Some {
        command_risk(command)
    } else {
        file_risk(path_named(input), changes_named(input))
    }
}

fn public_python(command: &str) -> (b: bool)
    ensures
        b == some_defines_function(lines_of(command@)),
{
    let all = lines(command);
    let ghost ls = lines_of(command@);
    let mut i: usize = 0;
    while i < all.len()
        invariant
            i <= all@.len(),
            ls == texts(all@),
            ls == lines_of(command@),
            forall|k: int| 0 <= k < i ==> !defines_function(#[trigger] ls[k]),
        decreases all@.len() - i,
    {
        assert(ls[i as int] == all@[i as int]@);
        let l = trim_front(all[i].as_str());
        if starts_with(l.as_str(), "def ") {
            let v = crate::text::to_chars(l.as_str());
            proof {
                reveal_strlit("def ");
            }
            let rest = crate::text::text_of(&v, 4, v.len());
            assert(rest@ =~= l@.skip(4));
            if !starts_with(rest.as_str(), "_") {
                assert(defines_function(ls[i as int]));
                return true;
            }
        }
        i += 1;
    }
    false
}

/// Computes [`command_risk`].
pub fn risky_command(command: &str) -> (r: Option<&'static str>)
    ensures
        match r {
            Some(t) => command_risk(command@) == Some(t@),
            None => command_risk(command@) is None,
        },
{
    if contains_any(command, &list_dependency_commands()) {
        return Some("high_risk preset: dependency or lockfile operation");
    }
    if contains_any(command, &list_migration_commands()) {
        return Some("high_risk preset: migration apply/reset operation");
    }
    let writes = contains_any(command, &list_mutating_operators());
    if contains_any(command, &list_protected_names()) && writes {
        return Some("high_risk preset: manifest, schema, or migration file change");
    }
    if contains_any(command, &list_source_extensions()) && writes && (contains_any(
        command,
        &list_public_markers(),
    ) || public_python(command)) {
        return Some("high_risk preset: recognizable public API surface change");
    }
    None
}

fn schema_path(name: &str, pieces: &Vec<String>) -> (b: bool)
    ensures
        b == is_schema(name@, texts(pieces@)),
{
    if ends_with(name, ".proto") || ends_with(name, ".graphql") || ends_with(name, ".gql")
        || contains(name, "openapi") || contains(name, "swagger") || same(name, "schema.json")
        || same(name, "schema.yaml") || same(name, "schema.yml") {
        return true;
    }
    let ghost ps = texts(pieces@);
    let mut i: usize = 0;
    while i < pieces.len()
        invariant
            i <= pieces@.len(),
            ps == texts(pieces@),
            forall|k: int|
                0 <= k < i ==> #[trigger] ps[k] != "migrations"@ && ps[k] != "migration"@,
        decreases pieces@.len() - i,
    {
        assert(ps[i as int] == pieces@[i as int]@);
        if same(pieces[i].as_str(), "migrations") || same(pieces[i].as_str(), "migration") {
            assert(in_migrations(ps));
            return true;
        }
        i += 1;
    }
    false
}

/// Computes [`file_risk`].
pub fn risky_file(path: &str, changes: &str) -> (r: Option<&'static str>)
    ensures
        match r {
            Some(t) => file_risk(path@, changes@) == Some(t@),
            None => file_risk(path@, changes@) is None,
        },
{
    let slashed = replace_char(path, '\\', '/');
    let normalized = to_lower_ascii(slashed.as_str());
    let pieces = split(normalized.as_str(), '/');
    let ghost ps = split_on(normalized@, '/');
    assert(ps.last() == pieces@[pieces@.len() - 1]@);
    let name = pieces[pieces.len() - 1].as_str();
    if is_one_of(name, &list_manifest_names()) || (starts_with(name, "requirements") && ends_with(
        name,
        ".txt",
    )) {
        return Some("high_risk preset: dependency manifest or lockfile change");
    }
    if schema_path(name, &pieces) {
        return Some("high_risk preset: schema or migration file change");
    }
    if ends_with_any(normalized.as_str(), &list_source_extensions()) && contains_any(
        changes,
        &list_public_markers(),
    ) {
        return Some("high_risk preset: recognizable public API surface change");
    }
    None
}

fn gather_changes(input: &Json) -> (r: String)
    ensures
        r@ == changes_named(input@),
{
    let keys = vec!["old_string", "new_string", "content"];
    let ghost ks = words(keys@);
    assert(ks =~= seq!["old_string"@, "new_string"@, "content"@]);
    let mut out: Vec<String> = Vec::new();
    assert(texts(out@) =~= Seq::empty());
    let mut i: usize = 0;
    assert(ks.take(0) =~= Seq::empty());
    while i < keys.len()
        invariant
            i <= keys@.len(),
            ks == words(keys@),
            texts(out@) == texts_named(input@, ks.take(i as int)),
        decreases keys@.len() - i,
    {
        assert(ks.take(i + 1).drop_last() =~= ks.take(i as int));
        assert(ks[i as int] == keys@[i as int]@);
        let ghost before = texts(out@);
        if let Some(t) = input.str_at(keys[i]) {
            out.push(t.to_owned());
            assert(texts(out@) =~= before.push(t@));
        }
        i += 1;
    }
    assert(ks.take(i as int) =~= ks);
    join(&out, "\n")
}

/// Computes [`risk_of`].
pub fn high_risk_reason(tool: &str, input: &Json) -> (r: Option<String>)
    ensures
        match r {
            Some(t) => risk_of(tool@, input@) == Some(t@),
            None => risk_of(tool@, input@) is None,
        },
{
    let command = match input.str_at("command") {
        Some(t) => to_lower_ascii(t),
        None => String::new(),
    };
    assert(lower_ascii(Seq::empty()) =~= Seq::empty());
    assert(command@ =~= lower_ascii(text_or_empty(text_field(input@, "command"@))));
    if same(tool, "bash") {
        if let Some(reason) = risky_command(command.as_str()) {
            return Some(reason.to_owned());
        }
    }
    let path = match input.get("path") {
        Some(p) => match p.as_str() {
            Some(t) => t.to_owned(),
            None => String::new(),
        },
        None => match input.str_at("file_path") {
            Some(t) => t.to_owned(),
            None => String::new(),
        },
    };
    let changes = gather_changes(input);
    match risky_file(path.as_str(), changes.as_str()) {
        Some(reason) => Some(reason.to_owned()),
        None => None,
    }
}

/// The policy looks at the path of every tool, and at the command of `bash`
/// alone: for any other tool the command does not matter.
pub proof fn law_command_matters_for_bash_alone(tool: Seq<char>, input: JsonV)
    requires
        tool != "bash"@,
    ensures
        risk_of(tool, input) == file_risk(path_named(input), changes_named(input)),
{
}

proof fn lemma_held_within(a: Seq<char>, t: Seq<char>, b: Seq<char>, list: Seq<Seq<char>>)
    requires
        holds_any(t, list),
    ensures
        holds_any(a + t + b, list),
{
    let i = choose|i: int| 0 <= i < list.len() && holds(t, #[trigger] list[i]);
    let n = list[i];
    let at = choose|at: int| occurs_at(t, n, at);
    let all = a + t + b;
    let from = a.len() + at;
    assert(all.subrange(from, from + n.len()) =~= t.subrange(at, at + n.len()));
    assert(occurs_at(all, n, from));
}

/// A command that changes dependencies, migrates, or writes a manifest is of high risk,
/// whatever stands before and behind it.
pub proof fn law_risk_is_not_hidden(a: Seq<char>, t: Seq<char>, b: Seq<char>)
    requires
        holds_any(t, dependency_commands()) || holds_any(t, migration_commands()) || (holds_any(
            t,
            protected_names(),
        ) && holds_any(t, mutating_operators())),
    ensures
        command_risk(t) is Some,
        command_risk(a + t + b) is Some,
{
    if holds_any(t, dependency_commands()) {
        lemma_held_within(a, t, b, dependency_commands());
    } else if holds_any(t, migration_commands()) {
        lemma_held_within(a, t, b, migration_commands());
    } else {
        lemma_held_within(a, t, b, protected_names());
        lemma_held_within(a, t, b, mutating_operators());
    }
}

/// Whatever makes a command of high risk makes a call of `bash` with it one, in capitals
/// too; else the file that the call names decides.
pub proof fn law_risky_commands_are_caught(input: JsonV, command: Seq<char>)
    requires
        field(input, "command"@) == Some(JsonV::Str(command)),
        command_risk(lower_ascii(command)) is Some,
    ensures
        risk_of("bash"@, input) == command_risk(lower_ascii(command)),
{
}

/// A change of a manifest, a lock file, a schema or a migration is of high risk for any
/// tool that names it under `path`, or under `file_path` where there is no `path`.
pub proof fn law_risky_files_are_caught(tool: Seq<char>, input: JsonV, path: Seq<char>)
    requires
        field(input, "path"@) == Some(JsonV::Str(path)) || (field(input, "path"@) is None && field(
            input,
            "file_path"@,
        ) == Some(JsonV::Str(path))),
        ({
            let pieces = split_on(lower_ascii(swapped(path, '\\', '/')), '/');
            is_manifest(pieces.last()) || is_schema(pieces.last(), pieces)
        }),
    ensures
        risk_of(tool, input) is Some,
{
}

/// A change of a source file that names something public, in what it replaces, in what
/// it puts there or in what it writes, is of high risk.
pub proof fn law_public_changes_are_caught(
    tool: Seq<char>,
    input: JsonV,
    path: Seq<char>,
    change: Seq<char>,
    key: Seq<char>,
)
    requires
        field(input, "path"@) == Some(JsonV::Str(path)),
        ends_in_any(lower_ascii(swapped(path, '\\', '/')), source_extensions()),
        key == "old_string"@ || key == "new_string"@ || key == "content"@,
        field(input, key) == Some(JsonV::Str(change)),
        holds_any(change, public_markers()),
    ensures
        risk_of(tool, input) is Some,
{
    let keys = seq!["old_string"@, "new_string"@, "content"@];
    let k = if key == "old_string"@ {
        0int
    } else if key == "new_string"@ {
        1
    } else {
        2
    };
    lemma_text_is_named(input, keys, k);
    let all = texts_named(input, keys);
    let at = choose|at: int| 0 <= at < all.len() && all[at] == change;
    law_joined_parts_stand_in_order(all, "\n"@, at);
    let text = joined(all, "\n"@);
    let from = if at == 0 {
        0
    } else {
        (joined(all.take(at), "\n"@).len() + "\n"@.len()) as int
    };
    assert(text.subrange(from, from + change.len()) =~= change);
    let (a, b) = (text.take(from), text.skip(from + change.len()));
    assert(text =~= a + change + b);
    lemma_held_within(a, change, b, public_markers());
}

proof fn lemma_text_is_named(input: JsonV, keys: Seq<Seq<char>>, k: int)
    requires
        0 <= k < keys.len(),
        text_field(input, keys[k]) is Some,
    ensures
        texts_named(input, keys).contains(text_field(input, keys[k])->0),
    decreases keys.len(),
{
    let t = text_field(input, keys[k])->0;
    let all = texts_named(input, keys);
    if k == keys.len() - 1 {
        assert(all[all.len() - 1] == t);
    } else {
        lemma_text_is_named(input, keys.drop_last(), k);
        let before = texts_named(input, keys.drop_last());
        let at = choose|at: int| 0 <= at < before.len() && before[at] == t;
        assert(all[at] == t);
    }
}

/// A command that installs nothing, migrates nothing and writes no file is harmless,
/// whatever it names.
pub proof fn law_reading_commands_pass(command: Seq<char>)
    requires
        !holds_any(command, dependency_commands()),
        !holds_any(command, migration_commands()),
        !holds_any(command, mutating_operators()),
    ensures
        command_risk(command) is None,
{
}

} // verus!
