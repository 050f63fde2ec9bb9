//! The environment variables that are read, with what they do and what they are
//! set to.
use vstd::prelude::*;
use crate::cmd::{mask, masked};
use crate::json::{
    add_item, arr, js, json_views, no_items, object3, pretty_json, settled_json, Json, JsonV,
};
use crate::text::{
    align_left, cat6, ends, holds, law_columns_hold_their_text, left_aligned, occurs_at, texts,
};

verus! {

/// A variable: its name, what it does, and whether its value is a secret.
#[derive(Debug)]
pub struct EnvVar {
    pub name: &'static str,
    pub description: &'static str,
    pub secret: bool,
}

/// What some variables stand for.
pub open spec fn var_views(v: Seq<EnvVar>) -> Seq<(Seq<char>, Seq<char>, bool)> {
    v.map_values(|e: EnvVar| (e.name@, e.description@, e.secret))
}

/// The variables, in the order in which they are listed.
pub open spec fn var_table() -> Seq<(Seq<char>, Seq<char>, bool)> {
    seq![
        ("ANTHROPIC_AUTH_TOKEN"@, "Anthropic (or compatible) API token — selects the Anthropic client"@, true),
        ("ANTHROPIC_BASE_URL"@, "Anthropic-compatible endpoint override (z.ai, proxies)"@, false),
        ("OPENAI_API_KEY"@, "OpenAI (or compatible) API key — used when no Anthropic token"@, true),
        ("OPENAI_BASE_URL"@, "OpenAI-compatible endpoint (Ollama, Groq, OpenRouter, …)"@, false),
        ("SIRBONE_CODEX"@, "1 = use ChatGPT Plus/Pro through the official Codex CLI OAuth session"@, false),
        ("SIRBONE_CODEX_SANDBOX"@, "Codex CLI sandbox: read-only, workspace-write (default), or danger-full-access"@, false),
        ("SIRBONE_CODEX_REASONING"@, "Codex CLI reasoning effort override (e.g. low) — else ~/.codex/config.toml decides"@, false),
        ("SIRBONE_STREAM_IDLE_SECS"@, "Seconds of stream silence before a connection is declared stalled (default 90)"@, false),
        ("SIRBONE_MODEL"@, "Model id (same as --model)"@, false),
        ("SIRBONE_CONTEXT_WINDOW"@, "Context window override in tokens (else fetched per model)"@, false),
        ("SIRBONE_THINKING_BUDGET"@, "Extended-thinking token budget, Anthropic only (same as --thinking-budget)"@, false),
        ("SIRBONE_TEMPERATURE"@, "Sampling temperature (same as --temperature; unset = provider default)"@, false),
        ("SIRBONE_MAX_STEPS"@, "Safety cap on LLM turns per run (AFK bound; unset = no cap)"@, false),
        ("SIRBONE_VISION"@, "1 = the OpenAI-compatible endpoint reads images (same as --vision)"@, false),
        ("SIRBONE_THEME"@, "CLI/TUI color theme override (else cli.theme config)"@, false),
        ("SIRBONE_WEB_FETCH_ALLOW_PRIVATE"@, "1 = let web_fetch reach private/local addresses (dev servers)"@, false),
        ("SIRBONE_NO_SNAPSHOT"@, "Disable pre-mutation workspace snapshots (/rollback)"@, false),
        ("SIRBONE_NO_COMPACT"@, "Disable context compaction (transcript grows unbounded)"@, false),
        ("SIRBONE_NO_HISTORIA"@, "Disable schema-aware project chat history"@, false),
        ("SIRBONE_NO_GROUNDING"@, "Drop the grounding-rules block from the system prompt"@, false),
        ("SIRBONE_NO_GROUND_CONTEXT"@, "Disable proactive grounding context (project-structure pass)"@, false),
        ("SIRBONE_NO_LOCALIZE"@, "Disable the read-only localization pre-pass"@, false),
        ("SIRBONE_NO_EDIT_HINT"@, "Disable the post-edit verification hint on the edit tool"@, false),
        ("SIRBONE_NO_TOOLS"@, "Register no tools at all (model answers from context only)"@, false),
        ("SIRBONE_TOOLS"@, "Comma allowlist: register only these tools (fails closed; MCP included)"@, false),
        ("SIRBONE_IDENTITY"@, "Replace the core identity line of the system prompt (set it with SIRBONE_TOOLS)"@, false),
        ("SIRBONE_GROUND"@, "1 = deterministic claim grounding after each run (see `sirbone ground`)"@, false),
        ("SIRBONE_ORACLE"@, "1 = enable the configured post-Done oracle in headless/REPL runs (same as --oracle)"@, false),
        ("SIRBONE_REVIEW_ONLY"@, "1 = review-only run: no writes, no MCP, read-only bash (same as --review-only)"@, false),
        ("SIRBONE_ASK_ROUNDS"@, "1 = expose the experimental 1-3 question ask_user schema"@, false),
        ("SIRBONE_PLAN"@, "1 = enable the persistent deterministic task contract (same as --plan)"@, false),
        ("SIRBONE_HOOK"@, "off = the pre-commit review hook skips the run (`sirbone hook install`)"@, false),
        ("SIRBONE_HOOK_TIMEOUT"@, "Seconds the pre-commit hook waits for the review before giving up (default 180)"@, false),
        ("SIRBONE_BEST_OF"@, "K = run the task K times from the same tree and keep the attempt the project's test command scores best (needs oracle.test_command; headless one-shot only)"@, false),
        ("SIRBONE_COMPLETION_CHECK"@, "1 = before the run ends, pull it back once if the model's own todo list is unfinished"@, false),
        ("SIRBONE_READ_OUTLINE"@, "1 = read returns a declaration outline plus elided ranges for long source files"@, false),
        ("SIRBONE_COMPACT_BUDGET"@, "Compact at this absolute token budget instead of at 87.5% of the window"@, false),
        ("SIRBONE_SUMMARY_VERBATIM"@, "1 = the compaction summarizer reuses the turn prefix (system + tools + region) instead of a flattened copy"@, false),
        ("SIRBONE_HASHLINE"@, "1 = replace the edit tool with patch (line-addressed, content-tag anchored)"@, false),
        ("SIRBONE_REF_RANK"@, "1 = code_map find_references spends its extra detail on the most-matched files instead of by path (every file stays visible either way)"@, false),
        ("SIRBONE_TOOL_STDERR"@, "1 = print a `tool-start: <name>` / `tool-end: <name>` line on stderr per tool call (embedder progress)"@, false),
        ("SIRBONE_USAGE"@, "1 = print the per-feature usage line after a run (bench telemetry)"@, false),
        ("SIRBONE_DISABLE"@, "Feature ablation: hook:{pre,post,stop,ledger}, oracle:gate, ask:rounds, read:outline, stream:rules, tool:spill, test:notice"@, false),
        ("SIRBONE_ASK_AMBIGUOUS"@, "1 = prompt clause: ask before assuming an answer on an under-specified task, and never settle an ambiguity by editing a test (honesty arm; off by default)"@, false),
        ("SIRBONE_YAGNI"@, "1 = minimal-code prompt clause (A/B'd net-negative; off by default)"@, false),
    ]
}

/// How wide the column of the names is: as wide as the longest of them.
pub const NAME_WIDTH: usize = 31;

fn add_var(v: &mut Vec<EnvVar>, name: &'static str, description: &'static str, secret: bool)
    ensures
        var_views(final(v)@) == var_views(old(v)@).push((name@, description@, secret)),
{
    let ghost before = var_views(v@);
    v.push(EnvVar { name, description, secret });
    assert(var_views(v@) =~= before.push((name@, description@, secret)));
}

/// Lists the variables; see [`var_table`].
pub fn vars() -> (v: Vec<EnvVar>)
    ensures
        var_views(v@) == var_table(),
        v@.len() == 45,
{
    let mut v: Vec<EnvVar> = Vec::new();
    assert(var_views(v@) =~= Seq::empty());
    add_var(
        &mut v,
        "ANTHROPIC_AUTH_TOKEN",
        "Anthropic (or compatible) API token — selects the Anthropic client",
        true,
    );
    add_var(
        &mut v,
        "ANTHROPIC_BASE_URL",
        "Anthropic-compatible endpoint override (z.ai, proxies)",
        false,
    );
    add_var(
        &mut v,
        "OPENAI_API_KEY",
        "OpenAI (or compatible) API key — used when no Anthropic token",
        true,
    );
    add_var(
        &mut v,
        "OPENAI_BASE_URL",
        "OpenAI-compatible endpoint (Ollama, Groq, OpenRouter, …)",
        false,
    );
    add_var(
        &mut v,
        "SIRBONE_CODEX",
        "1 = use ChatGPT Plus/Pro through the official Codex CLI OAuth session",
        false,
    );
    add_var(
        &mut v,
        "SIRBONE_CODEX_SANDBOX",
        "Codex CLI sandbox: read-only, workspace-write (default), or danger-full-access",
        false,
    );
    add_var(
        &mut v,
        "SIRBONE_CODEX_REASONING",
        "Codex CLI reasoning effort override (e.g. low) — else ~/.codex/config.toml decides",
        false,
    );
    add_var(
        &mut v,
        "SIRBONE_STREAM_IDLE_SECS",
        "Seconds of stream silence before a connection is declared stalled (default 90)",
        false,
    );
    add_var(
        &mut v,
        "SIRBONE_MODEL",
        "Model id (same as --model)",
        false,
    );
    add_var(
        &mut v,
        "SIRBONE_CONTEXT_WINDOW",
        "Context window override in tokens (else fetched per model)",
        false,
    );
    add_var(
        &mut v,
        "SIRBONE_THINKING_BUDGET",
        "Extended-thinking token budget, Anthropic only (same as --thinking-budget)",
        false,
    );
    add_var(
        &mut v,
        "SIRBONE_TEMPERATURE",
        "Sampling temperature (same as --temperature; unset = provider default)",
        false,
    );
    add_var(
        &mut v,
        "SIRBONE_MAX_STEPS",
        "Safety cap on LLM turns per run (AFK bound; unset = no cap)",
        false,
    );
    add_var(
        &mut v,
        "SIRBONE_VISION",
        "1 = the OpenAI-compatible endpoint reads images (same as --vision)",
        false,
    );
    add_var(
        &mut v,
        "SIRBONE_THEME",
        "CLI/TUI color theme override (else cli.theme config)",
        false,
    );
    add_var(
        &mut v,
        "SIRBONE_WEB_FETCH_ALLOW_PRIVATE",
        "1 = let web_fetch reach private/local addresses (dev servers)",
        false,
    );
    add_var(
        &mut v,
        "SIRBONE_NO_SNAPSHOT",
        "Disable pre-mutation workspace snapshots (/rollback)",
        false,
    );
    add_var(
        &mut v,
        "SIRBONE_NO_COMPACT",
        "Disable context compaction (transcript grows unbounded)",
        false,
    );
    add_var(
        &mut v,
        "SIRBONE_NO_HISTORIA",
        "Disable schema-aware project chat history",
        false,
    );
    add_var(
        &mut v,
        "SIRBONE_NO_GROUNDING",
        "Drop the grounding-rules block from the system prompt",
        false,
    );
    add_var(
        &mut v,
        "SIRBONE_NO_GROUND_CONTEXT",
        "Disable proactive grounding context (project-structure pass)",
        false,
    );
    add_var(
        &mut v,
        "SIRBONE_NO_LOCALIZE",
        "Disable the read-only localization pre-pass",
        false,
    );
    add_var(
        &mut v,
        "SIRBONE_NO_EDIT_HINT",
        "Disable the post-edit verification hint on the edit tool",
        false,
    );
    add_var(
        &mut v,
        "SIRBONE_NO_TOOLS",
        "Register no tools at all (model answers from context only)",
        false,
    );
    add_var(
        &mut v,
        "SIRBONE_TOOLS",
        "Comma allowlist: register only these tools (fails closed; MCP included)",
        false,
    );
    add_var(
        &mut v,
        "SIRBONE_IDENTITY",
        "Replace the core identity line of the system prompt (set it with SIRBONE_TOOLS)",
        false,
    );
    add_var(
        &mut v,
        "SIRBONE_GROUND",
        "1 = deterministic claim grounding after each run (see `sirbone ground`)",
        false,
    );
    add_var(
        &mut v,
        "SIRBONE_ORACLE",
        "1 = enable the configured post-Done oracle in headless/REPL runs (same as --oracle)",
        false,
    );
    add_var(
        &mut v,
        "SIRBONE_REVIEW_ONLY",
        "1 = review-only run: no writes, no MCP, read-only bash (same as --review-only)",
        false,
    );
    add_var(
        &mut v,
        "SIRBONE_ASK_ROUNDS",
        "1 = expose the experimental 1-3 question ask_user schema",
        false,
    );
    add_var(
        &mut v,
        "SIRBONE_PLAN",
        "1 = enable the persistent deterministic task contract (same as --plan)",
        false,
    );
    add_var(
        &mut v,
        "SIRBONE_HOOK",
        "off = the pre-commit review hook skips the run (`sirbone hook install`)",
        false,
    );
    add_var(
        &mut v,
        "SIRBONE_HOOK_TIMEOUT",
        "Seconds the pre-commit hook waits for the review before giving up (default 180)",
        false,
    );
    add_var(
        &mut v,
        "SIRBONE_BEST_OF",
        "K = run the task K times from the same tree and keep the attempt the project's test command scores best (needs oracle.test_command; headless one-shot only)",
        false,
    );
    add_var(
        &mut v,
        "SIRBONE_COMPLETION_CHECK",
        "1 = before the run ends, pull it back once if the model's own todo list is unfinished",
        false,
    );
    add_var(
        &mut v,
        "SIRBONE_READ_OUTLINE",
        "1 = read returns a declaration outline plus elided ranges for long source files",
        false,
    );
    add_var(
        &mut v,
        "SIRBONE_COMPACT_BUDGET",
        "Compact at this absolute token budget instead of at 87.5% of the window",
        false,
    );
    add_var(
        &mut v,
        "SIRBONE_SUMMARY_VERBATIM",
        "1 = the compaction summarizer reuses the turn prefix (system + tools + region) instead of a flattened copy",
        false,
    );
    add_var(
        &mut v,
        "SIRBONE_HASHLINE",
        "1 = replace the edit tool with patch (line-addressed, content-tag anchored)",
        false,
    );
    add_var(
        &mut v,
        "SIRBONE_REF_RANK",
        "1 = code_map find_references spends its extra detail on the most-matched files instead of by path (every file stays visible either way)",
        false,
    );
    add_var(
        &mut v,
        "SIRBONE_TOOL_STDERR",
        "1 = print a `tool-start: <name>` / `tool-end: <name>` line on stderr per tool call (embedder progress)",
        false,
    );
    add_var(
        &mut v,
        "SIRBONE_USAGE",
        "1 = print the per-feature usage line after a run (bench telemetry)",
        false,
    );
    add_var(
        &mut v,
        "SIRBONE_DISABLE",
        "Feature ablation: hook:{pre,post,stop,ledger}, oracle:gate, ask:rounds, read:outline, stream:rules, tool:spill, test:notice",
        false,
    );
    add_var(
        &mut v,
        "SIRBONE_ASK_AMBIGUOUS",
        "1 = prompt clause: ask before assuming an answer on an under-specified task, and never settle an ambiguity by editing a test (honesty arm; off by default)",
        false,
    );
    add_var(
        &mut v,
        "SIRBONE_YAGNI",
        "1 = minimal-code prompt clause (A/B'd net-negative; off by default)",
        false,
    );
    assert(var_views(v@) =~= var_table());
    assert(v@.len() == var_views(v@).len());
    v
}

/// The value of a variable as it is shown: a secret is masked.
pub open spec fn shown(secret: bool, value: Option<String>) -> Option<Seq<char>> {
    match value {
        Some(v) => Some(
            if secret {
                masked(v@)
            } else {
                v@
            },
        ),
        None => None,
    }
}

fn show(secret: bool, value: &Option<String>) -> (r: Option<String>)
    ensures
        crate::checks::text_view(r) == shown(secret, *value),
{
    match value {
        Some(v) => if secret {
            Some(mask(v.as_str()))
        } else {
            Some(v.clone())
        },
        None => None,
    }
}

/// What stands above the list.
pub const ENV_HEADER: &'static str = "Environment variables read by sirbone (set in shell, project .env, \
or ~/.sirbone/.env):\n";

/// The line of a variable.
pub open spec fn var_line(e: (Seq<char>, Seq<char>, bool), value: Option<String>) -> Seq<char> {
    "  "@ + left_aligned(e.0, NAME_WIDTH as nat) + "  "@ + left_aligned(
        match shown(e.2, value) {
            Some(v) => v,
            None => "(unset)"@,
        },
        12,
    ) + "  "@ + e.1
}

/// The list of the variables, from their values.
pub open spec fn env_lines(values: Seq<Option<String>>) -> Seq<Seq<char>> {
    seq![ENV_HEADER@] + Seq::new(var_table().len(), |i: int| var_line(var_table()[i], values[i]))
}

/// Lists the variables with their values, which come in the order of [`vars`].
pub fn run_env_list(values: &Vec<Option<String>>) -> (r: Vec<String>)
    requires
        values@.len() == var_table().len(),
    ensures
        texts(r@) == env_lines(values@),
{
    let table = vars();
    let ghost t = var_table();
    let ghost all = Seq::new(t.len(), |i: int| var_line(t[i], values@[i]));
    let mut out: Vec<String> = Vec::new();
    out.push(ENV_HEADER.to_owned());
    let mut i: usize = 0;
    assert(texts(out@) =~= seq![ENV_HEADER@] + all.take(0));
    assert(table@.len() == var_views(table@).len());
    while i < table.len()
        invariant
            i <= table@.len(),
            t == var_views(table@),
            t == var_table(),
            values@.len() == table@.len(),
            all == Seq::new(t.len(), |i: int| var_line(t[i], values@[i])),
            texts(out@) == seq![ENV_HEADER@] + all.take(i as int),
        decreases table@.len() - i,
    {
        let e = &table[i];
        assert(t[i as int] == (e.name@, e.description@, e.secret));
        let value = match show(e.secret, &values[i]) {
            Some(v) => v,
            None => "(unset)".to_owned(),
        };
        let line = cat6(
            "  ",
            align_left(e.name, NAME_WIDTH).as_str(),
            "  ",
            align_left(value.as_str(), 12).as_str(),
            "  ",
            e.description,
        );
        assert(line@ == all[i as int]);
        let ghost before = texts(out@);
        out.push(line);
        assert(texts(out@) =~= before.push(all[i as int]));
        assert((seq![ENV_HEADER@] + all.take(i as int)).push(all[i as int]) =~= seq![ENV_HEADER@]
            + all.take(i + 1));
        i += 1;
    }
    assert(all.take(i as int) =~= all);
    out
}

/// The value of a variable in the list as JSON.
pub open spec fn var_json(e: (Seq<char>, Seq<char>, bool), value: Option<String>) -> JsonV {
    JsonV::Object(
        seq![
            ("description"@, JsonV::Str(e.1)),
            ("name"@, JsonV::Str(e.0)),
            ("value"@, crate::acp::text_or_null(shown(e.2, value))),
        ],
    )
}

/// The list of the variables as JSON text.
pub fn env_list_json(values: &Vec<Option<String>>) -> (r: String)
    requires
        values@.len() == var_table().len(),
    ensures
        r@ == pretty_json(
            settled_json(
                JsonV::Array(
                    Seq::new(
                        var_table().len(),
                        |i: int| var_json(var_table()[i], values@[i]),
                    ),
                ),
            ),
        ),
{
    let table = vars();
    let ghost t = var_table();
    let ghost all = Seq::new(t.len(), |i: int| var_json(t[i], values@[i]));
    let mut out = no_items();
    let mut i: usize = 0;
    assert(all.take(0) =~= Seq::empty());
    assert(table@.len() == var_views(table@).len());
    while i < table.len()
        invariant
            i <= table@.len(),
            t == var_views(table@),
            t == var_table(),
            values@.len() == table@.len(),
            all == Seq::new(t.len(), |i: int| var_json(t[i], values@[i])),
            json_views(out@) == all.take(i as int),
        decreases table@.len() - i,
    {
        let e = &table[i];
        assert(t[i as int] == (e.name@, e.description@, e.secret));
        let value = match show(e.secret, &values[i]) {
            Some(v) => js(v.as_str()),
            None => Json::Null,
        };
        assert(value@ == crate::acp::text_or_null(shown(e.secret, values@[i as int])));
        let j = object3("description", js(e.description), "name", js(e.name), "value", value);
        assert(j@ == all[i as int]);
        add_item(&mut out, j);
        assert(all.take(i as int).push(all[i as int]) =~= all.take(i + 1));
        i += 1;
    }
    assert(all.take(i as int) =~= all);
    assert(all =~= Seq::new(var_table().len(), |i: int| var_json(var_table()[i], values@[i])));
    arr(out).render_pretty()
}

/// The line of a secret tells no more of it than its mask: secrets with one mask
/// have one line.
pub proof fn law_secrets_are_masked(e: (Seq<char>, Seq<char>, bool), a: String, b: String)
    requires
        e.2,
        masked(a@) == masked(b@),
    ensures
        var_line(e, Some(a)) == var_line(e, Some(b)),
        var_json(e, Some(a)) == var_json(e, Some(b)),
{
}

/// A variable that is no secret is shown with its value, whole; one that is not set is
/// said to be so, and every line names the variable and says what it is for.
pub proof fn law_values_are_shown(e: (Seq<char>, Seq<char>, bool), value: String)
    ensures
        !e.2 ==> holds(var_line(e, Some(value)), value@),
        holds(var_line(e, Some(value)), e.0),
        ends(var_line(e, Some(value)), e.1),
        holds(var_line(e, None), "(unset)"@),
        !e.2 ==> shown(e.2, Some(value)) == Some(value@),
{
    let wide = left_aligned(e.0, NAME_WIDTH as nat);
    law_columns_hold_their_text(e.0, NAME_WIDTH as nat, 0);
    let line = var_line(e, Some(value));
    let s = shown(e.2, Some(value))->0;
    law_columns_hold_their_text(s, 12, 0);
    law_columns_hold_their_text("(unset)"@, 12, 0);
    let two = "  "@.len() as int;
    assert(wide.subrange(0, e.0.len() as int) =~= e.0);
    assert(line.subrange(two, two + e.0.len()) =~= e.0);
    assert(occurs_at(line, e.0, two));
    let at = two + wide.len() + two;
    assert(left_aligned(s, 12).subrange(0, s.len() as int) =~= s);
    assert(line.subrange(at, at + s.len()) =~= s);
    assert(occurs_at(line, s, at));
    assert(line.subrange(line.len() - e.1.len(), line.len() as int) =~= e.1);
    let unset = var_line(e, None);
    let u = "(unset)"@;
    assert(left_aligned(u, 12).subrange(0, u.len() as int) =~= u);
    assert(unset.subrange(at, at + u.len()) =~= u);
    assert(occurs_at(unset, u, at));
}

/// Every variable has its line, with its own value, in the order of the list.
pub proof fn law_every_variable_is_listed(values: Seq<Option<String>>, i: int)
    requires
        0 <= i < var_table().len(),
    ensures
        env_lines(values).len() == var_table().len() + 1,
        env_lines(values)[i + 1] == var_line(var_table()[i], values[i]),
{
}

} // verus!
