use sirbone::checks::{
    apply_filters, configured_presets, diagnostic_identity, failed_output, judge_stop,
    matched_hooks, parse_command_list, tusk_armed, CheckOutcome, DiagnosticsLedger, HookOutput,
    HookPreset, Hooks, PostEditChecks, PreHook, PreVerdict, TuskHook, TuskOutcome,
};
use sirbone::json::Json;
use sirbone::patterns::glob_matches;
use sirbone::risk::{high_risk_reason, risky_command, risky_file};

fn j(text: &str) -> Json {
    Json::parse(text).expect("JSON text")
}

fn checks(json: &str) -> PostEditChecks {
    PostEditChecks::from_value(Some(&j(json)))
}

#[test]
fn identity_strips_the_location_prefix() {
    assert_eq!(
        diagnostic_identity("src/foo.rs:12:5: error[E0308]: mismatched types"),
        "error[E0308]: mismatched types"
    );
    // Same message after an edit shifted it down: identical identity.
    assert_eq!(
        diagnostic_identity("src/foo.rs:99:5: error[E0308]: mismatched types"),
        diagnostic_identity("src/foo.rs:12:5: error[E0308]: mismatched types")
    );
    // No location => the line is its own identity.
    assert_eq!(
        diagnostic_identity("error: could not compile `sirbone`"),
        "error: could not compile `sirbone`"
    );
}

#[test]
fn ledger_emits_only_the_delta() {
    let mut led = DiagnosticsLedger::new();
    let first = led.reduce(
        "check",
        "a.rs:1:1: warning: unused\nb.rs:2:1: warning: dead",
    );
    assert_eq!(first.repeated, 0);
    assert_eq!(first.fresh.lines().count(), 2);

    // Same two diagnostics, one moved, plus a new one.
    let second = led.reduce(
        "check",
        "a.rs:1:1: warning: unused\nb.rs:9:1: warning: dead\nc.rs:3:1: error: boom",
    );
    assert_eq!(second.repeated, 2);
    assert_eq!(second.fresh, "c.rs:3:1: error: boom");

    // Nothing new at all.
    let third = led.reduce("check", "a.rs:1:1: warning: unused");
    assert!(third.fresh.is_empty());
    assert_eq!(third.repeated, 1);
}

#[test]
fn forgetting_makes_a_diagnostic_reportable_again() {
    let mut c = PostEditChecks::new(vec![("*.rs".to_string(), "check".to_string())]);
    let out = "a.rs:1:1: warning: unused";
    assert_eq!(c.ledger.reduce("check", out).repeated, 0);
    assert_eq!(c.ledger.reduce("check", out).repeated, 1);
    c.forget_reported();
    assert_eq!(c.ledger.reduce("check", out).repeated, 0);
}

#[test]
fn ledger_is_keyed_per_command() {
    let mut led = DiagnosticsLedger::new();
    led.reduce("cargo check", "a.rs:1:1: warning: unused");
    let other = led.reduce("ruff", "a.rs:1:1: warning: unused");
    assert_eq!(other.repeated, 0, "another command has its own memory");
}

/// Runs the checks for some files, each command ending as `end` says.
fn run(
    c: &mut PostEditChecks,
    paths: &[&str],
    end: impl Fn(&str) -> CheckOutcome,
) -> Option<String> {
    let paths = paths.iter().map(|p| p.to_string()).collect();
    let commands = c.commands(&paths);
    let outcomes = commands.iter().map(|cmd| end(cmd)).collect();
    c.run(&commands, &outcomes, true)
}

#[test]
fn repeated_failure_collapses_but_stays_visible() {
    let mut c = checks(r#"{"*.rs": "cargo check"}"#);
    let fails = |_: &str| CheckOutcome::Failed("a.rs:1:1: error: boom".into());
    let first = run(&mut c, &["x.rs"], fails).expect("check fails");
    assert!(first.contains("error: boom"), "{first}");
    let second = run(&mut c, &["x.rs"], fails).expect("still failing => still reported");
    assert!(second.contains("still failing"), "{second}");
    assert!(
        second.lines().count() < first.lines().count(),
        "diagnostic not re-billed: {second}"
    );
}

#[test]
fn parses_config_and_handles_garbage() {
    let c = checks(r#"{"*.rs": "cargo check -q", "*.py": "ruff check -q"}"#);
    assert_eq!(c.rules.len(), 2);
    assert!(PostEditChecks::from_value(None).is_empty());
    assert!(
        checks(r#"{"*.rs": 42}"#).is_empty(),
        "non-string command skipped"
    );
    assert_eq!(
        PostEditChecks::load(Some(r#"{"post_edit_check":{"*.rs":"x"}}"#))
            .rules
            .len(),
        1
    );
    assert!(PostEditChecks::load(Some("{oops")).is_empty());
    assert!(PostEditChecks::load(None).is_empty());
}

#[test]
fn failing_check_reports_and_passing_is_silent() {
    let mut c = checks(r#"{"*.rs": "fails", "*.py": "passes"}"#);
    let end = |cmd: &str| {
        if cmd == "fails" {
            CheckOutcome::Failed(failed_output("", "boom"))
        } else {
            CheckOutcome::Passed
        }
    };
    let report = run(&mut c, &["src/foo.rs"], end).expect("must fail");
    assert!(report.contains("post-edit check failed"));
    assert!(report.contains("boom"));
    assert!(
        run(&mut c, &["a.py"], end).is_none(),
        "passing check is silent"
    );
    assert!(run(&mut c, &["a.go"], end).is_none(), "no matching glob");
}

#[test]
fn timed_out_post_check_is_incomplete_not_a_code_failure() {
    let mut c = checks(r#"{"*.rs": "slow"}"#);
    let report = run(&mut c, &["a.rs"], |_| {
        CheckOutcome::Incomplete("timed out after 60s".into())
    })
    .expect("reported");
    assert!(report.contains("timed out"));
    assert!(!report.contains("post-edit check failed"));
}

#[test]
fn same_command_runs_once_for_many_files() {
    let mut c = checks(r#"{"*.rs": "dup", "src/*": "dup"}"#);
    let report = run(&mut c, &["src/a.rs", "src/b.rs"], |_| {
        CheckOutcome::Failed("dup".into())
    })
    .expect("fails");
    assert_eq!(report.matches("post-edit check failed").count(), 1);
}

fn pre(json: &str) -> Vec<PreHook> {
    pre_value(&j(json))
}

fn pre_value(v: &Json) -> Vec<PreHook> {
    matched_hooks(v)
        .into_iter()
        .map(|(matcher, command)| PreHook { matcher, command })
        .collect()
}

#[test]
fn parse_pre_hooks_defaults_match_to_star_and_skips_incomplete() {
    let hs = pre(r#"[{"match":"bash","command":"a"},{"command":"b"},{"match":"x"}]"#);
    assert_eq!(hs.len(), 2);
    assert_eq!(hs[0].matcher, "bash");
    assert_eq!(hs[1].matcher, "*", "missing match defaults to all tools");
}

#[test]
fn parse_command_list_accepts_bare_and_object() {
    let v = j(r#"["a", {"command": "b"}, {"nope": 1}]"#);
    assert_eq!(
        parse_command_list(&v),
        vec!["a".to_string(), "b".to_string()]
    );
}

#[test]
fn malformed_hook_config_is_ignored_safely() {
    assert!(pre_value(&j(r#"{"bad": true}"#)).is_empty());
    assert!(pre_value(&j(r#"[{"match": "bash"}, {"command": 1}, "nope"]"#)).is_empty());
    assert!(parse_command_list(&j(r#"{"bad": true}"#)).is_empty());
}

#[test]
fn preset_config_separates_known_unknown_and_deduplicates() {
    let section = j(
        r#"{"presets": ["high_risk", "future_policy", "high_risk", "future_policy", 7]}"#,
    );
    let (known, unknown) = configured_presets(Some(&section));
    assert_eq!(known, vec![HookPreset::HighRisk]);
    assert_eq!(unknown, vec!["future_policy"]);
    assert_eq!(configured_presets(None), (Vec::new(), Vec::new()));
}

#[test]
fn the_documented_hooks_block_parses() {
    let section = j(
        r#"{
        "presets": ["high_risk"],
        "pre_tool_use": [{"match": "bash", "command": "./policy-check"}],
        "post_tool_use": {"*.py": "python -m ruff check ."},
        "tusk": [{"match": "*", "command": "~/.sirbone/redact-secrets"}],
        "stop": ["./completion-invariant"]
    }"#,
    );
    let hooks = Hooks::from_section(Some(&section), PostEditChecks::from_value(None), None);
    assert_eq!(hooks.presets, vec![HookPreset::HighRisk]);
    assert_eq!(hooks.pre.len(), 1);
    assert_eq!(hooks.stop, vec!["./completion-invariant".to_string()]);
    assert!(!hooks.post.is_empty());
    assert_eq!(hooks.tusk.len(), 1, "the documented tusk block must parse");
    assert_eq!(hooks.tusk[0].matcher, "*");
    assert_eq!(hooks.tusk[0].command, "~/.sirbone/redact-secrets");
    assert!(tusk_armed(&hooks.tusk));
}

#[test]
fn switched_off_hooks_are_not_loaded() {
    let section = j(r#"{"pre_tool_use":[{"command":"a"}],"stop":["b"]}"#);
    let hooks = Hooks::from_section(
        Some(&section),
        PostEditChecks::from_value(None),
        Some("hook:pre"),
    );
    assert!(hooks.pre.is_empty());
    assert_eq!(hooks.stop.len(), 1);
}

fn ended(code: i32, stdout: &str, stderr: &str) -> Option<HookOutput> {
    Some(HookOutput {
        code,
        stdout: stdout.into(),
        stderr: stderr.into(),
    })
}

fn guarded(hooks: &Hooks, tool: &str, input: &Json, outs: Vec<Option<HookOutput>>) -> PreVerdict {
    let mut g = hooks.pre_tool_use(tool, input);
    for out in outs {
        if g.next_command().is_none() {
            break;
        }
        g.feed(out);
    }
    g.finish()
}

fn with_pre(json: &str) -> Hooks {
    let mut h = Hooks::none();
    h.pre = pre(json);
    h
}

#[test]
fn pre_gate_allows_denies_and_passes() {
    let h = with_pre(r#"[{"match":"bash","command":"x"}]"#);
    let none = j("{}");
    assert_eq!(
        guarded(&h, "bash", &none, vec![ended(0, "", "")]),
        PreVerdict::Allow
    );
    match guarded(&h, "bash", &none, vec![ended(2, "", "nope\n")]) {
        PreVerdict::Deny(r) => assert!(r.contains("nope"), "{r}"),
        other => panic!("expected deny: {other:?}"),
    }
    // Non-matching tool and non-decisive exit both fall through to Pass.
    assert_eq!(
        guarded(&h, "read", &none, vec![ended(0, "", "")]),
        PreVerdict::Pass
    );
    assert_eq!(
        guarded(&h, "bash", &none, vec![ended(1, "", "")]),
        PreVerdict::Pass
    );
    // a hook that took too long decides nothing
    assert_eq!(guarded(&h, "bash", &none, vec![None]), PreVerdict::Pass);
    // No hooks configured: nothing to run.
    assert!(Hooks::none().pre_tool_use("bash", &none).next_command().is_none());
}

#[test]
fn the_first_hook_that_decides_wins() {
    let h = with_pre(r#"[{"command":"a"},{"command":"b"},{"command":"c"}]"#);
    let verdict = guarded(
        &h,
        "bash",
        &j("{}"),
        vec![ended(1, "", ""), ended(0, "", ""), ended(2, "", "late")],
    );
    assert_eq!(verdict, PreVerdict::Allow);
}

#[test]
fn pre_gate_receives_tool_and_input_on_stdin() {
    let h = with_pre(r#"[{"match":"*","command":"x"}]"#);
    let g = h.pre_tool_use("bash", &j(r#"{"command":"ls"}"#));
    let payload = j(&g.payload);
    assert_eq!(payload.str_at("tool"), Some("bash"));
    assert_eq!(payload.at("input").str_at("command"), Some("ls"));
}

#[test]
fn pre_gate_asks_rewrites_and_short_circuits() {
    let h = with_pre(r#"[{"match":"*","command":"x"}]"#);
    let none = j("{}");
    assert_eq!(
        guarded(&h, "bash", &none, vec![ended(3, "confirm first\n", "")]),
        PreVerdict::Ask("confirm first".into())
    );
    match guarded(&h, "bash", &none, vec![ended(4, "{\"command\":\"pnpm i\"}\n", "")]) {
        PreVerdict::AllowRewritten(v) => assert_eq!(v.str_at("command"), Some("pnpm i")),
        other => panic!("expected rewrite: {other:?}"),
    }
    match guarded(&h, "bash", &none, vec![ended(4, "not-json\n", "")]) {
        PreVerdict::Deny(r) => assert!(r.contains("not a JSON object"), "{r}"),
        other => panic!("expected deny on unusable rewrite: {other:?}"),
    }
    match guarded(&h, "web_search", &none, vec![ended(5, "cached answer\n", "")]) {
        PreVerdict::Short(r) => assert_eq!(r.trim(), "cached answer"),
        other => panic!("expected short-circuit: {other:?}"),
    }
}

#[test]
fn high_risk_preset_asks_once_for_risky_operations() {
    let mut hooks = with_pre(r#"[{"match":"*","command":"exit 0"}]"#);
    hooks.presets = vec![HookPreset::HighRisk];
    let risky = [
        ("bash", r#"{"command": "cargo add serde"}"#),
        ("bash", r#"{"command": "alembic upgrade head"}"#),
        (
            "edit",
            r#"{"path": "Cargo.toml", "old_string": "a", "new_string": "b"}"#,
        ),
        (
            "write",
            r#"{"path": "api/openapi.yaml", "content": "openapi: 3"}"#,
        ),
        (
            "edit",
            r#"{"path": "migrations/001.sql", "old_string": "a", "new_string": "b"}"#,
        ),
        (
            "edit",
            r#"{"path": "src/lib.rs", "old_string": "fn x() {}", "new_string": "pub fn x() {}"}"#,
        ),
        (
            "bash",
            r#"{"command": "cat > notesdb/export.py <<'PY'\ndef export_json(src, dst):\n    pass\nPY"}"#,
        ),
    ];
    for (tool, input) in risky {
        let g = hooks.pre_tool_use(tool, &j(input));
        assert!(g.next_command().is_none(), "nothing runs for {tool} {input}");
        assert!(
            matches!(g.finish(), PreVerdict::Ask(_)),
            "expected Ask for {tool} {input}"
        );
    }
}

#[test]
fn high_risk_preset_is_silent_for_safe_controls() {
    let mut hooks = Hooks::none();
    hooks.presets = vec![HookPreset::HighRisk];
    let safe = [
        ("bash", r#"{"command": "cargo test"}"#),
        ("bash", r#"{"command": "git diff --check"}"#),
        (
            "edit",
            r#"{"path": "src/internal.rs", "old_string": "let a = 1", "new_string": "let a = 2"}"#,
        ),
        ("write", r#"{"path": "README.md", "content": "docs"}"#),
        (
            "bash",
            r#"{"command": "cat > notesdb/internal.py <<'PY'\ndef _normalize(value):\n    return value\nPY"}"#,
        ),
    ];
    for (tool, input) in safe {
        assert_eq!(
            hooks.pre_tool_use(tool, &j(input)).finish(),
            PreVerdict::Pass,
            "unexpected prompt for {tool} {input}"
        );
    }
}

#[test]
fn risks_have_their_reasons() {
    assert!(risky_command("npm install left-pad").is_some());
    assert!(risky_command("ls -l").is_none());
    assert!(risky_file("Cargo.lock", "").is_some());
    assert!(risky_file("src/main.rs", "let x = 1;").is_none());
    // the command matters for `bash` alone
    let adds = j(r#"{"command":"cargo add serde"}"#);
    assert!(high_risk_reason("bash", &adds).is_some());
    assert!(high_risk_reason("note", &adds).is_none());
}

#[test]
fn stop_hook_forces_continuation_on_exit_2() {
    let mut h = Hooks::none();
    h.stop = vec!["x".into()];
    assert_eq!(
        h.stop(vec![ended(2, "keep going\n", "")]).as_deref(),
        Some("keep going")
    );
    assert!(h.stop(vec![ended(0, "", "")]).is_none());
    assert!(h.stop(vec![None]).is_none());
    assert!(Hooks::none().stop(vec![]).is_none());
    assert!(judge_stop("x", ended(2, "", "")).is_some());
}

fn filtered(h: &Hooks, tool: &str, result: &str, run: impl Fn(&str, &str) -> Option<HookOutput>) -> TuskOutcome {
    let mut c = h.tusk(tool);
    loop {
        let out = match c.next_filter(result) {
            Some((cmd, input)) => run(cmd, input),
            None => return c.finish(),
        };
        c.feed(out);
    }
}

fn with_tusks(json: &str) -> Hooks {
    let mut h = Hooks::none();
    h.tusk = matched_hooks(&j(json))
        .into_iter()
        .map(|(matcher, command)| TuskHook { matcher, command })
        .collect();
    h
}

#[test]
fn tusk_passes_through_transforms_and_chains() {
    let noop = with_tusks(r#"[{"match":"*","command":"cat"}]"#);
    assert_eq!(
        filtered(&noop, "bash", "secret=abc", |_, _| ended(0, "", "")),
        TuskOutcome::Unchanged
    );
    let redact = with_tusks(r#"[{"match":"bash","command":"sed"}]"#);
    assert_eq!(
        filtered(&redact, "bash", "secret=abc", |_, input| {
            ended(0, &input.replace("abc", "[redacted]"), "")
        }),
        TuskOutcome::Replaced("secret=[redacted]".into())
    );
    // Each filter sees what the previous one produced.
    let chain = with_tusks(r#"[{"match":"*","command":"one"},{"match":"*","command":"two"}]"#);
    assert_eq!(
        filtered(&chain, "bash", "zero", |cmd, input| {
            ended(0, &format!("{input}>{cmd}"), "")
        }),
        TuskOutcome::Replaced("zero>one>two".into())
    );
    // A non-matching filter never runs.
    assert_eq!(
        filtered(&redact, "read", "secret=abc", |_, _| panic!("must not run")),
        TuskOutcome::Unchanged
    );
}

#[test]
fn tusk_fails_closed() {
    let refuse = with_tusks(r#"[{"match":"*","command":"x"},{"match":"*","command":"late"}]"#);
    assert_eq!(
        filtered(&refuse, "bash", "sk-live-1", |cmd, _| {
            assert_ne!(cmd, "late", "the chain stops at the first withhold");
            ended(2, "", "contains a key\n")
        }),
        TuskOutcome::Withheld("contains a key".into())
    );
    match filtered(&refuse, "bash", "sk-live-1", |_, _| ended(7, "", "")) {
        TuskOutcome::Withheld(r) => {
            assert!(r.contains("exited 7"), "{r}");
            assert!(!r.contains("sk-live-1"), "reason must not leak the result");
        }
        other => panic!("expected withhold, got {other:?}"),
    }
    assert!(matches!(
        filtered(&refuse, "bash", "x", |_, _| None),
        TuskOutcome::Withheld(_)
    ));
}

#[test]
fn what_is_withheld_is_an_error() {
    assert_eq!(
        apply_filters(TuskOutcome::Withheld("no".into()), "x".into(), false),
        ("no".to_string(), true)
    );
    assert_eq!(
        apply_filters(TuskOutcome::Replaced("y".into()), "x".into(), false),
        ("y".to_string(), false)
    );
    assert_eq!(
        apply_filters(TuskOutcome::Unchanged, "x".into(), true),
        ("x".to_string(), true)
    );
}

#[test]
fn globs_match_whole_texts() {
    assert!(glob_matches("*.rs", "src/a.rs"));
    assert!(glob_matches("src/*", "src/a/b.rs"));
    assert!(glob_matches("*", ""));
    assert!(!glob_matches("*.rs", "a.rsx"));
}

#[test]
fn every_line_is_shown_or_counted() {
    let mut ledger = DiagnosticsLedger::new();
    let out = "src/a.rs:1:2: error: x\n\nnote  \nsrc/b.rs:9:9: error: x\n   \nlast\r\n";
    let first = ledger.reduce("check", out);
    assert_eq!(first.fresh, "src/a.rs:1:2: error: x\nnote  \nlast");
    assert_eq!(first.fresh.lines().count() + first.repeated, 4);
    ledger.reduce("other", out);
    let second = ledger.reduce("check", out);
    assert_eq!((second.fresh.as_str(), second.repeated), ("", 4));
}
