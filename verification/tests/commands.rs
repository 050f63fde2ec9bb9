use sirbone::cmd::doctor::{
    provider_env, run_doctor, DoctorFacts, FileFact, NetworkProbe, ProviderInput, SearchProbe,
};
use sirbone::cmd::env_list::{env_list_json, run_env_list, vars};
use sirbone::cmd::ground::{checkable, last_assistant_text, run_ground};
use sirbone::cmd::hook::{
    hooks_dir, install, installed_lines, removed_line, run_hook, uninstall, HookAction, MARKER,
};
use sirbone::cmd::login::{
    ask_yes_no, env_pickup, login_codex, presets, seeded_line, set_credentials, testing_line,
    trial_line, write_env, Credentials, LoginEnv, Stage, Trial, Wizard,
};
use sirbone::cmd::session_cmds::{run_snapshots, SnapshotEntry};
use sirbone::cmd::setup_verification::{
    add_manual_post, run_command, truncate, Candidate, CandidateKind, Phase, Setup,
};
use sirbone::cmd::stats::{
    bucket_of, is_session_file, render, run_stats, takes_project, AuditSummary, Group,
    TelemetryTotals,
};
use sirbone::cmd::update::{updater_candidates, updater_failed, updater_missing};
use sirbone::cmd::{init_project, instructions_written, mask, Line, LinkOutcome, VendorNames};
use sirbone::json::Json;
use sirbone::types::Message;

fn names() -> VendorNames {
    VendorNames {
        brand: "Opus".into(),
        model: "opus-4-7".into(),
        routed_model: "anthropic/opus-4-8".into(),
        instructions: "GUIDE.md".into(),
    }
}

// --- tokens and variables

#[test]
fn mask_never_reveals_short_tokens() {
    assert_eq!(mask("abc"), "•••");
    assert!(mask("sk-verylongtoken123").starts_with("sk-ver"));
    assert!(!mask("sk-verylongtoken123").contains("token"));
}

#[test]
fn secrets_are_listed_masked() {
    let table = vars();
    let values: Vec<Option<String>> = table
        .iter()
        .map(|v| {
            if v.secret {
                Some("sk-verylongtoken123".to_string())
            } else {
                None
            }
        })
        .collect();
    let lines = run_env_list(&values);
    assert_eq!(lines.len(), table.len() + 1);
    assert!(lines[0].starts_with("Environment variables read by sirbone"));
    for (v, line) in table.iter().zip(&lines[1..]) {
        assert!(line.starts_with(&format!("  {}", v.name)));
        assert!(line.ends_with(v.description));
        assert!(!line.contains("verylongtoken"));
        assert_eq!(line.contains("(unset)"), !v.secret);
    }
    let all = Json::parse(&env_list_json(&values)).unwrap();
    let entries = all.as_array().unwrap();
    assert_eq!(entries.len(), table.len());
    assert_eq!(entries[0].str_at("name"), Some(table[0].name));
}

// --- sessions

#[test]
fn buckets_split_on_peak_context() {
    assert_eq!(bucket_of(0), "<10k");
    assert_eq!(bucket_of(9_999), "<10k");
    assert_eq!(bucket_of(10_000), "10-30k");
    assert_eq!(bucket_of(59_999), "30-60k");
    assert_eq!(bucket_of(60_000), ">60k");
}

fn session(tools: &[(&str, usize)], peak: u32) -> AuditSummary {
    AuditSummary {
        user_turns: 2,
        tool_calls: tools.iter().map(|t| t.1).sum(),
        compactions: 0,
        peak_context_tokens: peak,
        tools: tools.iter().map(|t| (t.0.to_string(), t.1)).collect(),
        errors_by_tool: vec![],
        result_chars_by_tool: vec![("read".to_string(), 400)],
        telemetry: TelemetryTotals {
            runs: 1,
            historia_hits: 2,
            system_prompt_tokens: 400,
            plan_contract_initialized: 1,
            ..TelemetryTotals::none()
        },
    }
}

#[test]
fn absorb_counts_sessions_separately_from_calls() {
    let mut g = Group::none();
    g.absorb(&session(&[("read", 3)], 0));
    g.absorb(&session(&[("read", 1)], 0));

    let read = &g.tools.iter().find(|t| t.0 == "read").unwrap().1;
    assert_eq!(read.calls, 4, "calls sum across sessions");
    assert_eq!(read.sessions, 2, "sessions count once each");
    assert_eq!(read.result_tokens, 200, "400 chars ≈ 100 tokens, twice");
    assert_eq!(g.multi_turn_sessions, 2);
    assert_eq!(g.telemetry.runs, 2);
    assert_eq!(g.telemetry.historia_hits, 4);
    assert_eq!(
        g.telemetry.system_prompt_tokens, 400,
        "prompt size is a max"
    );
    assert_eq!(g.telemetry.plan_contract_initialized, 2);
}

#[test]
fn tools_are_ranked_by_calls_then_by_name() {
    let mut g = Group::none();
    g.absorb(&session(&[("b", 2), ("a", 2), ("c", 5), ("d", 1)], 0));
    let names: Vec<String> = g.ranked().into_iter().map(|r| r.0).collect();
    assert_eq!(names, vec!["c", "a", "b", "d"]);
}

#[test]
fn sessions_fold_into_one_report() {
    let sessions = vec![
        session(&[("read", 3), ("bash", 1)], 5_000),
        session(&[("read", 2)], 70_000),
        session(&[], 20_000),
    ];
    let registry = vec!["read".to_string(), "undo".to_string()];
    let s = run_stats(&sessions, 2, &registry);
    assert_eq!(s.sessions_scanned, 3);
    assert_eq!(s.sessions_with_tool_calls, 2);
    assert_eq!(s.never_called, vec!["undo"]);
    let labels: Vec<&str> = s.by_context.iter().map(|r| r.0.as_str()).collect();
    assert_eq!(labels, vec!["10-30k", "<10k", ">60k"]);
    let text = render(
        &s,
        &vec!["83.3".to_string(), "16.7".to_string()],
        &vec!["0.0".to_string(), "4.0".to_string(), "2.0".to_string()],
    );
    assert!(text.starts_with("# Sir Bone Tool Stats\n\n- Sessions: 3 scanned, 2 with tool calls, across 2 project(s)\n"));
    assert!(text.contains("| `read` | 5 | 83.3% | 2/2 | 0 | 200 |\n"));
    assert!(text.contains("| `bash` | 1 | 16.7% | 1/2 | 0 | 0 |\n"));
    let small = text.find("| <10k | 1 | 4.0 | 0 | read:3 bash:1 |\n").unwrap();
    let middle = text.find("| 10-30k | 1 | 0.0 | 0 |  |\n").unwrap();
    let large = text.find("| >60k | 1 | 2.0 | 0 | read:2 |\n").unwrap();
    assert!(small < middle && middle < large, "{text}");
    assert!(text.ends_with("\nNever called on real projects: `undo`\n"));
    let none = run_stats(&vec![], 0, &registry);
    assert!(render(&none, &vec![], &vec![]).ends_with("\nNo tool calls recorded yet.\n"));
}

#[test]
fn sessions_are_found_by_project_and_name() {
    assert!(takes_project("home-u-app", None));
    assert!(takes_project("home-u-app", Some("app")));
    assert!(!takes_project("home-u-app", Some("other")));
    assert!(is_session_file("abc.jsonl"));
    assert!(!is_session_file("abc.json"));
}

#[test]
fn snapshots_are_numbered() {
    let lines = run_snapshots(&vec![SnapshotEntry {
        short_id: "abc".into(),
        age: "2m".into(),
        label: "before run".into(),
        changed_files: vec!["a.rs".into()],
    }]);
    assert_eq!(
        lines,
        vec![
            " 1. abc  2m  — before run",
            "    a.rs",
            "restore with /rollback <n|id>"
        ]
    );
    assert_eq!(run_snapshots(&vec![]).len(), 1);
}

// --- grounding

#[test]
fn only_divergences_make_the_command_fail() {
    let located = vec!["`f` is defined in src/a.rs".to_string()];
    let r = run_ground(&located);
    assert_eq!(r.failure, None);
    assert_eq!(r.lines[1], "- `f` is defined in src/a.rs");
    let wrong = vec![
        "`x.rs` is not a current file".to_string(),
        "`f` occurs 3 times (you wrote 9)".to_string(),
    ];
    assert!(run_ground(&wrong).failure.unwrap().starts_with("\n2 divergence(s)"));
    assert_eq!(
        run_ground(&vec![]).lines,
        vec!["no groundable claims found — nothing to verify"]
    );
    assert!(checkable("x") && !checkable(" \n"));
}

#[test]
fn the_last_word_of_the_model_is_grounded() {
    let msgs = vec![
        Message::assistant("first".into()),
        Message::assistant("last".into()),
        Message::user("thanks".into()),
    ];
    assert_eq!(last_assistant_text(&msgs).as_deref(), Some("last"));
    assert_eq!(last_assistant_text(&vec![Message::assistant(" ".into())]), None);
    assert_eq!(last_assistant_text(&vec![]), None);
}

// --- the commit hook

fn ours() -> String {
    format!("#!/bin/sh\n# {MARKER}\n")
}

#[test]
fn install_is_idempotent() {
    let first = install("/r/.git/hooks", "").expect("install");
    let second = install("/r/.git/hooks", &ours()).expect("reinstall over our own hook");
    assert_eq!(first, second);
    assert_eq!(first, "/r/.git/hooks/pre-commit");
    assert_eq!(installed_lines(&first)[0], "installed /r/.git/hooks/pre-commit");
    assert_eq!(hooks_dir("/r", ".git/hooks\n"), "/r/.git/hooks");
}

#[test]
fn foreign_hook_is_left_alone() {
    let foreign = "#!/bin/sh\nmake lint\n";
    assert!(install("/h", foreign).is_err());
    assert!(uninstall("/h", Some(foreign)).is_err());
}

#[test]
fn uninstall_removes_our_hook_and_tolerates_absence() {
    assert_eq!(uninstall("/h", None).expect("no hook"), None);
    assert!(uninstall("/h", Some(&ours())).expect("uninstall").is_some());
    assert_eq!(removed_line("/h", None), "no sirbone hook in /h");
    assert_eq!(removed_line("/h", Some("/h/pre-commit")), "removed /h/pre-commit");
}

#[test]
fn the_hook_command_knows_two_words() {
    assert_eq!(run_hook(Some("install")), HookAction::Install);
    assert_eq!(run_hook(Some("uninstall")), HookAction::Uninstall);
    assert_eq!(run_hook(Some("x")), HookAction::Usage);
    assert_eq!(run_hook(None), HookAction::Usage);
}

// --- login

fn no_env() -> LoginEnv {
    LoginEnv {
        anthropic_token: None,
        anthropic_base: None,
        openai_key: None,
        openai_base: None,
        model: None,
    }
}

#[test]
fn a_login_asks_its_way_to_credentials() {
    let (mut w, said) = Wizard::start("/h/.env", false, &no_env(), names());
    assert_eq!(w.stage, Stage::Choose);
    assert_eq!(said.len(), 8);
    assert_eq!(said[1], "  1) Anthropic (Opus — prompt caching + extended thinking)");
    assert_eq!(w.answer("9"), vec!["Enter a number 1–7."]);
    assert_eq!(w.prompt().as_deref(), Some("> "));
    w.answer(" 7 ");
    assert_eq!(w.answer("  "), vec!["Empty token."]);
    w.answer("tok\n");
    assert_eq!(w.stage, Stage::BaseUrl);
    assert_eq!(w.answer(""), vec!["Empty URL."]);
    w.answer("http://localhost:11434/v1");
    assert_eq!(w.prompt().as_deref(), Some("Model [required]: "));
    w.answer("llama");
    assert_eq!(w.stage, Stage::Done);
    let c = w.result.unwrap();
    assert_eq!(
        write_env(&c).lines().skip(2).collect::<Vec<_>>(),
        vec![
            "OPENAI_API_KEY=tok",
            "OPENAI_BASE_URL=http://localhost:11434/v1",
            "SIRBONE_MODEL=llama"
        ]
    );
}

#[test]
fn an_existing_file_is_kept_unless_the_user_agrees() {
    let (mut w, said) = Wizard::start("/h/.env", true, &no_env(), names());
    assert_eq!(said, vec!["/h/.env already exists."]);
    assert_eq!(w.answer(""), vec!["Leaving the file as is."]);
    assert_eq!(w.stage, Stage::Left);
    assert!(w.result.is_none());
    assert_eq!(w.prompt(), None);
    let (mut w, _) = Wizard::start("/h/.env", true, &no_env(), names());
    w.answer("y");
    assert_eq!(w.stage, Stage::Choose);
}

#[test]
fn credentials_of_the_environment_are_offered() {
    let env = LoginEnv {
        anthropic_token: Some("sk-verylongtoken123".into()),
        openai_key: Some("other".into()),
        ..no_env()
    };
    let (mut w, said) = Wizard::start("/h/.env", false, &env, names());
    assert_eq!(w.stage, Stage::SaveFound);
    assert!(said[0].contains("ANTHROPIC_AUTH_TOKEN=sk-ver"));
    assert!(!said[0].contains("token123"));
    w.answer("");
    assert_eq!(w.stage, Stage::Done);
    let c = w.result.unwrap();
    assert!(c.anthropic);
    assert_eq!(c.model, "opus-4-7");
    assert!(env_pickup(&no_env(), &names()).is_none());
    let empty = LoginEnv {
        anthropic_token: Some("".into()),
        openai_key: Some("k".into()),
        model: Some("m".into()),
        ..no_env()
    };
    let c = env_pickup(&empty, &names()).unwrap();
    assert!(!c.anthropic);
    assert_eq!((c.token.as_str(), c.model.as_str()), ("k", "m"));
}

#[test]
fn answers_for_yes() {
    for yes in ["y", "YES ", "s", "Si", "Sì"] {
        assert!(ask_yes_no(yes, false), "{yes}");
    }
    assert!(!ask_yes_no("n", true));
    assert!(ask_yes_no(" ", true) && !ask_yes_no("", false));
}

#[test]
fn credentials_from_a_front_end() {
    let c = set_credentials("anthropic", None, Some(""), " tok \n", &names()).unwrap();
    assert_eq!((c.token.as_str(), c.model.as_str(), c.anthropic), ("tok", "opus-4-7", true));
    assert!(write_env(&c).contains("\nANTHROPIC_AUTH_TOKEN=tok\n"));
    assert!(!write_env(&c).contains("BASE_URL"));
    let c = set_credentials("openai", Some("http://b"), None, "t", &names()).unwrap();
    assert_eq!((c.base.as_deref(), c.model.as_str()), (Some("http://b"), "gpt-4o-mini"));
    assert_eq!(
        set_credentials("openai", None, None, " ", &names()).unwrap_err(),
        "empty token on stdin"
    );
    assert_eq!(
        set_credentials("x", None, None, "t", &names()).unwrap_err(),
        "unknown provider 'x' (use anthropic|openai)"
    );
}

#[test]
fn a_trial_is_reported_without_secrets() {
    let settings = vec![Some("sk-oai-xyz789".to_string())];
    assert_eq!(trial_line(&Trial::Models(3), &settings), "ok (3 models).");
    assert!(trial_line(&Trial::Failed("bad sk-oai-xyz789".into()), &settings)
        .starts_with("warning: bad [redacted] ("));
    assert!(trial_line(&Trial::TimedOut, &settings).contains("15s timeout"));
    let c = Credentials {
        token: "t".into(),
        base: None,
        anthropic: true,
        model: "m".into(),
    };
    assert_eq!(testing_line(&c), "Testing connection (m @ https://api.anthropic.com)… ");
    assert_eq!(seeded_line("/e", true), "Created /e (chmod 600).");
    assert_eq!(login_codex("1"), "`codex login` exited with status 1");
    assert_eq!(presets(&names())[2].default_model, "anthropic/opus-4-8");
}

// --- the setup of the verification

fn candidate(id: &str, kind: CandidateKind, command: &str, globs: &[&str]) -> Candidate {
    Candidate {
        id: id.into(),
        kind,
        command: command.into(),
        source: "Cargo.toml".into(),
        globs: globs.iter().map(|g| g.to_string()).collect(),
    }
}

fn out(lines: &[Line]) -> Vec<String> {
    lines
        .iter()
        .map(|l| match l {
            Line::Out(t) => t.clone(),
            Line::Error(t) => format!("ERR {t}"),
        })
        .collect()
}

#[test]
fn a_setup_leads_from_candidates_to_a_selection() {
    let found = vec![
        candidate("rust-test", CandidateKind::Authoritative, "cargo test", &[]),
        candidate("rust-check", CandidateKind::PostEdit, "cargo check", &["*.rs"]),
        candidate("python-ruff", CandidateKind::PostEdit, "ruff check", &["*.py", "*.pyi"]),
    ];
    let (mut s, lines) = Setup::start("/w", &found);
    assert_eq!(s.phase, Phase::Gate);
    let text = out(&lines);
    assert_eq!(text[0], "Verifica deterministica per /w");
    assert!(text.iter().any(|l| l.starts_with("  1. cargo test — ") && l.ends_with("(raccomandato)")));
    assert_eq!(out(&s.answer("9")), vec!["ERR Scelta non valida."]);
    assert!(s.answer(" ").is_empty());
    s.answer("1");
    assert_eq!(s.phase, Phase::Post);
    assert_eq!(s.groups[s.at].0, "python", "kinds of project come by name");
    s.answer("1"); // ruff
    assert_eq!(s.groups[s.at].0, "rust");
    s.answer("2"); // a check of one's own
    assert_eq!(s.phase, Phase::PostCommand);
    assert_eq!(s.prompt(), Some("Comando rapido: "));
    s.answer("cargo clippy");
    assert_eq!(s.phase, Phase::PostGlobs);
    s.answer("*.rs, , *.toml");
    assert_eq!(s.phase, Phase::Risk);
    s.answer("1");
    assert_eq!(s.phase, Phase::Preview);
    assert_eq!(s.selection.authoritative, "cargo test");
    assert!(s.selection.high_risk);
    assert_eq!(s.selection.max_attempts, 3);
    let post: Vec<(&str, &str)> = s
        .selection
        .post_edit
        .iter()
        .map(|p| (p.0.as_str(), p.1.as_str()))
        .collect();
    assert_eq!(
        post,
        vec![
            ("*.py", "ruff check"),
            ("*.pyi", "ruff check"),
            ("*.rs", "cargo clippy"),
            ("*.toml", "cargo clippy")
        ]
    );
    let shown = out(&s.preview("/w", "{}"));
    assert_eq!(shown[1], "Modifica esatta:\n{}");
    s.answer("1");
    assert_eq!(s.phase, Phase::Trial);
    s.ran(false);
    assert_eq!(s.phase, Phase::SaveFailed);
    s.answer("1"); // do not save
    assert_eq!(s.phase, Phase::Preview);
    s.preview("/w", "{}");
    s.answer("3"); // change
    s.answer("make test");
    s.answer("-");
    assert_eq!(s.phase, Phase::Preview);
    assert_eq!(s.selection.authoritative, "make test");
    assert!(s.selection.post_edit.is_empty());
    s.preview("/w", "{}");
    s.answer("2");
    assert_eq!(s.phase, Phase::Save);
}

#[test]
fn a_setup_without_candidates_can_be_left() {
    let (mut s, _) = Setup::start("/w", &vec![]);
    assert_eq!(
        out(&s.answer("2")),
        vec!["Annullato; nessuna configurazione è stata scritta."]
    );
    assert_eq!(s.phase, Phase::Stop);
    let (mut s, _) = Setup::start("/w", &vec![]);
    s.answer("1");
    s.answer("make test");
    assert_eq!(s.phase, Phase::Post);
    s.answer("2"); // no quick check
    assert_eq!(s.phase, Phase::Risk);
    s.answer("2");
    s.preview("/w", "{}");
    s.answer("4");
    assert_eq!(s.phase, Phase::Stop);
}

#[test]
fn globs_take_the_command() {
    let mut post = vec![("*.a".to_string(), "old".to_string())];
    add_manual_post(&mut post, " *.b ,*.a,, ", "new");
    assert_eq!(
        post,
        vec![
            ("*.a".to_string(), "new".to_string()),
            ("*.b".to_string(), "new".to_string())
        ]
    );
}

#[test]
fn long_output_is_cut_at_a_character() {
    let long = "è".repeat(9_000);
    assert_eq!(truncate(&long).len(), 16_000);
    assert_eq!(truncate("short"), "short");
    let (shown, exit) = run_command("a", "b", Some(-1));
    assert_eq!((shown.as_str(), exit.as_str()), ("ab", "exit: -1"));
    assert_eq!(run_command("", "", None).1, "exit: signal");
}

// --- doctor, update, init

fn facts() -> DoctorFacts {
    DoctorFacts {
        cwd: "/w".into(),
        version: "0.1.0".into(),
        provider: ProviderInput {
            anthropic_key: false,
            auth_token: true,
            anthropic_api_key: false,
            anthropic_base: None,
            anthropic_base_env: None,
            api_key: false,
            openai_api_key: false,
            base: None,
            base_env: None,
        },
        system_prompt_chars: 400,
        disable: None,
        model: None,
        model_env: None,
        files: vec![FileFact {
            label: "project config".into(),
            path: Some("/w/config.json".into()),
            exists_there: true,
            text: Some("{}".into()),
        }],
        agents_md: false,
        vendor_md: true,
        names: names(),
        project_dir: "/p".into(),
        snapshots_off: false,
        enabled_mcp: vec![],
        catalog: vec![],
        native_tools: 3,
        native_tokens: 30,
        headless_tools: 2,
        headless_tokens: 20,
        ranking: vec![("read".into(), 12)],
        search: SearchProbe::Version("search2md 1.0\n".into()),
        hooks: None,
        spend_cap: Some(1000),
        skills_on_disk: 0,
        skills_enabled: 0,
        network_asked: false,
        network: None,
        settings: vec![Some("sk-oai-xyz789".into())],
    }
}

#[test]
fn a_sound_setup_is_ready() {
    let lines = run_doctor(&facts());
    assert_eq!(lines[0], "Sir Bone doctor");
    assert!(lines.iter().any(|l| l.ends_with("model: opus-4-7")));
    assert!(lines.iter().any(|l| l.ends_with("project instructions: GUIDE.md")));
    assert_eq!(lines.last().map(String::as_str), Some("doctor: ready"));
}

#[test]
fn each_trouble_is_a_warning() {
    let mut f = facts();
    f.vendor_md = false;
    f.search = SearchProbe::Missing;
    f.files[0].text = Some("{oops".into());
    f.network_asked = true;
    f.network = Some(NetworkProbe {
        models: Err("bad sk-oai-xyz789".into()),
        window: Some(1000),
        tokens: Ok(7),
    });
    let lines = run_doctor(&f);
    assert_eq!(lines.last().map(String::as_str), Some("doctor: 4 warning(s)"));
    assert!(!lines.iter().any(|l| l.contains("sk-oai-xyz789")));
    assert!(lines.iter().any(|l| l.ends_with("network models: bad [redacted]")));
    assert!(provider_env(&f.provider).anthropic);
}

#[test]
fn the_updater_is_looked_for_beside_the_program_first() {
    let places = updater_candidates("/opt/bin/sirbone", &vec!["/usr/bin".to_string()], "sirbone-update");
    assert_eq!(places, vec!["/opt/bin/sirbone-update", "/usr/bin/sirbone-update"]);
    // the text of the directories stays
    let places = updater_candidates("/opt//bin/sirbone", &vec!["/usr//bin/".to_string()], "u");
    assert_eq!(places, vec!["/opt//bin/u", "/usr//bin/u"]);
    assert!(updater_missing("sirbone-update").starts_with("`sirbone-update` not found next to this binary.\n\nIt ships"));
    assert_eq!(updater_failed("/u", "exit status: 1"), "/u exited with exit status: 1");
}

#[test]
fn instructions_that_exist_are_not_written_over() {
    let (lines, write) = init_project(3, 4, &LinkOutcome::Existed, true);
    assert!(!write);
    assert_eq!(
        out(&lines),
        vec![
            "built code map: 3 files, 4 edges",
            "AGENTS.md already exists — not overwriting"
        ]
    );
    let (lines, write) = init_project(3, 4, &LinkOutcome::Failed("denied".into()), false);
    assert!(write);
    assert_eq!(out(&lines)[1], "ERR could not link project config: denied");
    assert_eq!(out(&instructions_written("/w/AGENTS.md", None))[0], "created /w/AGENTS.md");
}
