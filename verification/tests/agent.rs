use sirbone::agent::ask::{
    ask_prompt, collect_answers, replies_of, single_answer, AnswerOrigin, Question, QuestionOption,
};
use sirbone::agent::lanes::plan_lanes;
use sirbone::agent::policy::{
    decide_after_hooks, decide_before_hooks, decide_classified, is_test_path, note_test_edits,
    nudge_if_stuck, stuck_tool, unfinished_steps, Gate, GateFacts, STUCK_THRESHOLD,
};
use sirbone::agent::run::{
    after_turn, begin_turn, compaction_notice, compaction_wanted, finish_run, recover_overflow,
    recovery_notice, start, AfterTurn, DoneWord, Ending, Recovery, TurnEnd, TurnGate,
};
use sirbone::agent::tokens::{
    compact_budget, context_tokens, estimate_context_tokens, keep_budget, should_compact,
};
use sirbone::agent::tools::{
    answer_call, clear_call, command_of, finish_batch, first_look, last_user_prompt,
    mutates_workspace, outcome_of, permission_prompt, screen_call, Clearance, FirstLook, Screened,
};
use sirbone::agent::turn::{
    account_turn, after_stream, anchor_after, approved_plan_note, chit_chat_gate, is_chit_chat,
    last_report, turn_prefix, StreamStep,
};
use sirbone::agent::{env_max_steps, PromptAnswer, PromptKind, PromptReply, RequestAnchor};
use sirbone::json::Json;
use sirbone::permissions::{Decision, PreAction, PreVerdict};
use sirbone::types::{
    extract_text, AgentEvent, AgentState, ContentBlock, Message, Role, TodoItem, TodoStatus,
    TokenUsage, ToolCall,
};

fn j(text: &str) -> Json {
    Json::parse(text).expect("JSON text")
}

fn call(name: &str, id: &str, args: &str) -> ToolCall {
    ToolCall {
        id: id.into(),
        name: name.into(),
        arguments: j(args),
    }
}

// --- lanes

#[test]
fn lanes_serialize_same_path_mutations() {
    let tc = |name: &str, path: &str, id: &str| call(name, id, &format!("{{\"path\":\"{path}\"}}"));
    let lanes = plan_lanes(
        &vec![
            tc("edit", "/tmp/a", "1"),
            tc("write", "/tmp/a", "2"), // same path -> shares lane 0
            tc("edit", "/tmp/b", "3"),  // different path -> own lane
        ],
        &vec![
            Some("/tmp/a".to_string()),
            Some("/tmp/a".to_string()),
            Some("/tmp/b".to_string()),
        ],
    );
    // Two distinct files => two lanes; the /tmp/a lane holds both calls.
    assert_eq!(lanes.len(), 2);
    let a_lane = lanes.iter().find(|l| l.len() == 2).unwrap();
    assert_eq!(a_lane[0].id, "1");
    assert_eq!(a_lane[1].id, "2");
}

#[test]
fn lanes_keep_non_mutating_parallel() {
    let tc = |name: &str, id: &str| call(name, id, r#"{"pattern":"x"}"#);
    let lanes = plan_lanes(
        &vec![tc("grep", "1"), tc("grep", "2"), tc("read", "3")],
        &vec![None, None, None],
    );
    // No mutating calls -> every call gets its own lane.
    assert_eq!(lanes.len(), 3);
    assert!(lanes.iter().all(|l| l.len() == 1));
}

// --- small talk

#[test]
fn chit_chat_detects_greetings_not_tasks() {
    for s in [
        "ciao",
        "Ciao!",
        "  HELLO ",
        "chi sei?",
        "grazie",
        "what can you do?",
    ] {
        assert!(is_chit_chat(s), "expected chit-chat: {s:?}");
    }
    for s in [
        "crea il file X",
        "fix the parser",
        "ciao mondo, scrivi un test", // greeting word but a real task
        "",
        "read src/agent.rs",
    ] {
        assert!(!is_chit_chat(s), "expected task: {s:?}");
    }
}

#[test]
fn only_a_user_greeting_gets_the_small_prompt() {
    let hello = vec![Message::user("hello".into())];
    let known = chit_chat_gate(&hello, None).expect("a greeting");
    assert!(known.contains("Do not start any task"));
    let fresh = chit_chat_gate(&hello, Some("GUIDE.md")).expect("a greeting");
    assert!(fresh.starts_with(&known) && fresh.contains("no GUIDE.md/AGENTS.md yet"));
    assert!(chit_chat_gate(&vec![Message::assistant("hello".into())], None).is_none());
    assert!(chit_chat_gate(&vec![Message::user("fix the parser".into())], None).is_none());
    assert!(chit_chat_gate(&vec![], None).is_none());
}

// --- the compaction trigger

#[test]
fn compaction_threshold() {
    assert!(!should_compact(100, 128_000, 20, 6, None));
    assert!(should_compact(120_000, 128_000, 20, 6, None));
    assert!(!should_compact(111_999, 128_000, 20, 6, None));
    // Too few messages to compact — should return false even at high token usage
    assert!(!should_compact(120_000, 128_000, 5, 6, None));
}

const W: usize = 1_000_000;

#[test]
fn unset_budget_keeps_the_window_fraction() {
    // 87.5% of the window, and a keep window of half of it.
    assert!(!should_compact(874_000, W, 10, 6, None));
    assert!(should_compact(875_000, W, 10, 6, None));
    assert_eq!(keep_budget(W, None), W / 2);
}

#[test]
fn budget_moves_the_trigger_without_ever_disabling_the_backstop() {
    let set = compact_budget(Some("125000"));
    assert_eq!(set, Some(125_000));
    assert!(!should_compact(124_000, W, 10, 6, set));
    assert!(should_compact(125_000, W, 10, 6, set));
    // A third of the trigger, so the post-compaction check has room.
    assert_eq!(keep_budget(W, set), 41_666);

    let wide = compact_budget(Some("9000000"));
    assert!(should_compact(875_000, W, 10, 6, wide));

    for bad in ["0", "lots", ""] {
        assert_eq!(compact_budget(Some(bad)), None, "should ignore {bad:?}");
    }
    assert_eq!(compact_budget(None), None);
    assert_eq!(keep_budget(W, None), W / 2);
}

#[test]
fn the_trigger_reads_the_provider_count_not_the_byte_estimate() {
    let mut messages: Vec<Message> = (0..8)
        .map(|i| Message::user(format!("short prompt {i}")))
        .collect();
    let window = 128_000;
    let estimated = context_tokens(&messages, None);
    assert!(estimated < 100, "estimate should be tiny: {estimated}");
    assert!(!should_compact(estimated, window, messages.len(), 2, None));
    let anchor = Some(RequestAnchor {
        input_tokens: 119_000,
        messages_len: messages.len(),
    });
    messages.push(Message::user("another turn".into()));
    let measured = context_tokens(&messages, anchor);
    assert!(measured >= 119_000, "anchor was ignored: {measured}");
    assert!(should_compact(measured, window, messages.len(), 2, None));
    messages.truncate(1);
    assert!(context_tokens(&messages, anchor) < 100);
}

#[test]
fn an_anchor_is_only_replaced_by_a_count() {
    let counted = TokenUsage {
        input: 42_000,
        output: 100,
    };
    let anchor = anchor_after(counted, 1, None).expect("no anchor recorded");
    assert_eq!(anchor.input_tokens, 42_000);
    assert_eq!(anchor.messages_len, 1);
    // a provider that counts nothing leaves the last measurement
    let before = Some(anchor);
    assert_eq!(anchor_after(TokenUsage::none(), 9, before), before);
}

#[test]
fn estimate_context_tokens_sums_each_block_kind() {
    let msgs = vec![Message {
        role: Role::User,
        injected: false,
        content: vec![
            ContentBlock::Text {
                text: "a".repeat(9),
            }, // 9/3 = 3
            ContentBlock::Thinking {
                thinking: "b".repeat(6),
            }, // 6/3 = 2
            ContentBlock::ToolUse {
                id: "i".into(),
                name: "n".into(),
                input: j(r#"{ "k": "v" }"#), // {"k":"v"} = 9 -> 3
            },
            ContentBlock::ToolResult {
                tool_use_id: "i".into(),
                content: "c".repeat(12), // 12/3 = 4
                is_error: false,
            },
            ContentBlock::Image {
                media_type: "image/png".into(),
                data: "d".repeat(15),
            }, // 15/3 = 5
        ],
    }];
    assert_eq!(estimate_context_tokens(&msgs), 3 + 2 + 3 + 4 + 5);
}

#[test]
fn estimates_add_up_over_the_blocks() {
    let said = |role: Role, texts: &[&str]| Message {
        role,
        injected: false,
        content: texts
            .iter()
            .map(|t| ContentBlock::Text { text: t.to_string() })
            .collect(),
    };
    assert_eq!(estimate_context_tokens(&Vec::new()), 0);
    let a = said(Role::User, &["abcdef", "xyz"]);
    let b = said(Role::Assistant, &["0123456789"]);
    let sum = estimate_context_tokens(&vec![a]) + estimate_context_tokens(&vec![b]);
    assert_eq!(sum, 2 + 1 + 3);
    let both = vec![
        said(Role::User, &["abcdef", "xyz"]),
        said(Role::Assistant, &["0123456789"]),
    ];
    assert_eq!(estimate_context_tokens(&both), sum);
    // the same blocks, spread otherwise
    let other = vec![
        said(Role::Assistant, &["abcdef"]),
        said(Role::Assistant, &[]),
        said(Role::User, &["xyz", "0123456789"]),
    ];
    assert_eq!(estimate_context_tokens(&other), sum);
}

// --- repeated calls

/// One failing bash call repeated `n` times -> message history.
fn failing_runs(n: usize, args: &str) -> Vec<Message> {
    let mut msgs = Vec::new();
    for i in 0..n {
        let id = format!("t{i}");
        msgs.push(Message::assistant_with_tools(vec![call("bash", &id, args)]));
        msgs.push(Message::tool_result(&id, "Error: boom".into(), true));
    }
    msgs
}

#[test]
fn stuck_tool_fires_at_threshold() {
    let args = r#"{ "command": "cargo build" }"#;
    // Below threshold: no nudge.
    assert!(stuck_tool(&failing_runs(STUCK_THRESHOLD - 1, args)).is_none());
    // Exactly at threshold: fires once.
    assert_eq!(
        stuck_tool(&failing_runs(STUCK_THRESHOLD, args)).as_deref(),
        Some("bash")
    );
    // Past threshold: does not re-fire.
    assert!(stuck_tool(&failing_runs(STUCK_THRESHOLD + 1, args)).is_none());
}

#[test]
fn stuck_tool_ignores_success_and_different_args() {
    // A trailing success breaks the streak.
    let mut msgs = failing_runs(STUCK_THRESHOLD - 1, r#"{ "command": "x" }"#);
    msgs.push(Message::assistant_with_tools(vec![call(
        "bash",
        "ok",
        r#"{ "command": "x" }"#,
    )]));
    msgs.push(Message::tool_result("ok", "done".into(), false));
    assert!(stuck_tool(&msgs).is_none());

    // Differing arguments are not a repeat.
    let mut msgs = Vec::new();
    for i in 0..STUCK_THRESHOLD {
        let id = format!("d{i}");
        msgs.push(Message::assistant_with_tools(vec![call(
            "bash",
            &id,
            &format!("{{\"command\":\"cmd{i}\"}}"),
        )]));
        msgs.push(Message::tool_result(&id, "Error".into(), true));
    }
    assert!(stuck_tool(&msgs).is_none());
}

fn last_result(msgs: &[Message]) -> &str {
    let ContentBlock::ToolResult { content, .. } = msgs.last().unwrap().content.last().unwrap()
    else {
        panic!("last block should be a tool result");
    };
    content
}

#[test]
fn nudge_if_stuck_appends_on_streak() {
    let mut msgs = failing_runs(STUCK_THRESHOLD, r#"{ "command": "x" }"#);
    nudge_if_stuck(&mut msgs);
    assert!(
        last_result(&msgs).contains("Stop repeating"),
        "nudge text should be appended"
    );
}

#[test]
fn nudge_if_stuck_noop_below_threshold() {
    let mut msgs = failing_runs(STUCK_THRESHOLD - 1, r#"{ "command": "x" }"#);
    nudge_if_stuck(&mut msgs);
    assert!(
        !last_result(&msgs).contains("Stop repeating"),
        "no nudge below the streak threshold"
    );
}

// --- edited tests

fn one_tool_result(body: &str) -> Vec<Message> {
    vec![Message {
        role: Role::User,
        content: vec![ContentBlock::ToolResult {
            tool_use_id: "i".into(),
            content: body.into(),
            is_error: false,
        }],
        injected: false,
    }]
}

#[test]
fn note_test_edits_appends_to_the_last_tool_result() {
    let mut msgs = one_tool_result("Edited tests/smoke.rs.");
    note_test_edits(&mut msgs);
    let content = last_result(&msgs);
    assert!(
        content.starts_with("Edited tests/smoke.rs."),
        "rides inside the existing result"
    );
    assert!(
        content.contains("is not evidence"),
        "the fact should be appended"
    );
}

#[test]
fn note_test_edits_noop_without_a_tool_result() {
    let mut msgs = vec![Message {
        role: Role::Assistant,
        content: vec![ContentBlock::Text {
            text: "done".into(),
        }],
        injected: false,
    }];
    note_test_edits(&mut msgs);
    assert_eq!(msgs.len(), 1);
    let ContentBlock::Text { text } = msgs[0].content.last().unwrap() else {
        panic!("unchanged");
    };
    assert_eq!(text, "done");
}

// --- the model's own steps

fn steps(statuses: &[TodoStatus]) -> Vec<TodoItem> {
    statuses
        .iter()
        .enumerate()
        .map(|(i, &status)| TodoItem {
            content: format!("step {i}"),
            status,
        })
        .collect()
}

#[test]
fn completion_check_names_only_the_unfinished_steps() {
    let msg = unfinished_steps(&steps(&[
        TodoStatus::Completed,
        TodoStatus::InProgress,
        TodoStatus::Pending,
    ]))
    .expect("an unfinished list must be reported");
    assert!(!msg.contains("step 0"), "completed steps are not feedback");
    assert!(msg.contains("step 1") && msg.contains("step 2"), "{msg}");
}

#[test]
fn completion_check_is_silent_when_finished_or_unplanned() {
    assert!(unfinished_steps(&steps(&[TodoStatus::Completed, TodoStatus::Completed])).is_none());
    assert!(unfinished_steps(&vec![]).is_none());
}

#[test]
fn test_paths_are_recognized_across_ecosystems() {
    for p in [
        "tests/smoke.rs",
        "src/foo/__tests__/bar.js",
        "spec/models/user_spec.rb",
        "pkg/test/helper.go",
        "test_agent.py",
        "src/handler_test.go",
        "src/UserTest.java",
        "web/button.test.tsx",
        "web/button.spec.ts",
    ] {
        assert!(is_test_path(p), "missed {p}");
    }
}

#[test]
fn source_paths_that_merely_look_testy_are_not_tests() {
    for p in [
        "src/testing/harness.rs",
        "src/latest_run.rs",
        "src/contest.rs",
        "src/protest/mod.rs",
        "docs/testing.md",
        "src/attestation.py",
    ] {
        assert!(!is_test_path(p), "false alarm on {p}");
    }
}

#[test]
fn approved_plan_note_carries_spec_and_directive() {
    let note = approved_plan_note("**Goal** — x");
    assert!(
        note.contains("APPROVED PLAN"),
        "labels the note for the model"
    );
    assert!(note.contains("**Goal** — x"), "embeds the spec verbatim");
    assert!(
        note.contains("deviate"),
        "tells the model to flag deviations"
    );
}

#[test]
fn a_report_is_the_last_thing_said() {
    let msgs = vec![
        Message::user("find it".into()),
        Message::assistant("REPORT: change foo.rs".into()),
        Message::assistant("  ".into()),
    ];
    assert_eq!(last_report(&msgs).as_deref(), Some("REPORT: change foo.rs"));
    assert_eq!(last_report(&vec![Message::user("x".into())]), None);
}

// --- before a call

fn facts() -> GateFacts {
    GateFacts {
        review_only: false,
        review_refusal: None,
        mutation_target: None,
        static_decision: None,
        mcp_decision: None,
        protected_target: false,
        destructive: false,
        read_only: false,
        environment: false,
    }
}

#[test]
fn unknown_commands_are_allowed_by_default() {
    let f = facts();
    assert_eq!(decide_before_hooks("bash", &f), Gate::AskHooks);
    assert_eq!(
        decide_after_hooks("bash", &f, PreVerdict::Pass),
        Gate::Decided(Decision::Allow, PreAction::AsIs)
    );
}

#[test]
fn described_environments_ask_the_classifier() {
    let f = GateFacts {
        environment: true,
        ..facts()
    };
    assert_eq!(decide_after_hooks("bash", &f, PreVerdict::Pass), Gate::Classify);
    let known = GateFacts {
        environment: true,
        read_only: true,
        ..facts()
    };
    assert_eq!(
        decide_after_hooks("bash", &known, PreVerdict::Pass),
        Gate::Decided(Decision::Allow, PreAction::AsIs)
    );
}

#[test]
fn a_hook_that_allows_decides() {
    let f = GateFacts {
        environment: true,
        destructive: true,
        ..facts()
    };
    assert_eq!(
        decide_after_hooks("bash", &f, PreVerdict::Allow),
        Gate::Decided(Decision::Allow, PreAction::AsIs)
    );
}

#[test]
fn a_hook_that_denies_decides() {
    let f = GateFacts {
        environment: true,
        ..facts()
    };
    assert_eq!(
        decide_after_hooks("bash", &f, PreVerdict::Deny("no".into())),
        Gate::Decided(Decision::Deny("no".into()), PreAction::AsIs)
    );
}

#[test]
fn a_review_only_run_refuses_what_modifies() {
    let f = GateFacts {
        review_only: true,
        mutation_target: Some("src/a.rs".into()),
        static_decision: Some(Decision::Allow),
        ..facts()
    };
    assert_eq!(
        decide_before_hooks("edit", &f),
        Gate::Decided(
            Decision::Deny("review-only run: `edit` would modify src/a.rs".into()),
            PreAction::AsIs
        )
    );
}

#[test]
fn the_trust_root_is_asked_about() {
    let f = GateFacts {
        mutation_target: Some("/home/u/.sirbone/config.json".into()),
        protected_target: true,
        ..facts()
    };
    assert_eq!(
        decide_before_hooks("write", &f),
        Gate::Decided(Decision::Ask, PreAction::AsIs)
    );
    let ruled = GateFacts {
        static_decision: Some(Decision::Allow),
        ..f
    };
    assert_eq!(
        decide_before_hooks("write", &ruled),
        Gate::Decided(Decision::Allow, PreAction::AsIs)
    );
}

#[test]
fn hooks_rewrite_and_answer() {
    assert_eq!(
        decide_after_hooks("bash", &facts(), PreVerdict::AllowRewritten(j(r#"{"a":1}"#))),
        Gate::Decided(Decision::Allow, PreAction::Rewrite(j(r#"{"a":1}"#)))
    );
    assert_eq!(
        decide_after_hooks("bash", &facts(), PreVerdict::Short("cached".into())),
        Gate::Decided(Decision::Allow, PreAction::Short("cached".into()))
    );
    assert_eq!(
        decide_after_hooks("bash", &facts(), PreVerdict::Ask("why".into())),
        Gate::Decided(Decision::Ask, PreAction::AsIs)
    );
    assert_eq!(
        decide_classified(Some((Decision::Deny("bad".into()), None))).0,
        Decision::Deny("bad".into())
    );
}

// --- the clearance of a call

fn reply(index: Option<usize>, text: Option<&str>) -> PromptReply {
    PromptReply {
        index,
        text: text.map(str::to_string),
        answers: vec![],
    }
}

#[test]
fn nobody_to_ask_blocks_a_call() {
    match clear_call(Decision::Ask, "rm -rf x", "rm *", None) {
        Clearance::Blocked(reason) => {
            assert!(reason.contains("auto-denied"));
            assert!(reason.contains("rm -rf x"));
        }
        other => panic!("not blocked: {other:?}"),
    }
}

#[test]
fn the_answer_of_the_user_clears_a_call() {
    assert!(matches!(
        clear_call(Decision::Ask, "rm x", "rm *", Some(reply(Some(0), None))),
        Clearance::Run
    ));
    match clear_call(Decision::Ask, "rm x", "rm *", Some(reply(Some(1), None))) {
        Clearance::RunAlways(rule) => assert_eq!(rule, "rm *"),
        other => panic!("no rule: {other:?}"),
    }
    match clear_call(Decision::Ask, "rm x", "rm *", Some(reply(Some(1), Some("rm y*")))) {
        Clearance::RunAlways(rule) => assert_eq!(rule, "rm y*"),
        other => panic!("no rule: {other:?}"),
    }
    match clear_call(Decision::Ask, "rm x", "rm *", Some(reply(Some(2), Some("use mv")))) {
        Clearance::Blocked(reason) => {
            assert!(reason.contains("denied by the user"));
            assert!(reason.contains("User feedback: use mv."));
        }
        other => panic!("not blocked: {other:?}"),
    }
}

#[test]
fn a_permission_prompt_offers_three_ways() {
    let p = permission_prompt("rm x", "rm *");
    assert_eq!(p.options, vec!["Allow once", "Allow always", "Deny"]);
    assert_eq!(p.detail.as_deref(), Some("rm x"));
    assert!(matches!(p.kind, PromptKind::Permission { suggested_glob } if suggested_glob == "rm *"));
}

#[test]
fn a_blocked_call_is_answered_and_a_cleared_one_runs() {
    let c = || call("bash", "c1", r#"{"command":"ls"}"#);
    match screen_call(c(), PreAction::AsIs, Clearance::Blocked("no".into())) {
        Screened::Answered {
            shown,
            told,
            is_error,
            ..
        } => {
            assert_eq!((shown.as_str(), told.as_str(), is_error), ("blocked", "no", true));
        }
        other => panic!("{other:?}"),
    }
    match screen_call(
        c(),
        PreAction::Rewrite(j(r#"{"command":"ls -l"}"#)),
        Clearance::Run,
    ) {
        Screened::Run(call) => assert_eq!(command_of(&call.arguments), "ls -l"),
        other => panic!("{other:?}"),
    }
    match screen_call(c(), PreAction::Short("hit".into()), Clearance::Run) {
        Screened::Answered { told, is_error, .. } => {
            assert_eq!((told.as_str(), is_error), ("hit", false));
        }
        other => panic!("{other:?}"),
    }
}

#[test]
fn the_contract_blocks_changes_only() {
    let missing = vec!["Goal".to_string(), "Steps".to_string()];
    let edit = call("edit", "1", r#"{"path":"a"}"#);
    match first_look(&edit, true, &missing) {
        FirstLook::Blocked(reason) => assert!(reason.contains("Goal, Steps")),
        other => panic!("{other:?}"),
    }
    assert!(matches!(first_look(&edit, false, &missing), FirstLook::Decide));
    assert!(matches!(first_look(&edit, true, &vec![]), FirstLook::Decide));
    let ask = call("ask_user", "2", "{}");
    assert!(matches!(first_look(&ask, true, &missing), FirstLook::AskUser));
    assert!(mutates_workspace(true, "edit", true));
    assert!(mutates_workspace(false, "bash", false));
    assert!(!mutates_workspace(false, "bash", true));
    assert!(!mutates_workspace(false, "grep", false));
}

#[test]
fn a_call_is_reported_with_its_result() {
    let c = call("bash", "c1", "{}");
    let (from, to, message) = answer_call(&c, "shown", "told".into(), true);
    assert!(matches!(from, AgentEvent::ToolCallStart { id, .. } if id == "c1"));
    assert!(matches!(to, AgentEvent::ToolCallEnd { result, is_error: true, .. } if result == "shown"));
    assert_eq!(message, Message::tool_result("c1", "told".into(), true));
    assert_eq!(outcome_of(Ok("x".into())), ("x".to_string(), false));
    assert_eq!(outcome_of(Err("x".into())), ("Error: x".to_string(), true));
}

#[test]
fn a_report_rides_in_the_last_result() {
    let mut msgs = vec![Message::user("go".into())];
    finish_batch(
        &mut msgs,
        vec![Message::tool_result("c1", "Edited a.rs.".into(), false)],
        false,
        Some("CHECK FAILED"),
    );
    assert_eq!(msgs.len(), 2);
    assert!(last_result(&msgs).starts_with("Edited a.rs."));
    assert!(last_result(&msgs).contains("CHECK FAILED"));
    assert_eq!(last_user_prompt(&msgs), "go");
}

// --- questions

fn question(id: &str, context: &str) -> Question {
    Question {
        id: id.into(),
        context: context.into(),
        question: format!("{id}?"),
        options: vec![
            QuestionOption {
                label: "A".into(),
                display: "A — first".into(),
            },
            QuestionOption {
                label: "B".into(),
                display: "B — second".into(),
            },
        ],
    }
}

#[test]
fn a_single_question_is_shown_and_answered() {
    let qs = vec![question("db", "  ")];
    let p = ask_prompt(&qs, true);
    assert_eq!(p.title, "db?");
    assert_eq!(p.detail, None);
    assert_eq!(p.options, vec!["A — first", "B — second"]);
    let answers = collect_answers(&qs, &replies_of(reply(Some(1), None), true));
    assert_eq!(answers[0].value, "B");
    assert_eq!(answers[0].index, Some(1));
    assert_eq!(single_answer(&answers[0]), "The user chose: B");
}

#[test]
fn a_round_collects_its_answers() {
    let qs = vec![question("a", "ctx"), question("b", "")];
    let p = ask_prompt(&qs, false);
    match &p.kind {
        PromptKind::QuestionRound { questions } => {
            assert_eq!(questions.len(), 2);
            assert_eq!(questions[0].detail.as_deref(), Some("ctx"));
        }
        other => panic!("{other:?}"),
    }
    let answers = collect_answers(
        &qs,
        &replies_of(
            PromptReply {
                index: None,
                text: None,
                answers: vec![
                    PromptAnswer {
                        index: Some(0),
                        text: None,
                    },
                    PromptAnswer {
                        index: None,
                        text: Some("mine".into()),
                    },
                ],
            },
            false,
        ),
    );
    assert_eq!(answers[0].origin, AnswerOrigin::User);
    assert_eq!(answers[1].origin, AnswerOrigin::FreeText);
    assert_eq!(answers[1].value, "mine");
}

#[test]
fn a_dismissed_question_says_so() {
    let qs = vec![question("db", "")];
    let answers = collect_answers(&qs, &replies_of(reply(None, None), true));
    assert_eq!(answers[0].origin, AnswerOrigin::Dismissed);
    assert!(single_answer(&answers[0]).contains("dismissed"));
}

// --- the run

#[test]
fn the_cap_on_turns_is_kept() {
    let mut p = start();
    for _ in 0..3 {
        assert!(matches!(begin_turn(&mut p, Some(3), None, 0), TurnGate::Go));
    }
    match begin_turn(&mut p, Some(3), None, 0) {
        TurnGate::MaxSteps(t) => assert_eq!(t, "Max steps reached (3) — stopping"),
        other => panic!("{other:?}"),
    }
    assert_eq!(env_max_steps(Some(" 7 ")), Some(7));
    assert_eq!(env_max_steps(Some("x")), None);
    assert_eq!(env_max_steps(None), None);
}

#[test]
fn the_cap_on_tokens_is_kept() {
    let mut p = start();
    match begin_turn(&mut p, None, Some(100), 100) {
        TurnGate::SpendCap(t) => assert!(t.starts_with("spend cap reached (100/100 tokens)")),
        other => panic!("{other:?}"),
    }
    assert!(matches!(begin_turn(&mut p, None, Some(100), 99), TurnGate::Go));
}

#[test]
fn a_turn_costs_what_was_counted() {
    let sent = vec![Message::user("x".repeat(300))];
    let said = Message::assistant("y".repeat(30));
    let counted = TokenUsage {
        input: 50,
        output: 7,
    };
    assert_eq!(account_turn(10, Some(1_000), counted, &sent, &said), 67);
    // without a count, the estimate of what went over the wire
    assert_eq!(account_turn(0, Some(1_000), TokenUsage::none(), &sent, &said), 110);
}

#[test]
fn without_a_cap_nothing_is_counted() {
    let counted = TokenUsage {
        input: 50,
        output: 7,
    };
    assert_eq!(
        account_turn(10, None, counted, &vec![], &Message::assistant("y".into())),
        10
    );
}

#[test]
fn shrinking_is_tried_twice_in_a_row() {
    let mut p = start();
    assert!(matches!(after_turn(&mut p, TurnEnd::Overflow), AfterTurn::Shrink));
    assert!(matches!(after_turn(&mut p, TurnEnd::Overflow), AfterTurn::Shrink));
    assert!(matches!(after_turn(&mut p, TurnEnd::Overflow), AfterTurn::Fail));
    assert!(matches!(
        after_turn(&mut p, TurnEnd::Done(AgentState::Done)),
        AfterTurn::GoOn(AgentState::Done)
    ));
    // a turn that came through makes room for more recoveries
    assert!(matches!(after_turn(&mut p, TurnEnd::Overflow), AfterTurn::Shrink));
    assert!(matches!(after_turn(&mut p, TurnEnd::Error), AfterTurn::Fail));
}

#[test]
fn pruning_saves_what_no_summary_can() {
    let mut messages = vec![
        Message::user("find the bug".into()),
        Message::tool_result("t1", "y".repeat(400_000), false),
    ];
    let mut anchor = Some(RequestAnchor {
        input_tokens: 9,
        messages_len: 2,
    });
    let r = recover_overflow(&mut messages, &mut anchor, false, None, None, None);
    assert_eq!(r, Recovery::Pruned);
    assert!(last_result(&messages).starts_with("[pruned to fit the context:"));
    assert_eq!(extract_text(&messages[0].content), "find the bug");
    assert!(recovery_notice(r).contains("pruned"));
    let mut nothing = vec![Message::user("find the bug".into())];
    assert_eq!(
        recover_overflow(&mut nothing, &mut None, false, None, None, None),
        Recovery::GaveUp
    );
}

#[test]
fn the_end_of_a_run_hears_the_oracle_then_the_hooks_then_the_steps() {
    let mut p = start();
    let open = steps(&[TodoStatus::Pending]);
    match finish_run(&mut p, DoneWord::Oracle("tests fail".into()), true, &open) {
        Ending::Again { reason, .. } => assert_eq!(extract_text(&reason.content), "tests fail"),
        other => panic!("{other:?}"),
    }
    for _ in 0..5 {
        assert!(matches!(
            finish_run(&mut p, DoneWord::StopHooks(Some("more".into())), true, &open),
            Ending::Again { .. }
        ));
    }
    assert_eq!(
        finish_run(&mut p, DoneWord::StopHooks(Some("more".into())), true, &open),
        Ending::Stop
    );
    let mut p = start();
    assert!(matches!(
        finish_run(&mut p, DoneWord::StopHooks(None), true, &open),
        Ending::Again { .. }
    ));
    assert_eq!(
        finish_run(&mut p, DoneWord::StopHooks(None), true, &open),
        Ending::Stop
    );
    let mut p = start();
    assert_eq!(
        finish_run(&mut p, DoneWord::StopHooks(None), false, &open),
        Ending::Stop
    );
}

#[test]
fn a_full_transcript_is_to_be_compacted() {
    let filler = "x".repeat(4_000);
    let messages: Vec<Message> = (0..16)
        .map(|i| Message::user(format!("request {i}: {filler}")))
        .collect();
    assert!(compaction_wanted(
        true,
        &AgentState::Done,
        &messages,
        None,
        Some(2_000),
        None,
        None
    ));
    assert!(!compaction_wanted(
        false,
        &AgentState::Done,
        &messages,
        None,
        Some(2_000),
        None,
        None
    ));
    assert!(compaction_notice(None, true).is_some());
    assert!(compaction_notice(None, false).is_none());
    assert!(compaction_notice(Some("boom"), false).is_some());
}

#[test]
fn a_rule_that_trips_is_put_aside() {
    let mut spent: Vec<String> = Vec::new();
    match after_stream(&mut spent, &Some("box-leak".into()), Some("Never Box::leak."), 2) {
        StreamStep::Restart {
            put_aside,
            reminder,
            ..
        } => {
            assert!(put_aside.contains(&"box-leak".to_string()));
            assert!(extract_text(&reminder.content).contains("Never Box::leak."));
            assert!(reminder.injected);
        }
        other => panic!("{other:?}"),
    }
    assert!(matches!(
        after_stream(&mut spent, &None, None, 2),
        StreamStep::Take
    ));
}

#[test]
fn rules_trip_so_often_and_no_more() {
    let mut spent: Vec<String> = Vec::new();
    let rule = Some("box-leak".to_string());
    for _ in 0..2 {
        assert!(matches!(
            after_stream(&mut spent, &rule, Some("m"), 2),
            StreamStep::Restart { .. }
        ));
    }
    assert!(matches!(
        after_stream(&mut spent, &rule, Some("m"), 2),
        StreamStep::Take
    ));
}

#[test]
fn a_turn_opens_on_the_system_prompt_and_the_notes() {
    let lead = turn_prefix(&Some("SYS".into()), "remember", false);
    assert_eq!(lead[0].role, Role::System);
    assert!(lead.iter().any(|m| extract_text(&m.content).contains("remember")));
    assert!(turn_prefix(&None, "  ", false).is_empty());
}
