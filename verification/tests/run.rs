//! Whole runs: the machines of the library driven by a scripted provider, a few
//! tools over files in memory, and a shell that knows a handful of commands.
use sirbone::agent::answer::{Turn, TurnStep};
use sirbone::agent::ask::{begin_asking, end_asking, Asking, Question, QuestionOption};
use sirbone::agent::batch::{all_answered, Batch, BatchAction, BatchEvent, CallFacts, Place};
use sirbone::agent::compact::{plan_compaction, region_calls};
use sirbone::agent::machine::{Run, RunAction, RunEvent, RunFacts};
use sirbone::agent::policy::GateFacts;
use sirbone::agent::prepass::{localize, Prepass, PrepassAction};
use sirbone::agent::tools::{call_started, command_of, finish_call, outcome_of};
use sirbone::agent::{AgentContext, Prompt, PromptAnswer, PromptKind, PromptReply, TurnResult};
use sirbone::checks::{
    failed_output, CheckOutcome, HookOutput, HookPreset, Hooks, PostEditChecks, PreHook, TuskHook,
};
use sirbone::json::Json;
use sirbone::permissions::Decision;
use sirbone::types::{
    extract_text, AgentEvent, AgentState, ContentBlock, Message, Role, TodoItem, TodoStatus,
    TokenUsage, ToolCall,
};
use std::collections::VecDeque;

fn j(text: &str) -> Json {
    Json::parse(text).expect("JSON text")
}

fn text_turn(text: &str) -> TurnResult {
    TurnResult {
        assistant_message: Message::assistant(text.into()),
        state: AgentState::Done,
        usage: TokenUsage::none(),
        tripped_rule: None,
    }
}

fn tool_turn(id: &str, name: &str, args: &str) -> TurnResult {
    let call = || ToolCall {
        id: id.into(),
        name: name.into(),
        arguments: j(args),
    };
    TurnResult {
        assistant_message: Message::assistant_with_tools(vec![call()]),
        state: AgentState::ToolCalling(vec![call()]),
        usage: TokenUsage::none(),
        tripped_rule: None,
    }
}

fn ctx(messages: Vec<Message>) -> AgentContext {
    AgentContext {
        model: "test".into(),
        system_prompt: None,
        messages,
        context_window: None,
        compaction_keep_recent: None,
        hooks: Hooks::none(),
        max_steps: None,
        spend_cap: None,
        tokens_spent: 0,
        compacted_files: vec![],
        last_request: None,
    }
}

/// Everything around a run: what the provider answers, who can be asked, the
/// files, and what has been seen of it all.
struct World {
    turns: VecDeque<Result<TurnResult, String>>,
    summary: String,
    turn_calls: usize,
    summary_calls: usize,
    summary_request: Vec<Message>,
    rule: Option<&'static str>,
    events: Vec<AgentEvent>,
    files: Vec<(String, String)>,
    missing: Vec<String>,
    answer: Option<fn(&Prompt) -> PromptReply>,
    environment: bool,
    classifier: Option<(Decision, Option<String>)>,
    classifier_calls: usize,
    allowed: bool,
    review_only: bool,
    labels: Vec<String>,
    final_oracle: usize,
    oracle: VecDeque<String>,
    todos: Vec<TodoItem>,
}

const MAX_TRIPS: usize = 2;

fn world(turns: Vec<Result<TurnResult, String>>) -> World {
    World {
        turns: turns.into(),
        summary: "S".into(),
        turn_calls: 0,
        summary_calls: 0,
        summary_request: vec![],
        rule: None,
        events: vec![],
        files: vec![],
        missing: vec![],
        answer: None,
        environment: false,
        classifier: None,
        classifier_calls: 0,
        allowed: false,
        review_only: false,
        labels: vec![],
        final_oracle: 0,
        oracle: VecDeque::new(),
        todos: vec![],
    }
}

fn shell(command: &str, stdin: &str) -> HookOutput {
    let (code, stdout, stderr) = match command {
        "exit 0" => (0, String::new(), ""),
        "echo blocked >&2; exit 2" => (2, String::new(), "blocked\n"),
        "echo cached answer; exit 5" => (5, "cached answer\n".to_string(), ""),
        "echo E0308 mismatched; exit 1" => (1, "E0308 mismatched\n".to_string(), ""),
        "sed s/sk-live-[A-Z0-9]*/[redacted]/" => {
            (0, stdin.replace("sk-live-DEADBEEF", "[redacted]"), "")
        }
        other => panic!("unknown command {other}"),
    };
    HookOutput {
        code,
        stdout,
        stderr: stderr.into(),
    }
}

fn target(call: &ToolCall) -> Option<String> {
    match call.name.as_str() {
        "write" | "edit" => call.arguments.str_at("path").map(str::to_string),
        _ => None,
    }
}

impl World {
    fn execute(&mut self, call: &ToolCall) -> Result<String, String> {
        let text = |key: &str| call.arguments.str_at(key).unwrap_or("").to_string();
        match call.name.as_str() {
            "write" => {
                let path = text("path");
                self.files.retain(|f| f.0 != path);
                self.files.push((path, text("content")));
                Ok("written".into())
            }
            "read" => self
                .files
                .iter()
                .find(|f| f.0 == text("path"))
                .map(|f| f.1.clone())
                .ok_or("no such file".into()),
            "note" => {
                self.missing.clear();
                Ok("noted".into())
            }
            "bash" => {
                let command = text("command");
                Ok(command.strip_prefix("echo ").unwrap_or("").to_string())
            }
            other => Err(format!("unknown tool {other}")),
        }
    }

    fn facts(&self, call: &ToolCall) -> CallFacts {
        let command = command_of(&call.arguments);
        let read_only = command.starts_with("echo ") || command == "git diff";
        CallFacts {
            missing: self.missing.clone(),
            gate: GateFacts {
                review_only: self.review_only,
                review_refusal: if call.name == "bash" && !read_only {
                    Some("not known to read only".into())
                } else {
                    None
                },
                mutation_target: target(call),
                static_decision: if self.allowed { Some(Decision::Allow) } else { None },
                mcp_decision: None,
                protected_target: target(call).is_some_and(|p| p.starts_with("~/.sirbone/")),
                destructive: command.starts_with("rm -rf"),
                read_only,
                environment: self.environment,
            },
            inner: command,
            glob: "Bash(*)".into(),
            attended: self.answer.is_some(),
        }
    }
}

fn run_hooks(ctx: &AgentContext, call: &ToolCall) -> BatchEvent {
    let mut guard = ctx.hooks.pre_tool_use(&call.name, &call.arguments);
    while let Some(command) = guard.next_command().map(str::to_string) {
        let out = shell(&command, &guard.payload);
        guard.feed(Some(out));
    }
    BatchEvent::HooksSaid(guard.finish())
}

fn options(q: &Json) -> Vec<QuestionOption> {
    q.array_at("options")
        .expect("options")
        .iter()
        .map(|o| match o.as_str() {
            Some(label) => QuestionOption {
                label: label.into(),
                display: label.into(),
            },
            None => {
                let label = o.str_at("label").unwrap_or("").to_string();
                let display = format!("{label} — {}", o.str_at("description").unwrap_or(""));
                QuestionOption { label, display }
            }
        })
        .collect()
}

fn question(q: &Json) -> Question {
    Question {
        id: q.str_at("id").unwrap_or("q").into(),
        context: q.str_at("context").unwrap_or("").into(),
        question: q.str_at("question").unwrap_or("").into(),
        options: options(q),
    }
}

fn ask_user(w: &World, call: &ToolCall) -> BatchEvent {
    let round = match call.arguments.array_at("questions") {
        Some(list) => Ok((list.iter().map(question).collect::<Vec<_>>(), false)),
        None => Ok((vec![question(&call.arguments)], true)),
    };
    match begin_asking(&round, w.answer.is_some()) {
        Asking::Tell { text, is_error } => BatchEvent::Answered { text, is_error },
        Asking::Ask(prompt) => {
            let reply = w.answer.expect("somebody to ask")(&prompt);
            let (questions, single) = round.expect("a round");
            BatchEvent::Answered {
                text: end_asking(&questions, single, reply),
                is_error: false,
            }
        }
    }
}

fn run_lanes(ctx: &AgentContext, w: &mut World, lanes: Vec<Vec<ToolCall>>) -> BatchEvent {
    let mut results = vec![];
    let mut note_tests = false;
    for call in lanes.iter().flatten() {
        w.events.push(call_started(call));
        let (content, is_error) = outcome_of(w.execute(call));
        let mut chain = ctx.hooks.tusk(&call.name);
        while let Some((command, input)) = chain
            .next_filter(&content)
            .map(|(c, i)| (c.to_string(), i.to_string()))
        {
            chain.feed(Some(shell(&command, &input)));
        }
        let path = target(call);
        let (end, message, wrote) =
            finish_call(call, content, is_error, chain.finish(), path.as_deref());
        w.events.push(end);
        results.push(message);
        note_tests |= wrote;
    }
    BatchEvent::Ran {
        results,
        note_tests,
        checks: !ctx.hooks.post.is_empty(),
    }
}

fn run_tools(ctx: &mut AgentContext, w: &mut World, calls: Vec<ToolCall>) -> AgentState {
    let (mut batch, mut action) = Batch::new(calls);
    loop {
        let ev = match action {
            BatchAction::Look => BatchEvent::Facts(w.facts(&batch.waiting[0])),
            BatchAction::AskUser => ask_user(w, &batch.waiting[0]),
            BatchAction::AskHooks => run_hooks(ctx, &batch.waiting[0]),
            BatchAction::Classify => {
                w.classifier_calls += 1;
                BatchEvent::Classified(w.classifier.take())
            }
            BatchAction::AskPermission(p) => {
                BatchEvent::Replied(w.answer.expect("somebody to ask")(&p))
            }
            BatchAction::Locate => BatchEvent::Places(
                batch
                    .approved
                    .iter()
                    .map(|c| Place {
                        path: target(c),
                        read_only: command_of(&c.arguments).starts_with("echo "),
                    })
                    .collect(),
            ),
            BatchAction::Run { label, lanes } => {
                // the workspace is saved once in a run
                if let (Some(label), true) = (label, w.labels.is_empty()) {
                    w.labels.push(label);
                }
                run_lanes(ctx, w, lanes)
            }
            BatchAction::Check(edited) => {
                let commands = ctx.hooks.post.commands(&edited);
                let outcomes = commands
                    .iter()
                    .map(|c| {
                        let out = shell(c, "");
                        if out.code == 0 {
                            CheckOutcome::Passed
                        } else {
                            CheckOutcome::Failed(failed_output(&out.stdout, &out.stderr))
                        }
                    })
                    .collect();
                BatchEvent::Checked(ctx.hooks.post.run(&commands, &outcomes, true))
            }
            BatchAction::Finish => return AgentState::Idle,
        };
        if let BatchEvent::Ran { results, .. } = &ev {
            assert!(all_answered(&batch.approved, results));
        }
        let o = batch.step(&mut ctx.messages, ev);
        w.events.extend(o.events);
        action = o.action;
    }
}

fn run_turn(ctx: &mut AgentContext, w: &mut World) -> Result<AgentState, String> {
    let (mut turn, started) = Turn::begin(ctx, "", false);
    w.events.push(started);
    loop {
        let sent = turn.request(&ctx.messages);
        assert!(sent.len() >= ctx.messages.len());
        w.turn_calls += 1;
        let result = w.turns.pop_front().unwrap_or(Err("faux: no more turns".into()))?;
        for block in &result.assistant_message.content {
            if let ContentBlock::Text { text } = block {
                w.events.push(AgentEvent::TextChunk(text.clone()));
            }
        }
        w.events.push(AgentEvent::TurnEnd);
        let (events, step) = turn.take_answer(ctx, result, w.rule, MAX_TRIPS);
        w.events.extend(events);
        if let TurnStep::Done { state, .. } = step {
            return Ok(state);
        }
    }
}

fn compact(ctx: &mut AgentContext, w: &mut World) -> Result<(), String> {
    let plan = plan_compaction(
        &ctx.messages,
        ctx.compaction_keep_recent,
        ctx.context_window,
        None,
    )
    .map_err(|e| e.message())?;
    let paths = region_calls(&ctx.messages, plan)
        .iter()
        .map(|(name, input)| match name.as_str() {
            "edit" | "write" => input.str_at("path").map(str::to_string),
            _ => None,
        })
        .collect();
    w.summary_request = ctx.ask_for_summary(plan, &paths, Some("/home/u"), false);
    w.summary_calls += 1;
    let summary = w.summary.clone();
    let events = ctx.apply_summary(plan, &summary).map_err(|e| e.message())?;
    w.events.extend(events);
    Ok(())
}

fn run(ctx: &mut AgentContext, w: &mut World) -> Result<(), String> {
    let mut machine = Run::new();
    let mut ev = RunEvent::Begin;
    let mut error = String::new();
    loop {
        let facts = RunFacts {
            missing: None,
            compaction_on: true,
            budget: None,
            check_steps: !w.todos.is_empty(),
            todos: std::mem::take(&mut w.todos),
        };
        let (events, action) = machine.step(ctx, ev, &facts);
        w.todos = facts.todos;
        w.events.extend(events);
        ev = match action {
            RunAction::SmallTalk(system) => {
                let kept = ctx.system_prompt.replace(system);
                let r = run_turn(ctx, w);
                ctx.system_prompt = kept;
                RunEvent::TurnDone(r?)
            }
            RunAction::TakeTurn => match run_turn(ctx, w) {
                Ok(state) => RunEvent::TurnDone(state),
                Err(e) => {
                    error = e.clone();
                    RunEvent::TurnFailed(e)
                }
            },
            RunAction::FinalOracle => {
                w.final_oracle += 1;
                RunEvent::OracleSaid(None)
            }
            RunAction::RunTools(calls) => RunEvent::ToolsDone(run_tools(ctx, w, calls)),
            RunAction::AskOracle => RunEvent::OracleSaid(w.oracle.pop_front()),
            RunAction::AskStopHooks => RunEvent::HooksSaid(None),
            RunAction::Compact => RunEvent::Compacted(compact(ctx, w)),
            RunAction::End => return Ok(()),
            RunAction::Fail => return Err(error),
        };
    }
}

fn task() -> Vec<Message> {
    vec![Message::user("do the task".into())]
}

fn said(ctx: &AgentContext) -> Vec<String> {
    ctx.messages.iter().map(|m| extract_text(&m.content)).collect()
}

fn results(ctx: &AgentContext) -> Vec<(String, String, bool)> {
    ctx.messages
        .iter()
        .flat_map(|m| &m.content)
        .filter_map(|b| match b {
            ContentBlock::ToolResult {
                tool_use_id,
                content,
                is_error,
            } => Some((tool_use_id.clone(), content.clone(), *is_error)),
            _ => None,
        })
        .collect()
}

fn notices(w: &World) -> Vec<String> {
    w.events
        .iter()
        .filter_map(|e| match e {
            AgentEvent::Notice { text, .. } => Some(text.clone()),
            _ => None,
        })
        .collect()
}

// --- turns

#[test]
fn text_only_turn() {
    let mut w = world(vec![Ok(text_turn("hello from agent"))]);
    let mut c = ctx(task());
    run(&mut c, &mut w).unwrap();
    assert!(w.events.iter().any(
        |e| matches!(e, AgentEvent::TextChunk(s) if s.contains("hello from agent"))
    ));
    assert_eq!(c.messages.len(), 2);
}

#[test]
fn tool_call_turn() {
    let mut w = world(vec![
        Ok(tool_turn("call1", "bash", r#"{"command": "echo hi"}"#)),
        Ok(text_turn("done")),
    ]);
    let mut c = ctx(vec![Message::user("run echo".into())]);
    run(&mut c, &mut w).unwrap();
    assert_eq!(c.messages.len(), 4);
    assert_eq!(results(&c), vec![("call1".into(), "hi".into(), false)]);
}

#[test]
fn a_greeting_takes_one_turn() {
    let mut w = world(vec![Ok(text_turn("hello!"))]);
    let mut c = ctx(vec![Message::user("ciao".into())]);
    run(&mut c, &mut w).unwrap();
    assert_eq!((w.turn_calls, c.messages.len()), (1, 2));
    assert!(c.system_prompt.is_none());
}

#[test]
fn a_turn_records_the_provider_count_for_the_next_check() {
    let counted = TurnResult {
        usage: TokenUsage {
            input: 42_000,
            output: 100,
        },
        ..text_turn("done")
    };
    let mut w = world(vec![Ok(counted)]);
    let mut c = ctx(task());
    run(&mut c, &mut w).unwrap();
    let anchor = c.last_request.expect("no anchor recorded");
    assert_eq!(anchor.input_tokens, 42_000);
    assert_eq!(anchor.messages_len, c.messages.len() - 1);
}

// --- requests that are too large

fn bulky_transcript(pairs: usize) -> Vec<Message> {
    let filler = "x".repeat(4_000);
    (0..pairs)
        .flat_map(|i| {
            [
                Message::user(format!("request {i}: {filler}")),
                Message::assistant(format!("reply {i}: {filler}")),
            ]
        })
        .collect()
}

const OVERFLOW_ERROR: &str = "prompt is too long: 213004 tokens > 200000 maximum";

#[test]
fn context_overflow_compacts_and_retries_instead_of_ending_the_run() {
    let mut w = world(vec![
        Err(OVERFLOW_ERROR.to_string()),
        Ok(text_turn("finished after recovery")),
    ]);
    let mut c = ctx(bulky_transcript(8));
    run(&mut c, &mut w).expect("overflow must not end the run");
    assert_eq!(w.summary_calls, 1);
    assert_eq!(w.turn_calls, 2);
    let transcript = said(&c);
    assert!(transcript
        .iter()
        .any(|m| m.starts_with("[Previous conversation summary")));
    assert_eq!(
        transcript.last().map(String::as_str),
        Some("finished after recovery")
    );
    assert!(notices(&w).contains(&"context overflow — compacted and retrying the turn".to_string()));
}

#[test]
fn context_overflow_recovery_is_bounded() {
    let mut w = world((0..8).map(|_| Err(OVERFLOW_ERROR.to_string())).collect());
    let mut c = ctx(bulky_transcript(8));
    let err = run(&mut c, &mut w).expect_err("an unrecoverable overflow must surface");
    assert!(err.contains("prompt is too long"));
    assert!(w.turn_calls <= 3, "recovery looped: {} attempts", w.turn_calls);
}

#[test]
fn an_overflow_compaction_cannot_fix_is_answered_by_pruning() {
    let mut w = world(vec![
        Err(OVERFLOW_ERROR.to_string()),
        Ok(text_turn("finished after pruning")),
    ]);
    let mut c = ctx(vec![
        Message::user("find the bug".into()),
        Message::tool_result("t1", "y".repeat(400_000), false),
    ]);
    run(&mut c, &mut w).expect("overflow must not end the run");
    assert_eq!(w.summary_calls, 0);
    assert_eq!(w.turn_calls, 2);
    match &c.messages[1].content[0] {
        ContentBlock::ToolResult { content, .. } => {
            assert!(content.starts_with("[pruned to fit the context:"), "{content}")
        }
        other => panic!("tool result replaced by {other:?}"),
    }
    assert_eq!(extract_text(&c.messages[0].content), "find the bug");
}

#[test]
fn a_context_still_full_after_compaction_does_not_end_the_run() {
    let mut w = world(vec![Ok(text_turn("done"))]);
    let mut c = ctx(bulky_transcript(8));
    c.context_window = Some(2_000);
    run(&mut c, &mut w).expect("a full context must not end the run");
    assert_eq!(w.summary_calls, 1);
    assert!(!w.events.iter().any(|e| matches!(e, AgentEvent::Error(_))));
}

#[test]
fn another_error_ends_the_run() {
    let mut w = world(vec![Err("401 unauthorized".into())]);
    let mut c = ctx(task());
    assert_eq!(run(&mut c, &mut w), Err("401 unauthorized".into()));
    assert_eq!(w.turn_calls, 1);
}

// --- rules on the stream

fn tripped(text: &str, rule: &str) -> TurnResult {
    TurnResult {
        tripped_rule: Some(rule.into()),
        ..text_turn(text)
    }
}

#[test]
fn a_tripped_rule_restarts_the_turn_with_a_reminder() {
    let mut w = world(vec![
        Ok(tripped("let s = Box::leak", "box-leak")),
        Ok(text_turn("used Arc<str> instead")),
    ]);
    w.rule = Some("Never Box::leak.");
    let mut c = ctx(task());
    run(&mut c, &mut w).unwrap();
    let transcript = said(&c);
    assert!(transcript.iter().any(|m| m.contains("Never Box::leak.")));
    assert!(!transcript.iter().any(|m| m.contains("let s = Box::leak")));
    assert_eq!(
        transcript.last().map(String::as_str),
        Some("used Arc<str> instead")
    );
}

#[test]
fn stream_rule_restarts_are_capped() {
    let mut w = world(vec![
        Ok(tripped("a", "box-leak")),
        Ok(tripped("b", "box-leak")),
        Ok(tripped("c", "box-leak")),
    ]);
    w.rule = Some("Never Box::leak.");
    let mut c = ctx(task());
    run(&mut c, &mut w).unwrap();
    let reminders = said(&c)
        .iter()
        .filter(|m| m.contains("Never Box::leak."))
        .count();
    assert_eq!(reminders, MAX_TRIPS);
}

// --- limits

#[test]
fn max_steps_caps_the_loop() {
    let mut w = world(vec![
        Ok(tool_turn("c1", "bash", r#"{"command": "echo 1"}"#)),
        Ok(tool_turn("c2", "bash", r#"{"command": "echo 2"}"#)),
        Ok(tool_turn("c3", "bash", r#"{"command": "echo 3"}"#)),
        Ok(tool_turn("c4", "bash", r#"{"command": "echo 4"}"#)),
    ]);
    let mut c = ctx(vec![Message::user("loop".into())]);
    c.max_steps = Some(2);
    run(&mut c, &mut w).unwrap();
    assert!(
        notices(&w).iter().any(|t| t.contains("Max steps reached (2)")),
        "expected the max-steps notice to stop the loop"
    );
    assert_eq!(w.turn_calls, 2);
}

#[test]
fn max_steps_still_runs_one_deterministic_final_oracle_gate() {
    let mut w = world(vec![Ok(tool_turn("c1", "bash", r#"{"command": "true"}"#))]);
    let mut c = ctx(vec![Message::user("finish at the turn budget".into())]);
    c.max_steps = Some(1);
    run(&mut c, &mut w).unwrap();
    assert_eq!(w.final_oracle, 1);
}

#[test]
fn spend_cap_stops_before_turn_when_exceeded() {
    let mut w = world(vec![]); // must never run a turn
    let mut c = ctx(task());
    c.spend_cap = Some(1000);
    c.tokens_spent = 1000;
    run(&mut c, &mut w).unwrap();
    assert!(notices(&w).iter().any(|t| t.contains("spend cap reached")));
    assert_eq!(w.turn_calls, 0);
}

#[test]
fn spend_cap_prefers_real_usage_and_emits() {
    let turn = TurnResult {
        usage: TokenUsage {
            input: 1234,
            output: 6,
        },
        ..text_turn("done")
    };
    let mut w = world(vec![Ok(turn)]);
    let mut c = ctx(task());
    c.spend_cap = Some(10_000_000);
    run(&mut c, &mut w).unwrap();
    assert_eq!(c.tokens_spent, 1240, "real usage is summed, not the estimate");
    assert!(w.events.contains(&AgentEvent::SpendUsage {
        spent: 1240,
        cap: 10_000_000
    }));
}

#[test]
fn spend_cap_disabled_does_not_accumulate() {
    let turn = TurnResult {
        usage: TokenUsage {
            input: 999,
            output: 1,
        },
        ..text_turn("done")
    };
    let mut w = world(vec![Ok(turn)]);
    let mut c = ctx(task());
    run(&mut c, &mut w).unwrap();
    assert_eq!(c.tokens_spent, 0);
}

// --- the end of a run

#[test]
fn the_oracle_sends_the_model_back() {
    let mut w = world(vec![Ok(text_turn("done")), Ok(text_turn("really done"))]);
    w.oracle.push_back("tests fail".into());
    let mut c = ctx(task());
    run(&mut c, &mut w).unwrap();
    assert_eq!(said(&c), ["do the task", "done", "tests fail", "really done"]);
}

#[test]
fn unfinished_steps_are_asked_about_once() {
    let mut w = world(vec![Ok(text_turn("done")), Ok(text_turn("leaving it"))]);
    w.todos = vec![TodoItem {
        content: "write the test".into(),
        status: TodoStatus::Pending,
    }];
    let mut c = ctx(task());
    run(&mut c, &mut w).unwrap();
    assert_eq!(w.turn_calls, 2);
    assert!(said(&c)[2].contains("- write the test"));
}

// --- tool calls

#[test]
fn post_edit_check_failure_rides_tool_result() {
    let mut w = world(vec![
        Ok(tool_turn(
            "call1",
            "write",
            r#"{"path": "/p/lib.rs", "content": "fn x() {}"}"#,
        )),
        Ok(text_turn("done")),
    ]);
    let mut c = ctx(task());
    c.hooks.post =
        PostEditChecks::from_value(Some(&j(r#"{"*.rs": "echo E0308 mismatched; exit 1"}"#)));
    run(&mut c, &mut w).unwrap();
    assert!(
        results(&c)
            .iter()
            .any(|r| r.1.contains("post-edit check failed") && r.1.contains("E0308")),
        "check failure must ride the tool result"
    );
}

#[test]
fn mutating_call_takes_one_snapshot() {
    let mut w = world(vec![
        Ok(tool_turn("c1", "write", r#"{"path": "/p/a.txt", "content": "v1"}"#)),
        Ok(tool_turn("c2", "write", r#"{"path": "/p/a.txt", "content": "v2"}"#)),
        Ok(text_turn("done")),
    ]);
    let mut c = ctx(task());
    run(&mut c, &mut w).unwrap();
    assert_eq!(w.labels, vec!["do the task"]);
}

#[test]
fn reading_takes_no_snapshot() {
    let mut w = world(vec![
        Ok(tool_turn("c1", "bash", r#"{"command": "echo hi"}"#)),
        Ok(text_turn("done")),
    ]);
    let mut c = ctx(task());
    run(&mut c, &mut w).unwrap();
    assert!(w.labels.is_empty());
}

#[test]
fn a_written_test_file_is_noted() {
    let mut w = world(vec![
        Ok(tool_turn(
            "c1",
            "write",
            r#"{"path": "tests/a.rs", "content": "x"}"#,
        )),
        Ok(text_turn("done")),
    ]);
    let mut c = ctx(task());
    run(&mut c, &mut w).unwrap();
    assert!(results(&c)[0].1.contains("is not evidence"));
}

#[test]
fn destructive_bash_auto_denied() {
    let mut w = world(vec![
        Ok(tool_turn("call1", "bash", r#"{"command": "rm -rf /tmp/test"}"#)),
        Ok(text_turn("done")),
    ]);
    let mut c = ctx(vec![Message::user("delete stuff".into())]);
    run(&mut c, &mut w).unwrap();
    assert!(results(&c).iter().any(|r| r.1.contains("blocked")));
}

#[test]
fn destructive_bash_approved_via_bridge() {
    let mut w = world(vec![
        Ok(tool_turn(
            "call1",
            "bash",
            r#"{"command": "rm -rf /tmp/pi_test_nonexistent"}"#,
        )),
        Ok(text_turn("done")),
    ]);
    w.answer = Some(|_| PromptReply {
        index: Some(0),
        text: None,
        answers: vec![],
    });
    let mut c = ctx(vec![Message::user("delete stuff".into())]);
    run(&mut c, &mut w).unwrap();
    assert!(
        !results(&c).iter().any(|r| r.1.contains("blocked")),
        "approved command should not be blocked"
    );
}

#[test]
fn ask_user_routes_choice_back_as_tool_result() {
    let mut w = world(vec![
        Ok(tool_turn(
            "q1",
            "ask_user",
            r#"{
                "context": "The workload is larger than memory.",
                "question": "Which library?",
                "options": [
                    {"label": "pandas", "description": "familiar, but in-memory"},
                    {"label": "polars", "description": "supports a streaming engine"}
                ]
            }"#,
        )),
        Ok(text_turn("using polars")),
    ]);
    w.answer = Some(|p| {
        assert_eq!(
            p.detail.as_deref(),
            Some("The workload is larger than memory.")
        );
        assert_eq!(
            p.options,
            vec![
                "pandas — familiar, but in-memory".to_string(),
                "polars — supports a streaming engine".to_string()
            ]
        );
        PromptReply {
            index: Some(1),
            text: None,
            answers: vec![],
        }
    });
    let mut c = ctx(vec![Message::user("pick a df library".into())]);
    run(&mut c, &mut w).unwrap();
    assert!(results(&c)
        .iter()
        .any(|r| !r.2 && r.1.contains("The user chose: polars")));
}

#[test]
fn ask_user_round_uses_one_bridge_prompt_and_aggregate_reply() {
    let mut w = world(vec![
        Ok(tool_turn(
            "q1",
            "ask_user",
            r#"{
                "questions": [
                    {
                        "id": "db",
                        "context": "The fixture runs locally.",
                        "question": "Which database?",
                        "options": [
                            {"label": "SQLite", "description": "zero configuration"},
                            {"label": "Postgres", "description": "requires a service"}
                        ]
                    },
                    {
                        "id": "format",
                        "context": "Consumers need structured data.",
                        "question": "Which format?",
                        "options": [
                            {"label": "JSON", "description": "preserves structure"},
                            {"label": "CSV", "description": "tabular only"}
                        ]
                    }
                ]
            }"#,
        )),
        Ok(text_turn("done")),
    ]);
    w.answer = Some(|p| {
        let PromptKind::QuestionRound { questions } = &p.kind else {
            panic!("expected one question-round prompt");
        };
        assert_eq!(questions.len(), 2);
        assert_eq!(questions[0].id, "db");
        PromptReply {
            index: None,
            text: None,
            answers: vec![
                PromptAnswer {
                    index: Some(0),
                    text: None,
                },
                PromptAnswer {
                    index: Some(1),
                    text: None,
                },
            ],
        }
    });
    let mut c = ctx(vec![Message::user("choose defaults".into())]);
    run(&mut c, &mut w).unwrap();
    let all = results(&c);
    let result = all
        .iter()
        .find(|r| r.1.contains("\"db\""))
        .expect("round result should be returned to the model");
    assert!(result.1.contains("SQLite"));
    assert!(result.1.contains("CSV"));
}

#[test]
fn ask_user_without_bridge_tells_model_to_default() {
    let mut w = world(vec![
        Ok(tool_turn(
            "q1",
            "ask_user",
            r#"{"question": "Which library?", "options": ["pandas", "polars"]}"#,
        )),
        Ok(text_turn("defaulting")),
    ]);
    let mut c = ctx(vec![Message::user("pick a df library".into())]);
    run(&mut c, &mut w).unwrap();
    assert!(
        results(&c)
            .iter()
            .any(|r| !r.2 && r.1.contains("No interactive user")),
        "no-bridge ask_user must fall back to default guidance"
    );
}

#[test]
fn plan_contract_allows_reads_blocks_mutation_then_recovers() {
    let mut w = world(vec![
        Ok(tool_turn("read-1", "read", r#"{"path": "state.txt"}"#)),
        Ok(tool_turn(
            "write-blocked",
            "write",
            r#"{"path": "state.txt", "content": "too early"}"#,
        )),
        Ok(tool_turn("note-1", "note", r#"{"content": "the whole contract"}"#)),
        Ok(tool_turn(
            "write-ok",
            "write",
            r#"{"path": "state.txt", "content": "after"}"#,
        )),
        Ok(text_turn("done")),
    ]);
    w.files = vec![("state.txt".into(), "before".into())];
    w.missing = vec!["Obiettivo".into()];
    let mut c = ctx(task());
    run(&mut c, &mut w).unwrap();
    assert_eq!(w.files, vec![("state.txt".to_string(), "after".to_string())]);
    let all = results(&c);
    assert!(all.iter().any(|r| r.0 == "read-1" && !r.2));
    assert!(all
        .iter()
        .any(|r| r.0 == "write-blocked" && r.2 && r.1.contains("contract is incomplete")));
    assert!(all.iter().any(|r| r.0 == "write-ok" && !r.2));
    assert!(w.events.iter().any(|e| matches!(
        e,
        AgentEvent::ToolCallEnd { result, .. } if result == "blocked: incomplete task contract"
    )));
}

#[test]
fn a_filtered_result_shows_no_secret() {
    let mut w = world(vec![
        Ok(tool_turn(
            "c1",
            "bash",
            r#"{"command": "echo token=sk-live-DEADBEEF"}"#,
        )),
        Ok(text_turn("done")),
    ]);
    let mut c = ctx(task());
    c.hooks.tusk = vec![TuskHook {
        matcher: "*".into(),
        command: "sed s/sk-live-[A-Z0-9]*/[redacted]/".into(),
    }];
    run(&mut c, &mut w).unwrap();
    assert_eq!(results(&c)[0].1, "token=[redacted]");
    let mut seen = 0;
    for e in &w.events {
        if let AgentEvent::ToolCallEnd { result, .. } = e {
            seen += 1;
            assert!(!result.contains("DEADBEEF"), "{result}");
        }
    }
    assert_eq!(seen, 1);
}

#[test]
fn a_hook_that_answers_keeps_the_tool_from_running() {
    let mut w = world(vec![
        Ok(tool_turn(
            "c1",
            "bash",
            r#"{"command": "touch ran.txt"}"#,
        )),
        Ok(text_turn("done")),
    ]);
    let mut c = ctx(task());
    c.hooks.pre = vec![PreHook {
        matcher: "bash".into(),
        command: "echo cached answer; exit 5".into(),
    }];
    run(&mut c, &mut w).unwrap();
    assert_eq!(results(&c)[0].1.trim(), "cached answer");
    assert!(w.labels.is_empty());
}

#[test]
fn a_review_only_run_writes_nothing() {
    let mut w = world(vec![
        Ok(tool_turn(
            "c1",
            "write",
            r#"{"path": "src/lib.rs", "content": "x"}"#,
        )),
        Ok(text_turn("done")),
    ]);
    w.review_only = true;
    w.allowed = true;
    let mut c = ctx(task());
    run(&mut c, &mut w).unwrap();
    assert!(w.files.is_empty());
    assert!(results(&c)[0].1.contains("review-only run: `write` would modify src/lib.rs"));
}

#[test]
fn an_always_answer_keeps_the_rule() {
    let call = ToolCall {
        id: "c1".into(),
        name: "bash".into(),
        arguments: j(r#"{"command": "rm -rf build/"}"#),
    };
    let w = {
        let mut w = world(vec![]);
        w.answer = Some(|_| panic!("not asked here"));
        w
    };
    let mut messages = task();
    let (mut batch, _) = Batch::new(vec![call]);
    let facts = w.facts(&batch.waiting[0]);
    batch.step(&mut messages, BatchEvent::Facts(facts));
    let o = batch.step(
        &mut messages,
        BatchEvent::HooksSaid(sirbone::permissions::PreVerdict::Pass),
    );
    assert!(matches!(o.action, BatchAction::AskPermission(_)));
    let o = batch.step(
        &mut messages,
        BatchEvent::Replied(PromptReply {
            index: Some(1),
            text: Some("Bash(rm -rf build/*)".into()),
            answers: vec![],
        }),
    );
    assert_eq!(o.rule.as_deref(), Some("Bash(rm -rf build/*)"));
    assert!(matches!(o.action, BatchAction::Locate));
    assert_eq!(batch.approved.len(), 1);
}

// --- may a call run

/// What the rules say of a command: whether it runs, and what the model is told
/// where it does not.
fn decide(w: &mut World, c: &mut AgentContext, command: &str) -> Option<String> {
    let call = ToolCall {
        id: "c1".into(),
        name: "bash".into(),
        arguments: Json::Object(vec![("command".into(), Json::Str(command.into()))]),
    };
    run_tools(c, w, vec![call]);
    results(c)
        .into_iter()
        .find(|r| r.2 && r.1.starts_with("Command blocked"))
        .map(|r| r.1)
}

#[test]
fn decide_allows_safe_bash_without_classifier() {
    let mut w = world(vec![]);
    let mut c = ctx(task());
    assert_eq!(decide(&mut w, &mut c, "echo hi"), None);
    assert_eq!(w.classifier_calls, 0);
}

#[test]
fn decide_classifies_in_configured_environment() {
    let mut w = world(vec![]);
    w.environment = true;
    w.classifier = Some((Decision::Deny("prod".into()), None));
    let mut c = ctx(task());
    let told = decide(&mut w, &mut c, "dropdb app").expect("blocked");
    assert!(told.starts_with("Command blocked: prod. "), "{told}");
    assert_eq!(w.classifier_calls, 1);
}

#[test]
fn decide_pre_hook_allow_skips_classifier() {
    let mut w = world(vec![]);
    w.environment = true;
    let mut c = ctx(task());
    c.hooks.pre = vec![PreHook {
        matcher: "bash".into(),
        command: "exit 0".into(),
    }];
    assert_eq!(decide(&mut w, &mut c, "dropdb app"), None);
    assert_eq!(w.classifier_calls, 0);
}

#[test]
fn decide_pre_hook_deny_blocks_before_classifier() {
    let mut w = world(vec![]);
    w.environment = true;
    let mut c = ctx(task());
    c.hooks.pre = vec![PreHook {
        matcher: "*".into(),
        command: "echo blocked >&2; exit 2".into(),
    }];
    let told = decide(&mut w, &mut c, "dropdb app").expect("blocked");
    assert!(told.contains("blocked"), "{told}");
    assert_eq!(w.classifier_calls, 0);
}

#[test]
fn decide_high_risk_preset_uses_standard_ask_and_allow_override() {
    let mut w = world(vec![]);
    let mut c = ctx(task());
    c.hooks.presets = vec![HookPreset::HighRisk];
    let told = decide(&mut w, &mut c, "cargo add serde").expect("asked, with nobody there");
    assert!(told.contains("auto-denied"), "{told}");
    w.allowed = true;
    let mut c = ctx(task());
    c.hooks.presets = vec![HookPreset::HighRisk];
    assert_eq!(decide(&mut w, &mut c, "cargo add serde"), None);
}

#[test]
fn a_failed_classifier_never_allows() {
    let mut w = world(vec![]);
    w.environment = true;
    let mut c = ctx(task());
    let told = decide(&mut w, &mut c, "dropdb app").expect("asked, with nobody there");
    assert!(told.contains("auto-denied"), "{told}");
}

#[test]
fn a_safer_command_takes_the_place_of_the_asked_one() {
    let mut w = world(vec![]);
    w.environment = true;
    w.classifier = Some((Decision::Allow, Some("echo safe".into())));
    let mut c = ctx(task());
    assert_eq!(decide(&mut w, &mut c, "dropdb app"), None);
    assert_eq!(results(&c)[0].1, "safe");
}

// --- the pass that only reads

#[test]
fn localize_returns_last_nonempty_report() {
    let mut w = world(vec![
        Ok(tool_turn("c1", "read", r#"{ "path": "/nonexistent" }"#)),
        Ok(text_turn("REPORT: change foo.rs")),
    ]);
    let mut pass: Prepass = localize("test", "find the bug", 3);
    let mut state = AgentState::Idle;
    let report = loop {
        state = match pass.next(state) {
            PrepassAction::TakeTurn => run_turn(&mut pass.ctx, &mut w).unwrap(),
            PrepassAction::RunTools(calls) => run_tools(&mut pass.ctx, &mut w, calls),
            PrepassAction::Report(r) => break r,
        };
    };
    assert_eq!(report.as_deref(), Some("REPORT: change foo.rs"));
    assert_eq!(pass.ctx.messages[0].role, Role::User);
}

#[test]
fn a_pass_stops_when_its_steps_are_spent() {
    let mut pass = localize("test", "find the bug", 1);
    assert!(matches!(pass.next(AgentState::Idle), PrepassAction::TakeTurn));
    assert!(matches!(pass.next(AgentState::Idle), PrepassAction::Report(None)));
}

// --- compaction

#[test]
fn a_summary_that_does_not_shrink_leaves_the_transcript_untouched() {
    let mut w = world(vec![]);
    w.summary = "y".repeat(200_000);
    let mut c = ctx(bulky_transcript(8));
    let err = compact(&mut c, &mut w).expect_err("a non-shrinking summary must be refused");
    assert!(err.contains("not smaller"), "{err}");
    assert_eq!(c.messages, bulky_transcript(8));
}

fn edit(id: &str, path: &str) -> Message {
    Message::assistant_with_tools(vec![ToolCall {
        id: id.into(),
        name: "edit".into(),
        arguments: j(&format!("{{\"path\":\"{path}\"}}")),
    }])
}

#[test]
fn compact_grounds_files_and_truncates_long_results() {
    let mut w = world(vec![]);
    let mut c = ctx(vec![
        edit("e1", "/p"),
        Message::tool_result("e1", "X".repeat(400), false),
        edit("e2", "/p"),
        Message::user("f3".into()),
        Message::user("f4".into()),
        Message::user("f5".into()),
    ]);
    c.compaction_keep_recent = Some(2);
    compact(&mut c, &mut w).unwrap();
    let request = extract_text(&w.summary_request[1].content);
    assert!(request.contains("Files modified"), "should list mutated files");
    assert_eq!(request.matches("- /p").count(), 1, "the path is listed once");
    assert!(request.contains('…'), "long tool result should be truncated");
    assert!(
        !request.contains(&"X".repeat(400)),
        "full long result must not be inlined"
    );
}

#[test]
fn the_files_modified_list_accumulates_across_compactions() {
    let mut w = world(vec![]);
    let mut c = ctx(vec![
        Message::user("work on a".into()),
        edit("e1", "/a"),
        Message::tool_result("e1", "ok".into(), false),
        Message::assistant("done a".into()),
        Message::assistant("still on a".into()),
        Message::assistant("finishing a".into()),
    ]);
    c.compaction_keep_recent = Some(2);
    compact(&mut c, &mut w).unwrap();
    c.messages.extend([
        Message::user("work on b".into()),
        edit("e2", "/b"),
        Message::tool_result("e2", "ok".into(), false),
        Message::assistant("done b".into()),
        Message::user("work on c".into()),
        Message::assistant("on c".into()),
        Message::assistant("still on c".into()),
    ]);
    compact(&mut c, &mut w).unwrap();
    let request = extract_text(&w.summary_request[1].content);
    assert!(request.contains("- /a"), "the earlier file survives: {request}");
    assert!(request.contains("- /b"), "the new file is listed: {request}");
    assert_eq!(c.compacted_files, vec!["/a".to_string(), "/b".to_string()]);
}

#[test]
fn the_trust_root_is_not_listed_as_modified() {
    let mut w = world(vec![]);
    let mut c = ctx(vec![
        edit("e1", "/home/u/.sirbone/skills/x"),
        edit("e2", "/home/u/.sirbonemarrow"),
        Message::user("f3".into()),
        Message::user("f4".into()),
    ]);
    c.compaction_keep_recent = Some(2);
    compact(&mut c, &mut w).unwrap();
    assert_eq!(c.compacted_files, vec!["/home/u/.sirbonemarrow".to_string()]);
}

#[test]
fn compact_folds_in_a_prior_summary() {
    let mut w = world(vec![]);
    w.summary = "S2".into();
    let mut c = ctx(vec![
        Message::user(
            "[Previous conversation summary — 3 messages compacted]\nOLD-CONTEXT".into(),
        ),
        Message::assistant("ack".into()),
        Message::user("new1".into()),
        Message::user("new2".into()),
        Message::user("keep1".into()),
        Message::user("keep2".into()),
    ]);
    c.compaction_keep_recent = Some(2);
    compact(&mut c, &mut w).unwrap();
    let request = extract_text(&w.summary_request[1].content);
    assert!(
        request.contains("New messages since last summary"),
        "boundary marker present"
    );
    assert!(request.contains("OLD-CONTEXT"));
}

#[test]
fn compact_does_not_treat_plain_first_message_as_summary() {
    let mut w = world(vec![]);
    let mut c = ctx((0..6).map(|i| Message::user(format!("plain{i}"))).collect());
    c.compaction_keep_recent = Some(2);
    compact(&mut c, &mut w).unwrap();
    let request = extract_text(&w.summary_request[1].content);
    assert!(!request.contains("New messages since last summary"));
}

#[test]
fn compact_keeps_300_char_result_untruncated() {
    let mut w = world(vec![]);
    let mut c = ctx(vec![
        Message::assistant_with_tools(vec![ToolCall {
            id: "t".into(),
            name: "bash".into(),
            arguments: j(r#"{ "command": "x" }"#),
        }]),
        Message::tool_result("t", "Y".repeat(300), false),
        Message::user("a".into()),
        Message::user("b".into()),
    ]);
    c.compaction_keep_recent = Some(2);
    compact(&mut c, &mut w).unwrap();
    let request = extract_text(&w.summary_request[1].content);
    assert!(!request.contains('…'), "a 300-char result is not over the limit");
}

#[test]
fn results_answer_each_call_once() {
    let call = |id: &str| ToolCall {
        id: id.into(),
        name: "read".into(),
        arguments: j("{}"),
    };
    let result = |id: &str| Message::tool_result(id, "ok".into(), false);
    let calls = vec![call("a"), call("b")];
    // in any order
    assert!(all_answered(&calls, &vec![result("b"), result("a")]));
    // one is missing, one comes twice, one belongs to no call, one is no result
    assert!(!all_answered(&calls, &vec![result("a")]));
    assert!(!all_answered(&calls, &vec![result("a"), result("a")]));
    assert!(!all_answered(&calls, &vec![result("a"), result("c")]));
    assert!(!all_answered(&calls, &vec![result("a"), Message::user("b".into())]));
    assert!(!all_answered(&calls, &vec![result("a"), result("b"), result("b")]));
}

#[test]
fn a_summary_leaves_what_was_spent() {
    let mut c = ctx(vec![
        Message::user("first".into()),
        Message::assistant("one".into()),
        Message::user("second".into()),
        Message::assistant("two".into()),
    ]);
    c.compaction_keep_recent = Some(2);
    c.spend_cap = Some(10);
    c.tokens_spent = 7;
    c.hooks.stop = vec!["make".into()];
    let plan = plan_compaction(&c.messages, c.compaction_keep_recent, None, None).expect("a plan");
    c.apply_summary(plan, "short").expect("accepted");
    assert_eq!((c.spend_cap, c.tokens_spent), (Some(10), 7));
    assert_eq!(c.hooks.stop, vec!["make".to_string()]);
    assert_eq!(c.last_request, None);
}
