use sirbone::acp::{
    begin_prompt, dispatch, end_prompt, load_session, open_session, round_prompts, event_to_update, event_updates, new_messages, no_reply, notify, outcome_to_reply,
    permission_params, prompt_to_content, replay, replay_updates, respond, respond_err, run_status,
    round_reply, take_line, todo_plan_update, tool_kind, turn_over, unknown_session, Action, Conn,
    Sessions,
};
use sirbone::agent::{Prompt, PromptKind, PromptQuestion, PromptReply};
use sirbone::json::{num, Json};
use sirbone::types::{AgentEvent, ContentBlock, Message, Role};

fn j(text: &str) -> Json {
    Json::parse(text).expect("JSON text")
}

#[test]
fn tool_kind_maps_categories() {
    assert_eq!(tool_kind("read"), "read");
    assert_eq!(tool_kind("edit"), "edit");
    assert_eq!(tool_kind("bash"), "execute");
    assert_eq!(tool_kind("grep"), "search");
    assert_eq!(tool_kind("web_fetch"), "fetch");
    assert_eq!(tool_kind("something_else"), "other");
}

#[test]
fn text_event_becomes_agent_message_chunk() {
    let u = event_to_update(&AgentEvent::TextChunk("hi".into())).unwrap();
    assert_eq!(u.str_at("sessionUpdate"), Some("agent_message_chunk"));
    assert_eq!(u.at("content").str_at("text"), Some("hi"));
}

#[test]
fn tool_end_error_marks_failed() {
    let u = event_to_update(&AgentEvent::ToolCallEnd {
        id: "t1".into(),
        name: "bash".into(),
        result: "boom".into(),
        is_error: true,
    })
    .unwrap();
    assert_eq!(u.str_at("sessionUpdate"), Some("tool_call_update"));
    assert_eq!(u.str_at("toolCallId"), Some("t1"));
    assert_eq!(u.str_at("status"), Some("failed"));
    let content = u.array_at("content").unwrap();
    assert_eq!(content[0].at("content").str_at("text"), Some("boom"));
}

#[test]
fn turn_start_has_no_update() {
    assert!(event_to_update(&AgentEvent::TurnStart).is_none());
}

fn todo_call() -> AgentEvent {
    AgentEvent::ToolCallStart {
        id: "t1".into(),
        name: "todo".into(),
        input: j(
            r#"{ "todos": [
                { "content": "step one", "status": "completed" },
                { "content": "step two", "status": "in_progress" }
            ]}"#,
        ),
    }
}

#[test]
fn todo_start_also_emits_plan_update() {
    let ev = todo_call();
    // Regular tool_call still flows for clients without plan support.
    assert_eq!(
        event_to_update(&ev).unwrap().str_at("sessionUpdate"),
        Some("tool_call")
    );
    let plan = todo_plan_update(&ev).unwrap();
    assert_eq!(plan.str_at("sessionUpdate"), Some("plan"));
    let entries = plan.array_at("entries").unwrap();
    assert_eq!(entries[0].str_at("status"), Some("completed"));
    assert_eq!(entries[1].str_at("content"), Some("step two"));
}

#[test]
fn the_plan_follows_the_call() {
    let ups = event_updates(&todo_call());
    assert_eq!(ups.len(), 2);
    assert_eq!(ups[0].str_at("sessionUpdate"), Some("tool_call"));
    assert_eq!(ups[1].str_at("sessionUpdate"), Some("plan"));
}

#[test]
fn non_todo_tools_emit_no_plan() {
    let ev = AgentEvent::ToolCallStart {
        id: "t1".into(),
        name: "bash".into(),
        input: j(r#"{ "command": "ls" }"#),
    };
    assert!(todo_plan_update(&ev).is_none());
}

#[test]
fn selected_outcome_parses_index() {
    let r = outcome_to_reply(&j(
        r#"{ "outcome": { "outcome": "selected", "optionId": "1" } }"#,
    ));
    assert_eq!(r.index, Some(1));
}

#[test]
fn cancelled_outcome_denies() {
    let r = outcome_to_reply(&j(r#"{ "outcome": { "outcome": "cancelled" } }"#));
    assert_eq!(r.index, None);
    assert_eq!(r.text, None);
}

#[test]
fn an_option_that_is_no_number_denies() {
    let r = outcome_to_reply(&j(
        r#"{ "outcome": { "outcome": "selected", "optionId": "yes" } }"#,
    ));
    assert_eq!(r.index, None);
    assert_eq!(no_reply().index, None);
}

#[test]
fn permission_options_get_allow_kinds() {
    let p = Prompt {
        title: "permission required".into(),
        detail: Some("rm -rf x".into()),
        options: vec!["Allow once".into(), "Allow always".into(), "Deny".into()],
        allow_free_text: false,
        kind: PromptKind::Permission {
            suggested_glob: "rm *".into(),
        },
    };
    let params = permission_params("sid", &p);
    let opts = params.array_at("options").unwrap();
    assert_eq!(opts[0].str_at("kind"), Some("allow_once"));
    assert_eq!(opts[0].str_at("optionId"), Some("0"));
    assert_eq!(opts[1].str_at("kind"), Some("allow_always"));
    assert_eq!(opts[2].str_at("kind"), Some("reject_once"));
    assert_eq!(params.str_at("sessionId"), Some("sid"));
}

#[test]
fn prompt_text_and_gated_image() {
    let prompt = j(
        r#"[
        { "type": "text", "text": "hello" },
        { "type": "image", "data": "AAAA", "mimeType": "image/png" }
    ]"#,
    );
    // images_ok=false drops the image block
    let c = prompt_to_content(Some(&prompt), false);
    assert_eq!(c.len(), 1);
    assert!(matches!(&c[0], ContentBlock::Text { text } if text == "hello"));
    // images_ok=true keeps it
    let c = prompt_to_content(Some(&prompt), true);
    assert_eq!(c.len(), 2);
    assert!(matches!(&c[1], ContentBlock::Image { media_type, .. } if media_type == "image/png"));
}

#[test]
fn replay_maps_roles_and_tools() {
    let user = Message::user("q".into());
    let up = replay_updates(&user);
    assert_eq!(up[0].str_at("sessionUpdate"), Some("user_message_chunk"));

    let tool = Message {
        role: Role::Assistant,
        injected: false,
        content: vec![ContentBlock::ToolUse {
            id: "t1".into(),
            name: "read".into(),
            input: j(r#"{ "path": "a" }"#),
        }],
    };
    let up = replay_updates(&tool);
    assert_eq!(up[0].str_at("sessionUpdate"), Some("tool_call"));
    assert_eq!(up[0].str_at("kind"), Some("read"));
    assert_eq!(up[0].str_at("status"), Some("completed"));
}

#[test]
fn replay_frames_name_the_session() {
    let frames = replay("sid", &vec![Message::user("q".into()), Message::assistant("a".into())]);
    assert_eq!(frames.len(), 2);
    assert_eq!(frames[0].str_at("method"), Some("session/update"));
    assert_eq!(frames[1].at("params").str_at("sessionId"), Some("sid"));
    assert_eq!(
        frames[1].at("params").at("update").str_at("sessionUpdate"),
        Some("agent_message_chunk")
    );
}

#[test]
fn answers_carry_the_number_of_the_request() {
    let ok = respond(j("7"), j(r#"{"x":1}"#));
    assert_eq!(ok.u64_at("id"), Some(7));
    assert_eq!(ok.at("result").u64_at("x"), Some(1));
    let err = respond_err(j("8"), "-32601", "method not found");
    assert_eq!(err.u64_at("id"), Some(8));
    assert_eq!(err.at("error").str_at("message"), Some("method not found"));
    let n = notify("session/update", j("{}"));
    assert!(n.get("id").is_none());
    assert_eq!(
        unknown_session(j("3")).at("error").str_at("message"),
        Some("unknown sessionId")
    );
}

#[test]
fn requests_are_numbered_and_resolved_once() {
    let mut c = Conn::new();
    let (a, first) = c.request("session/request_permission", j("{}"));
    let (b, _) = c.request("session/request_permission", j("{}"));
    assert_eq!((a, b), (1, 2));
    assert_eq!(first.u64_at("id"), Some(1));
    assert!(c.resolve(2));
    assert!(!c.resolve(2));
    assert!(!c.resolve(9));
    assert!(c.resolve(1));
}

#[test]
fn sessions_are_kept_by_name() {
    let mut s = Sessions::new();
    assert!(!s.knows("a"));
    s.put("a", vec![Message::user("one".into())]);
    s.put("b", vec![]);
    s.put("a", vec![Message::user("two".into())]);
    assert!(s.knows("a") && s.knows("b"));
    let m = s.take("a").expect("session");
    assert_eq!(m, vec![Message::user("two".into())]);
    // the name stays, with nothing under it, until the turn puts its messages back
    assert!(s.knows("a"));
    assert_eq!(s.take("a"), Some(vec![]));
    assert_eq!(s.take("c"), None);
}

#[test]
fn lines_lead_to_actions() {
    assert!(matches!(take_line("not json", "1.0", false), Action::Ignore));
    assert!(matches!(
        take_line(r#"{"jsonrpc":"2.0","id":4,"result":{}}"#, "1.0", false),
        Action::Resolve { .. }
    ));
    assert!(matches!(
        take_line(r#"{"jsonrpc":"2.0","id":1,"method":"session/new","params":{}}"#, "1.0", false),
        Action::NewSession { .. }
    ));
    let init = dispatch(
        &j(r#"{"jsonrpc":"2.0","id":1,"method":"initialize","params":{}}"#),
        "1.0",
        true,
    );
    match init {
        Action::Send(v) => {
            assert_eq!(v.u64_at("id"), Some(1));
            assert_eq!(v.at("result").u64_at("protocolVersion"), Some(1));
        }
        _ => panic!("initialize is answered"),
    }
    match dispatch(&j(r#"{"jsonrpc":"2.0","id":5,"method":"nope"}"#), "1.0", true) {
        Action::Send(v) => assert!(v.get("error").is_some()),
        _ => panic!("an unknown request is answered with an error"),
    }
    // a notification that nobody knows gets no answer
    assert!(matches!(
        dispatch(&j(r#"{"jsonrpc":"2.0","method":"nope"}"#), "1.0", true),
        Action::Ignore
    ));
}

#[test]
fn a_round_is_answered_question_by_question() {
    let r = round_reply(vec![
        PromptReply {
            index: Some(1),
            text: None,
            answers: vec![],
        },
        PromptReply {
            index: None,
            text: None,
            answers: vec![],
        },
    ]);
    assert_eq!(r.answers.len(), 2);
    assert_eq!(r.answers[0].index, Some(1));
    assert_eq!(r.answers[1].index, None);
    assert_eq!(r.index, None);
}

#[test]
fn a_turn_ends_with_its_reason() {
    assert_eq!(
        turn_over(j("2"), true).at("result").str_at("stopReason"),
        Some("cancelled")
    );
    assert_eq!(
        turn_over(j("2"), false).at("result").str_at("stopReason"),
        Some("end_turn")
    );
    assert_eq!(run_status(true, None).0, "cancelled");
    let (status, reason) = run_status(false, Some("boom".into()));
    assert_ne!(status, "cancelled");
    assert_eq!(reason, Some("boom".to_string()));
    let all = vec![Message::user("a".into()), Message::user("b".into())];
    assert_eq!(new_messages(&all, 1), vec![Message::user("b".into())]);
    assert_eq!(new_messages(&all, 5), Vec::<Message>::new());
}

// --- sessions and turns

#[test]
fn a_turn_takes_the_transcript_and_gives_it_back() {
    let mut sessions = Sessions::new();
    let answer = open_session(&mut sessions, num(1), "/s.jsonl");
    assert_eq!(answer.at("result").str_at("sessionId"), Some("/s.jsonl"));
    let content = vec![ContentBlock::Text { text: "hi".into() }];
    let turn = begin_prompt(&mut sessions, num(2), "/s.jsonl", content).expect("a turn");
    assert_eq!(turn.before, 1);
    let mut messages = turn.messages;
    messages.push(Message::assistant("hello".into()));
    let done = end_prompt(
        &mut sessions,
        num(2),
        "/s.jsonl",
        messages,
        turn.before,
        false,
        None,
    );
    assert_eq!(done.tail, vec![Message::assistant("hello".into())]);
    assert_eq!((done.status, done.reason), ("done", None));
    assert_eq!(done.answer.at("result").str_at("stopReason"), Some("end_turn"));
    let again = begin_prompt(&mut sessions, num(3), "/s.jsonl", vec![]).expect("a turn");
    assert_eq!(again.before, 3);
}

#[test]
fn a_turn_of_no_session_is_refused() {
    let mut sessions = Sessions::new();
    let refused = begin_prompt(&mut sessions, num(4), "/none", vec![]).expect_err("no session");
    assert_eq!(refused.at("error").str_at("message"), Some("unknown sessionId"));
    let done = end_prompt(
        &mut sessions,
        num(4),
        "/none",
        vec![],
        0,
        true,
        Some("boom".into()),
    );
    assert_eq!((done.status, done.reason.as_deref()), ("cancelled", Some("cancelled by user")));
    assert!(!sessions.knows("/none"));
}

#[test]
fn a_loaded_session_is_replayed_before_the_answer() {
    let mut sessions = Sessions::new();
    let sent = load_session(
        &mut sessions,
        num(5),
        "/s",
        Ok(vec![Message::user("a".into()), Message::assistant("b".into())]),
    );
    assert_eq!(sent.len(), 3);
    assert_eq!(sent[0].str_at("method"), Some("session/update"));
    assert_eq!(sent[2].u64_at("id"), Some(5));
    let sent = load_session(&mut sessions, num(6), "/t", Err("gone".into()));
    assert_eq!(sent.len(), 1);
    assert_eq!(sent[0].at("error").str_at("message"), Some("load failed: gone"));
    assert!(!sessions.knows("/t"));
}

#[test]
fn a_round_is_put_one_question_at_a_time() {
    let q = |title: &str| PromptQuestion {
        id: title.into(),
        title: title.into(),
        detail: None,
        options: vec!["x".into()],
        allow_free_text: true,
    };
    let round = Prompt {
        title: "2 questions".into(),
        detail: None,
        options: vec![],
        allow_free_text: false,
        kind: PromptKind::QuestionRound {
            questions: vec![q("a"), q("b")],
        },
    };
    let ps = round_prompts(&round).expect("a round");
    assert_eq!(ps.iter().map(|p| p.title.as_str()).collect::<Vec<_>>(), ["a", "b"]);
    assert!(round_prompts(&ps[0]).is_none());
}
