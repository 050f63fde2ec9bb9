use sirbone::ai::client::{
    build_tools, glm_reasoning_effort, is_retryable, read_refusal, sse_delta, sse_line,
    stream_idle_error, to_oai_message, to_oai_messages, ApiFailure, ImageDetail, OaiContent,
    OaiMessage, OaiPart, OpenAiTurn, ReasoningEffort, SseNext, SseReader,
};
use sirbone::ai::codex::{
    block_json, reasoning_args, transcript_prompt, CodexClient, CodexSandbox, CodexTurn,
};
use sirbone::ai::{OpenAiClient, ToolSpec};
use sirbone::json::Json;
use sirbone::types::{extract_text, AgentEvent, AgentState, ContentBlock, Message, Role};

fn j(text: &str) -> Json {
    Json::parse(text).expect("JSON text")
}

#[test]
fn text_only_user_message_stays_a_string() {
    let msg = Message::user("hello".into());
    match to_oai_message(&msg).expect("message") {
        OaiMessage::User { content } => {
            assert!(matches!(content, OaiContent::Text(t) if t == "hello"));
        }
        other => panic!("{other:?}"),
    }
}

#[test]
fn images_become_data_uri_parts_in_block_order() {
    let msg = Message {
        role: Role::User,
        injected: false,
        content: vec![
            ContentBlock::Image {
                media_type: "image/png".into(),
                data: "AAA".into(),
            },
            ContentBlock::Image {
                media_type: "image/jpeg".into(),
                data: "BBB".into(),
            },
            ContentBlock::Text {
                text: "what is this?".into(),
            },
        ],
    };
    let OaiMessage::User {
        content: OaiContent::Array(parts),
    } = to_oai_message(&msg).expect("message")
    else {
        panic!("expected parts");
    };
    assert_eq!(parts.len(), 3);
    assert!(matches!(&parts[0], OaiPart::ImageUrl { url, detail: ImageDetail::Auto } if url == "data:image/png;base64,AAA"));
    assert!(matches!(&parts[1], OaiPart::ImageUrl { url, detail: ImageDetail::Auto } if url == "data:image/jpeg;base64,BBB"));
    assert!(matches!(&parts[2], OaiPart::Text(t) if t == "what is this?"));
}

fn api_error(code: u16) -> ApiFailure {
    ApiFailure::Status {
        status: code,
        line: format!("{code}"),
        message: "x".into(),
    }
}

#[test]
fn rate_limit_and_server_errors_retry() {
    assert!(is_retryable(&api_error(429)));
    assert!(is_retryable(&api_error(500)));
    assert!(is_retryable(&api_error(503)));
}

#[test]
fn client_errors_are_terminal() {
    assert!(!is_retryable(&api_error(400)));
    assert!(!is_retryable(&api_error(401)));
    assert!(!is_retryable(&api_error(404)));
}

#[test]
fn user_message_maps_to_text() {
    let m = to_oai_message(&Message::user("hello".into())).unwrap();
    match m {
        OaiMessage::User { content } => {
            assert!(matches!(content, OaiContent::Text(t) if t == "hello"));
        }
        _ => panic!("expected User message"),
    }
}

/// A provider that opens the stream and then never sends another byte must
/// produce an error that is retried, not hang the reader forever.
#[test]
fn sse_stream_errors_after_the_idle_cap_instead_of_hanging() {
    let mut reader = SseReader::new();
    // one chunk, then silence
    reader.push("data: {\"x\":1}\n\n");
    assert!(matches!(reader.next(), SseNext::NeedMore));
    let stalled = stream_idle_error(80);
    match &stalled {
        ApiFailure::Status { status, .. } => assert_eq!(*status, 504),
        other => panic!("expected a 504 idle error, got {other:?}"),
    }
    assert!(is_retryable(&stalled));
    assert!(stalled.message().contains("80"));
}

#[test]
fn assistant_tool_use_maps_to_tool_calls() {
    let msg = Message {
        role: Role::Assistant,
        injected: false,
        content: vec![ContentBlock::ToolUse {
            id: "c1".into(),
            name: "read".into(),
            input: j(r#"{"path": "x"}"#),
        }],
    };
    match to_oai_message(&msg).unwrap() {
        OaiMessage::Assistant {
            content,
            tool_calls,
        } => {
            assert_eq!(tool_calls.len(), 1);
            assert_eq!(tool_calls[0].arguments, r#"{"path":"x"}"#);
            assert!(content.is_none(), "no text → content None");
        }
        _ => panic!("expected Assistant message"),
    }
}

#[test]
fn tool_message_without_result_errors() {
    let msg = Message {
        role: Role::Tool,
        injected: false,
        content: vec![ContentBlock::Text { text: "x".into() }],
    };
    assert!(to_oai_message(&msg).is_err());
    assert!(to_oai_messages(&vec![Message::user("a".into()), msg]).is_err());
}

#[test]
fn build_tools_emits_one_function_per_tool() {
    let tools = build_tools(&vec![ToolSpec {
        name: "read".into(),
        description: "Reads a file".into(),
        schema: j(r#"{"type":"object"}"#),
    }]);
    assert_eq!(tools.len(), 1);
    assert_eq!(tools[0].name, "read");
    assert!(tools[0].parameters.is_some());
}

#[test]
fn client_set_model_updates_the_active_model() {
    let mut c = OpenAiClient::new("http://x", "k", "old");
    c.set_model("new".into());
    assert_eq!(c.model, "new");
}

#[test]
fn reasoning_effort_only_for_glm_dial_levels() {
    assert_eq!(
        glm_reasoning_effort("https://api.z.ai/api/coding/paas/v4", "glm-5.2", None),
        Some(ReasoningEffort::Minimal)
    );
    assert_eq!(
        glm_reasoning_effort("https://api.z.ai/api/coding/paas/v4", "glm-5.2", Some(8000)),
        Some(ReasoningEffort::Low)
    );
    assert_eq!(
        glm_reasoning_effort(
            "https://api.z.ai/api/coding/paas/v4",
            "glm-5.3",
            Some(16000)
        ),
        Some(ReasoningEffort::Medium)
    );
    assert_eq!(
        glm_reasoning_effort(
            "https://api.z.ai/api/coding/paas/v4",
            "glm-5.3",
            Some(32000)
        ),
        Some(ReasoningEffort::Xhigh)
    );
    // Non-GLM: the field must never be sent — other providers 400 on it.
    assert_eq!(
        glm_reasoning_effort("https://api.openai.com/v1", "gpt-4o-mini", Some(16000)),
        None
    );
}

#[test]
fn thinking_budget_reported_only_for_glm() {
    let mut glm = OpenAiClient::new("https://api.z.ai/api/coding/paas/v4", "k", "glm-5.2");
    glm.set_thinking_budget(Some(16000));
    assert_eq!(glm.thinking_budget(), Some(16000));
    let mut other = OpenAiClient::new("https://api.openai.com/v1", "k", "gpt-4o-mini");
    other.set_thinking_budget(Some(16000));
    // Stored but inert: reporting it would show a level that does nothing.
    assert_eq!(other.thinking_budget(), None);
}

#[test]
fn a_request_holds_messages_and_tools() {
    let c = OpenAiClient::new("http://x/", "k", "m");
    assert_eq!(c.chat_url(), "http://x/chat/completions");
    let q = c
        .request(
            &vec![Message::system("S".into()), Message::user("hi".into())],
            &vec![ToolSpec {
                name: "read".into(),
                description: "d".into(),
                schema: j("{}"),
            }],
        )
        .unwrap();
    assert_eq!(q.model, "m");
    assert_eq!(q.messages.len(), 2);
    assert_eq!(q.tools.len(), 1);
    assert_eq!(q.reasoning_effort, None);
}

#[test]
fn a_small_budget_is_a_low_effort() {
    let mut c = OpenAiClient::new("https://api.z.ai/api/coding/paas/v4", "k", "glm-5.2");
    c.set_thinking_budget(Some(8000));
    let q = c.request(&vec![Message::user("hi".into())], &vec![]).unwrap();
    assert_eq!(q.reasoning_effort, Some(ReasoningEffort::Low));
}

#[test]
fn context_window_reads_groq_and_openrouter_fields() {
    let reply = j(
        r#"{"data":[
        {"id":"groq-m","context_window":131072},
        {"id":"or-m","context_length":200000},
        {"id":"plain-m"}
    ]}"#,
    );
    let mut groq = OpenAiClient::new("http://x", "k", "groq-m");
    assert_eq!(groq.context_window(&reply), Some(131_072));
    assert_eq!(groq.known_window(None), Some(131_072));
    let mut router = OpenAiClient::new("http://x", "k", "or-m");
    assert_eq!(router.context_window(&reply), Some(200_000));
    let mut plain = OpenAiClient::new("http://x", "k", "plain-m");
    assert_eq!(plain.context_window(&reply), None);
}

fn turn_from(body: &str) -> (OpenAiTurn, Vec<AgentEvent>) {
    let mut reader = SseReader::new();
    reader.push(body);
    reader.end();
    let mut turn = OpenAiTurn::new();
    let mut events = Vec::new();
    loop {
        match reader.next() {
            SseNext::Delta(d) => {
                events.extend(turn.take_text(&d, 1000));
                turn.take_calls(&d);
            }
            SseNext::Failed(e) => panic!("{}", e.message()),
            SseNext::Finished | SseNext::NeedMore => return (turn, events),
        }
    }
}

#[test]
fn pieces_of_a_call_are_put_together() {
    let (turn, events) = turn_from(
        "data: {\"choices\":[{\"delta\":{\"content\":\"Hel\"}}]}\n\n\
         data: {\"choices\":[{\"delta\":{\"content\":\"lo\"}}]}\n\n\
         data: {\"choices\":[{\"delta\":{\"tool_calls\":[{\"index\":0,\"id\":\"c1\",\"function\":{\"name\":\"read\",\"arguments\":\"{\\\"pa\"}}]}}]}\n\n\
         data: {\"choices\":[{\"delta\":{\"tool_calls\":[{\"index\":0,\"function\":{\"arguments\":\"th\\\":\\\"a\\\"}\"}}]}}]}\n\n\
         data: [DONE]\n\n",
    );
    assert_eq!(events[0], AgentEvent::TextChunk("Hel".into()));
    let r = turn.finish();
    assert_eq!(extract_text(&r.assistant_message.content), "Hello");
    match r.state {
        AgentState::ToolCalling(calls) => {
            assert_eq!(calls[0].id, "c1");
            assert_eq!(calls[0].arguments.str_at("path"), Some("a"));
        }
        other => panic!("{other:?}"),
    }
}

#[test]
fn references_in_a_chunk_are_dropped() {
    let (turn, _) = turn_from(
        "data: {\"choices\":[{\"delta\":{\"content\":[{\"type\":\"text\",\"text\":\"A\"},{\"type\":\"reference\",\"reference_ids\":[1]}]}}]}\n\n\
         data: {\"choices\":[{\"delta\":{\"content\":\"B\"}}]}\n\n\
         data: [DONE]\n\n",
    );
    assert_eq!(extract_text(&turn.finish().assistant_message.content), "AB");
}

#[test]
fn a_tripped_rule_is_named_in_the_turn() {
    let (turn, _) = turn_from("data: {\"choices\":[{\"delta\":{\"content\":\"x\"}}]}\n\n");
    let r = turn.trip("box-leak".into());
    assert_eq!(r.tripped_rule.as_deref(), Some("box-leak"));
    assert_eq!(r.state, AgentState::Done);
}

#[test]
fn lines_of_a_stream() {
    assert!(sse_line("data: [DONE]").is_none());
    assert!(matches!(sse_line(": keep-alive"), Some(Ok(None))));
    assert!(matches!(
        sse_delta("{\"error\":{\"message\":\"no\"}}"),
        Err(ApiFailure::Stream { .. })
    ));
    match sse_delta("{oops") {
        Err(ApiFailure::Malformed { error, content }) => {
            assert!(!error.is_empty());
            assert!(content.contains("{oops"));
        }
        other => panic!("{other:?}"),
    }
    let d = sse_delta("{\"choices\":[{\"delta\":{\"content\":\"x\"}}]}").unwrap().unwrap();
    assert_eq!(d.text.as_deref(), Some("x"));
}

#[test]
fn a_refusal_tells_what_the_provider_said() {
    let e = read_refusal(
        400,
        "400 Bad Request",
        r#"{"error":{"message":"bad key sk-oai-xyz789","type":"invalid_request_error"}}"#,
        &vec![Some("sk-oai-xyz789".to_string())],
    );
    assert!(!is_retryable(&e));
    assert_eq!(
        e.message(),
        "400 Bad Request invalid_request_error: bad key sk-oai-xyz789"
    );
    // a body that is no error of the API is shown as it is, without the secrets
    let e = read_refusal(
        502,
        "502 Bad Gateway",
        "<html> sk-oai-xyz789",
        &vec![Some("sk-oai-xyz789".to_string())],
    );
    assert!(is_retryable(&e));
    assert_eq!(e.message(), "502 Bad Gateway <html> [redacted]");
}

#[test]
fn network_failures_retry_when_nothing_was_sent() {
    let f = |connect: bool, timeout: bool| ApiFailure::Network {
        connect,
        timeout,
        message: "x".into(),
    };
    assert!(is_retryable(&f(true, false)));
    assert!(is_retryable(&f(false, true)));
    assert!(!is_retryable(&f(false, false)));
}

// --- codex

#[test]
fn transcript_preserves_roles_and_tool_payloads() {
    let prompt = transcript_prompt(&vec![Message::user("hello".into())], &vec![]);
    assert!(prompt.contains("--- USER ---"));
    assert!(prompt.contains("hello"));
}

#[test]
fn transcript_maps_registered_web_search_to_search2md() {
    let prompt = transcript_prompt(
        &vec![Message::user("look it up".into())],
        &vec!["web_search".to_string()],
    );
    assert!(prompt.contains("search2md search"));
    assert!(prompt.contains("command -v search2md"));
    assert!(prompt.contains("search2md md"));
}

#[test]
fn transcript_does_not_advertise_disabled_web_search() {
    let prompt = transcript_prompt(&vec![Message::user("hello".into())], &vec![]);
    assert!(!prompt.contains("search2md"));
}

#[test]
fn codex_sandbox_accepts_only_documented_values() {
    assert_eq!(
        CodexSandbox::parse("read-only"),
        Some(CodexSandbox::ReadOnly)
    );
    assert_eq!(
        CodexSandbox::parse(" workspace-write "),
        Some(CodexSandbox::WorkspaceWrite)
    );
    assert_eq!(
        CodexSandbox::parse("danger-full-access"),
        Some(CodexSandbox::DangerFullAccess)
    );
    assert_eq!(CodexSandbox::parse("unrestricted"), None);
}

#[test]
fn reasoning_override_becomes_a_quoted_toml_assignment() {
    assert_eq!(
        reasoning_args(Some("low".into())),
        vec![
            "-c".to_string(),
            "model_reasoning_effort=\"low\"".to_string()
        ]
    );
    // surrounding whitespace is trimmed, not trusted
    assert_eq!(
        reasoning_args(Some(" high ".into())),
        vec![
            "-c".to_string(),
            "model_reasoning_effort=\"high\"".to_string()
        ]
    );
    // unset or empty: the global ~/.codex/config.toml stays in charge
    assert!(reasoning_args(None).is_empty());
    assert!(reasoning_args(Some("   ".into())).is_empty());
}

#[test]
fn codex_runs_in_its_sandbox() {
    let c = CodexClient::new("gpt", "/w", Some("read-only"));
    assert_eq!(c.sandbox.as_str(), "read-only");
    let args = c.arguments(Some("low".into()));
    assert_eq!(&args[..2], &["exec".to_string(), "--json".to_string()]);
    assert!(args.contains(&"read-only".to_string()));
    assert!(args.contains(&"model_reasoning_effort=\"low\"".to_string()));
    assert_eq!(CodexSandbox::from_env(Some("nope")), CodexSandbox::WorkspaceWrite);
    assert_eq!(CodexSandbox::from_env(None), CodexSandbox::WorkspaceWrite);
}

#[test]
fn a_whole_answer_is_said_once() {
    let mut t = CodexTurn::new();
    t.consume_event(&j(
        r#"{"type":"item.completed","item":{"type":"agent_message","text":"done"}}"#,
    ));
    let streamed = t.streamed_text;
    let closing = t.closing_events();
    let said = closing
        .iter()
        .filter(|e| matches!(e, AgentEvent::TextChunk(_)))
        .count();
    assert_eq!(said, usize::from(!streamed && !t.answer.is_empty()));
    assert_eq!(closing.last(), Some(&AgentEvent::TurnEnd));
}

#[test]
fn blocks_are_written_with_their_kind_first() {
    let call = ContentBlock::ToolUse {
        id: "t1".into(),
        name: "read".into(),
        input: Json::parse(r#"{"path":"a \"b\""}"#).expect("JSON text"),
    };
    assert_eq!(
        block_json(&call),
        r#"{"type":"tool_use","id":"t1","name":"read","input":{"path":"a \"b\""}}"#
    );
    let prompt = transcript_prompt(&vec![Message::tool_result("t1", "x\ny".into(), true)], &vec![]);
    assert!(prompt.ends_with(
        "--- TOOL ---\n{\"type\":\"tool_result\",\"tool_use_id\":\"t1\",\"content\":\"x\\ny\",\"is_error\":true}\n"
    ));
}
