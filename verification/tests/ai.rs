use sirbone::ai::anthropic::{count_tokens_request, counted_tokens, to_anthropic_request};
use sirbone::ai::anthropic_stream::{
    after_end, after_status, describe_failure, end_error, retry_after_secs, status_error,
    stream_error_retryable, wait_asked, AnthropicTurn, SendFailure, StatusStep, StreamEnd,
};
use sirbone::ai::{
    backoff_secs, env_context_window, glm_effort_label, is_context_overflow, is_glm,
    is_retryable_status, known_secrets, model_ids, next_attempt, redact_secrets, redact_with,
    stream_idle_secs_from, AnthropicClient, NextAttempt, ToolSpec, DEFAULT_STREAM_IDLE_SECS,
    MAX_ATTEMPTS,
};
use sirbone::json::Json;
use sirbone::types::{extract_text, AgentEvent, AgentState, ContentBlock, Message, Role};

fn j(text: &str) -> Json {
    Json::parse(text).expect("JSON text")
}

fn read_tool() -> ToolSpec {
    ToolSpec {
        name: "read".into(),
        description: "Reads a file".into(),
        schema: j(r#"{"type":"object","properties":{"path":{"type":"string"}}}"#),
    }
}

// --- shared rules

#[test]
fn redact_replaces_every_occurrence_of_each_secret() {
    let secrets = vec!["sk-ant-abc123".to_string(), "sk-oai-xyz789".to_string()];
    let out = redact_with(
        "401 for key sk-ant-abc123 (sk-ant-abc123), alt sk-oai-xyz789",
        &secrets,
    );
    assert_eq!(out, "401 for key [redacted] ([redacted]), alt [redacted]");
}

#[test]
fn redact_leaves_clean_text_untouched() {
    let secrets = vec!["sk-ant-abc123".to_string()];
    assert_eq!(
        redact_with("connection refused", &secrets),
        "connection refused"
    );
}

#[test]
fn only_values_that_are_set_are_secrets() {
    let settings = vec![None, Some("".to_string()), Some("sk-oai-xyz789".to_string())];
    assert_eq!(known_secrets(&settings), vec!["sk-oai-xyz789".to_string()]);
    assert_eq!(
        redact_secrets("key sk-oai-xyz789", &settings),
        "key [redacted]"
    );
}

#[test]
fn context_overflow_recognizes_every_provider_phrasing() {
    for msg in [
        "invalid_request_error: prompt is too long: 213004 tokens > 200000 maximum",
        "input length and `max_tokens` exceed context limit: 199000 + 8000 > 200000",
        "400 Bad Request: {\"error\":{\"code\":\"context_length_exceeded\"}}",
        "This model's maximum context length is 128000 tokens, however you requested 131000",
        "requested tokens exceed the context window of this model",
        "Too many tokens in the request",
    ] {
        assert!(is_context_overflow(msg), "not classified: {msg}");
    }
}

#[test]
fn context_overflow_ignores_other_client_errors() {
    for msg in [
        "401 Unauthorized: invalid api key",
        "400 Bad Request: messages: final message must be a user turn",
        "tool `read` input failed schema validation",
        "connection refused",
    ] {
        assert!(!is_context_overflow(msg), "misclassified: {msg}");
    }
}

#[test]
fn backoff_is_capped() {
    assert_eq!(backoff_secs(1), 1);
    assert_eq!(backoff_secs(3), 4);
    assert!(backoff_secs(20) <= 30);
}

#[test]
fn attempts_come_to_an_end() {
    assert_eq!(next_attempt(true, 1), NextAttempt::Wait(1));
    assert_eq!(next_attempt(true, MAX_ATTEMPTS), NextAttempt::GiveUp);
    assert_eq!(next_attempt(false, 1), NextAttempt::GiveUp);
    assert!(is_retryable_status(429) && is_retryable_status(503));
    assert!(!is_retryable_status(404) && !is_retryable_status(600));
}

#[test]
fn glm_detected_by_model_or_host() {
    for (base, model) in [
        ("https://api.z.ai/api/anthropic", "glm-5.2"),
        ("https://api.z.ai/api/coding/paas/v4", "glm-5.3"),
        ("https://openrouter.ai/api/v1", "z-ai/glm-5.2"),
        ("https://api.z.ai/api/anthropic", "opus-4-7"),
        ("https://proxy.bigmodel.cn/x", "whatever"),
    ] {
        assert!(is_glm(base, model), "not detected: {base} / {model}");
    }
    for (base, model) in [
        ("https://api.anthropic.com", "opus-4-7"),
        ("https://api.openai.com/v1", "gpt-4o-mini"),
        ("https://my-glm-proxy.example.com", "llama-3.3-70b"),
    ] {
        assert!(!is_glm(base, model), "false positive: {base} / {model}");
    }
}

#[test]
fn budget_dial_maps_to_effort_labels() {
    assert_eq!(glm_effort_label(None), "light");
    assert_eq!(glm_effort_label(Some(8000)), "low");
    assert_eq!(glm_effort_label(Some(16000)), "medium");
    assert_eq!(glm_effort_label(Some(32000)), "max");
}

#[test]
fn stream_idle_secs_parsing() {
    assert_eq!(stream_idle_secs_from(None), DEFAULT_STREAM_IDLE_SECS);
    assert_eq!(stream_idle_secs_from(Some(" 30 ")), 30);
    assert_eq!(stream_idle_secs_from(Some("0")), DEFAULT_STREAM_IDLE_SECS);
    assert_eq!(stream_idle_secs_from(Some("abc")), DEFAULT_STREAM_IDLE_SECS);
}

#[test]
fn list_models_parses_ids() {
    let reply = j(r#"{"data":[{"id":"a"},{"no":1},{"id":"b"}]}"#);
    assert_eq!(model_ids(&reply), vec!["a".to_string(), "b".to_string()]);
    assert!(model_ids(&j("{}")).is_empty());
}

#[test]
fn a_window_from_the_environment_must_be_a_number() {
    assert_eq!(env_context_window(Some("200000")), Some(200_000));
    assert_eq!(env_context_window(Some("x")), None);
    assert_eq!(env_context_window(None), None);
}

// --- requests

#[test]
fn to_anthropic_request_maps_roles_and_blocks() {
    let msgs = vec![
        Message::system("SYS".into()),
        Message {
            role: Role::User,
            injected: false,
            content: vec![
                ContentBlock::Text { text: "hi".into() },
                ContentBlock::Image {
                    media_type: "image/png".into(),
                    data: "DATA".into(),
                },
            ],
        },
        Message::user("just text".into()),
        Message {
            role: Role::Assistant,
            injected: false,
            content: vec![
                ContentBlock::Thinking {
                    thinking: "th".into(),
                },
                ContentBlock::Text { text: "ans".into() },
                ContentBlock::ToolUse {
                    id: "t1".into(),
                    name: "read".into(),
                    input: j(r#"{"path": "x"}"#),
                },
            ],
        },
        Message::tool_result("t1", "RESULT".into(), false),
    ];
    let body = to_anthropic_request(&msgs, &vec![read_tool()], "m", Some(1024), true);

    // Top-level shape.
    assert_eq!(body.str_at("model"), Some("m"));
    assert_eq!(body.u64_at("max_tokens"), Some(16384));
    // System prompt: cached content block.
    let system = body.array_at("system").unwrap();
    assert_eq!(system[0].str_at("text"), Some("SYS"));
    assert_eq!(system[0].at("cache_control").str_at("type"), Some("ephemeral"));
    // Extended thinking passed through.
    assert_eq!(body.at("thinking").str_at("type"), Some("enabled"));
    assert_eq!(body.at("thinking").u64_at("budget_tokens"), Some(1024));
    // Tools: last one carries the cache breakpoint.
    let tools = body.array_at("tools").unwrap();
    assert_eq!(tools[0].str_at("name"), Some("read"));
    assert_eq!(tools[0].at("cache_control").str_at("type"), Some("ephemeral"));

    let m = body.array_at("messages").unwrap();
    // [0] user with image -> blocks array carrying both text and image.
    assert_eq!(m[0].str_at("role"), Some("user"));
    let blocks = m[0].array_at("content").unwrap();
    assert!(blocks
        .iter()
        .any(|b| b.str_at("type") == Some("text") && b.str_at("text") == Some("hi")));
    assert!(blocks.iter().any(|b| b.str_at("type") == Some("image")
        && b.at("source").str_at("media_type") == Some("image/png")
        && b.at("source").str_at("data") == Some("DATA")));
    // [1] text-only user -> collapsed to a plain string.
    assert_eq!(m[1].str_at("content"), Some("just text"));
    // [2] assistant -> thinking + text + tool_use, in order.
    let a = m[2].array_at("content").unwrap();
    assert!(a
        .iter()
        .any(|b| b.str_at("type") == Some("thinking") && b.str_at("thinking") == Some("th")));
    assert!(a
        .iter()
        .any(|b| b.str_at("type") == Some("text") && b.str_at("text") == Some("ans")));
    assert!(a.iter().any(|b| b.str_at("type") == Some("tool_use")
        && b.str_at("name") == Some("read")
        && b.str_at("id") == Some("t1")));
    // [3] tool result -> its own user message.
    assert_eq!(m[3].str_at("role"), Some("user"));
    let r = &m[3].array_at("content").unwrap()[0];
    assert_eq!(r.str_at("type"), Some("tool_result"));
    assert_eq!(r.str_at("tool_use_id"), Some("t1"));
    assert_eq!(r.at("is_error").as_bool(), Some(false));
    // Last block of the final message carries the conversation cache breakpoint;
    // earlier messages must not.
    assert_eq!(r.at("cache_control").str_at("type"), Some("ephemeral"));
    assert!(m[0]
        .array_at("content")
        .unwrap()
        .iter()
        .all(|b| b.get("cache_control").is_none()));
}

#[test]
fn to_anthropic_request_caches_string_form_final_message() {
    let msgs = vec![Message::user("hello".into())];
    let body = to_anthropic_request(&msgs, &vec![], "m", None, true);
    let m = body.array_at("messages").unwrap();
    let first = &m[0].array_at("content").unwrap()[0];
    assert_eq!(first.str_at("type"), Some("text"));
    assert_eq!(first.str_at("text"), Some("hello"));
    assert_eq!(first.at("cache_control").str_at("type"), Some("ephemeral"));
}

#[test]
fn without_a_cache_nothing_is_marked() {
    let msgs = vec![Message::system("SYS".into()), Message::user("hello".into())];
    let body = to_anthropic_request(&msgs, &vec![read_tool()], "m", None, false);
    assert!(!body.render().contains("cache_control"));
}

#[test]
fn to_anthropic_request_drops_empty_assistant_text() {
    let msgs = vec![Message {
        role: Role::Assistant,
        injected: false,
        content: vec![
            ContentBlock::Text {
                text: String::new(),
            },
            ContentBlock::ToolUse {
                id: "t".into(),
                name: "read".into(),
                input: j("{}"),
            },
        ],
    }];
    let body = to_anthropic_request(&msgs, &vec![], "m", None, true);
    let blocks = body.array_at("messages").unwrap()[0]
        .array_at("content")
        .unwrap();
    assert!(
        !blocks.iter().any(|b| b.str_at("type") == Some("text")),
        "empty text omitted"
    );
    assert!(blocks.iter().any(|b| b.str_at("type") == Some("tool_use")));
    // No thinking budget -> no thinking field.
    assert!(body.get("thinking").is_none());
}

#[test]
fn results_in_a_row_become_one_message() {
    let msgs = vec![
        Message::tool_result("a", "1".into(), false),
        Message::tool_result("b", "2".into(), true),
    ];
    let body = to_anthropic_request(&msgs, &vec![], "m", None, false);
    let m = body.array_at("messages").unwrap();
    assert_eq!(m.len(), 1);
    let results = m[0].array_at("content").unwrap();
    assert_eq!(results.len(), 2);
    assert_eq!(results[1].at("is_error").as_bool(), Some(true));
}

#[test]
fn a_count_asks_for_the_same_messages() {
    let msgs = vec![Message::user("hello".into())];
    let body = count_tokens_request(&msgs, &vec![], "m", false);
    assert_eq!(body.str_at("model"), Some("m"));
    assert!(body.get("max_tokens").is_none());
    assert!(body.array_at("messages").is_some());
    assert_eq!(counted_tokens(&j(r#"{"input_tokens":7}"#)), Some(7));
    assert_eq!(counted_tokens(&j("{}")), None);
}

#[test]
fn anthropic_set_model_updates_the_active_model() {
    let mut c = AnthropicClient::new("http://x", "k", "old");
    c.set_model("new".into());
    assert_eq!(c.model, "new");
}

#[test]
fn context_window_fetches_caches_and_resets_on_model_switch() {
    let mut c = AnthropicClient::new("http://x/", "k", "m1");
    assert_eq!(c.model_url(), "http://x/v1/models/m1");
    assert_eq!(c.messages_url(), "http://x/v1/messages");
    assert_eq!(c.known_window(None), None);
    let m1 = j(r#"{"id":"m1","max_input_tokens":1000000,"max_tokens":128000}"#);
    assert_eq!(c.context_window(&m1), Some(1_000_000));
    assert_eq!(c.known_window(None), Some(1_000_000));
    assert_eq!(c.known_window(Some("5000")), Some(5000));
    c.set_model("m2".into()); // switch invalidates the cache
    assert_eq!(c.known_window(None), None);
    let m2 = j(r#"{"id":"m2","max_input_tokens":200000,"max_tokens":64000}"#);
    assert_eq!(c.context_window(&m2), Some(200_000));
    assert_eq!(c.context_window(&j("{}")), None);
}

#[test]
fn thinking_budget_round_trips() {
    let mut c = AnthropicClient::new("http://x", "k", "m");
    assert_eq!(c.thinking_budget(), None); // 0 -> None
    c.set_thinking_budget(Some(2048));
    assert_eq!(c.thinking_budget(), Some(2048));
    c.set_thinking_budget(None);
    assert_eq!(c.thinking_budget(), None);
}

// --- streams

#[test]
fn quota_is_terminal() {
    // z.ai 5-hour usage cap (the exact shape we observed)
    let ev = j(
        r#"{"type":"error","error":{"type":"rate_limit_error","code":"1308","message":"Usage limit reached for 5 hour"}}"#,
    );
    assert!(!stream_error_retryable(&ev));
}

#[test]
fn overload_and_network_are_retryable() {
    assert!(stream_error_retryable(&j(
        r#"{"type":"error","error":{"type":"overloaded_error","message":"overloaded"}}"#
    )));
    assert!(stream_error_retryable(&j(
        r#"{"type":"error","error":{"code":"1234","message":"Network error, please try again"}}"#
    )));
}

#[test]
fn auth_is_terminal() {
    let ev = j(r#"{"type":"error","error":{"type":"authentication_error","message":"invalid key"}}"#);
    assert!(!stream_error_retryable(&ev));
}

#[test]
fn stream_error_each_terminal_branch_independent() {
    assert!(!stream_error_retryable(&j(
        r#"{"type":"error","error":{"type":"overloaded_error","code":"1308","message":"x"}}"#
    )));
    assert!(!stream_error_retryable(&j(
        r#"{"type":"error","error":{"type":"api_error","message":"usage limit reached"}}"#
    )));
}

#[test]
fn stream_error_network_text_alone_is_retryable() {
    assert!(stream_error_retryable(&j(
        r#"{"type":"error","error":{"type":"server_error","message":"network error occurred"}}"#
    )));
}

#[test]
fn handle_event_message_start_emits_context_usage() {
    let mut t = AnthropicTurn::new();
    let ev = t.handle_event(
        &j(
            r#"{"type":"message_start","message":{"usage":{
            "input_tokens":10, "cache_read_input_tokens":70, "cache_creation_input_tokens":20
        }}}"#,
        ),
        1_000_000,
    );
    match ev {
        Some(AgentEvent::ContextUsage {
            used_tokens,
            context_window,
            cached_tokens,
            ..
        }) => {
            assert_eq!(
                context_window, 1_000_000,
                "window must come from the caller"
            );
            // input_tokens is the uncached remainder; used must be the sum.
            assert_eq!(used_tokens, 100);
            assert_eq!(cached_tokens, 70);
        }
        other => panic!("message_start should emit ContextUsage: {other:?}"),
    }
}

#[test]
fn handle_event_thinking_block_emits_thinking_start() {
    let mut t = AnthropicTurn::new();
    let ev = t.handle_event(
        &j(
            r#"{"type":"content_block_start","index":0,"content_block":{"type":"thinking","thinking":""}}"#,
        ),
        200_000,
    );
    assert_eq!(ev, Some(AgentEvent::ThinkingStart));
}

const STREAM: &str = "event: x\ndata: {\"type\":\"content_block_delta\",\"index\":0,\"delta\":{\"type\":\"text_delta\",\"text\":\"Hi \"}}\n\n\
data: {\"type\":\"content_block_start\",\"index\":1,\"content_block\":{\"type\":\"tool_use\",\"id\":\"t1\",\"name\":\"read\"}}\n\n\
data: {\"type\":\"content_block_delta\",\"index\":1,\"delta\":{\"type\":\"input_json_delta\",\"partial_json\":\"{\\\"path\\\":\"}}\n\n\
data: {\"type\":\"content_block_delta\",\"index\":1,\"delta\":{\"type\":\"input_json_delta\",\"partial_json\":\"\\\"a\\\"}\"}}\n\n\
data: {\"type\":\"message_stop\"}\n\n";

#[test]
fn chunks_do_not_change_what_a_stream_says() {
    let mut whole = AnthropicTurn::new();
    let (events, _) = whole.feed(STREAM, 1000);
    let mut cut = AnthropicTurn::new();
    let mut seen = Vec::new();
    for piece in STREAM.as_bytes().chunks(7) {
        let (evs, _) = cut.feed(std::str::from_utf8(piece).unwrap(), 1000);
        seen.extend(evs);
    }
    assert_eq!(events, seen);
    assert_eq!(events[0], AgentEvent::TextChunk("Hi ".into()));
    let turn = whole.finish();
    assert_eq!(extract_text(&turn.assistant_message.content), "Hi ");
    match turn.state {
        AgentState::ToolCalling(calls) => {
            assert_eq!(calls.len(), 1);
            assert_eq!(calls[0].name, "read");
            assert_eq!(calls[0].arguments.str_at("path"), Some("a"));
        }
        other => panic!("{other:?}"),
    }
    assert_eq!(cut.cancel().state, AgentState::Done);
}

#[test]
fn stream_errors_end_the_stream() {
    let mut t = AnthropicTurn::new();
    let (_, end) = t.feed(
        "data: {\"type\":\"error\",\"error\":{\"type\":\"overloaded_error\",\"message\":\"busy\"}}\n",
        1000,
    );
    let end = end.expect("the stream ended");
    assert!(matches!(end, StreamEnd::Retry(_)));
    assert_eq!(after_end(&end, 1), NextAttempt::Wait(1));
    assert_eq!(after_end(&end, MAX_ATTEMPTS), NextAttempt::GiveUp);
    assert!(end_error(&end).unwrap().ends_with("(after 5 attempts)"));
    let (_, end) = t.feed(
        "data: {\"type\":\"error\",\"error\":{\"type\":\"authentication_error\",\"message\":\"bad\"}}\n",
        1000,
    );
    let end = end.expect("the stream ended");
    assert!(matches!(end, StreamEnd::Fatal(_)));
    assert_eq!(after_end(&end, 1), NextAttempt::GiveUp);
    assert_eq!(end_error(&StreamEnd::Done), None);
}

#[test]
fn statuses_wait_or_fail() {
    assert_eq!(after_status(200, None, 1), StatusStep::Stream);
    assert_eq!(after_status(429, Some(7), 1), StatusStep::Wait(7));
    assert_eq!(after_status(503, None, 2), StatusStep::Wait(2));
    let step = after_status(503, None, MAX_ATTEMPTS);
    assert_eq!(step, StatusStep::Exhausted);
    assert_eq!(
        status_error(503, step, 5, "busy"),
        "Anthropic API error 503 (after 5 attempts): busy"
    );
    let step = after_status(401, None, 1);
    assert_eq!(status_error(401, step, 1, "no"), "Anthropic API error 401: no");
}

#[test]
fn a_wait_is_seconds_or_a_date() {
    assert_eq!(wait_asked(" 12 ", None), Some(12));
    assert_eq!(wait_asked("soon", Some(30)), Some(30));
    assert_eq!(wait_asked("soon", None), None);
    assert_eq!(retry_after_secs("12", 0, 0), Some(12));
    // 60 seconds after the epoch, seen at second 15
    assert_eq!(
        retry_after_secs("Thu, 01 Jan 1970 00:01:00 GMT", 15, 0),
        Some(45)
    );
    assert_eq!(retry_after_secs("not a date", 15, 0), None);
}

#[test]
fn a_failure_to_send_says_where_and_why() {
    let f = SendFailure {
        url: Some("https://api.anthropic.com/v1/messages".into()),
        root_cause: "refused".into(),
        connect: true,
        timeout: false,
        message: "error sending request".into(),
    };
    let text = describe_failure(&f);
    assert!(text.contains("https://api.anthropic.com/v1/messages"));
    assert!(text.contains("refused"));
}
