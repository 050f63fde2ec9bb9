use sirbone::agent::TurnResult;
use sirbone::ai::anthropic_stream::SendFailure;
use sirbone::ai::client::{ApiFailure, OaiContent, OaiMessage, ReasoningEffort};
use sirbone::ai::codex::CodexTurn;
use sirbone::ai::exchange::{
    ChatAction, ChatEvent, ChatExchange, CliAction, CliEvent, MessagesAction, MessagesEvent,
    MessagesExchange,
};
use sirbone::ai::{OpenAiClient, ToolSpec};
use sirbone::json::Json;
use sirbone::types::{extract_text, AgentEvent, AgentState, ContentBlock, Message};

fn j(text: &str) -> Json {
    Json::parse(text).expect("JSON text")
}

const WINDOW: u32 = 128_000;

fn oai_sse(chunks: &[&str]) -> String {
    let mut body = String::new();
    for c in chunks {
        body.push_str(&format!("data: {c}\n\n"));
    }
    body.push_str("data: [DONE]\n\n");
    body
}

/// The turn that a body gives, read in one piece.
fn chat_turn(body: &str) -> (TurnResult, Vec<AgentEvent>) {
    let none = vec![];
    let mut chat = ChatExchange::new();
    let (mut events, action) = chat.step(ChatEvent::Opened, WINDOW, false, &none);
    assert!(matches!(action, ChatAction::Read));
    let (more, action) = chat.step(ChatEvent::Chunk(body.into()), WINDOW, false, &none);
    events.extend(more);
    match action {
        ChatAction::Done(turn) => (turn, events),
        other => panic!("{other:?}"),
    }
}

// --- requests

#[test]
fn run_turn_sends_messages_and_tools() {
    let c = OpenAiClient::new("http://server", "k", "gpt-distinct");
    let q = c
        .request(
            &vec![Message::user("hello".into())],
            &vec![ToolSpec {
                name: "read".into(),
                description: "reads".into(),
                schema: j("{}"),
            }],
        )
        .unwrap();
    assert_eq!(q.model, "gpt-distinct");
    assert!(matches!(
        &q.messages[0],
        OaiMessage::User { content: OaiContent::Text(t) } if t == "hello"
    ));
    assert_eq!(q.tools[0].name, "read");
}

#[test]
fn run_turn_sends_reasoning_effort_for_glm() {
    let mut c = OpenAiClient::new("http://server", "k", "glm-distinct");
    c.set_thinking_budget(Some(16000));
    let q = c.request(&vec![Message::user("hello".into())], &vec![]).unwrap();
    assert_eq!(q.model, "glm-distinct");
    assert_eq!(q.reasoning_effort, Some(ReasoningEffort::Medium));
}

#[test]
fn run_turn_omits_reasoning_effort_for_non_glm() {
    let mut c = OpenAiClient::new("http://server", "k", "gpt-distinct");
    c.set_thinking_budget(Some(16000));
    let q = c.request(&vec![Message::user("hello".into())], &vec![]).unwrap();
    assert_eq!(q.model, "gpt-distinct");
    assert_eq!(q.reasoning_effort, None);
}

// --- chat completions

#[test]
fn mistral_citation_chunks_do_not_abort_the_stream() {
    let (out, _) = chat_turn(&oai_sse(&[
        r#"{"id":"x","choices":[{"index":0,"delta":{"role":"assistant"}}],"created":0,"model":"m","object":"chat.completion.chunk"}"#,
        r#"{"id":"x","choices":[{"index":0,"delta":{"content":[{"type":"reference","reference_ids":[1,2]},{"type":"text","text":"grounded"}]}}],"created":0,"model":"m","object":"chat.completion.chunk"}"#,
        r#"{"id":"x","choices":[{"index":0,"delta":{"content":"."}}],"created":0,"model":"m","object":"chat.completion.chunk"}"#,
        r#"{"id":"x","choices":[],"usage":{"prompt_tokens":10,"completion_tokens":2,"prompt_tokens_details":{"cached_tokens":0}},"created":0,"model":"m","object":"chat.completion.chunk"}"#,
    ]));
    assert_eq!(extract_text(&out.assistant_message.content), "grounded.");
    assert_eq!(out.usage.input, 10);
    assert_eq!(out.usage.output, 2);
}

#[test]
fn run_turn_parses_text_and_tool_calls() {
    let (turn, events) = chat_turn(&oai_sse(&[
        r#"{"id":"x","choices":[{"index":0,"delta":{"content":"answer"}}],"created":0,"model":"m","object":"chat.completion.chunk"}"#,
        r#"{"id":"x","choices":[{"index":0,"delta":{"tool_calls":[{"index":0,"id":"c1","function":{"name":"read","arguments":"{\"path\":\"p\"}"}}]}}],"created":0,"model":"m","object":"chat.completion.chunk"}"#,
    ]));
    assert!(turn
        .assistant_message
        .content
        .iter()
        .any(|b| matches!(b, ContentBlock::Text { text } if text == "answer")));
    match turn.state {
        AgentState::ToolCalling(calls) => {
            assert_eq!(calls.len(), 1);
            assert_eq!(calls[0].name, "read");
            assert_eq!(calls[0].arguments, j(r#"{"path": "p"}"#));
        }
        other => panic!("expected ToolCalling, got {other:?}"),
    }
    assert_eq!(
        events,
        vec![AgentEvent::TextChunk("answer".into()), AgentEvent::TurnEnd]
    );
}

#[test]
fn run_turn_does_not_retry_a_client_error() {
    let mut chat = ChatExchange::new();
    let (events, action) = chat.step(
        ChatEvent::Refused {
            status: 400,
            line: "400 Bad Request".into(),
            body: r#"{"error": {"message": "bad request"}}"#.into(),
        },
        WINDOW,
        false,
        &vec![],
    );
    assert!(matches!(action, ChatAction::Fail(_)));
    assert!(matches!(&events[0], AgentEvent::Error(t) if t.contains("bad request")));
}

fn overloaded() -> ChatEvent {
    ChatEvent::Refused {
        status: 503,
        line: "503 Service Unavailable".into(),
        body: "key sk-secret-12345".into(),
    }
}

#[test]
fn a_server_error_is_tried_five_times() {
    let secrets = vec![Some("sk-secret-12345".to_string())];
    let mut chat = ChatExchange::new();
    let mut waits = vec![];
    let mut ev = overloaded();
    let error = loop {
        let (events, action) = chat.step(ev, WINDOW, false, &secrets);
        ev = match action {
            ChatAction::Sleep(s) => {
                waits.push(s);
                ChatEvent::Waited
            }
            ChatAction::Send => overloaded(),
            ChatAction::Fail(_) => break events,
            other => panic!("{other:?}"),
        };
    };
    assert_eq!(chat.attempt, 5);
    assert_eq!(waits.len(), 4);
    assert!(waits.windows(2).all(|w| w[0] <= w[1]));
    assert_eq!(
        error,
        vec![AgentEvent::Error(
            "503 Service Unavailable key [redacted]".into()
        )]
    );
}

#[test]
fn a_chat_is_cancelled_wherever_it_waits() {
    let none = vec![];
    let mut chat = ChatExchange::new();
    let (events, action) = chat.step(ChatEvent::Cancelled, WINDOW, false, &none);
    assert_eq!(events, vec![AgentEvent::Cancelled]);
    assert!(matches!(action, ChatAction::Done(t) if t.assistant_message == Message::assistant("".into())));

    let mut chat = ChatExchange::new();
    chat.step(ChatEvent::Opened, WINDOW, false, &none);
    let (_, action) = chat.step(
        ChatEvent::Chunk("data: {\"choices\":[{\"delta\":{\"content\":\"par\"}}]}\n".into()),
        WINDOW,
        false,
        &none,
    );
    assert!(matches!(action, ChatAction::Read));
    let (events, action) = chat.step(ChatEvent::Cancelled, WINDOW, false, &none);
    assert_eq!(events, vec![AgentEvent::Cancelled]);
    assert!(matches!(action, ChatAction::Done(t) if t.assistant_message == Message::assistant("par".into())));
}

#[test]
fn a_rule_cuts_the_stream_short() {
    let none = vec![];
    let body = oai_sse(&[
        r#"{"choices":[{"delta":{"content":"let s = "}}]}"#,
        r#"{"choices":[{"delta":{"content":"Box::leak"}}]}"#,
        r#"{"choices":[{"delta":{"content":"(x)"}}]}"#,
    ]);
    let mut chat = ChatExchange::new();
    chat.step(ChatEvent::Opened, WINDOW, true, &none);
    let (_, action) = chat.step(ChatEvent::Chunk(body), WINDOW, true, &none);
    assert!(matches!(action, ChatAction::Judge(t) if t == "let s = "));
    let (_, action) = chat.step(ChatEvent::Judged(None), WINDOW, true, &none);
    assert!(matches!(action, ChatAction::Judge(t) if t == "Box::leak"));
    let (events, action) = chat.step(
        ChatEvent::Judged(Some("box-leak".into())),
        WINDOW,
        true,
        &none,
    );
    assert!(events.is_empty());
    match action {
        ChatAction::Done(t) => {
            assert_eq!(t.tripped_rule.as_deref(), Some("box-leak"));
            assert_eq!(extract_text(&t.assistant_message.content), "let s = Box::leak");
        }
        other => panic!("{other:?}"),
    }
}

#[test]
fn a_stream_that_breaks_off_is_not_sent_again() {
    let none = vec![];
    let mut chat = ChatExchange::new();
    chat.step(ChatEvent::Opened, WINDOW, false, &none);
    let (events, action) = chat.step(
        ChatEvent::Failed(ApiFailure::Network {
            connect: true,
            timeout: false,
            message: "reset".into(),
        }),
        WINDOW,
        false,
        &none,
    );
    assert_eq!(events, vec![AgentEvent::Error("http error: reset".into())]);
    assert!(matches!(action, ChatAction::Fail(_)));
}

#[test]
fn the_last_line_counts_without_an_end() {
    let none = vec![];
    let mut chat = ChatExchange::new();
    chat.step(ChatEvent::Opened, WINDOW, false, &none);
    let half = "data: {\"choices\":[{\"delta\":{\"content\":\"hi\"}}]}";
    let (_, action) = chat.step(ChatEvent::Chunk(half.into()), WINDOW, false, &none);
    assert!(matches!(action, ChatAction::Read));
    let (events, action) = chat.step(ChatEvent::Ended, WINDOW, false, &none);
    assert_eq!(
        events,
        vec![AgentEvent::TextChunk("hi".into()), AgentEvent::TurnEnd]
    );
    assert!(matches!(action, ChatAction::Done(_)));
}

// --- messages

fn no_route() -> SendFailure {
    SendFailure {
        url: Some("http://x/v1/messages".into()),
        root_cause: "no route".into(),
        connect: true,
        timeout: false,
        message: "error sending request".into(),
    }
}

#[test]
fn an_overloaded_server_is_waited_for() {
    let none = vec![];
    let mut x = MessagesExchange::new();
    let (_, action) = x.step(
        MessagesEvent::Replied {
            status: 529,
            retry_after: Some(7),
        },
        WINDOW,
        &none,
    );
    assert!(matches!(action, MessagesAction::Sleep(7)));
    let (_, action) = x.step(MessagesEvent::Waited, WINDOW, &none);
    assert!(matches!(action, MessagesAction::Send));
    assert_eq!(x.attempt, 2);
    let (_, action) = x.step(
        MessagesEvent::Replied {
            status: 429,
            retry_after: Some(3600),
        },
        WINDOW,
        &none,
    );
    assert!(matches!(action, MessagesAction::ReadBody));
    let (events, action) = x.step(
        MessagesEvent::Body("quota of sk-secret-12345".into()),
        WINDOW,
        &vec![Some("sk-secret-12345".to_string())],
    );
    let told = "Anthropic API error 429 (after 2 attempts): quota of [redacted]";
    assert_eq!(events, vec![AgentEvent::Error(told.into())]);
    assert!(matches!(action, MessagesAction::Fail(t) if t == told));
}

#[test]
fn a_refused_message_is_not_sent_again() {
    let none = vec![];
    let mut x = MessagesExchange::new();
    x.step(
        MessagesEvent::Replied {
            status: 401,
            retry_after: None,
        },
        WINDOW,
        &none,
    );
    let (_, action) = x.step(MessagesEvent::Body("bad key".into()), WINDOW, &none);
    assert!(matches!(action, MessagesAction::Fail(t) if t == "Anthropic API error 401: bad key"));
}

#[test]
fn a_broken_stream_starts_from_nothing() {
    let none = vec![];
    let opened = || MessagesEvent::Replied {
        status: 200,
        retry_after: None,
    };
    let part = |t: &str| {
        MessagesEvent::Chunk(format!(
            "data: {{\"type\":\"content_block_delta\",\"index\":0,\"delta\":{{\"type\":\"text_delta\",\"text\":\"{t}\"}}}}\n"
        ))
    };
    let mut x = MessagesExchange::new();
    x.step(opened(), WINDOW, &none);
    let (events, _) = x.step(part("lost"), WINDOW, &none);
    assert_eq!(events, vec![AgentEvent::TextChunk("lost".into())]);
    let (_, action) = x.step(MessagesEvent::Broken(no_route()), WINDOW, &none);
    assert!(matches!(action, MessagesAction::Sleep(_)));
    x.step(MessagesEvent::Waited, WINDOW, &none);
    x.step(opened(), WINDOW, &none);
    x.step(part("kept"), WINDOW, &none);
    let (events, action) = x.step(MessagesEvent::Ended, WINDOW, &none);
    assert_eq!(events, vec![AgentEvent::TurnEnd]);
    match action {
        MessagesAction::Done(t) => assert_eq!(extract_text(&t.assistant_message.content), "kept"),
        other => panic!("{other:?}"),
    }
}

#[test]
fn a_request_that_never_goes_out_is_given_up() {
    let none = vec![];
    let mut x = MessagesExchange::new();
    let mut sent = 1;
    let mut ev = MessagesEvent::NotSent(no_route());
    let told = loop {
        let (_, action) = x.step(ev, WINDOW, &none);
        ev = match action {
            MessagesAction::Sleep(_) => MessagesEvent::Waited,
            MessagesAction::Send => {
                sent += 1;
                MessagesEvent::NotSent(no_route())
            }
            MessagesAction::Fail(t) => break t,
            other => panic!("{other:?}"),
        };
    };
    assert_eq!(sent, 5);
    assert_eq!(
        told,
        "API request to http://x/v1/messages failed: no route (connection failed — check ANTHROPIC_BASE_URL / network)"
    );
}

#[test]
fn a_quota_error_in_the_stream_is_terminal() {
    let none = vec![];
    let mut x = MessagesExchange::new();
    x.step(
        MessagesEvent::Replied {
            status: 200,
            retry_after: None,
        },
        WINDOW,
        &none,
    );
    let (events, action) = x.step(
        MessagesEvent::Chunk(
            "data: {\"type\":\"error\",\"error\":{\"type\":\"rate_limit_error\",\"message\":\"usage limit reached\"}}\n"
                .into(),
        ),
        WINDOW,
        &none,
    );
    let told = "Anthropic API stream error: usage limit reached";
    assert_eq!(events, vec![AgentEvent::Error(told.into())]);
    assert!(matches!(action, MessagesAction::Fail(t) if t == told));
}

// --- the Codex CLI

#[test]
fn a_cli_run_gives_its_answer() {
    let mut t = CodexTurn::new();
    let (events, action) = t.step(CliEvent::Line("not JSON".into()));
    assert!(events.is_empty());
    assert!(matches!(action, CliAction::Read));
    t.step(CliEvent::Line(
        r#"{"type":"item.completed","item":{"type":"agent_message","text":"hi"}}"#.into(),
    ));
    t.step(CliEvent::Line(
        r#"{"type":"turn.completed","usage":{"input_tokens":3,"output_tokens":4}}"#.into(),
    ));
    let (_, action) = t.step(CliEvent::Ended);
    assert!(matches!(action, CliAction::AwaitExit));
    let (events, action) = t.step(CliEvent::Exited {
        success: true,
        status: "exit status: 0".into(),
    });
    assert_eq!(
        events,
        vec![AgentEvent::TextChunk("hi".into()), AgentEvent::TurnEnd]
    );
    match action {
        CliAction::Done(r) => {
            assert_eq!(extract_text(&r.assistant_message.content), "hi");
            assert_eq!((r.usage.input, r.usage.output), (3, 4));
        }
        other => panic!("{other:?}"),
    }
}

#[test]
fn each_failure_of_the_cli_has_its_words() {
    let run = |ev: CliEvent| CodexTurn::new().step(ev).1;
    assert!(matches!(run(CliEvent::Broken("pipe".into())), CliAction::Abort(t) if t == "read codex output: pipe"));
    assert!(matches!(
        run(CliEvent::Silent(90)),
        CliAction::Abort(t) if t == "codex stream idle for 90s — no output lines; is the CLI wedged?"
    ));
    assert!(matches!(
        run(CliEvent::Exited { success: false, status: "exit status: 1".into() }),
        CliAction::Fail(t) if t == "Codex exited with status exit status: 1; run `codex login status` to verify ChatGPT authentication"
    ));
    assert!(matches!(run(CliEvent::Cancelled), CliAction::Stop(_)));
}
