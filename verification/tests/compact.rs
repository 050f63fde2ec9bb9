use sirbone::agent::compact::{
    accept_summary, conversation, plan_compaction, prune_tool_results,
    record_touched, summary_request, CompactError,
};
use sirbone::agent::tokens::{estimate_context_tokens, CHARS_PER_TOKEN_ESTIMATE};
use sirbone::json::Json;
use sirbone::types::{extract_text, ContentBlock, Message, Role, ToolCall};

fn content_of(m: &Message) -> &str {
    match &m.content[0] {
        ContentBlock::ToolResult { content, .. } => content,
        ContentBlock::Text { text } => text,
        _ => panic!("unexpected block"),
    }
}

#[test]
fn a_bulky_tool_result_becomes_a_marker_and_frees_tokens() {
    let mut msgs = vec![
        Message::tool_result("t1", "y".repeat(20_000), false),
        Message::user("next".into()),
    ];
    let freed = prune_tool_results(&mut msgs);
    assert!(freed > 6_000, "freed only {freed} tokens");
    assert!(content_of(&msgs[0]).starts_with("[pruned to fit the context:"));
}

#[test]
fn the_marker_keeps_the_spill_path_so_the_output_stays_one_read_away() {
    let body = format!(
        "{}\n[truncated — full output: /tmp/spill-7.txt]",
        "y".repeat(9_000)
    );
    let mut msgs = vec![
        Message::tool_result("t1", body, false),
        Message::user("next".into()),
    ];
    prune_tool_results(&mut msgs);
    assert!(
        content_of(&msgs[0]).contains("full output: /tmp/spill-7.txt"),
        "recovery path lost: {}",
        content_of(&msgs[0])
    );
}

#[test]
fn small_results_and_conversation_content_are_never_touched() {
    let big = "y".repeat(20_000);
    let build = || {
        vec![
            Message::tool_result("t1", "small output".into(), false),
            Message::user(big.clone()),
            Message::assistant(big.clone()),
            Message::tool_result("t2", big.clone(), false),
            Message::user("go on".into()),
        ]
    };
    let mut msgs = build();
    let before = build();
    prune_tool_results(&mut msgs);
    assert_eq!(msgs[..3], before[..3]);
    assert_eq!(msgs[3].role, Role::Tool);
}

#[test]
fn the_newest_result_is_pruned_only_when_nothing_older_can_be() {
    let big = "y".repeat(20_000);
    let mut with_older = vec![
        Message::tool_result("t1", big.clone(), false),
        Message::tool_result("t2", big.clone(), false),
    ];
    prune_tool_results(&mut with_older);
    assert!(content_of(&with_older[0]).starts_with("[pruned"));
    assert_eq!(content_of(&with_older[1]), big);

    let mut newest_only = vec![
        Message::user("run it".into()),
        Message::tool_result("t1", big, false),
    ];
    assert!(prune_tool_results(&mut newest_only) > 0);
    assert!(content_of(&newest_only[1]).starts_with("[pruned"));
}

#[test]
fn a_second_pass_finds_nothing_left_to_prune() {
    let mut msgs = vec![
        Message::tool_result("t1", "y".repeat(20_000), false),
        Message::user("next".into()),
    ];
    prune_tool_results(&mut msgs);
    assert_eq!(prune_tool_results(&mut msgs), 0);
}

#[test]
fn a_marker_names_errors_and_their_size() {
    let mut msgs = vec![
        Message::tool_result("t1", "e".repeat(10_000), true),
        Message::user("next".into()),
    ];
    prune_tool_results(&mut msgs);
    assert_eq!(
        content_of(&msgs[0]),
        "[pruned to fit the context: 10000 chars of tool error output dropped]"
    );
}

/// Plans, and puts `summary` in the place of what the plan names.
fn compacted(
    messages: &mut Vec<Message>,
    keep: Option<usize>,
    window: Option<usize>,
    summary: &str,
) -> Result<(), CompactError> {
    let plan = plan_compaction(messages, keep, window, None)?;
    accept_summary(messages, plan, summary)
}

#[test]
fn compact_replaces_old_messages_with_summary() {
    let mut messages: Vec<Message> = (0..10).map(|i| Message::user(format!("m{i}"))).collect();
    compacted(&mut messages, Some(6), None, "SUMMARY-BODY").unwrap();
    assert_eq!(messages.len(), 8);
    let head = extract_text(&messages[0].content);
    assert!(head.starts_with("[Previous conversation summary"));
    assert!(head.contains("SUMMARY-BODY"));
    assert!(extract_text(&messages[2].content).contains("m4"));
    assert!(extract_text(&messages[7].content).contains("m9"));
}

#[test]
fn compact_shrinks_the_kept_window_to_a_token_budget() {
    let fat = || Message::user("x".repeat(4_000 * CHARS_PER_TOKEN_ESTIMATE));
    let mut messages: Vec<Message> = (0..4)
        .map(|i| Message::user(format!("m{i}")))
        .chain((0..6).map(|_| fat()))
        .collect();
    compacted(&mut messages, Some(6), Some(24_000), "S").unwrap();
    assert_eq!(
        messages.len(),
        5,
        "kept window not shrunk to the token budget"
    );
    let kept: Vec<Message> = messages.drain(2..).collect();
    let kept = estimate_context_tokens(&kept);
    assert!(kept <= 12_000, "kept window is {kept} tokens, over budget");
}

#[test]
fn compact_never_strands_a_tool_result_from_its_call() {
    let mut messages: Vec<Message> = (0..3).map(|i| Message::user(format!("m{i}"))).collect();
    messages.push(Message {
        role: Role::Assistant,
        injected: false,
        content: vec![ContentBlock::ToolUse {
            id: "call-1".into(),
            name: "read".into(),
            input: Json::parse(r#"{"path": "a.rs"}"#).unwrap(),
        }],
    });
    messages.push(Message {
        role: Role::User,
        injected: false,
        content: vec![ContentBlock::ToolResult {
            tool_use_id: "call-1".into(),
            content: "file body".into(),
            is_error: false,
        }],
    });
    messages.extend((5..10).map(|i| Message::user(format!("m{i}"))));
    compacted(&mut messages, Some(6), None, "S").unwrap();
    let mut seen_calls: Vec<String> = Vec::new();
    for msg in &messages {
        for block in &msg.content {
            match block {
                ContentBlock::ToolUse { id, .. } => seen_calls.push(id.clone()),
                ContentBlock::ToolResult { tool_use_id, .. } => assert!(
                    seen_calls.contains(tool_use_id),
                    "tool_result {tool_use_id} kept without its tool_use"
                ),
                _ => {}
            }
        }
    }
}

fn mid_turn_transcript() -> Vec<Message> {
    let mut m = vec![
        Message::user("A".into()),
        Message::assistant("working on A".into()),
        Message::user("B".into()),
        Message::injected("<system-reminder>\nrule tripped\n</system-reminder>".into()),
    ];
    m.extend((0..4).map(|i| Message::assistant(format!("step{i}"))));
    m
}

#[test]
fn compaction_cuts_at_a_turn_boundary_not_inside_a_turn() {
    let mut messages = mid_turn_transcript();
    compacted(&mut messages, Some(4), None, "S").unwrap();
    let first_kept = &messages[2];
    assert_eq!(
        extract_text(&first_kept.content),
        "B",
        "kept window opens on the human turn"
    );
    assert!(!first_kept.injected);
}

#[test]
fn a_mid_turn_cut_stands_when_the_turn_does_not_fit() {
    let mut messages = mid_turn_transcript();
    messages[2] = Message::user("x".repeat(4_000 * CHARS_PER_TOKEN_ESTIMATE));
    compacted(&mut messages, Some(4), Some(1_000), "S").unwrap();
    assert_eq!(
        extract_text(&messages[2].content),
        "step0",
        "boundary unchanged"
    );
}

#[test]
fn compact_succeeds_at_exactly_two_to_compact() {
    let mut messages: Vec<Message> = (0..8).map(|i| Message::user(format!("m{i}"))).collect();
    compacted(&mut messages, Some(6), None, "S").unwrap();
    assert_eq!(messages.len(), 8);
}

#[test]
fn each_refusal_of_a_compaction_has_its_reason() {
    let mut few: Vec<Message> = (0..3).map(|i| Message::user(format!("m{i}"))).collect();
    assert_eq!(
        compacted(&mut few, Some(6), None, "S"),
        Err(CompactError::TooFewMessages)
    );
    let mut done: Vec<Message> = (0..10).map(|i| Message::user(format!("m{i}"))).collect();
    compacted(&mut done, Some(6), None, "S").unwrap();
    assert_eq!(
        compacted(&mut done, Some(6), None, "S"),
        Err(CompactError::NothingNew)
    );
    let mut msgs: Vec<Message> = (0..10).map(|i| Message::user(format!("m{i}"))).collect();
    assert_eq!(
        compacted(&mut msgs, Some(6), None, ""),
        Err(CompactError::EmptySummary)
    );
}

#[test]
fn a_long_summary_is_refused() {
    let build = || -> Vec<Message> {
        (0..10)
            .map(|i| Message::user(format!("m{i} {}", "x".repeat(400))))
            .collect()
    };
    let mut messages = build();
    let r = compacted(&mut messages, Some(6), None, &"y".repeat(20_000));
    assert!(matches!(r, Err(CompactError::NotSmaller { .. })));
    assert_eq!(messages, build());
}

fn edit(id: &str, path: &str) -> Message {
    Message::assistant_with_tools(vec![ToolCall {
        id: id.into(),
        name: "edit".into(),
        arguments: Json::parse(&format!("{{\"path\":\"{path}\"}}")).unwrap(),
    }])
}

#[test]
fn a_request_lists_the_files_once() {
    let messages = vec![
        edit("e1", "/p"),
        Message::tool_result("e1", "X".repeat(400), false),
        edit("e2", "/p"),
        Message::user("f3".into()),
        Message::user("f4".into()),
        Message::user("f5".into()),
    ];
    let plan = plan_compaction(&messages, Some(2), None, None).unwrap();
    let mut files: Vec<String> = Vec::new();
    record_touched(&mut files, &vec!["/p".to_string(), "/p".to_string()]);
    let request = summary_request(&messages, plan, false, &None, &files);
    assert_eq!(request.len(), 2);
    assert_eq!(request[0].role, Role::System);
    let text = extract_text(&request[1].content);
    assert!(text.contains("Files modified"), "should list mutated files");
    assert_eq!(text.matches("- /p").count(), 1, "the path is listed once");
    assert!(text.contains('…'), "long tool result should be truncated");
    assert!(
        !text.contains(&"X".repeat(400)),
        "full long result must not be inlined"
    );
}

#[test]
fn a_result_of_three_hundred_chars_is_whole() {
    let messages = vec![
        Message::tool_result("e1", "X".repeat(300), false),
        Message::user("a".into()),
        Message::user("b".into()),
        Message::user("c".into()),
    ];
    let plan = plan_compaction(&messages, Some(2), None, None).unwrap();
    let text = conversation(&messages, plan);
    assert!(text.contains(&"X".repeat(300)));
    assert!(!text.contains('…'));
}

#[test]
fn recorded_files_stay_in_order() {
    let mut files: Vec<String> = Vec::new();
    record_touched(&mut files, &vec!["/a".to_string()]);
    record_touched(&mut files, &vec!["/b".to_string(), "/a".to_string()]);
    assert_eq!(files, vec!["/a".to_string(), "/b".to_string()]);
}

#[test]
fn a_verbatim_request_sends_the_region_as_it_is() {
    let messages: Vec<Message> = (0..6).map(|i| Message::user(format!("m{i}"))).collect();
    let plan = plan_compaction(&messages, Some(2), None, None).unwrap();
    let request = summary_request(&messages, plan, true, &Some("SYS".to_string()), &vec![]);
    assert_eq!(extract_text(&request[0].content), "SYS");
    assert_eq!(extract_text(&request[1].content), "m0");
    assert_eq!(request.len(), 2 + 4);
    assert!(extract_text(&request[5].content).contains("Do not call any tool"));
}

#[test]
fn a_second_plan_begins_behind_the_summary() {
    let mut messages: Vec<Message> = (0..10).map(|i| Message::user(format!("m{i}"))).collect();
    compacted(&mut messages, Some(6), None, "FIRST").unwrap();
    messages.extend((10..16).map(|i| Message::user(format!("m{i}"))));
    let plan = plan_compaction(&messages, Some(6), None, None).unwrap();
    assert!(plan.prior_summary);
    assert_eq!(plan.start, 2);
    let text = conversation(&messages, plan);
    assert!(text.contains("FIRST"));
    assert!(text.contains("--- New messages since last summary ---"));
}

#[test]
fn a_plain_first_message_is_part_of_the_region() {
    let messages: Vec<Message> = (0..10).map(|i| Message::user(format!("m{i}"))).collect();
    let plan = plan_compaction(&messages, Some(6), None, None).unwrap();
    assert!(!plan.prior_summary);
    assert_eq!((plan.start, plan.end), (0, 4));
}

#[test]
fn a_result_that_would_not_shrink_stays() {
    // one line that names its spill file: the marker would be longer
    let line = format!("full output: {}", "y".repeat(1987));
    assert_eq!(line.len(), 2_000);
    let mut msgs = vec![
        Message::tool_result("t1", line.clone(), false),
        Message::user("next".into()),
    ];
    assert_eq!(prune_tool_results(&mut msgs), 0);
    assert_eq!(content_of(&msgs[0]), line);
}
