//! The conversation: messages and their blocks, tool calls, and the events that
//! a run reports.
use vstd::prelude::*;
use crate::json::{Json, JsonV};
use crate::text::put;

verus! {

/// Who speaks in a message.
#[derive(Clone, Copy, Debug, PartialEq, Eq, Structural)]
pub enum Role {
    System,
    User,
    Assistant,
    Tool,
}

/// One block of a message.
#[derive(Debug, PartialEq)]
pub enum ContentBlock {
    Text { text: String },
    Thinking { thinking: String },
    ToolUse { id: String, name: String, input: Json },
    ToolResult { tool_use_id: String, content: String, is_error: bool },
    Image { media_type: String, data: String },
}

/// What a [`ContentBlock`] stands for.
pub enum BlockV {
    Text { text: Seq<char> },
    Thinking { thinking: Seq<char> },
    ToolUse { id: Seq<char>, name: Seq<char>, input: JsonV },
    ToolResult { tool_use_id: Seq<char>, content: Seq<char>, is_error: bool },
    Image { media_type: Seq<char>, data: Seq<char> },
}

impl View for ContentBlock {
    type V = BlockV;

    open spec fn view(&self) -> BlockV {
        match self {
            ContentBlock::Text { text } => BlockV::Text { text: text@ },
            ContentBlock::Thinking { thinking } => BlockV::Thinking { thinking: thinking@ },
            ContentBlock::ToolUse { id, name, input } => BlockV::ToolUse {
                id: id@,
                name: name@,
                input: input@,
            },
            ContentBlock::ToolResult { tool_use_id, content, is_error } => BlockV::ToolResult {
                tool_use_id: tool_use_id@,
                content: content@,
                is_error: *is_error,
            },
            ContentBlock::Image { media_type, data } => BlockV::Image {
                media_type: media_type@,
                data: data@,
            },
        }
    }
}

impl Clone for ContentBlock {
    fn clone(&self) -> (r: ContentBlock)
        ensures
            r@ == self@,
    {
        match self {
            ContentBlock::Text { text } => ContentBlock::Text { text: text.clone() },
            ContentBlock::Thinking { thinking } => ContentBlock::Thinking {
                thinking: thinking.clone(),
            },
            ContentBlock::ToolUse { id, name, input } => ContentBlock::ToolUse {
                id: id.clone(),
                name: name.clone(),
                input: input.clone(),
            },
            ContentBlock::ToolResult { tool_use_id, content, is_error } => ContentBlock::ToolResult {
                tool_use_id: tool_use_id.clone(),
                content: content.clone(),
                is_error: *is_error,
            },
            ContentBlock::Image { media_type, data } => ContentBlock::Image {
                media_type: media_type.clone(),
                data: data.clone(),
            },
        }
    }
}

/// What a list of blocks stands for.
pub open spec fn blocks(s: Seq<ContentBlock>) -> Seq<BlockV> {
    s.map_values(|b: ContentBlock| b@)
}

/// Copies a list of blocks.
pub fn copy_blocks(v: &Vec<ContentBlock>) -> (r: Vec<ContentBlock>)
    ensures
        blocks(r@) == blocks(v@),
{
    let mut out: Vec<ContentBlock> = Vec::new();
    let mut i: usize = 0;
    while i < v.len()
        invariant
            i <= v@.len(),
            out@.len() == i,
            forall|k: int| 0 <= k < i ==> (#[trigger] out@[k])@ == v@[k]@,
        decreases v@.len() - i,
    {
        out.push(v[i].clone());
        i += 1;
    }
    assert(blocks(out@) =~= blocks(v@));
    out
}

/// One message of the transcript. `injected` marks what the machine said in the
/// role of the user: feedback of a check, a reminder, a summary.
#[derive(Debug, PartialEq)]
pub struct Message {
    pub role: Role,
    pub content: Vec<ContentBlock>,
    pub injected: bool,
}

/// What a [`Message`] stands for.
pub struct MessageV {
    pub role: Role,
    pub content: Seq<BlockV>,
    pub injected: bool,
}

impl View for Message {
    type V = MessageV;

    open spec fn view(&self) -> MessageV {
        MessageV { role: self.role, content: blocks(self.content@), injected: self.injected }
    }
}

impl Clone for Message {
    fn clone(&self) -> (r: Message)
        ensures
            r@ == self@,
    {
        Message { role: self.role, content: copy_blocks(&self.content), injected: self.injected }
    }
}

/// What a transcript stands for.
pub open spec fn transcript(s: Seq<Message>) -> Seq<MessageV> {
    s.map_values(|m: Message| m@)
}

/// A message of one text block.
pub open spec fn text_message(role: Role, text: Seq<char>, injected: bool) -> MessageV {
    MessageV { role, content: seq![BlockV::Text { text }], injected }
}

/// A message that carries one tool result.
pub open spec fn result_message(id: Seq<char>, content: Seq<char>, is_error: bool) -> MessageV {
    MessageV {
        role: Role::Tool,
        content: seq![BlockV::ToolResult { tool_use_id: id, content, is_error }],
        injected: false,
    }
}

fn one_text(role: Role, text: String, injected: bool) -> (m: Message)
    ensures
        m@ == text_message(role, text@, injected),
{
    let ghost t = text@;
    let mut content: Vec<ContentBlock> = Vec::new();
    content.push(ContentBlock::Text { text });
    assert(blocks(content@) =~= seq![BlockV::Text { text: t }]);
    Message { role, content, injected }
}

impl Message {
    /// What the user said.
    pub fn user(text: String) -> (m: Message)
        ensures
            m@ == text_message(Role::User, text@, false),
    {
        one_text(Role::User, text, false)
    }

    /// What the model said.
    pub fn assistant(text: String) -> (m: Message)
        ensures
            m@ == text_message(Role::Assistant, text@, false),
    {
        one_text(Role::Assistant, text, false)
    }

    /// A system prompt.
    pub fn system(text: String) -> (m: Message)
        ensures
            m@ == text_message(Role::System, text@, false),
    {
        one_text(Role::System, text, false)
    }

    /// What the machine says in the role of the user.
    pub fn injected(text: String) -> (m: Message)
        ensures
            m@ == text_message(Role::User, text@, true),
    {
        one_text(Role::User, text, true)
    }

    /// The result of the tool call `id`.
    pub fn tool_result(id: &str, content: String, is_error: bool) -> (m: Message)
        ensures
            m@ == result_message(id@, content@, is_error),
    {
        let ghost c = content@;
        let mut list: Vec<ContentBlock> = Vec::new();
        list.push(ContentBlock::ToolResult { tool_use_id: id.to_owned(), content, is_error });
        assert(blocks(list@) =~= seq![
            BlockV::ToolResult { tool_use_id: id@, content: c, is_error },
        ]);
        Message { role: Role::Tool, content: list, injected: false }
    }

    /// A message of the model that is nothing but tool calls.
    pub fn assistant_with_tools(calls: Vec<ToolCall>) -> (m: Message)
        ensures
            m@ == (MessageV {
                role: Role::Assistant,
                content: tool_calls(calls@).map_values(|c: ToolCallV| call_block(c)),
                injected: false,
            }),
    {
        let mut list: Vec<ContentBlock> = Vec::new();
        let mut i: usize = 0;
        while i < calls.len()
            invariant
                i <= calls@.len(),
                list@.len() == i,
                forall|k: int| 0 <= k < i ==> (#[trigger] list@[k])@ == call_block(calls@[k]@),
            decreases calls@.len() - i,
        {
            list.push(
                ContentBlock::ToolUse {
                    id: calls[i].id.clone(),
                    name: calls[i].name.clone(),
                    input: calls[i].arguments.clone(),
                },
            );
            i += 1;
        }
        assert(blocks(list@) =~= tool_calls(calls@).map_values(|c: ToolCallV| call_block(c)));
        Message { role: Role::Assistant, content: list, injected: false }
    }

    /// Whether a human turn begins here: the user speaks, not the machine in
    /// the user's name, and what is said is no tool result.
    pub fn is_turn_start(&self) -> (b: bool)
        ensures
            b == turn_start(self@),
    {
        let user = match self.role {
            Role::User => true,
            _ => false,
        };
        user && !self.injected && !self.opens_on_result()
    }

    /// Whether the first block is a tool result.
    pub fn opens_on_result(&self) -> (b: bool)
        ensures
            b == opens_on_result(self@),
    {
        if self.content.len() == 0 {
            return false;
        }
        assert(blocks(self.content@)[0] == self.content@[0]@);
        match &self.content[0] {
            ContentBlock::ToolResult { .. } => true,
            _ => false,
        }
    }
}

/// The first block of the message is a tool result.
pub open spec fn opens_on_result(m: MessageV) -> bool {
    m.content.len() > 0 && m.content[0] is ToolResult
}

/// A human turn begins with the message.
pub open spec fn turn_start(m: MessageV) -> bool {
    m.role == Role::User && !m.injected && !opens_on_result(m)
}

/// The texts of the text blocks, one after the other.
pub open spec fn text_of_blocks(s: Seq<BlockV>) -> Seq<char>
    decreases s.len(),
{
    if s.len() == 0 {
        Seq::empty()
    } else {
        text_of_blocks(s.drop_last()) + (match s.last() {
            BlockV::Text { text } => text,
            _ => Seq::empty(),
        })
    }
}

/// The text of a message: its text blocks, one after the other.
pub fn extract_text(content: &Vec<ContentBlock>) -> (r: String)
    ensures
        r@ == text_of_blocks(blocks(content@)),
{
    let ghost bs = blocks(content@);
    let mut out = String::new();
    let mut i: usize = 0;
    assert(bs.take(0) =~= Seq::empty());
    while i < content.len()
        invariant
            i <= content@.len(),
            bs == blocks(content@),
            out@ == text_of_blocks(bs.take(i as int)),
        decreases content@.len() - i,
    {
        assert(bs.take(i + 1).drop_last() =~= bs.take(i as int));
        assert(bs[i as int] == content@[i as int]@);
        if let ContentBlock::Text { text } = &content[i] {
            put(&mut out, text.as_str());
        } else {
            assert(out@ + Seq::<char>::empty() =~= out@);
        }
        i += 1;
    }
    assert(bs.take(i as int) =~= bs);
    out
}

/// A call of a tool, as the model wrote it.
#[derive(Debug, PartialEq)]
pub struct ToolCall {
    pub id: String,
    pub name: String,
    pub arguments: Json,
}

/// What a [`ToolCall`] stands for.
pub struct ToolCallV {
    pub id: Seq<char>,
    pub name: Seq<char>,
    pub arguments: JsonV,
}

impl View for ToolCall {
    type V = ToolCallV;

    open spec fn view(&self) -> ToolCallV {
        ToolCallV { id: self.id@, name: self.name@, arguments: self.arguments@ }
    }
}

impl Clone for ToolCall {
    fn clone(&self) -> (r: ToolCall)
        ensures
            r@ == self@,
    {
        ToolCall {
            id: self.id.clone(),
            name: self.name.clone(),
            arguments: self.arguments.clone(),
        }
    }
}

/// What a list of calls stands for.
pub open spec fn tool_calls(s: Seq<ToolCall>) -> Seq<ToolCallV> {
    s.map_values(|c: ToolCall| c@)
}

/// The block that a call stands as in the transcript.
pub open spec fn call_block(c: ToolCallV) -> BlockV {
    BlockV::ToolUse { id: c.id, name: c.name, input: c.arguments }
}

/// Where a run stands: about to ask the model, about to run its tool calls, or
/// done.
#[derive(Debug, PartialEq)]
pub enum AgentState {
    Idle,
    ToolCalling(Vec<ToolCall>),
    Done,
}

/// What an [`AgentState`] stands for.
pub enum AgentStateV {
    Idle,
    ToolCalling(Seq<ToolCallV>),
    Done,
}

impl View for AgentState {
    type V = AgentStateV;

    open spec fn view(&self) -> AgentStateV {
        match self {
            AgentState::Idle => AgentStateV::Idle,
            AgentState::ToolCalling(calls) => AgentStateV::ToolCalling(tool_calls(calls@)),
            AgentState::Done => AgentStateV::Done,
        }
    }
}

/// Tokens that the provider counted for a turn; zero where it reported none.
#[derive(Clone, Copy, Debug, PartialEq, Eq, Structural)]
pub struct TokenUsage {
    pub input: u32,
    pub output: u32,
}

impl TokenUsage {
    /// No usage reported.
    pub fn none() -> (u: TokenUsage)
        ensures
            u == (TokenUsage { input: 0, output: 0 }),
    {
        TokenUsage { input: 0, output: 0 }
    }

    /// Input and output together.
    pub fn total(&self) -> (n: u64)
        ensures
            n == self.input + self.output,
    {
        self.input as u64 + self.output as u64
    }
}

/// How much a notice matters.
#[derive(Clone, Copy, Debug, PartialEq, Eq, Structural)]
pub enum NoticeLevel {
    Info,
}

/// What a run reports while it goes on.
#[derive(Debug, PartialEq)]
pub enum AgentEvent {
    TurnStart,
    TurnEnd,
    TextChunk(String),
    ThinkingStart,
    ThinkingChunk(String),
    ToolCallStart { id: String, name: String, input: Json },
    ToolCallEnd { id: String, name: String, result: String, is_error: bool },
    ContextUsage { used_tokens: u32, context_window: u32, cached_tokens: u32, output_tokens: u32 },
    SpendUsage { spent: u64, cap: u64 },
    Compacted { messages: Vec<Message> },
    WorkspaceSnapshot { id: String, label: String },
    Notice { text: String, level: NoticeLevel },
    Error(String),
    Cancelled,
}

/// What an [`AgentEvent`] stands for.
pub enum EventV {
    TurnStart,
    TurnEnd,
    TextChunk(Seq<char>),
    ThinkingStart,
    ThinkingChunk(Seq<char>),
    ToolCallStart { id: Seq<char>, name: Seq<char>, input: JsonV },
    ToolCallEnd { id: Seq<char>, name: Seq<char>, result: Seq<char>, is_error: bool },
    ContextUsage { used_tokens: u32, context_window: u32, cached_tokens: u32, output_tokens: u32 },
    SpendUsage { spent: u64, cap: u64 },
    Compacted { messages: Seq<MessageV> },
    WorkspaceSnapshot { id: Seq<char>, label: Seq<char> },
    Notice { text: Seq<char>, level: NoticeLevel },
    Error(Seq<char>),
    Cancelled,
}

impl View for AgentEvent {
    type V = EventV;

    open spec fn view(&self) -> EventV {
        match self {
            AgentEvent::TurnStart => EventV::TurnStart,
            AgentEvent::TurnEnd => EventV::TurnEnd,
            AgentEvent::TextChunk(t) => EventV::TextChunk(t@),
            AgentEvent::ThinkingStart => EventV::ThinkingStart,
            AgentEvent::ThinkingChunk(t) => EventV::ThinkingChunk(t@),
            AgentEvent::ToolCallStart { id, name, input } => EventV::ToolCallStart {
                id: id@,
                name: name@,
                input: input@,
            },
            AgentEvent::ToolCallEnd { id, name, result, is_error } => EventV::ToolCallEnd {
                id: id@,
                name: name@,
                result: result@,
                is_error: *is_error,
            },
            AgentEvent::ContextUsage {
                used_tokens,
                context_window,
                cached_tokens,
                output_tokens,
            } => EventV::ContextUsage {
                used_tokens: *used_tokens,
                context_window: *context_window,
                cached_tokens: *cached_tokens,
                output_tokens: *output_tokens,
            },
            AgentEvent::SpendUsage { spent, cap } => EventV::SpendUsage { spent: *spent, cap: *cap },
            AgentEvent::Compacted { messages } => EventV::Compacted {
                messages: transcript(messages@),
            },
            AgentEvent::WorkspaceSnapshot { id, label } => EventV::WorkspaceSnapshot {
                id: id@,
                label: label@,
            },
            AgentEvent::Notice { text, level } => EventV::Notice { text: text@, level: *level },
            AgentEvent::Error(t) => EventV::Error(t@),
            AgentEvent::Cancelled => EventV::Cancelled,
        }
    }
}

/// What some events stand for.
pub open spec fn event_views(v: Seq<AgentEvent>) -> Seq<EventV> {
    v.map_values(|e: AgentEvent| e@)
}

/// How far a step of the model's own list has come.
#[derive(Clone, Copy, Debug, PartialEq, Eq, Structural)]
pub enum TodoStatus {
    Pending,
    InProgress,
    Completed,
}

/// One step of the model's own list.
#[derive(Debug, PartialEq)]
pub struct TodoItem {
    pub content: String,
    pub status: TodoStatus,
}

// ------------------------------------------------------------ laws

/// The text of a message is all of its text: that of two lists of blocks is the one
/// behind the other, a text block gives its whole text, and no other block gives any.
pub proof fn law_text_is_all_that_was_said(a: Seq<BlockV>, b: Seq<BlockV>, text: Seq<char>)
    ensures
        text_of_blocks(a + b) == text_of_blocks(a) + text_of_blocks(b),
        text_of_blocks(seq![BlockV::Text { text }]) == text,
        (forall|i: int| 0 <= i < a.len() ==> !((#[trigger] a[i]) is Text)) ==> text_of_blocks(
            a,
        ).len() == 0,
    decreases a.len() + b.len(),
{
    let one = seq![BlockV::Text { text }];
    assert(one.drop_last() =~= Seq::empty());
    assert(text_of_blocks(one.drop_last()) =~= Seq::empty());
    assert(text_of_blocks(one) =~= text);
    if b.len() > 0 {
        law_text_is_all_that_was_said(a, b.drop_last(), text);
        assert((a + b).drop_last() =~= a + b.drop_last());
        assert((a + b).last() == b.last());
        assert(text_of_blocks(a + b) =~= text_of_blocks(a) + text_of_blocks(b));
    } else {
        assert(a + b =~= a);
        assert(text_of_blocks(a + b) =~= text_of_blocks(a) + text_of_blocks(b));
        if a.len() > 0 && (forall|i: int| 0 <= i < a.len() ==> !((#[trigger] a[i]) is Text)) {
            let front = a.drop_last();
            assert forall|i: int| 0 <= i < front.len() implies !((#[trigger] front[i]) is Text) by {
                assert(front[i] == a[i]);
            }
            law_text_is_all_that_was_said(front, b, text);
            assert(!(a[a.len() - 1] is Text));
        }
    }
    if b.len() > 0 {
        law_text_is_all_that_was_said(a, Seq::empty(), text);
    }
}

/// Every text block stands in the text of its message, whole.
pub proof fn law_every_text_block_is_in_the_text(s: Seq<BlockV>, i: int)
    requires
        0 <= i < s.len(),
        s[i] is Text,
    ensures
        crate::text::holds(text_of_blocks(s), s[i]->text),
{
    let text = s[i]->text;
    let (front, one, back) = (s.take(i), seq![s[i]], s.skip(i + 1));
    assert(s =~= front + one + back);
    law_text_is_all_that_was_said(front + one, back, text);
    law_text_is_all_that_was_said(front, one, text);
    let all = text_of_blocks(s);
    let at = text_of_blocks(front).len() as int;
    assert(all.subrange(at, at + text.len()) =~= text);
    assert(crate::text::occurs_at(all, text, at));
}

/// A message stands for what was given: who speaks, what is said, and whether it was
/// the machine; a result stands under the id of its call.
pub proof fn law_messages_hold_what_was_given(
    role: Role,
    text: Seq<char>,
    injected: bool,
    id: Seq<char>,
    is_error: bool,
)
    ensures
        text_of_blocks(text_message(role, text, injected).content) == text,
        text_message(role, text, injected).role == role,
        text_message(role, text, injected).injected == injected,
        turn_start(text_message(role, text, injected)) <==> role == Role::User && !injected,
        result_message(id, text, is_error).role == Role::Tool,
        opens_on_result(result_message(id, text, is_error)),
        result_message(id, text, is_error).content.len() == 1,
        result_message(id, text, is_error).content[0]->tool_use_id == id,
        result_message(id, text, is_error).content[0]->ToolResult_content == text,
        result_message(id, text, is_error).content[0]->is_error == is_error,
{
    law_text_is_all_that_was_said(Seq::empty(), Seq::empty(), text);
}

} // verus!
