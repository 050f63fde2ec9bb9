//! The OpenAI-compatible API: the request that a transcript becomes, the stream
//! of a reply, and the client's own state.
use vstd::prelude::*;
use crate::agent::TurnResult;
use crate::ai::assembly::{
    assemble, call_with, finished_turn, get_call, in_order, law_other_calls_stay,
    law_put_call_is_found, partials, put_call, text_turn, turn_of_text, with_call, PartialCall,
    PartialV, TurnV,
};
use crate::ai::{
    asked_window, env_context_window, is_glm, is_retryable_status, low32, redact_secrets, redacted,
    retryable_status, secrets_in, served_as_glm, setting_view, to_u32, tool_specs, ToolSpec,
    ToolSpecV,
};
use crate::checks::text_view;
use crate::json::{
    field, inside, items_field, json_refusal, json_u64, json_views, number_in, parsed_json,
    text_field, whole_field, why_not_json, written, Json, JsonV,
};
use crate::text::{
    law_parting_cuts_at_the_first,
    begins, cat2, cat3, cat4, decimal, ends, holds, is_space, lemma_found, number, occurs_at,
    parted, put, same, split_once, strip_prefix, stripped, text_of, to_chars, trim, trim_start,
    trim_trailing, trimmed, without_trailing,
};
use crate::types::{
    blocks, event_views, extract_text, law_every_text_block_is_in_the_text, text_of_blocks, transcript, AgentEvent, BlockV, ContentBlock,
    EventV, Message, MessageV, Role, TokenUsage,
};

verus! {

// ------------------------------------------------------------ reasoning effort

/// How hard the model is asked to reason.
#[derive(Clone, Copy, Debug, PartialEq, Eq, Structural)]
pub enum ReasoningEffort {
    Minimal,
    Low,
    Medium,
    Xhigh,
}

/// The effort that a thinking budget stands for.
pub open spec fn effort_of(budget: Option<u32>) -> ReasoningEffort {
    match budget {
        None => ReasoningEffort::Minimal,
        Some(b) => if b <= 8000 {
            ReasoningEffort::Low
        } else if b <= 16000 {
            ReasoningEffort::Medium
        } else {
            ReasoningEffort::Xhigh
        },
    }
}

/// The effort to send, if any: only endpoints of GLM models get one. There "off"
/// has to be sent too, for without the field they reason hard; elsewhere the
/// field may be refused.
pub fn glm_reasoning_effort(base_url: &str, model: &str, budget: Option<u32>) -> (r: Option<
    ReasoningEffort,
>)
    ensures
        r == (if served_as_glm(base_url@, model@) {
            Some(effort_of(budget))
        } else {
            None
        }),
{
    if !is_glm(base_url, model) {
        return None;
    }
    Some(
        match budget {
            None => ReasoningEffort::Minimal,
            Some(b) => if b <= 8000 {
                ReasoningEffort::Low
            } else if b <= 16000 {
                ReasoningEffort::Medium
            } else {
                ReasoningEffort::Xhigh
            },
        },
    )
}

// ------------------------------------------------------------ messages

/// How closely an image is looked at.
#[derive(Clone, Copy, Debug, PartialEq, Eq, Structural)]
pub enum ImageDetail {
    Auto,
}

/// A part of what the user says.
#[derive(Debug, PartialEq)]
pub enum OaiPart {
    Text(String),
    /// An image, as a data address.
    ImageUrl { url: String, detail: ImageDetail },
}

/// What an [`OaiPart`] stands for.
pub enum OaiPartV {
    Text(Seq<char>),
    ImageUrl { url: Seq<char>, detail: ImageDetail },
}

impl View for OaiPart {
    type V = OaiPartV;

    open spec fn view(&self) -> OaiPartV {
        match self {
            OaiPart::Text(t) => OaiPartV::Text(t@),
            OaiPart::ImageUrl { url, detail } => OaiPartV::ImageUrl { url: url@, detail: *detail },
        }
    }
}

/// What some parts stand for.
pub open spec fn part_views(v: Seq<OaiPart>) -> Seq<OaiPartV> {
    v.map_values(|p: OaiPart| p@)
}

/// What the user says.
#[derive(Debug, PartialEq)]
pub enum OaiContent {
    Text(String),
    Array(Vec<OaiPart>),
}

/// What an [`OaiContent`] stands for.
pub enum OaiContentV {
    Text(Seq<char>),
    Array(Seq<OaiPartV>),
}

impl View for OaiContent {
    type V = OaiContentV;

    open spec fn view(&self) -> OaiContentV {
        match self {
            OaiContent::Text(t) => OaiContentV::Text(t@),
            OaiContent::Array(parts) => OaiContentV::Array(part_views(parts@)),
        }
    }
}

/// A call of a function; the arguments are JSON text.
#[derive(Debug, PartialEq)]
pub struct OaiCall {
    pub id: String,
    pub name: String,
    pub arguments: String,
}

/// What an [`OaiCall`] stands for.
pub struct OaiCallV {
    pub id: Seq<char>,
    pub name: Seq<char>,
    pub arguments: Seq<char>,
}

impl View for OaiCall {
    type V = OaiCallV;

    open spec fn view(&self) -> OaiCallV {
        OaiCallV { id: self.id@, name: self.name@, arguments: self.arguments@ }
    }
}

/// What some calls stand for.
pub open spec fn call_views(v: Seq<OaiCall>) -> Seq<OaiCallV> {
    v.map_values(|c: OaiCall| c@)
}

/// A message of the request.
#[derive(Debug, PartialEq)]
#[allow(inconsistent_fields)]
pub enum OaiMessage {
    System { content: String },
    User { content: OaiContent },
    /// `tool_calls` is left out of the request where it is empty.
    Assistant { content: Option<String>, tool_calls: Vec<OaiCall> },
    Tool { content: String, tool_call_id: String },
}

/// What an [`OaiMessage`] stands for.
#[allow(inconsistent_fields)]
pub enum OaiMessageV {
    System { content: Seq<char> },
    User { content: OaiContentV },
    Assistant { content: Option<Seq<char>>, tool_calls: Seq<OaiCallV> },
    Tool { content: Seq<char>, tool_call_id: Seq<char> },
}

impl View for OaiMessage {
    type V = OaiMessageV;

    open spec fn view(&self) -> OaiMessageV {
        match self {
            OaiMessage::System { content } => OaiMessageV::System { content: content@ },
            OaiMessage::User { content } => OaiMessageV::User { content: content@ },
            OaiMessage::Assistant { content, tool_calls } => OaiMessageV::Assistant {
                content: text_view(*content),
                tool_calls: call_views(tool_calls@),
            },
            OaiMessage::Tool { content, tool_call_id } => OaiMessageV::Tool {
                content: content@,
                tool_call_id: tool_call_id@,
            },
        }
    }
}

/// What some messages stand for.
pub open spec fn message_views(v: Seq<OaiMessage>) -> Seq<OaiMessageV> {
    v.map_values(|m: OaiMessage| m@)
}

/// The part that a block of the user becomes: text, or an image as a data
/// address.
pub open spec fn oai_part(b: BlockV) -> Option<OaiPartV> {
    match b {
        BlockV::Text { text } => Some(OaiPartV::Text(text)),
        BlockV::Image { media_type, data } => Some(
            OaiPartV::ImageUrl {
                url: "data:"@ + media_type + ";base64,"@ + data,
                detail: ImageDetail::Auto,
            },
        ),
        _ => None,
    }
}

/// Computes [`oai_part`].
pub fn to_oai_content_part(block: &ContentBlock) -> (r: Option<OaiPart>)
    ensures
        match r {
            Some(p) => oai_part(block@) == Some(p@),
            None => oai_part(block@) is None,
        },
{
    match block {
        ContentBlock::Text { text } => Some(OaiPart::Text(text.clone())),
        ContentBlock::Image { media_type, data } => Some(
            OaiPart::ImageUrl {
                url: cat4("data:", media_type.as_str(), ";base64,", data.as_str()),
                detail: ImageDetail::Auto,
            },
        ),
        _ => None,
    }
}

/// The parts that the blocks of the user become, in their order.
pub open spec fn oai_parts(content: Seq<BlockV>) -> Seq<OaiPartV>
    decreases content.len(),
{
    if content.len() == 0 {
        Seq::empty()
    } else {
        let before = oai_parts(content.drop_last());
        match oai_part(content.last()) {
            Some(p) => before.push(p),
            None => before,
        }
    }
}

/// The calls among some blocks.
pub open spec fn oai_calls(content: Seq<BlockV>) -> Seq<OaiCallV>
    decreases content.len(),
{
    if content.len() == 0 {
        Seq::empty()
    } else {
        let before = oai_calls(content.drop_last());
        match content.last() {
            BlockV::ToolUse { id, name, input } => before.push(
                OaiCallV { id, name, arguments: written(input) },
            ),
            _ => before,
        }
    }
}

/// The first result among some blocks: the call and the content.
pub open spec fn first_result(content: Seq<BlockV>) -> Option<(Seq<char>, Seq<char>)>
    decreases content.len(),
{
    if content.len() == 0 {
        None
    } else {
        match first_result(content.drop_last()) {
            Some(r) => Some(r),
            None => match content.last() {
                BlockV::ToolResult { tool_use_id, content: c, is_error } => Some((tool_use_id, c)),
                _ => None,
            },
        }
    }
}

/// A block is an image.
pub open spec fn with_image(content: Seq<BlockV>) -> bool {
    exists|i: int| 0 <= i < content.len() && (#[trigger] content[i]) is Image
}

/// The message that one of the transcript becomes. What the user says stays a
/// plain text unless it holds an image; what the model says has no content where
/// it has no text. `None` for a message of a tool without a result.
pub open spec fn oai_message(m: MessageV) -> Option<OaiMessageV> {
    match m.role {
        Role::System => Some(OaiMessageV::System { content: text_of_blocks(m.content) }),
        Role::User => Some(
            OaiMessageV::User {
                content: if with_image(m.content) {
                    OaiContentV::Array(oai_parts(m.content))
                } else {
                    OaiContentV::Text(text_of_blocks(m.content))
                },
            },
        ),
        Role::Assistant => Some(
            OaiMessageV::Assistant {
                content: if text_of_blocks(m.content).len() == 0 {
                    None
                } else {
                    Some(text_of_blocks(m.content))
                },
                tool_calls: oai_calls(m.content),
            },
        ),
        Role::Tool => match first_result(m.content) {
            Some((id, content)) => Some(OaiMessageV::Tool { content, tool_call_id: id }),
            None => None,
        },
    }
}

fn has_image(content: &Vec<ContentBlock>) -> (b: bool)
    ensures
        b == with_image(blocks(content@)),
{
    let ghost bs = blocks(content@);
    let mut i: usize = 0;
    while i < content.len()
        invariant
            i <= content@.len(),
            bs == blocks(content@),
            forall|k: int| 0 <= k < i ==> !((#[trigger] bs[k]) is Image),
        decreases content@.len() - i,
    {
        assert(bs[i as int] == content@[i as int]@);
        if let ContentBlock::Image { .. } = &content[i] {
            return true;
        }
        i += 1;
    }
    false
}

fn parts_of_user(content: &Vec<ContentBlock>) -> (r: Vec<OaiPart>)
    ensures
        part_views(r@) == oai_parts(blocks(content@)),
{
    let ghost bs = blocks(content@);
    let mut out: Vec<OaiPart> = Vec::new();
    let mut i: usize = 0;
    assert(bs.take(0) =~= Seq::empty());
    assert(part_views(out@) =~= Seq::empty());
    while i < content.len()
        invariant
            i <= content@.len(),
            bs == blocks(content@),
            part_views(out@) == oai_parts(bs.take(i as int)),
        decreases content@.len() - i,
    {
        assert(bs.take(i + 1).drop_last() =~= bs.take(i as int));
        assert(bs.take(i + 1).last() == content@[i as int]@);
        let ghost before = part_views(out@);
        if let Some(p) = to_oai_content_part(&content[i]) {
            let ghost pv = p@;
            out.push(p);
            assert(part_views(out@) =~= before.push(pv));
        }
        i += 1;
    }
    assert(bs.take(i as int) =~= bs);
    out
}

fn calls_of(content: &Vec<ContentBlock>) -> (r: Vec<OaiCall>)
    ensures
        call_views(r@) == oai_calls(blocks(content@)),
{
    let ghost bs = blocks(content@);
    let mut out: Vec<OaiCall> = Vec::new();
    let mut i: usize = 0;
    assert(bs.take(0) =~= Seq::empty());
    assert(call_views(out@) =~= Seq::empty());
    while i < content.len()
        invariant
            i <= content@.len(),
            bs == blocks(content@),
            call_views(out@) == oai_calls(bs.take(i as int)),
        decreases content@.len() - i,
    {
        assert(bs.take(i + 1).drop_last() =~= bs.take(i as int));
        assert(bs.take(i + 1).last() == content@[i as int]@);
        let ghost before = call_views(out@);
        if let ContentBlock::ToolUse { id, name, input } = &content[i] {
            let c = OaiCall { id: id.clone(), name: name.clone(), arguments: input.render() };
            let ghost cv = c@;
            out.push(c);
            assert(call_views(out@) =~= before.push(cv));
        }
        i += 1;
    }
    assert(bs.take(i as int) =~= bs);
    out
}

fn result_of(content: &Vec<ContentBlock>) -> (r: Option<(String, String)>)
    ensures
        match r {
            Some((id, c)) => first_result(blocks(content@)) == Some((id@, c@)),
            None => first_result(blocks(content@)) is None,
        },
{
    let ghost bs = blocks(content@);
    let mut found: Option<(String, String)> = None;
    let mut i: usize = 0;
    assert(bs.take(0) =~= Seq::empty());
    while i < content.len()
        invariant
            i <= content@.len(),
            bs == blocks(content@),
            match found {
                Some((id, c)) => first_result(bs.take(i as int)) == Some((id@, c@)),
                None => first_result(bs.take(i as int)) is None,
            },
        decreases content@.len() - i,
    {
        assert(bs.take(i + 1).drop_last() =~= bs.take(i as int));
        assert(bs.take(i + 1).last() == content@[i as int]@);
        if found.is_none() {
            if let ContentBlock::ToolResult { tool_use_id, content: c, .. } = &content[i] {
                found = Some((tool_use_id.clone(), c.clone()));
            }
        }
        i += 1;
    }
    assert(bs.take(i as int) =~= bs);
    found
}

/// The error for a message of a tool that carries no result.
pub const NO_RESULT: &'static str = "Tool message has no ToolResult block";

/// The message that one of the transcript becomes; see [`oai_message`].
pub fn to_oai_message(msg: &Message) -> (r: Result<OaiMessage, String>)
    ensures
        match r {
            Ok(m) => oai_message(msg@) == Some(m@),
            Err(e) => oai_message(msg@) is None && e@ == NO_RESULT@,
        },
{
    match msg.role {
        Role::System => Ok(OaiMessage::System { content: extract_text(&msg.content) }),
        Role::User => {
            let content = if has_image(&msg.content) {
                OaiContent::Array(parts_of_user(&msg.content))
            } else {
                OaiContent::Text(extract_text(&msg.content))
            };
            Ok(OaiMessage::User { content })
        },
        Role::Assistant => {
            let text = extract_text(&msg.content);
            let content = if text.as_str().is_empty() {
                None
            } else {
                Some(text)
            };
            Ok(OaiMessage::Assistant { content, tool_calls: calls_of(&msg.content) })
        },
        Role::Tool => match result_of(&msg.content) {
            Some((id, content)) => Ok(OaiMessage::Tool { content, tool_call_id: id }),
            None => Err(NO_RESULT.to_owned()),
        },
    }
}

/// The messages that a transcript becomes; `None` where one of them cannot be
/// sent.
pub open spec fn oai_messages(msgs: Seq<MessageV>) -> Option<Seq<OaiMessageV>>
    decreases msgs.len(),
{
    if msgs.len() == 0 {
        Some(Seq::empty())
    } else {
        match (oai_messages(msgs.drop_last()), oai_message(msgs.last())) {
            (Some(before), Some(m)) => Some(before.push(m)),
            _ => None,
        }
    }
}

proof fn lemma_no_messages(msgs: Seq<MessageV>, n: int)
    requires
        0 <= n <= msgs.len(),
        oai_messages(msgs.take(n)) is None,
    ensures
        oai_messages(msgs) is None,
    decreases msgs.len() - n,
{
    if n < msgs.len() {
        assert(msgs.take(n + 1).drop_last() =~= msgs.take(n));
        lemma_no_messages(msgs, n + 1);
    } else {
        assert(msgs.take(n) =~= msgs);
    }
}

/// The messages that a transcript becomes; see [`oai_messages`].
pub fn to_oai_messages(messages: &Vec<Message>) -> (r: Result<Vec<OaiMessage>, String>)
    ensures
        match r {
            Ok(v) => oai_messages(transcript(messages@)) == Some(message_views(v@)),
            Err(e) => oai_messages(transcript(messages@)) is None && e@ == NO_RESULT@,
        },
{
    let ghost ms = transcript(messages@);
    let mut out: Vec<OaiMessage> = Vec::new();
    let mut i: usize = 0;
    assert(ms.take(0) =~= Seq::empty());
    assert(message_views(out@) =~= Seq::empty());
    while i < messages.len()
        invariant
            i <= messages@.len(),
            ms == transcript(messages@),
            oai_messages(ms.take(i as int)) == Some(message_views(out@)),
        decreases messages@.len() - i,
    {
        assert(ms.take(i + 1).drop_last() =~= ms.take(i as int));
        assert(ms.take(i + 1).last() == messages@[i as int]@);
        let ghost before = message_views(out@);
        match to_oai_message(&messages[i]) {
            Ok(m) => {
                let ghost mv = m@;
                out.push(m);
                assert(message_views(out@) =~= before.push(mv));
            },
            Err(e) => {
                proof {
                    lemma_no_messages(ms, i + 1);
                }
                return Err(e);
            },
        }
        i += 1;
    }
    assert(ms.take(i as int) =~= ms);
    Ok(out)
}

// ------------------------------------------------------------ tools

/// A function that the model may call.
#[derive(Debug)]
pub struct FunctionTool {
    pub name: String,
    pub description: Option<String>,
    pub parameters: Option<Json>,
}

/// The function stands for the tool.
pub open spec fn describes_tool(f: FunctionTool, t: ToolSpecV) -> bool {
    f.name@ == t.name && text_view(f.description) == Some(t.description) && f.parameters is Some
        && f.parameters->0@ == t.schema
}

/// One function for each tool, in their order.
pub fn build_tools(tools: &Vec<ToolSpec>) -> (r: Vec<FunctionTool>)
    ensures
        r@.len() == tools@.len(),
        forall|i: int|
            0 <= i < r@.len() ==> describes_tool(#[trigger] r@[i], tool_specs(tools@)[i]),
{
    let ghost ts = tool_specs(tools@);
    let mut out: Vec<FunctionTool> = Vec::new();
    let mut i: usize = 0;
    while i < tools.len()
        invariant
            i <= tools@.len(),
            ts == tool_specs(tools@),
            out@.len() == i,
            forall|k: int| 0 <= k < i ==> describes_tool(#[trigger] out@[k], ts[k]),
        decreases tools@.len() - i,
    {
        assert(ts[i as int] == tools@[i as int]@);
        out.push(
            FunctionTool {
                name: tools[i].name.clone(),
                description: Some(tools[i].description.clone()),
                parameters: Some(tools[i].schema.clone()),
            },
        );
        i += 1;
    }
    out
}

// ------------------------------------------------------------ failures

/// A failure of a request or of its stream.
#[derive(Debug)]
pub enum ApiFailure {
    /// No reply came.
    Network { connect: bool, timeout: bool, message: String },
    /// The reply has a status that is no success. The line is the status as it is
    /// written, with its reason.
    Status { status: u16, line: String, message: String },
    /// A line of the stream is no JSON text.
    Malformed { error: String, content: String },
    /// The stream itself reports an error.
    Stream { message: String },
}

/// What an [`ApiFailure`] stands for.
pub enum FailureV {
    Network { connect: bool, timeout: bool, message: Seq<char> },
    Status { status: u16, line: Seq<char>, message: Seq<char> },
    Malformed { error: Seq<char>, content: Seq<char> },
    Stream { message: Seq<char> },
}

impl View for ApiFailure {
    type V = FailureV;

    open spec fn view(&self) -> FailureV {
        match self {
            ApiFailure::Network { connect, timeout, message } => FailureV::Network {
                connect: *connect,
                timeout: *timeout,
                message: message@,
            },
            ApiFailure::Status { status, line, message } => FailureV::Status {
                status: *status,
                line: line@,
                message: message@,
            },
            ApiFailure::Malformed { error, content } => FailureV::Malformed {
                error: error@,
                content: content@,
            },
            ApiFailure::Stream { message } => FailureV::Stream { message: message@ },
        }
    }
}

/// The failure is worth another attempt: no connection, no reply in time, too
/// many requests, or a failure of the server.
pub open spec fn retryable(f: FailureV) -> bool {
    match f {
        FailureV::Network { connect, timeout, message } => connect || timeout,
        FailureV::Status { status, line, message } => retryable_status(status),
        _ => false,
    }
}

/// Decides [`retryable`].
pub fn is_retryable(e: &ApiFailure) -> (b: bool)
    ensures
        b == retryable(e@),
{
    match e {
        ApiFailure::Network { connect, timeout, .. } => *connect || *timeout,
        ApiFailure::Status { status, .. } => is_retryable_status(*status),
        _ => false,
    }
}

/// What a failure says.
pub open spec fn failure_text(f: FailureV) -> Seq<char> {
    match f {
        FailureV::Network { connect, timeout, message } => "http error: "@ + message,
        FailureV::Status { status, line, message } => line + " "@ + message,
        FailureV::Malformed { error, content } => "failed to deserialize api response: error:"@
            + error + " content:"@ + content,
        FailureV::Stream { message } => "stream failed: EventStream error: "@ + message,
    }
}

impl ApiFailure {
    /// What the failure says.
    pub fn message(&self) -> (r: String)
        ensures
            r@ == failure_text(self@),
    {
        match self {
            ApiFailure::Network { message, .. } => cat2("http error: ", message.as_str()),
            ApiFailure::Status { line, message, .. } => cat3(line.as_str(), " ", message.as_str()),
            ApiFailure::Malformed { error, content } => cat4(
                "failed to deserialize api response: error:",
                error.as_str(),
                " content:",
                content.as_str(),
            ),
            ApiFailure::Stream { message } => cat2(
                "stream failed: EventStream error: ",
                message.as_str(),
            ),
        }
    }
}

/// The error that `async_openai` reads from the body of a reply, as it writes
/// it; `None` where the body is not the provider's form of an error.
pub uninterp spec fn api_error_text(body: Seq<char>) -> Option<Seq<char>>;

/// Calls `serde_json::from_str` for `async_openai::error::WrappedError`, and
/// `Display` of the `ApiError` in it. The result depends on the body alone.
#[verifier::external_body]
fn read_api_error(body: &str) -> (r: Option<String>)
    ensures
        text_view(r) == api_error_text(body@),
{
    serde_json::from_str::<async_openai::error::WrappedError>(body).ok().map(|w| w.error.to_string())
}

/// The failure that a reply without success means. A body in another form than
/// the provider's is taken as it is, without the secrets.
pub open spec fn refused(
    status: u16,
    line: Seq<char>,
    body: Seq<char>,
    error: Option<Seq<char>>,
    secrets: Seq<Seq<char>>,
) -> FailureV {
    FailureV::Status {
        status,
        line,
        message: match error {
            Some(t) => t,
            None => redacted(body, secrets),
        },
    }
}

/// Computes [`refused`]; the secrets are taken from the settings.
pub fn refusal(
    status: u16,
    line: &str,
    body: &str,
    error: Option<String>,
    settings: &Vec<Option<String>>,
) -> (r: ApiFailure)
    ensures
        r@ == refused(status, line@, body@, text_view(error), secrets_in(settings@)),
{
    let message = match error {
        Some(t) => t,
        None => redact_secrets(body, settings),
    };
    ApiFailure::Status { status, line: line.to_owned(), message }
}

/// Reads the failure from a reply without success.
pub fn read_refusal(
    status: u16,
    line: &str,
    body: &str,
    settings: &Vec<Option<String>>,
) -> (r: ApiFailure)
    ensures
        r@ == refused(status, line@, body@, api_error_text(body@), secrets_in(settings@)),
{
    refusal(status, line, body, read_api_error(body), settings)
}

/// The failure of a stream that fell silent: it counts as a timeout of the
/// provider.
pub open spec fn stalled(secs: nat) -> FailureV {
    FailureV::Status {
        status: 504,
        line: "504 Gateway Timeout"@,
        message: "stream_idle_timeout: stream idle for "@ + decimal(secs)
            + "s — no bytes from the provider"@,
    }
}

/// Computes [`stalled`].
pub fn stream_idle_error(secs: u64) -> (r: ApiFailure)
    ensures
        r@ == stalled(secs as nat),
{
    ApiFailure::Status {
        status: 504,
        line: "504 Gateway Timeout".to_owned(),
        message: cat3(
            "stream_idle_timeout: stream idle for ",
            number(secs).as_str(),
            "s — no bytes from the provider",
        ),
    }
}

// ------------------------------------------------------------ the stream

/// A piece of a tool call.
#[derive(Debug)]
pub struct SseToolCall {
    pub index: u32,
    pub id: Option<String>,
    pub name: Option<String>,
    pub arguments: Option<String>,
}

/// What an [`SseToolCall`] stands for.
pub struct SseToolCallV {
    pub index: u32,
    pub id: Option<Seq<char>>,
    pub name: Option<Seq<char>>,
    pub arguments: Option<Seq<char>>,
}

impl View for SseToolCall {
    type V = SseToolCallV;

    open spec fn view(&self) -> SseToolCallV {
        SseToolCallV {
            index: self.index,
            id: text_view(self.id),
            name: text_view(self.name),
            arguments: text_view(self.arguments),
        }
    }
}

/// What some pieces stand for.
pub open spec fn piece_views(v: Seq<SseToolCall>) -> Seq<SseToolCallV> {
    v.map_values(|c: SseToolCall| c@)
}

/// The tokens that a stream reports.
#[derive(Clone, Copy, Debug, PartialEq, Eq, Structural)]
pub struct SseUsage {
    pub prompt: u32,
    pub completion: u32,
    pub cached: u64,
}

/// What a line of the stream brings.
#[derive(Debug)]
pub struct SseDelta {
    pub text: Option<String>,
    pub tool_calls: Vec<SseToolCall>,
    pub usage: Option<SseUsage>,
}

/// What an [`SseDelta`] stands for.
pub struct SseDeltaV {
    pub text: Option<Seq<char>>,
    pub tool_calls: Seq<SseToolCallV>,
    pub usage: Option<SseUsage>,
}

impl View for SseDelta {
    type V = SseDeltaV;

    open spec fn view(&self) -> SseDeltaV {
        SseDeltaV {
            text: text_view(self.text),
            tool_calls: piece_views(self.tool_calls@),
            usage: self.usage,
        }
    }
}

/// The number in a field; zero where there is none.
pub open spec fn number_or_zero(v: JsonV, key: Seq<char>) -> nat {
    match number_in(inside(v, key)) {
        Some(n) => n,
        None => 0,
    }
}

fn number_at(v: &Json, key: &str) -> (r: u64)
    ensures
        r == number_or_zero(v@, key@),
{
    match json_u64(v.at(key)) {
        Some(n) => n,
        None => 0,
    }
}

/// The usage that a value reports: its field `usage`, where that is an object.
pub open spec fn usage_in(v: JsonV) -> Option<SseUsage> {
    match field(v, "usage"@) {
        Some(u) => if u is Object {
            Some(
                SseUsage {
                    prompt: low32(number_or_zero(u, "prompt_tokens"@)),
                    completion: low32(number_or_zero(u, "completion_tokens"@)),
                    cached: number_or_zero(
                        inside(u, "prompt_tokens_details"@),
                        "cached_tokens"@,
                    ) as u64,
                },
            )
        } else {
            None
        },
        None => None,
    }
}

fn usage_of(v: &Json) -> (r: Option<SseUsage>)
    ensures
        r == usage_in(v@),
{
    match v.get("usage") {
        Some(u) => {
            if u.as_object().is_some() {
                Some(
                    SseUsage {
                        prompt: to_u32(number_at(u, "prompt_tokens")),
                        completion: to_u32(number_at(u, "completion_tokens")),
                        cached: number_at(u.at("prompt_tokens_details"), "cached_tokens"),
                    },
                )
            } else {
                None
            }
        },
        None => None,
    }
}

/// The text of the parts of a content. References to documents are left out.
pub open spec fn text_of_parts(parts: Seq<JsonV>) -> Seq<char>
    decreases parts.len(),
{
    if parts.len() == 0 {
        Seq::empty()
    } else {
        let before = text_of_parts(parts.drop_last());
        let part = parts.last();
        if text_field(part, "type"@) == Some("reference"@) {
            before
        } else {
            match text_field(part, "text"@) {
                Some(t) => before + t,
                None => before,
            }
        }
    }
}

/// The text that a content holds: it is a text or a list of parts, or holds
/// none; anything else is an error.
pub open spec fn content_text(content: JsonV) -> Result<Seq<char>, Seq<char>> {
    match content {
        JsonV::Null => Ok(Seq::empty()),
        JsonV::Object(_) => Ok(Seq::empty()),
        JsonV::Str(t) => Ok(t),
        JsonV::Array(parts) => Ok(text_of_parts(parts)),
        _ => Err("unsupported delta.content shape: "@ + written(content)),
    }
}

fn text_of_content(content: &Json) -> (r: Result<String, String>)
    ensures
        match r {
            Ok(t) => content_text(content@) == Ok::<Seq<char>, Seq<char>>(t@),
            Err(e) => content_text(content@) == Err::<Seq<char>, Seq<char>>(e@),
        },
{
    match content {
        Json::Null => Ok(String::new()),
        Json::Object(_) => Ok(String::new()),
        Json::Str(t) => Ok(t.clone()),
        Json::Array(parts) => {
            proof {
                crate::json::lemma_json_views(*content);
            }
            let ghost ps = json_views(parts@);
            let mut out = String::new();
            let mut i: usize = 0;
            assert(ps.take(0) =~= Seq::empty());
            while i < parts.len()
                invariant
                    i <= parts@.len(),
                    ps == json_views(parts@),
                    out@ == text_of_parts(ps.take(i as int)),
                decreases parts@.len() - i,
            {
                assert(ps.take(i + 1).drop_last() =~= ps.take(i as int));
                assert(ps.take(i + 1).last() == parts@[i as int]@);
                let reference = match parts[i].str_at("type") {
                    Some(t) => same(t, "reference"),
                    None => false,
                };
                if !reference {
                    if let Some(t) = parts[i].str_at("text") {
                        put(&mut out, t);
                    }
                }
                i += 1;
            }
            assert(ps.take(i as int) =~= ps);
            Ok(out)
        },
        _ => Err(cat2("unsupported delta.content shape: ", content.render().as_str())),
    }
}

/// The piece of a call that a value describes.
pub open spec fn piece_of(tc: JsonV) -> SseToolCallV {
    let function = inside(tc, "function"@);
    SseToolCallV {
        index: low32(
            match whole_field(tc, "index"@) {
                Some(n) => n,
                None => 0,
            },
        ),
        id: text_field(tc, "id"@),
        name: text_field(function, "name"@),
        arguments: text_field(function, "arguments"@),
    }
}

/// The pieces of calls in a delta.
pub open spec fn pieces_in(delta: JsonV) -> Seq<SseToolCallV> {
    match items_field(delta, "tool_calls"@) {
        Some(items) => items.map_values(|tc: JsonV| piece_of(tc)),
        None => Seq::empty(),
    }
}

fn copy_text(t: Option<&str>) -> (r: Option<String>)
    ensures
        text_view(r) == setting_view(t),
{
    match t {
        Some(t) => Some(t.to_owned()),
        None => None,
    }
}

fn read_piece(tc: &Json) -> (r: SseToolCall)
    ensures
        r@ == piece_of(tc@),
{
    let function = tc.at("function");
    SseToolCall {
        index: to_u32(
            match tc.u64_at("index") {
                Some(n) => n,
                None => 0,
            },
        ),
        id: copy_text(tc.str_at("id")),
        name: copy_text(function.str_at("name")),
        arguments: copy_text(function.str_at("arguments")),
    }
}

fn add_pieces(out: &mut Vec<SseToolCall>, delta: &Json)
    ensures
        piece_views(final(out)@) == piece_views(old(out)@) + pieces_in(delta@),
{
    let ghost before = piece_views(out@);
    match delta.array_at("tool_calls") {
        Some(items) => {
            let ghost ps = pieces_in(delta@);
            let ghost js = json_views(items@);
            let mut i: usize = 0;
            assert(before + ps.take(0) =~= before);
            while i < items.len()
                invariant
                    i <= items@.len(),
                    js == json_views(items@),
                    ps == js.map_values(|tc: JsonV| piece_of(tc)),
                    piece_views(out@) == before + ps.take(i as int),
                decreases items@.len() - i,
            {
                assert(js[i as int] == items@[i as int]@);
                assert(ps[i as int] == piece_of(js[i as int]));
                let ghost at = piece_views(out@);
                let p = read_piece(&items[i]);
                let ghost pv = p@;
                out.push(p);
                assert(piece_views(out@) =~= at.push(pv));
                assert(at.push(pv) =~= before + ps.take(i + 1));
                i += 1;
            }
            assert(ps.take(i as int) =~= ps);
        },
        None => {
            assert(before + pieces_in(delta@) =~= before);
        },
    }
}

/// The text and the pieces of calls of some choices, or the first error.
pub open spec fn choices_read(choices: Seq<JsonV>) -> Result<
    (Seq<char>, Seq<SseToolCallV>),
    Seq<char>,
>
    decreases choices.len(),
{
    if choices.len() == 0 {
        Ok((Seq::empty(), Seq::empty()))
    } else {
        match choices_read(choices.drop_last()) {
            Err(e) => Err(e),
            Ok((text, calls)) => {
                let delta = inside(choices.last(), "delta"@);
                match content_text(inside(delta, "content"@)) {
                    Err(e) => Err(e),
                    Ok(t) => Ok((text + t, calls + pieces_in(delta))),
                }
            },
        }
    }
}

proof fn lemma_choices_stay_wrong(choices: Seq<JsonV>, n: int)
    requires
        0 <= n <= choices.len(),
        choices_read(choices.take(n)) is Err,
    ensures
        choices_read(choices) == choices_read(choices.take(n)),
    decreases choices.len() - n,
{
    if n < choices.len() {
        assert(choices.take(n + 1).drop_last() =~= choices.take(n));
        lemma_choices_stay_wrong(choices, n + 1);
    } else {
        assert(choices.take(n) =~= choices);
    }
}

fn read_choices(v: &Json) -> (r: Result<(String, Vec<SseToolCall>), String>)
    ensures
        ({
            let choices = match items_field(v@, "choices"@) {
                Some(items) => items,
                None => Seq::empty(),
            };
            match r {
                Ok((t, c)) => choices_read(choices) == Ok::<(Seq<char>, Seq<SseToolCallV>), Seq<char>>(
                    (t@, piece_views(c@)),
                ),
                Err(e) => choices_read(choices) == Err::<(Seq<char>, Seq<SseToolCallV>), Seq<char>>(
                    e@,
                ),
            }
        }),
{
    let mut text = String::new();
    let mut calls: Vec<SseToolCall> = Vec::new();
    assert(piece_views(calls@) =~= Seq::empty());
    assert(text@ =~= Seq::empty());
    if let Some(items) = v.array_at("choices") {
        let ghost js = json_views(items@);
        let mut i: usize = 0;
        assert(js.take(0) =~= Seq::empty());
        while i < items.len()
            invariant
                i <= items@.len(),
                js == json_views(items@),
                items_field(v@, "choices"@) == Some(js),
                choices_read(js.take(i as int)) == Ok::<(Seq<char>, Seq<SseToolCallV>), Seq<char>>(
                    (text@, piece_views(calls@)),
                ),
            decreases items@.len() - i,
        {
            assert(js.take(i + 1).drop_last() =~= js.take(i as int));
            assert(js.take(i + 1).last() == items@[i as int]@);
            let delta = items[i].at("delta");
            match text_of_content(delta.at("content")) {
                Ok(t) => {
                    put(&mut text, t.as_str());
                },
                Err(e) => {
                    proof {
                        lemma_choices_stay_wrong(js, i + 1);
                    }
                    return Err(e);
                },
            }
            add_pieces(&mut calls, delta);
            i += 1;
        }
        assert(js.take(i as int) =~= js);
    }
    Ok((text, calls))
}

/// What a value of the stream brings: nothing, a delta, or the end of the turn
/// with an error.
pub open spec fn delta_of(v: JsonV) -> Result<Option<SseDeltaV>, FailureV> {
    match field(v, "error"@) {
        Some(e) => Err(FailureV::Stream { message: "stream error: "@ + written(e) }),
        None => {
            let choices = match items_field(v, "choices"@) {
                Some(items) => items,
                None => Seq::empty(),
            };
            match choices_read(choices) {
                Err(e) => Err(FailureV::Stream { message: e }),
                Ok((text, calls)) => if usage_in(v) is None && text.len() == 0 && calls.len() == 0 {
                    Ok(None)
                } else {
                    Ok(
                        Some(
                            SseDeltaV {
                                text: if text.len() > 0 {
                                    Some(text)
                                } else {
                                    None
                                },
                                tool_calls: calls,
                                usage: usage_in(v),
                            },
                        ),
                    )
                },
            }
        },
    }
}

/// What an outcome of [`sse_delta`] stands for.
pub open spec fn outcome_view(r: Result<Option<SseDelta>, ApiFailure>) -> Result<
    Option<SseDeltaV>,
    FailureV,
> {
    match r {
        Ok(Some(d)) => Ok(Some(d@)),
        Ok(None) => Ok(None),
        Err(e) => Err(e@),
    }
}

/// Computes [`delta_of`].
pub fn read_delta(v: &Json) -> (r: Result<Option<SseDelta>, ApiFailure>)
    ensures
        outcome_view(r) == delta_of(v@),
{
    if let Some(e) = v.get("error") {
        return Err(ApiFailure::Stream { message: cat2("stream error: ", e.render().as_str()) });
    }
    let usage = usage_of(v);
    match read_choices(v) {
        Err(e) => Err(ApiFailure::Stream { message: e }),
        Ok((text, calls)) => {
            assert(piece_views(calls@).len() == calls@.len());
            if usage.is_none() && text.as_str().is_empty() && calls.len() == 0 {
                return Ok(None);
            }
            let text = if text.as_str().is_empty() {
                None
            } else {
                Some(text)
            };
            Ok(Some(SseDelta { text, tool_calls: calls, usage }))
        },
    }
}

/// What the data of a line brings.
pub open spec fn data_outcome(data: Seq<char>) -> Result<Option<SseDeltaV>, FailureV> {
    match parsed_json(data) {
        Some(v) => delta_of(v),
        None => Err(
            FailureV::Malformed {
                error: match json_refusal(data) {
                    Some(e) => e,
                    None => Seq::empty(),
                },
                content: data,
            },
        ),
    }
}

/// Reads the data of a line; see [`data_outcome`].
pub fn sse_delta(data: &str) -> (r: Result<Option<SseDelta>, ApiFailure>)
    ensures
        outcome_view(r) == data_outcome(data@),
{
    match Json::parse(data) {
        Some(v) => read_delta(&v),
        None => {
            let error = match why_not_json(data) {
                Some(e) => e,
                None => String::new(),
            };
            Err(ApiFailure::Malformed { error, content: data.to_owned() })
        },
    }
}

/// The line without the characters that end it.
pub open spec fn without_line_end(line: Seq<char>) -> Seq<char>
    decreases line.len(),
{
    if line.len() > 0 && (line.last() == '\r' || line.last() == '\n') {
        without_line_end(line.drop_last())
    } else {
        line
    }
}

fn trim_line_end(line: &str) -> (r: String)
    ensures
        r@ == without_line_end(line@),
{
    let v = to_chars(line);
    let mut n: usize = v.len();
    assert(v@.take(n as int) =~= v@);
    while n > 0 && (v[n - 1] == '\r' || v[n - 1] == '\n')
        invariant
            n <= v@.len(),
            without_line_end(v@) == without_line_end(v@.take(n as int)),
        decreases n,
    {
        assert(v@.take(n as int).drop_last() =~= v@.take(n - 1));
        n -= 1;
    }
    assert(v@.take(n as int) =~= v@.subrange(0, n as int));
    text_of(&v, 0, n)
}

/// What a line of the stream brings; `None` for the line that ends it. Lines
/// without data bring nothing.
pub open spec fn line_outcome(line: Seq<char>) -> Option<Result<Option<SseDeltaV>, FailureV>> {
    match stripped(without_line_end(line), "data:"@) {
        None => Some(Ok(None)),
        Some(data) => {
            let data = trimmed(data);
            if data == "[DONE]"@ {
                None
            } else if data.len() == 0 {
                Some(Ok(None))
            } else {
                Some(data_outcome(data))
            }
        },
    }
}

/// What an outcome of [`sse_line`] stands for.
pub open spec fn line_view(r: Option<Result<Option<SseDelta>, ApiFailure>>) -> Option<
    Result<Option<SseDeltaV>, FailureV>,
> {
    match r {
        Some(o) => Some(outcome_view(o)),
        None => None,
    }
}

/// Takes a line of the stream; see [`line_outcome`].
pub fn sse_line(line: &str) -> (r: Option<Result<Option<SseDelta>, ApiFailure>>)
    ensures
        line_view(r) == line_outcome(line@),
{
    let bare = trim_line_end(line);
    match strip_prefix(bare.as_str(), "data:") {
        None => Some(Ok(None)),
        Some(data) => {
            let data = trim(data.as_str());
            if same(data.as_str(), "[DONE]") {
                None
            } else if data.as_str().is_empty() {
                Some(Ok(None))
            } else {
                Some(sse_delta(data.as_str()))
            }
        },
    }
}

/// What a reader of the stream has to do next.
#[derive(Debug)]
pub enum SseNext {
    /// Take this.
    Delta(SseDelta),
    /// Report this.
    Failed(ApiFailure),
    /// The stream is over.
    Finished,
    /// Wait for more of it.
    NeedMore,
}

/// What an [`SseNext`] stands for.
pub enum NextV {
    Delta(SseDeltaV),
    Failed(FailureV),
    Finished,
    NeedMore,
}

impl View for SseNext {
    type V = NextV;

    open spec fn view(&self) -> NextV {
        match self {
            SseNext::Delta(d) => NextV::Delta(d@),
            SseNext::Failed(e) => NextV::Failed(e@),
            SseNext::Finished => NextV::Finished,
            SseNext::NeedMore => NextV::NeedMore,
        }
    }
}

/// What comes next in a stream of which `buffer` has not been taken yet, and
/// what is left of the buffer. Lines that bring nothing are passed over; a last
/// line without an end counts once the stream has ended.
pub open spec fn next_of(buffer: Seq<char>, ended: bool) -> (NextV, Seq<char>)
    decreases buffer.len(),
{
    match parted(buffer, '\n') {
        Some((line, rest)) => {
            proof {
                lemma_found(buffer, seq!['\n'], 0);
            }
            match line_outcome(line) {
                Some(Ok(Some(d))) => (NextV::Delta(d), rest),
                Some(Ok(None)) => next_of(rest, ended),
                Some(Err(e)) => (NextV::Failed(e), rest),
                None => (NextV::Finished, rest),
            }
        },
        None => if !ended {
            (NextV::NeedMore, buffer)
        } else if trimmed(buffer).len() == 0 {
            (NextV::Finished, buffer)
        } else {
            match line_outcome(buffer) {
                Some(Ok(Some(d))) => (NextV::Delta(d), Seq::empty()),
                Some(Ok(None)) => (NextV::Finished, Seq::empty()),
                Some(Err(e)) => (NextV::Failed(e), Seq::empty()),
                None => (NextV::Finished, Seq::empty()),
            }
        },
    }
}

/// A reader of the stream: what has come and was not taken yet.
#[derive(Debug)]
pub struct SseReader {
    pub buffer: String,
    /// Whether the stream has ended.
    pub ended: bool,
}

impl SseReader {
    /// Nothing has come yet.
    pub fn new() -> (r: SseReader)
        ensures
            r.buffer@ == Seq::<char>::empty(),
            !r.ended,
    {
        SseReader { buffer: String::new(), ended: false }
    }

    /// Takes what came.
    pub fn push(&mut self, chunk: &str)
        ensures
            final(self).buffer@ == old(self).buffer@ + chunk@,
            final(self).ended == old(self).ended,
    {
        put(&mut self.buffer, chunk);
    }

    /// Nothing more will come.
    pub fn end(&mut self)
        ensures
            final(self).ended,
            final(self).buffer == old(self).buffer,
    {
        self.ended = true;
    }

    /// What comes next; see [`next_of`].
    pub fn next(&mut self) -> (r: SseNext)
        ensures
            (r@, final(self).buffer@) == next_of(old(self).buffer@, old(self).ended),
            final(self).ended == old(self).ended,
    {
        let ghost whole = self.buffer@;
        loop
            invariant
                whole == old(self).buffer@,
                self.ended == old(self).ended,
                next_of(whole, self.ended) == next_of(self.buffer@, self.ended),
            decreases self.buffer@.len(),
        {
            proof {
                lemma_found(self.buffer@, seq!['\n'], 0);
            }
            match split_once(self.buffer.as_str(), '\n') {
                Some((line, rest)) => {
                    self.buffer = rest;
                    match sse_line(line.as_str()) {
                        Some(Ok(Some(d))) => {
                            return SseNext::Delta(d);
                        },
                        Some(Ok(None)) => {},
                        Some(Err(e)) => {
                            return SseNext::Failed(e);
                        },
                        None => {
                            return SseNext::Finished;
                        },
                    }
                },
                None => {
                    if !self.ended {
                        return SseNext::NeedMore;
                    }
                    if trim(self.buffer.as_str()).as_str().is_empty() {
                        return SseNext::Finished;
                    }
                    let outcome = sse_line(self.buffer.as_str());
                    self.buffer = String::new();
                    assert(self.buffer@ =~= Seq::empty());
                    return match outcome {
                        Some(Ok(Some(d))) => SseNext::Delta(d),
                        Some(Ok(None)) => SseNext::Finished,
                        Some(Err(e)) => SseNext::Failed(e),
                        None => SseNext::Finished,
                    };
                },
            }
        }
    }
}

// ------------------------------------------------------------ the turn

/// What the stream of a turn has delivered so far.
#[derive(Debug)]
pub struct OpenAiTurn {
    pub text: String,
    pub calls: Vec<PartialCall>,
    pub usage: TokenUsage,
}

/// What an [`OpenAiTurn`] stands for.
pub struct OpenAiTurnV {
    pub text: Seq<char>,
    pub calls: Seq<PartialV>,
    pub usage: TokenUsage,
}

impl View for OpenAiTurn {
    type V = OpenAiTurnV;

    open spec fn view(&self) -> OpenAiTurnV {
        OpenAiTurnV { text: self.text@, calls: partials(self.calls@), usage: self.usage }
    }
}

/// The calls after a piece of one: its name and id are taken where they come,
/// its arguments grow.
pub open spec fn with_piece(calls: Seq<PartialV>, p: SseToolCallV) -> Seq<PartialV> {
    let index = p.index as nat;
    let at = match call_with(calls, index) {
        Some(c) => c,
        None => PartialV {
            index,
            id: Seq::empty(),
            name: Seq::empty(),
            arguments: Seq::empty(),
        },
    };
    with_call(
        calls,
        PartialV {
            index,
            id: match p.id {
                Some(id) => id,
                None => at.id,
            },
            name: match p.name {
                Some(n) => n,
                None => at.name,
            },
            arguments: match p.arguments {
                Some(a) => at.arguments + a,
                None => at.arguments,
            },
        },
    )
}

/// The calls after some pieces.
pub open spec fn with_pieces(calls: Seq<PartialV>, pieces: Seq<SseToolCallV>) -> Seq<PartialV>
    decreases pieces.len(),
{
    if pieces.len() == 0 {
        calls
    } else {
        with_piece(with_pieces(calls, pieces.drop_last()), pieces.last())
    }
}

fn add_piece(calls: &mut Vec<PartialCall>, p: &SseToolCall)
    ensures
        partials(final(calls)@) == with_piece(partials(old(calls)@), p@),
{
    let index = p.index as u64;
    let at = match get_call(calls, index) {
        Some(c) => c,
        None => {
            let c = PartialCall {
                index,
                id: String::new(),
                name: String::new(),
                arguments: String::new(),
            };
            assert(c.id@ =~= Seq::<char>::empty());
            assert(c.name@ =~= Seq::<char>::empty());
            assert(c.arguments@ =~= Seq::<char>::empty());
            c
        },
    };
    let grown = PartialCall {
        index,
        id: match &p.id {
            Some(id) => id.clone(),
            None => at.id.clone(),
        },
        name: match &p.name {
            Some(n) => n.clone(),
            None => at.name.clone(),
        },
        arguments: match &p.arguments {
            Some(a) => cat2(at.arguments.as_str(), a.as_str()),
            None => at.arguments.clone(),
        },
    };
    put_call(calls, grown);
}

/// What a delta reports: the usage, then the text.
pub open spec fn delta_reports(d: SseDeltaV, window: u32) -> Seq<EventV> {
    (match d.usage {
        Some(u) => seq![
            EventV::ContextUsage {
                used_tokens: u.prompt,
                context_window: window,
                cached_tokens: low32(u.cached as nat),
                output_tokens: u.completion,
            },
        ],
        None => Seq::empty(),
    }) + (match d.text {
        Some(t) => seq![EventV::TextChunk(t)],
        None => Seq::empty(),
    })
}

impl OpenAiTurn {
    /// Nothing delivered yet.
    pub fn new() -> (t: OpenAiTurn)
        ensures
            t@ == (OpenAiTurnV {
                text: Seq::empty(),
                calls: Seq::empty(),
                usage: TokenUsage { input: 0, output: 0 },
            }),
    {
        let t = OpenAiTurn { text: String::new(), calls: Vec::new(), usage: TokenUsage::none() };
        assert(partials(t.calls@) =~= Seq::empty());
        t
    }

    /// Takes the usage and the text of a delta, and returns what it reports. The
    /// rules on the stream are asked after this, and before
    /// [`OpenAiTurn::take_calls`].
    pub fn take_text(&mut self, delta: &SseDelta, context_window: u32) -> (r: Vec<AgentEvent>)
        ensures
            event_views(r@) == delta_reports(delta@, context_window),
            final(self)@ == (OpenAiTurnV {
                text: match delta@.text {
                    Some(t) => old(self)@.text + t,
                    None => old(self)@.text,
                },
                calls: old(self)@.calls,
                usage: match delta@.usage {
                    Some(u) => TokenUsage { input: u.prompt, output: u.completion },
                    None => old(self)@.usage,
                },
            }),
    {
        let mut out: Vec<AgentEvent> = Vec::new();
        if let Some(u) = delta.usage {
            self.usage = TokenUsage { input: u.prompt, output: u.completion };
            out.push(
                AgentEvent::ContextUsage {
                    used_tokens: u.prompt,
                    context_window,
                    cached_tokens: to_u32(u.cached),
                    output_tokens: u.completion,
                },
            );
        }
        if let Some(t) = &delta.text {
            put(&mut self.text, t.as_str());
            out.push(AgentEvent::TextChunk(t.clone()));
        }
        assert(event_views(out@) =~= delta_reports(delta@, context_window));
        out
    }

    /// Takes the pieces of calls of a delta.
    pub fn take_calls(&mut self, delta: &SseDelta)
        ensures
            final(self)@ == (OpenAiTurnV {
                calls: with_pieces(old(self)@.calls, delta@.tool_calls),
                ..old(self)@
            }),
    {
        let ghost start = self@;
        let ghost ps = piece_views(delta.tool_calls@);
        let mut i: usize = 0;
        assert(ps.take(0) =~= Seq::empty());
        while i < delta.tool_calls.len()
            invariant
                i <= delta.tool_calls@.len(),
                ps == piece_views(delta.tool_calls@),
                self@.calls == with_pieces(start.calls, ps.take(i as int)),
                self@.text == start.text,
                self@.usage == start.usage,
            decreases delta.tool_calls@.len() - i,
        {
            assert(ps.take(i + 1).drop_last() =~= ps.take(i as int));
            assert(ps.take(i + 1).last() == delta.tool_calls@[i as int]@);
            add_piece(&mut self.calls, &delta.tool_calls[i]);
            i += 1;
        }
        assert(ps.take(i as int) =~= ps);
    }

    /// The turn that a complete stream gives.
    pub fn finish(self) -> (r: TurnResult)
        ensures
            r@ == finished_turn(Seq::empty(), self@.text, self@.calls, self@.usage),
    {
        let none = String::new();
        assert(none@ =~= Seq::empty());
        assemble(none, self.text, &self.calls, self.usage)
    }

    /// The turn that a cancelled stream gives: the text so far.
    pub fn cancel(self) -> (r: TurnResult)
        ensures
            r@ == text_turn(self@.text, self@.usage),
    {
        turn_of_text(self.text, self.usage)
    }

    /// The turn that a rule on the stream cut short: the text so far, and the
    /// name of the rule.
    pub fn trip(self, rule: String) -> (r: TurnResult)
        ensures
            r@ == (TurnV { tripped_rule: Some(rule@), ..text_turn(self@.text, self@.usage) }),
    {
        let t = turn_of_text(self.text, self.usage);
        TurnResult {
            assistant_message: t.assistant_message,
            state: t.state,
            usage: t.usage,
            tripped_rule: Some(rule),
        }
    }
}

// ------------------------------------------------------------ the client

/// A request for a turn. It asks for a stream, and for the usage at its end.
#[derive(Debug)]
pub struct OpenAiRequest {
    pub model: String,
    pub messages: Vec<OaiMessage>,
    /// The functions; empty for none.
    pub tools: Vec<FunctionTool>,
    pub reasoning_effort: Option<ReasoningEffort>,
}

/// The state of a client of an OpenAI-compatible API.
#[derive(Debug)]
pub struct OpenAiClient {
    pub base_url: String,
    pub api_key: String,
    pub model: String,
    /// The thinking budget; zero for none.
    pub budget: u32,
    /// The context window of the model; zero where it was not asked for yet.
    pub window: u32,
}

/// The entry of a model in a provider's list.
pub open spec fn entry_of(items: Seq<JsonV>, model: Seq<char>) -> Option<JsonV>
    decreases items.len(),
{
    if items.len() == 0 {
        None
    } else {
        match entry_of(items.drop_last(), model) {
            Some(e) => Some(e),
            None => if text_field(items.last(), "id"@) == Some(model) {
                Some(items.last())
            } else {
                None
            },
        }
    }
}

/// The context window that a provider's list gives for a model, under either of
/// the names in use.
pub open spec fn listed_window(reply: JsonV, model: Seq<char>) -> Option<nat> {
    match items_field(reply, "data"@) {
        Some(items) => match entry_of(items, model) {
            Some(e) => match number_in(inside(e, "context_window"@)) {
                Some(n) => Some(n),
                None => number_in(inside(e, "context_length"@)),
            },
            None => None,
        },
        None => None,
    }
}

fn find_entry<'a>(items: &'a Vec<Json>, model: &str) -> (r: Option<&'a Json>)
    ensures
        match r {
            Some(e) => entry_of(json_views(items@), model@) == Some(e@),
            None => entry_of(json_views(items@), model@) is None,
        },
{
    let ghost js = json_views(items@);
    let mut found: Option<&Json> = None;
    let mut i: usize = 0;
    assert(js.take(0) =~= Seq::empty());
    while i < items.len()
        invariant
            i <= items@.len(),
            js == json_views(items@),
            match found {
                Some(e) => entry_of(js.take(i as int), model@) == Some(e@),
                None => entry_of(js.take(i as int), model@) is None,
            },
        decreases items@.len() - i,
    {
        assert(js.take(i + 1).drop_last() =~= js.take(i as int));
        assert(js.take(i + 1).last() == items@[i as int]@);
        if found.is_none() {
            if let Some(id) = items[i].str_at("id") {
                if same(id, model) {
                    found = Some(&items[i]);
                }
            }
        }
        i += 1;
    }
    assert(js.take(i as int) =~= js);
    found
}

fn window_listed(reply: &Json, model: &str) -> (r: Option<u64>)
    ensures
        match r {
            Some(n) => listed_window(reply@, model@) == Some(n as nat),
            None => listed_window(reply@, model@) is None,
        },
{
    match reply.array_at("data") {
        Some(items) => match find_entry(items, model) {
            Some(e) => match json_u64(e.at("context_window")) {
                Some(n) => Some(n),
                None => json_u64(e.at("context_length")),
            },
            None => None,
        },
        None => None,
    }
}

impl OpenAiClient {
    /// A client without a thinking budget, that has not asked for the context
    /// window yet. Slashes at the end of the address are dropped.
    pub fn new(base_url: &str, api_key: &str, model: &str) -> (c: OpenAiClient)
        ensures
            c.base_url@ == without_trailing(base_url@, '/'),
            c.api_key@ == api_key@,
            c.model@ == model@,
            c.budget == 0,
            c.window == 0,
    {
        OpenAiClient {
            base_url: trim_trailing(base_url, '/'),
            api_key: api_key.to_owned(),
            model: model.to_owned(),
            budget: 0,
            window: 0,
        }
    }

    /// Takes another model; its context window is not known yet.
    pub fn set_model(&mut self, model: String)
        ensures
            final(self).model == model,
            final(self).window == 0,
            final(self).base_url == old(self).base_url,
            final(self).api_key == old(self).api_key,
            final(self).budget == old(self).budget,
    {
        self.model = model;
        self.window = 0;
    }

    /// Sets the thinking budget; zero and none are the same.
    pub fn set_thinking_budget(&mut self, budget: Option<u32>)
        ensures
            final(self).budget == (match budget {
                Some(b) => b,
                None => 0,
            }),
            final(self).model == old(self).model,
            final(self).window == old(self).window,
            final(self).base_url == old(self).base_url,
            final(self).api_key == old(self).api_key,
    {
        self.budget = match budget {
            Some(b) => b,
            None => 0,
        };
    }

    /// The thinking budget, where it has an effect: on a GLM model alone.
    pub fn thinking_budget(&self) -> (r: Option<u32>)
        ensures
            r == (if self.budget != 0 && served_as_glm(self.base_url@, self.model@) {
                Some(self.budget)
            } else {
                None
            }),
    {
        if !is_glm(self.base_url.as_str(), self.model.as_str()) {
            return None;
        }
        if self.budget == 0 {
            None
        } else {
            Some(self.budget)
        }
    }

    /// The request for a turn; the error is that of a message which cannot be
    /// sent.
    pub fn request(&self, messages: &Vec<Message>, tools: &Vec<ToolSpec>) -> (r: Result<
        OpenAiRequest,
        String,
    >)
        ensures
            match r {
                Ok(q) => {
                    &&& q.model@ == self.model@
                    &&& oai_messages(transcript(messages@)) == Some(message_views(q.messages@))
                    &&& q.tools@.len() == tools@.len()
                    &&& forall|i: int|
                        0 <= i < q.tools@.len() ==> describes_tool(
                            #[trigger] q.tools@[i],
                            tool_specs(tools@)[i],
                        )
                    &&& q.reasoning_effort == (if served_as_glm(self.base_url@, self.model@) {
                        Some(
                            effort_of(
                                if self.budget == 0 {
                                    None
                                } else {
                                    Some(self.budget)
                                },
                            ),
                        )
                    } else {
                        None
                    })
                },
                Err(e) => oai_messages(transcript(messages@)) is None && e@ == NO_RESULT@,
            },
    {
        match to_oai_messages(messages) {
            Ok(sent) => {
                let effort = glm_reasoning_effort(
                    self.base_url.as_str(),
                    self.model.as_str(),
                    self.thinking_budget(),
                );
                Ok(
                    OpenAiRequest {
                        model: self.model.clone(),
                        messages: sent,
                        tools: build_tools(tools),
                        reasoning_effort: effort,
                    },
                )
            },
            Err(e) => Err(e),
        }
    }

    /// The context window, where a setting gives it or a reply was read.
    pub fn known_window(&self, setting: Option<&str>) -> (r: Option<u32>)
        ensures
            r == (match asked_window(setting_view(setting)) {
                Some(n) => Some(n as u32),
                None => if self.window != 0 {
                    Some(self.window)
                } else {
                    None
                },
            }),
    {
        match env_context_window(setting) {
            Some(n) => Some(n),
            None => if self.window != 0 {
                Some(self.window)
            } else {
                None
            },
        }
    }

    /// Reads the context window from the provider's list of models, and keeps
    /// it.
    pub fn context_window(&mut self, reply: &Json) -> (r: Option<u32>)
        ensures
            match listed_window(reply@, old(self).model@) {
                Some(n) => r == Some(low32(n)) && final(self).window == low32(n),
                None => r is None && final(self).window == old(self).window,
            },
            final(self).model == old(self).model,
            final(self).budget == old(self).budget,
            final(self).base_url == old(self).base_url,
            final(self).api_key == old(self).api_key,
    {
        match window_listed(reply, self.model.as_str()) {
            Some(n) => {
                self.window = to_u32(n);
                Some(self.window)
            },
            None => None,
        }
    }

    /// Where turns are sent.
    pub fn chat_url(&self) -> (r: String)
        ensures
            r@ == self.base_url@ + "/chat/completions"@,
    {
        cat2(self.base_url.as_str(), "/chat/completions")
    }

    /// Where the models are listed.
    pub fn models_url(&self) -> (r: String)
        ensures
            r@ == self.base_url@ + "/models"@,
    {
        cat2(self.base_url.as_str(), "/models")
    }
}

// ------------------------------------------------------------ laws

/// A stream that fell silent is worth another attempt, like every timeout of the
/// provider.
pub proof fn law_stall_is_retryable(secs: nat)
    ensures
        retryable(stalled(secs)),
{
}

/// What the stream itself reports ends the turn.
pub proof fn law_stream_errors_are_terminal(v: JsonV)
    ensures
        delta_of(v) matches Err(e) ==> !retryable(e),
{
}

/// References to documents do not touch the text around them.
pub proof fn law_references_are_dropped(parts: Seq<JsonV>, reference: JsonV)
    requires
        text_field(reference, "type"@) == Some("reference"@),
    ensures
        text_of_parts(parts.push(reference)) == text_of_parts(parts),
{
    assert(parts.push(reference).drop_last() =~= parts);
}

/// A transcript cannot be sent exactly where a message of a tool carries no
/// result.
pub proof fn law_only_missing_results_stop_a_request(msgs: Seq<MessageV>)
    ensures
        oai_messages(msgs) is None <==> exists|i: int|
            0 <= i < msgs.len() && (#[trigger] msgs[i]).role == Role::Tool && first_result(
                msgs[i].content,
            ) is None,
    decreases msgs.len(),
{
    if msgs.len() > 0 {
        let front = msgs.drop_last();
        law_only_missing_results_stop_a_request(front);
        if oai_messages(msgs) is None {
            if oai_messages(front) is None {
                let i = choose|i: int|
                    0 <= i < front.len() && (#[trigger] front[i]).role == Role::Tool
                        && first_result(front[i].content) is None;
                assert(msgs[i] == front[i]);
            } else {
                assert(msgs[msgs.len() - 1] == msgs.last());
            }
        }
        if exists|i: int|
            0 <= i < msgs.len() && (#[trigger] msgs[i]).role == Role::Tool && first_result(
                msgs[i].content,
            ) is None {
            let i = choose|i: int|
                0 <= i < msgs.len() && (#[trigger] msgs[i]).role == Role::Tool && first_result(
                    msgs[i].content,
                ) is None;
            if i < front.len() {
                assert(front[i] == msgs[i]);
            }
        }
    }
}

/// However the pieces of calls come, the calls stay in the order of their
/// numbers.
pub proof fn law_pieces_keep_the_order(calls: Seq<PartialV>, pieces: Seq<SseToolCallV>)
    requires
        crate::ai::assembly::in_order(calls),
    ensures
        crate::ai::assembly::in_order(with_pieces(calls, pieces)),
    decreases pieces.len(),
{
    if pieces.len() > 0 {
        law_pieces_keep_the_order(calls, pieces.drop_last());
        let before = with_pieces(calls, pieces.drop_last());
        let p = pieces.last();
        let index = p.index as nat;
        let at = match call_with(before, index) {
            Some(c) => c,
            None => PartialV {
                index,
                id: Seq::empty(),
                name: Seq::empty(),
                arguments: Seq::empty(),
            },
        };
        let grown = PartialV {
            index,
            id: match p.id {
                Some(id) => id,
                None => at.id,
            },
            name: match p.name {
                Some(n) => n,
                None => at.name,
            },
            arguments: match p.arguments {
                Some(a) => at.arguments + a,
                None => at.arguments,
            },
        };
        crate::ai::assembly::law_calls_stay_in_order(before, grown);
    }
}

/// The lines of a stream can be cut anywhere: while nothing but whole lines that
/// bring nothing has come, waiting for more changes nothing.
pub proof fn law_waiting_loses_nothing(a: Seq<char>, b: Seq<char>, ended: bool)
    requires
        next_of(a, false).0 is NeedMore,
    ensures
        next_of(a + b, ended) == next_of(next_of(a, false).1 + b, ended),
    decreases a.len(),
{
    lemma_found(a, seq!['\n'], 0);
    match parted(a, '\n') {
        Some((line, rest)) => {
            crate::ai::anthropic_stream::lemma_parted_front(a, b);
            law_waiting_loses_nothing(rest, b, ended);
        },
        None => {},
    }
}

// ------------------------------------------------------------ what a request tells

proof fn lemma_first_result(content: Seq<BlockV>, k: int)
    requires
        0 <= k < content.len(),
        content[k] is ToolResult,
        forall|j: int| 0 <= j < k ==> !((#[trigger] content[j]) is ToolResult),
    ensures
        first_result(content) == Some((content[k]->tool_use_id, content[k]->ToolResult_content)),
    decreases content.len(),
{
    let front = content.drop_last();
    if k < content.len() - 1 {
        assert forall|j: int| 0 <= j < k implies !((#[trigger] front[j]) is ToolResult) by {
            assert(front[j] == content[j]);
        }
        lemma_first_result(front, k);
    } else {
        lemma_no_result(front);
    }
}

proof fn lemma_no_result(content: Seq<BlockV>)
    requires
        forall|j: int| 0 <= j < content.len() ==> !((#[trigger] content[j]) is ToolResult),
    ensures
        first_result(content) is None,
    decreases content.len(),
{
    if content.len() > 0 {
        let front = content.drop_last();
        assert forall|j: int| 0 <= j < front.len() implies !((#[trigger] front[j]) is ToolResult) by {
            assert(front[j] == content[j]);
        }
        lemma_no_result(front);
        assert(!(content[content.len() - 1] is ToolResult));
    }
}

proof fn lemma_oai_parts(content: Seq<BlockV>, k: int)
    requires
        0 <= k < content.len(),
    ensures
        oai_part(content[k]) matches Some(p) ==> oai_parts(content).contains(p),
    decreases content.len(),
{
    let front = content.drop_last();
    let (before, after) = (oai_parts(front), oai_parts(content));
    if let Some(p) = oai_part(content[k]) {
        if k < content.len() - 1 {
            lemma_oai_parts(front, k);
            let j = choose|j: int| 0 <= j < before.len() && before[j] == p;
            assert(after[j] == p);
        } else {
            assert(after[after.len() - 1] == p);
        }
    }
}

proof fn lemma_oai_calls(content: Seq<BlockV>, k: int)
    requires
        0 <= k < content.len(),
        content[k] is ToolUse,
    ensures
        oai_calls(content).contains(
            OaiCallV {
                id: content[k]->id,
                name: content[k]->name,
                arguments: written(content[k]->input),
            },
        ),
    decreases content.len(),
{
    let front = content.drop_last();
    let (before, after) = (oai_calls(front), oai_calls(content));
    let c = OaiCallV {
        id: content[k]->id,
        name: content[k]->name,
        arguments: written(content[k]->input),
    };
    if k < content.len() - 1 {
        lemma_oai_calls(front, k);
        let j = choose|j: int| 0 <= j < before.len() && before[j] == c;
        assert(after[j] == c);
    } else {
        assert(after[after.len() - 1] == c);
    }
}

/// Each message of the transcript is one of the request, in its place, and says what
/// it says: a system prompt its text; the user every text and, with them, every
/// image; the model its text and every call by id and name with its input; a tool
/// the whole of its result, under the id of the call.
pub proof fn law_every_message_is_sent(msgs: Seq<MessageV>, i: int, k: int)
    requires
        oai_messages(msgs) is Some,
        0 <= i < msgs.len(),
    ensures
        ({
            let sent = oai_messages(msgs)->0;
            let m = msgs[i];
            let b = m.content[k];
            &&& sent.len() == msgs.len()
            &&& match (m.role, sent[i]) {
                (Role::System, OaiMessageV::System { content }) => 0 <= k < m.content.len() && b is Text
                    ==> holds(content, b->text),
                (Role::User, OaiMessageV::User { content: OaiContentV::Text(t) }) => 0 <= k
                    < m.content.len() ==> !(b is Image) && (b is Text ==> holds(t, b->text)),
                (Role::User, OaiMessageV::User { content: OaiContentV::Array(parts) }) => 0 <= k
                    < m.content.len() ==> {
                    &&& b is Text ==> parts.contains(OaiPartV::Text(b->text))
                    &&& b is Image ==> parts.contains(
                        OaiPartV::ImageUrl {
                            url: "data:"@ + b->media_type + ";base64,"@ + b->data,
                            detail: ImageDetail::Auto,
                        },
                    )
                },
                (Role::Assistant, OaiMessageV::Assistant { content, tool_calls }) => 0 <= k
                    < m.content.len() ==> {
                    &&& b is Text && b->text.len() > 0 ==> content is Some && holds(
                        content->0,
                        b->text,
                    )
                    &&& b is ToolUse ==> tool_calls.contains(
                        OaiCallV { id: b->id, name: b->name, arguments: written(b->input) },
                    )
                },
                (Role::Tool, OaiMessageV::Tool { content, tool_call_id }) => 0 <= k
                    < m.content.len() && b is ToolResult && (forall|j: int|
                    0 <= j < k ==> !((#[trigger] m.content[j]) is ToolResult)) ==> content
                    == b->ToolResult_content && tool_call_id == b->tool_use_id,
                _ => false,
            }
        }),
    decreases msgs.len(),
{
    let front = msgs.drop_last();
    let m = msgs[i];
    lemma_sent_len(msgs);
    if i < msgs.len() - 1 {
        law_every_message_is_sent(front, i, k);
    } else if 0 <= k < m.content.len() {
        let b = m.content[k];
        if b is Text {
            law_every_text_block_is_in_the_text(m.content, k);
            if b->text.len() > 0 && text_of_blocks(m.content).len() == 0 {
                let at = choose|at: int| occurs_at(text_of_blocks(m.content), b->text, at);
            }
        }
        lemma_oai_parts(m.content, k);
        if b is ToolUse {
            lemma_oai_calls(m.content, k);
        }
        if b is ToolResult && (forall|j: int|
            0 <= j < k ==> !((#[trigger] m.content[j]) is ToolResult)) {
            lemma_first_result(m.content, k);
        }
    }
}

proof fn lemma_sent_len(msgs: Seq<MessageV>)
    ensures
        oai_messages(msgs) matches Some(s) ==> s.len() == msgs.len(),
    decreases msgs.len(),
{
    if msgs.len() > 0 {
        lemma_sent_len(msgs.drop_last());
    }
}

/// The calls of a message and the parts of a prompt keep their order, and there is
/// none without a block.
pub proof fn law_parts_keep_their_order(a: Seq<BlockV>, b: Seq<BlockV>)
    ensures
        oai_calls(a + b) == oai_calls(a) + oai_calls(b),
        oai_parts(a + b) == oai_parts(a) + oai_parts(b),
        oai_calls(a).len() <= a.len(),
        oai_parts(a).len() <= a.len(),
    decreases a.len() + b.len(),
{
    if b.len() > 0 {
        law_parts_keep_their_order(a, b.drop_last());
        assert((a + b).drop_last() =~= a + b.drop_last());
        assert((a + b).last() == b.last());
    } else {
        assert(a + b =~= a);
        if a.len() > 0 {
            law_parts_keep_their_order(a.drop_last(), b);
        }
    }
    assert(oai_calls(a + b) =~= oai_calls(a) + oai_calls(b));
    assert(oai_parts(a + b) =~= oai_parts(a) + oai_parts(b));
}

// ------------------------------------------------------------ what a stream says

/// The arguments that some pieces bring for a number, one behind the other.
pub open spec fn arguments_for(pieces: Seq<SseToolCallV>, n: nat) -> Seq<char>
    decreases pieces.len(),
{
    if pieces.len() == 0 {
        Seq::empty()
    } else {
        arguments_for(pieces.drop_last(), n) + (match pieces.last().arguments {
            Some(a) => if pieces.last().index == n {
                a
            } else {
                Seq::empty()
            },
            None => Seq::empty(),
        })
    }
}

/// A call has its arguments from all the pieces under its number, one behind the
/// other, whatever comes in between, and there is a call exactly where there was a
/// piece or a call. Its id and its name are the last that were given.
pub proof fn law_call_pieces_are_put_together(
    calls: Seq<PartialV>,
    pieces: Seq<SseToolCallV>,
    n: nat,
)
    requires
        in_order(calls),
    ensures
        ({
            let after = call_with(with_pieces(calls, pieces), n);
            let had = call_with(calls, n);
            let named = exists|i: int| 0 <= i < pieces.len() && (#[trigger] pieces[i]).index == n;
            &&& in_order(with_pieces(calls, pieces))
            &&& after is Some <==> had is Some || named
            &&& after is Some ==> after->0.arguments == (match had {
                Some(c) => c.arguments,
                None => Seq::empty(),
            }) + arguments_for(pieces, n)
            &&& !named && had is Some ==> after->0.id == had->0.id && after->0.name == had->0.name
            &&& pieces.len() > 0 && pieces.last().index == n ==> {
                &&& pieces.last().id matches Some(id) ==> after->0.id == id
                &&& pieces.last().name matches Some(name) ==> after->0.name == name
            }
        }),
    decreases pieces.len(),
{
    law_pieces_keep_the_order(calls, pieces);
    let had = call_with(calls, n);
    let none = Seq::<char>::empty();
    let start = match had {
        Some(c) => c.arguments,
        None => none,
    };
    if pieces.len() == 0 {
        assert(start + arguments_for(pieces, n) =~= start);
    } else {
        let front = pieces.drop_last();
        let p = pieces.last();
        let before = with_pieces(calls, front);
        law_call_pieces_are_put_together(calls, front, n);
        law_pieces_keep_the_order(calls, front);
        let index = p.index as nat;
        let at = match call_with(before, index) {
            Some(c) => c,
            None => PartialV {
                index,
                id: Seq::empty(),
                name: Seq::empty(),
                arguments: Seq::empty(),
            },
        };
        let grown = PartialV {
            index,
            id: match p.id {
                Some(id) => id,
                None => at.id,
            },
            name: match p.name {
                Some(name) => name,
                None => at.name,
            },
            arguments: match p.arguments {
                Some(a) => at.arguments + a,
                None => at.arguments,
            },
        };
        law_put_call_is_found(before, grown);
        if index != n {
            law_other_calls_stay(before, grown, n);
            assert(arguments_for(pieces, n) =~= arguments_for(front, n));
            if exists|i: int| 0 <= i < pieces.len() && (#[trigger] pieces[i]).index == n {
                let i = choose|i: int| 0 <= i < pieces.len() && (#[trigger] pieces[i]).index == n;
                assert(front[i] == pieces[i]);
            }
            if exists|i: int| 0 <= i < front.len() && (#[trigger] front[i]).index == n {
                let i = choose|i: int| 0 <= i < front.len() && (#[trigger] front[i]).index == n;
                assert(pieces[i] == front[i]);
            }
        } else {
            assert(pieces[pieces.len() - 1].index == n);
            if call_with(before, index) is None {
                assert(had is None);
                assert(arguments_for(front, n) =~= none) by {
                    lemma_no_arguments(front, n);
                }
            }
            assert(grown.arguments =~= start + arguments_for(pieces, n));
        }
    }
}

proof fn lemma_no_arguments(pieces: Seq<SseToolCallV>, n: nat)
    requires
        forall|i: int| 0 <= i < pieces.len() ==> (#[trigger] pieces[i]).index != n,
    ensures
        arguments_for(pieces, n).len() == 0,
    decreases pieces.len(),
{
    if pieces.len() > 0 {
        let front = pieces.drop_last();
        assert forall|i: int| 0 <= i < front.len() implies (#[trigger] front[i]).index != n by {
            assert(front[i] == pieces[i]);
        }
        lemma_no_arguments(front, n);
        assert(pieces[pieces.len() - 1].index != n);
    }
}

/// What a value of the stream brings is read off it: the text of each choice, the
/// pieces of its calls, all of them and in order; an error ends the turn with what
/// it says.
pub proof fn law_choices_are_read(choices: Seq<JsonV>, more: JsonV, text: Seq<char>)
    requires
        choices_read(choices) is Ok,
        field(more, "delta"@) is Some,
    ensures
        ({
            let delta = field(more, "delta"@)->0;
            let before = choices_read(choices)->Ok_0;
            let after = choices_read(choices.push(more));
            &&& field(delta, "content"@) == Some(JsonV::Str(text)) ==> after is Ok
                && after->Ok_0.0 == before.0 + text
            &&& field(delta, "content"@) is None || field(delta, "content"@) == Some(JsonV::Null)
                ==> after is Ok && after->Ok_0.0 == before.0
            &&& after is Ok ==> match field(delta, "tool_calls"@) {
                Some(JsonV::Array(items)) => after->Ok_0.1 == before.1 + items.map_values(
                    |tc: JsonV| piece_of(tc),
                ),
                _ => after->Ok_0.1 == before.1,
            }
        }),
{
    assert(choices.push(more).drop_last() =~= choices);
    let before = choices_read(choices)->Ok_0;
    let none = Seq::<char>::empty();
    assert(before.0 + none =~= before.0);
    assert(before.1 + Seq::<SseToolCallV>::empty() =~= before.1);
}

/// The piece of a call is what the value says of it.
pub proof fn law_pieces_are_what_was_sent(
    tc: JsonV,
    n: nat,
    id: Seq<char>,
    name: Seq<char>,
    arguments: Seq<char>,
)
    requires
        n <= u32::MAX,
        whole_field(tc, "index"@) == Some(n),
        field(tc, "id"@) == Some(JsonV::Str(id)),
        field(tc, "function"@) is Some,
        field(field(tc, "function"@)->0, "name"@) == Some(JsonV::Str(name)),
        field(field(tc, "function"@)->0, "arguments"@) == Some(JsonV::Str(arguments)),
    ensures
        piece_of(tc) == (SseToolCallV {
            index: n as u32,
            id: Some(id),
            name: Some(name),
            arguments: Some(arguments),
        }),
{
}

/// What the parts of a content say is read one behind the other.
pub proof fn law_parts_of_a_content_add_up(a: Seq<JsonV>, b: Seq<JsonV>, part: JsonV)
    ensures
        text_of_parts(a + b) == text_of_parts(a) + text_of_parts(b),
        field(part, "type"@) == Some(JsonV::Str("text"@)) ==> (field(part, "text"@) matches Some(
            JsonV::Str(t),
        ) ==> text_of_parts(seq![part]) == t),
    decreases b.len(),
{
    if b.len() > 0 {
        law_parts_of_a_content_add_up(a, b.drop_last(), part);
        assert((a + b).drop_last() =~= a + b.drop_last());
        assert((a + b).last() == b.last());
    } else {
        assert(a + b =~= a);
    }
    assert(text_of_parts(a + b) =~= text_of_parts(a) + text_of_parts(b));
    reveal_strlit("text");
    reveal_strlit("reference");
    assert("text"@.len() != "reference"@.len());
    let one = seq![part];
    assert(one.drop_last() =~= Seq::empty());
    assert(text_of_parts(one.drop_last()) =~= Seq::empty());
    if let Some(JsonV::Str(t)) = field(part, "text"@) {
        assert(Seq::<char>::empty() + t =~= t);
    }
}

/// A delta is made of what the value holds, and nothing that it holds is passed
/// over: text, pieces and usage. An error in the stream is told.
pub proof fn law_deltas_pass_everything_on(v: JsonV)
    ensures
        field(v, "error"@) matches Some(e) ==> delta_of(v) == Err::<Option<SseDeltaV>, FailureV>(
            FailureV::Stream { message: "stream error: "@ + written(e) },
        ),
        field(v, "error"@) is None ==> match field(v, "choices"@) {
            Some(JsonV::Array(choices)) => match choices_read(choices) {
                Ok((text, calls)) => {
                    &&& delta_of(v) is Ok
                    &&& text.len() > 0 ==> (delta_of(v)->Ok_0 matches Some(d) && d.text == Some(text))
                    &&& calls.len() > 0 ==> (delta_of(v)->Ok_0 matches Some(d) && d.tool_calls
                        == calls)
                    &&& delta_of(v)->Ok_0 matches Some(d) ==> d.usage == usage_in(v)
                    &&& usage_in(v) is Some ==> delta_of(v)->Ok_0 is Some
                },
                Err(e) => delta_of(v) == Err::<Option<SseDeltaV>, FailureV>(
                    FailureV::Stream { message: e },
                ),
            },
            _ => true,
        },
{
}

/// The usage is what the value counts.
pub proof fn law_usage_is_read(v: JsonV, u: JsonV, prompt: nat, completion: nat)
    requires
        field(v, "usage"@) == Some(u),
        u is Object,
        number_in(inside(u, "prompt_tokens"@)) == Some(prompt),
        number_in(inside(u, "completion_tokens"@)) == Some(completion),
        prompt <= u32::MAX,
        completion <= u32::MAX,
    ensures
        usage_in(v) is Some,
        usage_in(v)->0.prompt == prompt,
        usage_in(v)->0.completion == completion,
{
}

/// The stream is read line by line. A line that brings something is taken once its
/// end has come, and nothing behind it with it; a line that brings nothing is passed
/// over; without the end of a line, more is waited for, and nothing is lost.
pub proof fn law_stream_is_read_by_lines(line: Seq<char>, rest: Seq<char>, ended: bool)
    requires
        !line.contains('\n'),
    ensures
        next_of(line, false) == (NextV::NeedMore, line),
        match line_outcome(line) {
            Some(Ok(Some(d))) => next_of(line + seq!['\n'] + rest, ended) == (
                NextV::Delta(d),
                rest,
            ),
            Some(Ok(None)) => next_of(line + seq!['\n'] + rest, ended) == next_of(rest, ended),
            Some(Err(e)) => next_of(line + seq!['\n'] + rest, ended) == (NextV::Failed(e), rest),
            None => next_of(line + seq!['\n'] + rest, ended) == (NextV::Finished, rest),
        },
        trimmed(line).len() > 0 ==> match line_outcome(line) {
            Some(Ok(Some(d))) => next_of(line, true).0 == NextV::Delta(d),
            Some(Err(e)) => next_of(line, true).0 == NextV::Failed(e),
            _ => next_of(line, true).0 == NextV::Finished,
        },
{
    let n = seq!['\n'];
    let all = line + n + rest;
    let at = line.len() as int;
    lemma_found(all, n, 0);
    lemma_found(line, n, 0);
    assert(all.subrange(at, at + 1) =~= n);
    assert(occurs_at(all, n, at));
    assert forall|j: int| 0 <= j < at implies !#[trigger] occurs_at(all, n, j) by {
        if occurs_at(all, n, j) {
            assert(all.subrange(j, j + 1)[0] == '\n');
            assert(line[j] == '\n');
        }
    }
    assert forall|j: int| 0 <= j implies !#[trigger] occurs_at(line, n, j) by {
        if occurs_at(line, n, j) {
            assert(line.subrange(j, j + 1)[0] == '\n');
            assert(line[j] == '\n');
        }
    }
    assert(crate::text::found_from(all, n, 0) == Some(at));
    assert(all.take(at) =~= line);
    assert(all.skip(at + 1) =~= rest);
}

/// A line of data brings what its data says, with or without a blank before it; the
/// end mark ends the stream, and a line of anything else brings nothing.
pub proof fn law_data_lines_bring_their_data(data: Seq<char>, line: Seq<char>)
    requires
        data.len() > 0,
        !is_space(data[0]),
        !is_space(data.last()),
        !begins(line, "data:"@),
    ensures
        data == "[DONE]"@ ==> line_outcome("data: "@ + data) is None,
        data != "[DONE]"@ ==> line_outcome("data: "@ + data) == Some(data_outcome(data)),
        line_outcome(line) == Some(Ok::<Option<SseDeltaV>, FailureV>(None)),
{
    reveal_strlit("data: ");
    reveal_strlit("data:");
    let whole = "data: "@ + data;
    let blank = seq![' '] + data;
    assert(whole.last() == data.last());
    assert(without_line_end(whole) == whole);
    assert(whole.subrange(0, "data:"@.len() as int) =~= "data:"@);
    assert(whole.skip("data:"@.len() as int) =~= blank);
    assert(blank.drop_first() =~= data);
    assert(trim_start(data) == data);
    assert(trim_start(blank) == data);
    assert(trimmed(blank) == data);
    let cut = without_line_end(line);
    lemma_line_end_is_cut(line);
    if begins(cut, "data:"@) {
        assert(line.subrange(0, "data:"@.len() as int) =~= cut.subrange(0, "data:"@.len() as int));
    }
}

proof fn lemma_line_end_is_cut(line: Seq<char>)
    ensures
        without_line_end(line).len() <= line.len(),
        without_line_end(line) == line.take(without_line_end(line).len() as int),
    decreases line.len(),
{
    if line.len() > 0 && (line.last() == '\r' || line.last() == '\n') {
        lemma_line_end_is_cut(line.drop_last());
        let n = without_line_end(line).len() as int;
        assert(line.drop_last().take(n) =~= line.take(n));
    } else {
        assert(line.take(line.len() as int) =~= line);
    }
}

/// A failure tells what it was.
pub proof fn law_failures_tell_what_they_were(f: FailureV)
    ensures
        match f {
            FailureV::Network { connect, timeout, message } => ends(failure_text(f), message) && (
            retryable(f) <==> connect || timeout),
            FailureV::Status { status, line, message } => begins(failure_text(f), line) && ends(
                failure_text(f),
                message,
            ),
            FailureV::Malformed { error, content } => ends(failure_text(f), content) && holds(
                failure_text(f),
                error,
            ) && !retryable(f),
            FailureV::Stream { message } => ends(failure_text(f), message) && !retryable(f),
        },
{
    let t = failure_text(f);
    match f {
        FailureV::Network { connect, timeout, message } => {
            assert(t.subrange(t.len() - message.len(), t.len() as int) =~= message);
        },
        FailureV::Status { status, line, message } => {
            assert(t.subrange(0, line.len() as int) =~= line);
            assert(t.subrange(t.len() - message.len(), t.len() as int) =~= message);
        },
        FailureV::Malformed { error, content } => {
            let at = "failed to deserialize api response: error:"@.len() as int;
            assert(t.subrange(at, at + error.len()) =~= error);
            assert(occurs_at(t, error, at));
            assert(t.subrange(t.len() - content.len(), t.len() as int) =~= content);
        },
        FailureV::Stream { message } => {
            assert(t.subrange(t.len() - message.len(), t.len() as int) =~= message);
        },
    }
}

/// The window that is listed for a model is that of its own entry, the first of its
/// name, under either name.
pub proof fn law_window_is_the_models_own(items: Seq<JsonV>, reply: JsonV, model: Seq<char>, i: int)
    requires
        field(reply, "data"@) == Some(JsonV::Array(items)),
    ensures
        0 <= i < items.len() && field(items[i], "id"@) == Some(JsonV::Str(model)) && (forall|j: int|
            0 <= j < i ==> field(#[trigger] items[j], "id"@) != Some(JsonV::Str(model))) ==> {
            &&& number_in(inside(items[i], "context_window"@)) matches Some(n) ==> listed_window(
                reply,
                model,
            ) == Some(n)
            &&& number_in(inside(items[i], "context_window"@)) is None ==> listed_window(
                reply,
                model,
            ) == number_in(inside(items[i], "context_length"@))
        },
        (forall|j: int|
            0 <= j < items.len() ==> field(#[trigger] items[j], "id"@) != Some(JsonV::Str(model)))
            ==> listed_window(reply, model) is None,
{
    if 0 <= i < items.len() && field(items[i], "id"@) == Some(JsonV::Str(model)) && (forall|j: int|
        0 <= j < i ==> field(#[trigger] items[j], "id"@) != Some(JsonV::Str(model))) {
        lemma_entry(items, model, i);
    }
    if forall|j: int|
        0 <= j < items.len() ==> field(#[trigger] items[j], "id"@) != Some(JsonV::Str(model)) {
        lemma_no_entry(items, model);
    }
}

proof fn lemma_no_entry(items: Seq<JsonV>, model: Seq<char>)
    requires
        forall|j: int|
            0 <= j < items.len() ==> field(#[trigger] items[j], "id"@) != Some(JsonV::Str(model)),
    ensures
        entry_of(items, model) is None,
    decreases items.len(),
{
    if items.len() > 0 {
        let front = items.drop_last();
        assert forall|j: int| 0 <= j < front.len() implies field(#[trigger] front[j], "id"@) != Some(
            JsonV::Str(model),
        ) by {
            assert(front[j] == items[j]);
        }
        lemma_no_entry(front, model);
        assert(field(items[items.len() - 1], "id"@) != Some(JsonV::Str(model)));
    }
}

proof fn lemma_entry(items: Seq<JsonV>, model: Seq<char>, i: int)
    requires
        0 <= i < items.len(),
        field(items[i], "id"@) == Some(JsonV::Str(model)),
        forall|j: int|
            0 <= j < i ==> field(#[trigger] items[j], "id"@) != Some(JsonV::Str(model)),
    ensures
        entry_of(items, model) == Some(items[i]),
    decreases items.len(),
{
    let front = items.drop_last();
    if i < items.len() - 1 {
        assert forall|j: int| 0 <= j < i implies field(#[trigger] front[j], "id"@) != Some(
            JsonV::Str(model),
        ) by {
            assert(front[j] == items[j]);
        }
        lemma_entry(front, model, i);
    } else {
        assert forall|j: int| 0 <= j < front.len() implies field(#[trigger] front[j], "id"@) != Some(
            JsonV::Str(model),
        ) by {
            assert(front[j] == items[j]);
        }
        lemma_no_entry(front, model);
    }
}

/// A larger budget never means less effort, and none at all means the least.
pub proof fn law_effort_grows_with_the_budget(a: u32, b: u32)
    requires
        a <= b,
    ensures
        effort_of(None) == ReasoningEffort::Minimal,
        effort_of(Some(a)) != ReasoningEffort::Minimal,
        effort_of(Some(a)) == ReasoningEffort::Xhigh ==> effort_of(Some(b))
            == ReasoningEffort::Xhigh,
        effort_of(Some(b)) == ReasoningEffort::Low ==> effort_of(Some(a)) == ReasoningEffort::Low,
        effort_of(Some(a)) == ReasoningEffort::Low <==> a <= 8000,
        effort_of(Some(a)) == ReasoningEffort::Xhigh <==> a > 16000,
{
}

/// Where the stream is cut into pieces does not matter: a line that is not complete waits
/// for the rest of it, and one that is complete is taken whatever comes behind it.
pub proof fn law_chunks_may_break_anywhere(a: Seq<char>, b: Seq<char>, ended: bool)
    ensures
        next_of(a, false).0 is NeedMore ==> next_of(a + b, ended) == next_of(
            next_of(a, false).1 + b,
            ended,
        ),
        !(next_of(a, false).0 is NeedMore) ==> next_of(a + b, ended) == (
            next_of(a, false).0,
            next_of(a, false).1 + b,
        ),
    decreases a.len(),
{
    match parted(a, '\n') {
        Some((line, rest)) => {
            law_parting_cuts_at_the_first(a, '\n');
            lemma_found(a, seq!['\n'], 0);
            assert(a + b =~= line + seq!['\n'] + (rest + b));
            law_stream_is_read_by_lines(line, rest + b, ended);
            law_stream_is_read_by_lines(line, rest, false);
            assert(a =~= line + seq!['\n'] + rest);
            law_chunks_may_break_anywhere(rest, b, ended);
        },
        None => {},
    }
}

/// What a delta counted is reported, the prompt, the part of it that was cached and the
/// reply, and its text behind it; a delta without either reports nothing.
pub proof fn law_deltas_are_reported(d: SseDeltaV, window: u32)
    ensures
        ({
            let r = delta_reports(d, window);
            &&& d.usage matches Some(u) ==> r[0] is ContextUsage && r[0]->used_tokens == u.prompt
                && r[0]->context_window == window && r[0]->output_tokens == u.completion && (
            u.cached <= u32::MAX ==> r[0]->cached_tokens == u.cached)
            &&& d.text matches Some(t) ==> r.last() == EventV::TextChunk(t)
            &&& r.len() == (if d.usage is Some {
                1int
            } else {
                0
            }) + (if d.text is Some {
                1int
            } else {
                0
            })
        }),
{
}

/// A reply that is refused is told by the provider's own words, or by its body without the
/// secrets; its status stays.
pub proof fn law_refusals_keep_the_words(
    status: u16,
    line: Seq<char>,
    body: Seq<char>,
    error: Option<Seq<char>>,
    secrets: Seq<Seq<char>>,
)
    ensures
        ({
            let f = refused(status, line, body, error, secrets);
            &&& f is Status
            &&& f->status == status
            &&& f->line == line
            &&& error matches Some(t) ==> f->Status_message == t
            &&& error is None ==> f->Status_message == redacted(body, secrets)
        }),
{
}

} // verus!
