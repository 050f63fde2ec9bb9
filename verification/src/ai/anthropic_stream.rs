//! The stream of an Anthropic reply: its events, its errors, and what follows
//! from each way it can end.
use vstd::prelude::*;
use crate::agent::turn::unicode_lower;
use crate::agent::TurnResult;
use crate::ai::assembly::{
    assemble, call_with, finished_turn, get_call, in_order, law_calls_stay_in_order,
    law_other_calls_stay, law_put_call_is_found, law_turn_holds_what_was_delivered, partials,
    put_call, text_turn, turn_of_text, with_call, PartialCall, PartialV,
};
use crate::ai::{
    after_attempt, backoff, backoff_secs, low32, next_attempt, retryable_status, to_u32,
    is_retryable_status, NextAttempt, MAX_ATTEMPTS,
};
use crate::json::{field, inside, parsed_json, text_field, whole_field, Json, JsonV};
use crate::text::{
    begins, cat2, cat4, cat5, cat6, contains, decimal, ends, holds, law_numbers_are_read_back,
    law_parting_cuts_at_the_first, lemma_found, number, occurs_at, parse_number, parsed_number,
    parted, put, same, split_once, strip_prefix, stripped, trim, trim_trailing, trimmed,
    without_trailing,
};
use crate::types::{event_views, AgentEvent, BlockV, EventV, TokenUsage};

verus! {

// ------------------------------------------------------------ the state

/// What the stream of a turn has delivered so far.
#[derive(Debug)]
pub struct AnthropicTurn {
    pub text: String,
    pub thinking: String,
    pub calls: Vec<PartialCall>,
    pub usage: TokenUsage,
    /// What came behind the last end of a line.
    pub buffer: String,
}

/// What an [`AnthropicTurn`] stands for, but for its buffer.
pub struct StreamV {
    pub text: Seq<char>,
    pub thinking: Seq<char>,
    pub calls: Seq<PartialV>,
    pub usage: TokenUsage,
}

impl View for AnthropicTurn {
    type V = StreamV;

    open spec fn view(&self) -> StreamV {
        StreamV {
            text: self.text@,
            thinking: self.thinking@,
            calls: partials(self.calls@),
            usage: self.usage,
        }
    }
}

// ------------------------------------------------------------ events

/// The size of the prompt that a usage record gives: what was not cached, what
/// was read from the cache and what was written to it.
pub open spec fn prompt_size(tokens: nat, u: JsonV) -> u32 {
    low32(
        tokens + count_in(u, "cache_read_input_tokens"@) + count_in(
            u,
            "cache_creation_input_tokens"@,
        ),
    )
}

/// The number in a field; zero where there is none.
pub open spec fn count_in(u: JsonV, key: Seq<char>) -> nat {
    match whole_field(u, key) {
        Some(n) => n,
        None => 0,
    }
}

fn count_at(u: &Json, key: &str) -> (r: u64)
    ensures
        r == count_in(u@, key@),
{
    match u.u64_at(key) {
        Some(n) => n,
        None => 0,
    }
}

fn prompt_total(tokens: u64, u: &Json) -> (r: u32)
    ensures
        r == prompt_size(tokens as nat, u@),
{
    let read: u64 = count_at(u, "cache_read_input_tokens");
    let written: u64 = count_at(u, "cache_creation_input_tokens");
    let sum: u128 = tokens as u128 + read as u128 + written as u128;
    (sum % 0x1_0000_0000) as u32
}

/// The report on the prompt of a turn.
pub open spec fn usage_report(tokens: nat, u: JsonV, output: u32, window: u32) -> EventV {
    EventV::ContextUsage {
        used_tokens: prompt_size(tokens, u),
        context_window: window,
        cached_tokens: low32(count_in(u, "cache_read_input_tokens"@)),
        output_tokens: output,
    }
}

fn report_usage(tokens: u64, u: &Json, output: u32, window: u32) -> (r: AgentEvent)
    ensures
        r@ == usage_report(tokens as nat, u@, output, window),
{
    AgentEvent::ContextUsage {
        used_tokens: prompt_total(tokens, u),
        context_window: window,
        cached_tokens: to_u32(count_at(u, "cache_read_input_tokens")),
        output_tokens: output,
    }
}

/// The text in a field; the empty text where there is none.
pub open spec fn text_or_empty(v: JsonV, key: Seq<char>) -> Seq<char> {
    match text_field(v, key) {
        Some(t) => t,
        None => Seq::empty(),
    }
}

fn text_at(v: &Json, key: &str) -> (r: String)
    ensures
        r@ == text_or_empty(v@, key@),
{
    match v.str_at(key) {
        Some(t) => t.to_owned(),
        None => String::new(),
    }
}

/// The state and the report after a message starts.
pub open spec fn message_started(s: StreamV, ev: JsonV, window: u32) -> (StreamV, Option<EventV>) {
    let u = inside(inside(ev, "message"@), "usage"@);
    match whole_field(u, "input_tokens"@) {
        Some(t) => (
            StreamV { usage: TokenUsage { input: prompt_size(t, u), ..s.usage }, ..s },
            Some(usage_report(t, u, s.usage.output, window)),
        ),
        None => (s, None),
    }
}

/// The state and the report after a message's final counts. Some endpoints give
/// the size of the prompt only here.
pub open spec fn message_counted(s: StreamV, ev: JsonV, window: u32) -> (StreamV, Option<EventV>) {
    let u = inside(ev, "usage"@);
    let output = match whole_field(u, "output_tokens"@) {
        Some(n) => low32(n),
        None => s.usage.output,
    };
    let counted = TokenUsage { output, ..s.usage };
    match whole_field(u, "input_tokens"@) {
        Some(t) => if t > 0 {
            (
                StreamV { usage: TokenUsage { input: prompt_size(t, u), ..counted }, ..s },
                Some(usage_report(t, u, output, window)),
            )
        } else {
            (StreamV { usage: counted, ..s }, None)
        },
        None => (StreamV { usage: counted, ..s }, None),
    }
}

/// The state and the report after a block starts: a tool call is opened, or
/// thinking begins.
pub open spec fn block_started(s: StreamV, ev: JsonV) -> (StreamV, Option<EventV>) {
    let block = inside(ev, "content_block"@);
    let kind = text_field(block, "type"@);
    if kind == Some("tool_use"@) {
        (
            StreamV {
                calls: with_call(
                    s.calls,
                    PartialV {
                        index: count_in(ev, "index"@),
                        id: text_or_empty(block, "id"@),
                        name: text_or_empty(block, "name"@),
                        arguments: Seq::empty(),
                    },
                ),
                ..s
            },
            None,
        )
    } else if kind == Some("thinking"@) {
        (s, Some(EventV::ThinkingStart))
    } else {
        (s, None)
    }
}

/// The state and the report after a piece of a block: text, thinking, or a piece
/// of the arguments of an open call.
pub open spec fn block_grown(s: StreamV, ev: JsonV) -> (StreamV, Option<EventV>) {
    let delta = inside(ev, "delta"@);
    let kind = text_field(delta, "type"@);
    if kind == Some("text_delta"@) {
        match text_field(delta, "text"@) {
            Some(t) => (StreamV { text: s.text + t, ..s }, Some(EventV::TextChunk(t))),
            None => (s, None),
        }
    } else if kind == Some("thinking_delta"@) {
        match text_field(delta, "thinking"@) {
            Some(t) => (StreamV { thinking: s.thinking + t, ..s }, Some(EventV::ThinkingChunk(t))),
            None => (s, None),
        }
    } else if kind == Some("input_json_delta"@) {
        match (
            text_field(delta, "partial_json"@),
            call_with(s.calls, count_in(ev, "index"@)),
        ) {
            (Some(t), Some(c)) => (
                StreamV {
                    calls: with_call(s.calls, PartialV { arguments: c.arguments + t, ..c }),
                    ..s
                },
                None,
            ),
            _ => (s, None),
        }
    } else {
        (s, None)
    }
}

/// The state and the report after an event of the stream.
pub open spec fn stream_step(s: StreamV, ev: JsonV, window: u32) -> (StreamV, Option<EventV>) {
    let kind = text_field(ev, "type"@);
    if kind == Some("message_start"@) {
        message_started(s, ev, window)
    } else if kind == Some("message_delta"@) {
        message_counted(s, ev, window)
    } else if kind == Some("content_block_start"@) {
        block_started(s, ev)
    } else if kind == Some("content_block_delta"@) {
        block_grown(s, ev)
    } else {
        (s, None)
    }
}

fn is_kind(kind: Option<&str>, name: &str) -> (b: bool)
    ensures
        b == (kind is Some && kind->0@ == name@),
{
    match kind {
        Some(k) => same(k, name),
        None => false,
    }
}

/// What an optional event stands for.
pub open spec fn event_option(e: Option<AgentEvent>) -> Option<EventV> {
    match e {
        Some(e) => Some(e@),
        None => None,
    }
}

impl AnthropicTurn {
    /// Nothing delivered yet.
    pub fn new() -> (t: AnthropicTurn)
        ensures
            t@ == (StreamV {
                text: Seq::empty(),
                thinking: Seq::empty(),
                calls: Seq::empty(),
                usage: TokenUsage { input: 0, output: 0 },
            }),
            t.buffer@ == Seq::<char>::empty(),
    {
        let t = AnthropicTurn {
            text: String::new(),
            thinking: String::new(),
            calls: Vec::new(),
            usage: TokenUsage::none(),
            buffer: String::new(),
        };
        assert(partials(t.calls@) =~= Seq::empty());
        t
    }

    /// Starts over for another attempt: what was delivered is dropped, the last
    /// known usage stays.
    pub fn restart(&mut self)
        ensures
            final(self)@ == (StreamV {
                text: Seq::empty(),
                thinking: Seq::empty(),
                calls: Seq::empty(),
                usage: old(self).usage,
            }),
            final(self).buffer@ == Seq::<char>::empty(),
    {
        self.text = String::new();
        self.thinking = String::new();
        self.calls = Vec::new();
        self.buffer = String::new();
        assert(partials(self.calls@) =~= Seq::empty());
    }

    /// Takes an event of the stream; see [`stream_step`].
    pub fn handle_event(&mut self, ev: &Json, context_window: u32) -> (r: Option<AgentEvent>)
        ensures
            (final(self)@, event_option(r)) == stream_step(old(self)@, ev@, context_window),
            final(self).buffer == old(self).buffer,
    {
        let kind = ev.str_at("type");
        if is_kind(kind, "message_start") {
            let u = ev.at("message").at("usage");
            match u.u64_at("input_tokens") {
                Some(t) => {
                    self.usage = TokenUsage { input: prompt_total(t, u), output: self.usage.output };
                    Some(report_usage(t, u, self.usage.output, context_window))
                },
                None => None,
            }
        } else if is_kind(kind, "message_delta") {
            let u = ev.at("usage");
            if let Some(n) = u.u64_at("output_tokens") {
                self.usage = TokenUsage { input: self.usage.input, output: to_u32(n) };
            }
            match u.u64_at("input_tokens") {
                Some(t) => {
                    if t > 0 {
                        self.usage = TokenUsage {
                            input: prompt_total(t, u),
                            output: self.usage.output,
                        };
                        Some(report_usage(t, u, self.usage.output, context_window))
                    } else {
                        None
                    }
                },
                None => None,
            }
        } else if is_kind(kind, "content_block_start") {
            let block = ev.at("content_block");
            let block_kind = block.str_at("type");
            if is_kind(block_kind, "tool_use") {
                let c = PartialCall {
                    index: count_at(ev, "index"),
                    id: text_at(block, "id"),
                    name: text_at(block, "name"),
                    arguments: String::new(),
                };
                assert(c.arguments@ =~= Seq::<char>::empty());
                put_call(&mut self.calls, c);
                None
            } else if is_kind(block_kind, "thinking") {
                Some(AgentEvent::ThinkingStart)
            } else {
                None
            }
        } else if is_kind(kind, "content_block_delta") {
            let delta = ev.at("delta");
            let delta_kind = delta.str_at("type");
            if is_kind(delta_kind, "text_delta") {
                match delta.str_at("text") {
                    Some(t) => {
                        put(&mut self.text, t);
                        Some(AgentEvent::TextChunk(t.to_owned()))
                    },
                    None => None,
                }
            } else if is_kind(delta_kind, "thinking_delta") {
                match delta.str_at("thinking") {
                    Some(t) => {
                        put(&mut self.thinking, t);
                        Some(AgentEvent::ThinkingChunk(t.to_owned()))
                    },
                    None => None,
                }
            } else if is_kind(delta_kind, "input_json_delta") {
                if let Some(t) = delta.str_at("partial_json") {
                    if let Some(c) = get_call(&self.calls, count_at(ev, "index")) {
                        let grown = PartialCall {
                            index: c.index,
                            id: c.id.clone(),
                            name: c.name.clone(),
                            arguments: cat2(c.arguments.as_str(), t),
                        };
                        put_call(&mut self.calls, grown);
                    }
                }
                None
            } else {
                None
            }
        } else {
            None
        }
    }
}

// ------------------------------------------------------------ errors

/// An error of the stream is worth another attempt: the server is overloaded or
/// the network failed, and no quota is used up.
pub open spec fn transient(error: JsonV, message: Seq<char>) -> bool {
    let kind = text_or_empty(error, "type"@);
    let code = text_or_empty(error, "code"@);
    !(code == "1308"@ || holds(message, "usage limit"@) || holds(message, "quota"@)) && (kind
        == "overloaded_error"@ || kind == "api_error"@ || code == "1234"@ || holds(
        message,
        "network error"@,
    ))
}

/// Decides [`transient`]; the message is given in lower case.
pub fn is_transient(error: &Json, message: &str) -> (b: bool)
    ensures
        b == transient(error@, message@),
{
    let kind = text_at(error, "type");
    let code = text_at(error, "code");
    if same(code.as_str(), "1308") || contains(message, "usage limit") || contains(
        message,
        "quota",
    ) {
        return false;
    }
    same(kind.as_str(), "overloaded_error") || same(kind.as_str(), "api_error") || same(
        code.as_str(),
        "1234",
    ) || contains(message, "network error")
}

/// An error event is worth another attempt; see [`transient`].
pub open spec fn retryable_event(ev: JsonV) -> bool {
    let error = inside(ev, "error"@);
    transient(error, unicode_lower(text_or_empty(error, "message"@)))
}

/// Decides [`retryable_event`].
pub fn stream_error_retryable(ev: &Json) -> (b: bool)
    ensures
        b == retryable_event(ev@),
{
    let error = ev.at("error");
    let message = text_at(error, "message");
    let lower = message.as_str().to_lowercase();
    is_transient(error, lower.as_str())
}

/// How a stream ended.
#[derive(Debug)]
pub enum StreamEnd {
    /// It is complete.
    Done,
    /// It failed in a way that is worth another attempt.
    Retry(String),
    /// It failed for good.
    Fatal(String),
}

/// What a [`StreamEnd`] stands for.
pub enum EndV {
    Done,
    Retry(Seq<char>),
    Fatal(Seq<char>),
}

impl View for StreamEnd {
    type V = EndV;

    open spec fn view(&self) -> EndV {
        match self {
            StreamEnd::Done => EndV::Done,
            StreamEnd::Retry(m) => EndV::Retry(m@),
            StreamEnd::Fatal(m) => EndV::Fatal(m@),
        }
    }
}

/// What an optional end stands for.
pub open spec fn end_option(e: Option<StreamEnd>) -> Option<EndV> {
    match e {
        Some(e) => Some(e@),
        None => None,
    }
}

/// The end that an error event means.
pub open spec fn error_end(ev: JsonV) -> EndV {
    let full = "Anthropic API stream error: "@ + (match text_field(
        inside(ev, "error"@),
        "message"@,
    ) {
        Some(m) => m,
        None => "unknown error"@,
    });
    if retryable_event(ev) {
        EndV::Retry(full)
    } else {
        EndV::Fatal(full)
    }
}

fn end_of_error(ev: &Json) -> (r: StreamEnd)
    ensures
        r@ == error_end(ev@),
{
    let message = match ev.at("error").str_at("message") {
        Some(m) => m.to_owned(),
        None => "unknown error".to_owned(),
    };
    let full = cat2("Anthropic API stream error: ", message.as_str());
    if stream_error_retryable(ev) {
        StreamEnd::Retry(full)
    } else {
        StreamEnd::Fatal(full)
    }
}

// ------------------------------------------------------------ lines

/// The state, the report and the end after a line of the stream.
pub open spec fn line_step(s: StreamV, line: Seq<char>, window: u32) -> (
    StreamV,
    Option<EventV>,
    Option<EndV>,
) {
    match stripped(without_trailing(line, '\r'), "data: "@) {
        Some(data) => if data == "[DONE]"@ {
            (s, None, Some(EndV::Done))
        } else {
            match parsed_json(data) {
                Some(ev) => if text_field(ev, "type"@) == Some("error"@) {
                    (s, None, Some(error_end(ev)))
                } else {
                    let (after, report) = stream_step(s, ev, window);
                    (after, report, None)
                },
                None => (s, None, None),
            }
        },
        None => (s, None, None),
    }
}

/// The reports with one more behind them, where there is one.
pub open spec fn with_report(reports: Seq<EventV>, r: Option<EventV>) -> Seq<EventV> {
    match r {
        Some(e) => reports.push(e),
        None => reports,
    }
}

/// What some text of a stream makes of the state: the whole lines in it are
/// taken one by one, until one ends the stream; what follows the last end of a
/// line is left.
pub struct Fed {
    pub state: StreamV,
    pub reports: Seq<EventV>,
    pub rest: Seq<char>,
    pub end: Option<EndV>,
}

/// See [`Fed`].
pub open spec fn fed(s: StreamV, reports: Seq<EventV>, buffer: Seq<char>, window: u32) -> Fed
    decreases buffer.len(),
{
    match parted(buffer, '\n') {
        Some((line, rest)) => {
            proof {
                lemma_found(buffer, seq!['\n'], 0);
            }
            let (after, report, end) = line_step(s, line, window);
            if end is Some {
                Fed { state: after, reports: with_report(reports, report), rest, end }
            } else {
                fed(after, with_report(reports, report), rest, window)
            }
        },
        None => Fed { state: s, reports, rest: buffer, end: None },
    }
}

impl AnthropicTurn {
    fn take_line(&mut self, line: &str, context_window: u32) -> (r: (
        Option<AgentEvent>,
        Option<StreamEnd>,
    ))
        ensures
            (final(self)@, event_option(r.0), end_option(r.1)) == line_step(
                old(self)@,
                line@,
                context_window,
            ),
            final(self).buffer == old(self).buffer,
    {
        let raw = trim_trailing(line, '\r');
        match strip_prefix(raw.as_str(), "data: ") {
            Some(data) => {
                if same(data.as_str(), "[DONE]") {
                    return (None, Some(StreamEnd::Done));
                }
                match Json::parse(data.as_str()) {
                    Some(ev) => {
                        if is_kind(ev.str_at("type"), "error") {
                            let end = end_of_error(&ev);
                            return (None, Some(end));
                        }
                        let report = self.handle_event(&ev, context_window);
                        (report, None)
                    },
                    None => (None, None),
                }
            },
            None => (None, None),
        }
    }

    /// Takes the next text of the stream; see [`fed`]. Returns the reports, and
    /// how the stream ended, where it did.
    pub fn feed(&mut self, chunk: &str, context_window: u32) -> (r: (
        Vec<AgentEvent>,
        Option<StreamEnd>,
    ))
        ensures
            fed(old(self)@, Seq::empty(), old(self).buffer@ + chunk@, context_window) == (Fed {
                state: final(self)@,
                reports: event_views(r.0@),
                rest: final(self).buffer@,
                end: end_option(r.1),
            }),
    {
        let ghost start = self@;
        let ghost whole = self.buffer@ + chunk@;
        let mut rest = cat2(self.buffer.as_str(), chunk);
        let mut reports: Vec<AgentEvent> = Vec::new();
        assert(event_views(reports@) =~= Seq::empty());
        loop
            invariant
                fed(start, Seq::empty(), whole, context_window) == fed(
                    self@,
                    event_views(reports@),
                    rest@,
                    context_window,
                ),
                start == old(self)@,
                whole == old(self).buffer@ + chunk@,
            decreases rest@.len(),
        {
            proof {
                lemma_found(rest@, seq!['\n'], 0);
            }
            match split_once(rest.as_str(), '\n') {
                Some((line, behind)) => {
                    let ghost before = event_views(reports@);
                    let (report, end) = self.take_line(line.as_str(), context_window);
                    if let Some(e) = report {
                        let ghost ev = e@;
                        reports.push(e);
                        assert(event_views(reports@) =~= before.push(ev));
                    }
                    rest = behind;
                    if end.is_some() {
                        self.buffer = rest;
                        return (reports, end);
                    }
                },
                None => {
                    self.buffer = rest;
                    return (reports, None);
                },
            }
        }
    }

    /// The turn that a complete stream gives.
    pub fn finish(self) -> (r: TurnResult)
        ensures
            r@ == finished_turn(self@.thinking, self@.text, self@.calls, self@.usage),
    {
        assemble(self.thinking, self.text, &self.calls, self.usage)
    }

    /// The turn that a cancelled stream gives: the text so far.
    pub fn cancel(self) -> (r: TurnResult)
        ensures
            r@ == text_turn(self@.text, self@.usage),
    {
        turn_of_text(self.text, self.usage)
    }
}

// ------------------------------------------------------------ attempts

/// A wait that the server asks for and that is longer than this many seconds
/// means a limit that no short wait gets round.
pub const RETRY_AFTER_CAP_SECS: u64 = 120;

/// What follows from the status of a reply.
#[derive(Clone, Copy, Debug, PartialEq, Eq, Structural)]
pub enum StatusStep {
    /// Read the stream.
    Stream,
    /// Wait this many seconds, then send again.
    Wait(u64),
    /// Give up a failure that was worth other attempts.
    Exhausted,
    /// Give up at once.
    Refused,
}

/// What follows from the status of the reply to the given attempt, and from the
/// wait that it asks for.
pub open spec fn status_step(status: u16, retry_after: Option<u64>, attempt: u32) -> StatusStep {
    if retryable_status(status) {
        if (retry_after matches Some(s) && s > RETRY_AFTER_CAP_SECS) || attempt >= MAX_ATTEMPTS {
            StatusStep::Exhausted
        } else {
            match retry_after {
                Some(s) => StatusStep::Wait(s),
                None => StatusStep::Wait(backoff(attempt as nat) as u64),
            }
        }
    } else if 200 <= status < 300 {
        StatusStep::Stream
    } else {
        StatusStep::Refused
    }
}

/// Computes [`status_step`].
pub fn after_status(status: u16, retry_after: Option<u64>, attempt: u32) -> (r: StatusStep)
    ensures
        r == status_step(status, retry_after, attempt),
{
    if is_retryable_status(status) {
        let long = match retry_after {
            Some(s) => s > RETRY_AFTER_CAP_SECS,
            None => false,
        };
        if long || attempt >= MAX_ATTEMPTS {
            return StatusStep::Exhausted;
        }
        match retry_after {
            Some(s) => StatusStep::Wait(s),
            None => StatusStep::Wait(backoff_secs(attempt)),
        }
    } else if 200 <= status && status < 300 {
        StatusStep::Stream
    } else {
        StatusStep::Refused
    }
}

/// The message of a reply that is given up; the body has its secrets taken out.
pub fn status_error(status: u16, step: StatusStep, attempt: u32, body: &str) -> (r: String)
    ensures
        r@ == (if step == StatusStep::Exhausted {
            "Anthropic API error "@ + decimal(status as nat) + " (after "@ + decimal(
                attempt as nat,
            ) + " attempts): "@ + body@
        } else {
            "Anthropic API error "@ + decimal(status as nat) + ": "@ + body@
        }),
{
    let code = number(status as u64);
    if step == StatusStep::Exhausted {
        cat6(
            "Anthropic API error ",
            code.as_str(),
            " (after ",
            number(attempt as u64).as_str(),
            " attempts): ",
            body,
        )
    } else {
        cat4("Anthropic API error ", code.as_str(), ": ", body)
    }
}

/// What follows from the end of a stream: another attempt, or none.
pub open spec fn end_step(end: EndV, attempt: u32) -> NextAttempt {
    after_attempt(end is Retry, attempt)
}

/// Computes [`end_step`].
pub fn after_end(end: &StreamEnd, attempt: u32) -> (r: NextAttempt)
    ensures
        r == end_step(end@, attempt),
{
    match end {
        StreamEnd::Retry(_) => next_attempt(true, attempt),
        _ => next_attempt(false, attempt),
    }
}

/// The error that a stream which is given up reports; none where it is complete.
pub fn end_error(end: &StreamEnd) -> (r: Option<String>)
    ensures
        match (r, end@) {
            (Some(m), EndV::Retry(t)) => m@ == t + " (after 5 attempts)"@,
            (Some(m), EndV::Fatal(t)) => m@ == t,
            (None, EndV::Done) => true,
            _ => false,
        },
{
    match end {
        StreamEnd::Done => None,
        StreamEnd::Retry(m) => Some(cat2(m.as_str(), " (after 5 attempts)")),
        StreamEnd::Fatal(m) => Some(m.clone()),
    }
}

/// How many whole seconds there are from a moment, in seconds and nanoseconds of
/// the Unix time, to a date in the notation of mail headers, as the `chrono`
/// crate reads it; `None` where it reads no date, or where the moment is none.
pub uninterp spec fn seconds_until(date: Seq<char>, secs: int, nanos: nat) -> Option<int>;

/// Calls `chrono::DateTime::parse_from_rfc2822`, and
/// `DateTime::signed_duration_since` with the moment that
/// `DateTime::from_timestamp` gives. The result depends on the arguments alone.
#[verifier::external_body]
fn time_until(date: &str, secs: i64, nanos: u32) -> (r: Option<i64>)
    ensures
        match r {
            Some(n) => seconds_until(date@, secs as int, nanos as nat) == Some(n as int),
            None => seconds_until(date@, secs as int, nanos as nat) is None,
        },
{
    let moment = chrono::DateTime::from_timestamp(secs, nanos)?;
    let date = chrono::DateTime::parse_from_rfc2822(date).ok()?;
    Some(date.signed_duration_since(moment).num_seconds())
}

/// The wait that a header asks for: a number of seconds, or the seconds until a
/// date, which are none where it has passed.
pub open spec fn asked_wait(header: Seq<char>, until: Option<int>) -> Option<nat> {
    match parsed_number(trimmed(header), u64::MAX as nat) {
        Some(n) => Some(n),
        None => match until {
            Some(s) => if s > 0 {
                Some(s as nat)
            } else {
                Some(0)
            },
            None => None,
        },
    }
}

/// Computes [`asked_wait`].
pub fn wait_asked(header: &str, until: Option<i64>) -> (r: Option<u64>)
    ensures
        match r {
            Some(n) => asked_wait(header@, whole_option(until)) == Some(n as nat),
            None => asked_wait(header@, whole_option(until)) is None,
        },
{
    match parse_number(trim(header).as_str(), u64::MAX) {
        Some(n) => Some(n),
        None => match until {
            Some(s) => if s > 0 {
                Some(s as u64)
            } else {
                Some(0)
            },
            None => None,
        },
    }
}

/// What an optional number stands for.
pub open spec fn whole_option(n: Option<i64>) -> Option<int> {
    match n {
        Some(n) => Some(n as int),
        None => None,
    }
}

/// Reads the header `retry-after`; the moment is now, in seconds and nanoseconds
/// of the Unix time.
pub fn retry_after_secs(header: &str, now_secs: i64, now_nanos: u32) -> (r: Option<u64>)
    ensures
        match r {
            Some(n) => asked_wait(
                header@,
                seconds_until(trimmed(header@), now_secs as int, now_nanos as nat),
            ) == Some(n as nat),
            None => asked_wait(
                header@,
                seconds_until(trimmed(header@), now_secs as int, now_nanos as nat),
            ) is None,
        },
{
    let until = time_until(trim(header).as_str(), now_secs, now_nanos);
    wait_asked(header, until)
}

/// What is known of a request that got no reply.
#[derive(Debug)]
pub struct SendFailure {
    pub url: Option<String>,
    /// The deepest cause; empty where there is none.
    pub root_cause: String,
    pub connect: bool,
    pub timeout: bool,
    /// What the failure says of itself.
    pub message: String,
}

/// What kind of failure it is, in words; empty for neither kind.
pub open spec fn failure_kind(connect: bool, timeout: bool) -> Seq<char> {
    if connect {
        "connection failed — check ANTHROPIC_BASE_URL / network"@
    } else if timeout {
        "request timed out"@
    } else {
        Seq::empty()
    }
}

/// The message of a request that got no reply: the deepest cause and the kind of
/// failure, where they are known.
pub open spec fn failure_message(f: SendFailure) -> Seq<char> {
    let url = match f.url {
        Some(u) => u@,
        None => "unknown"@,
    };
    let kind = failure_kind(f.connect, f.timeout);
    if f.root_cause@.len() > 0 && kind.len() > 0 {
        "API request to "@ + url + " failed: "@ + f.root_cause@ + " ("@ + kind + ")"@
    } else if f.root_cause@.len() > 0 {
        "API request to "@ + url + " failed: "@ + f.root_cause@
    } else if kind.len() > 0 {
        "API request to "@ + url + " failed ("@ + kind + ")"@
    } else {
        f.message@
    }
}

/// Computes [`failure_message`].
pub fn describe_failure(f: &SendFailure) -> (r: String)
    ensures
        r@ == failure_message(*f),
{
    let url = match &f.url {
        Some(u) => u.clone(),
        None => "unknown".to_owned(),
    };
    let kind = if f.connect {
        "connection failed — check ANTHROPIC_BASE_URL / network"
    } else if f.timeout {
        "request timed out"
    } else {
        ""
    };
    proof {
        reveal_strlit("");
        reveal_strlit("connection failed — check ANTHROPIC_BASE_URL / network");
        reveal_strlit("request timed out");
        assert(!f.connect && !f.timeout ==> kind@ =~= Seq::empty());
    }
    let cause = f.root_cause.as_str();
    let known = f.connect || f.timeout;
    if !cause.is_empty() && known {
        let front = cat4("API request to ", url.as_str(), " failed: ", cause);
        cat4(front.as_str(), " (", kind, ")")
    } else if !cause.is_empty() {
        cat4("API request to ", url.as_str(), " failed: ", cause)
    } else if known {
        cat5("API request to ", url.as_str(), " failed (", kind, ")")
    } else {
        f.message.clone()
    }
}

// ------------------------------------------------------------ laws

/// A used-up quota ends the turn, whatever else the error says of itself.
pub proof fn law_quota_is_terminal(error: JsonV, message: Seq<char>)
    requires
        text_or_empty(error, "code"@) == "1308"@ || holds(message, "usage limit"@) || holds(
            message,
            "quota"@,
        ),
    ensures
        !transient(error, message),
{
}

/// A stream can be cut anywhere: taken in two pieces it gives the same state,
/// reports and end as in one.
pub proof fn law_chunks_do_not_matter(
    s: StreamV,
    reports: Seq<EventV>,
    a: Seq<char>,
    b: Seq<char>,
    window: u32,
)
    requires
        fed(s, reports, a, window).end is None,
    ensures
        ({
            let first = fed(s, reports, a, window);
            fed(s, reports, a + b, window) == fed(first.state, first.reports, first.rest + b, window)
        }),
    decreases a.len(),
{
    lemma_found(a, seq!['\n'], 0);
    match parted(a, '\n') {
        Some((line, rest)) => {
            lemma_parted_front(a, b);
            let (after, report, end) = line_step(s, line, window);
            law_chunks_do_not_matter(after, with_report(reports, report), rest, b, window);
        },
        None => {},
    }
}

/// What is cut off at the first end of a line stays the same where more follows.
pub proof fn lemma_parted_front(a: Seq<char>, b: Seq<char>)
    requires
        parted(a, '\n') is Some,
    ensures
        ({
            let p = parted(a, '\n')->0;
            parted(a + b, '\n') == Some((p.0, p.1 + b))
        }),
{
    let n = seq!['\n'];
    lemma_found(a, n, 0);
    lemma_found(a + b, n, 0);
    let i = crate::text::found_from(a, n, 0)->0;
    assert((a + b).subrange(i, i + 1) =~= a.subrange(i, i + 1));
    assert(occurs_at(a + b, n, i));
    let k = crate::text::found_from(a + b, n, 0)->0;
    if k < i {
        assert((a + b).subrange(k, k + 1) =~= a.subrange(k, k + 1));
        assert(occurs_at(a, n, k));
    }
    assert(k == i);
    assert((a + b).take(i) =~= a.take(i));
    assert((a + b).skip(i + 1) =~= a.skip(i + 1) + b);
}

/// A wait that the server asks for and that is short enough is kept to the
/// second, and no attempt follows the last.
pub proof fn law_asked_wait_is_kept(status: u16, secs: u64, attempt: u32)
    requires
        retryable_status(status),
    ensures
        secs <= RETRY_AFTER_CAP_SECS && attempt < MAX_ATTEMPTS ==> status_step(
            status,
            Some(secs),
            attempt,
        ) == StatusStep::Wait(secs),
        secs > RETRY_AFTER_CAP_SECS ==> status_step(status, Some(secs), attempt)
            == StatusStep::Exhausted,
        attempt >= MAX_ATTEMPTS ==> status_step(status, Some(secs), attempt)
            == StatusStep::Exhausted,
{
}

// ------------------------------------------------------------ what a stream says

/// What was reported as said, one piece after the other.
pub open spec fn spoken(reports: Seq<EventV>) -> Seq<char>
    decreases reports.len(),
{
    if reports.len() == 0 {
        Seq::empty()
    } else {
        spoken(reports.drop_last()) + (match reports.last() {
            EventV::TextChunk(t) => t,
            _ => Seq::empty(),
        })
    }
}

/// What was reported as thought, one piece after the other.
pub open spec fn thought(reports: Seq<EventV>) -> Seq<char>
    decreases reports.len(),
{
    if reports.len() == 0 {
        Seq::empty()
    } else {
        thought(reports.drop_last()) + (match reports.last() {
            EventV::ThinkingChunk(t) => t,
            _ => Seq::empty(),
        })
    }
}

/// The piece that an event delivers: the text under `key` in a delta of the given
/// kind; nothing where it is no such delta.
pub open spec fn piece(ev: JsonV, kind: Seq<char>, key: Seq<char>) -> Seq<char> {
    match (field(ev, "type"@), field(ev, "delta"@)) {
        (Some(JsonV::Str(t)), Some(delta)) => match (field(delta, "type"@), field(delta, key)) {
            (Some(JsonV::Str(k)), Some(JsonV::Str(p))) => if t == "content_block_delta"@ && k
                == kind {
                p
            } else {
                Seq::empty()
            },
            _ => Seq::empty(),
        },
        _ => Seq::empty(),
    }
}

/// The pieces of some events, one after the other.
pub open spec fn pieces(evs: Seq<JsonV>, kind: Seq<char>, key: Seq<char>) -> Seq<char>
    decreases evs.len(),
{
    if evs.len() == 0 {
        Seq::empty()
    } else {
        pieces(evs.drop_last(), kind, key) + piece(evs.last(), kind, key)
    }
}

/// The number of the block that an event is about.
pub open spec fn block_number(ev: JsonV) -> nat {
    match whole_field(ev, "index"@) {
        Some(n) => n,
        None => 0,
    }
}

/// The pieces of the arguments of the call with the given number.
pub open spec fn argument_pieces(evs: Seq<JsonV>, n: nat) -> Seq<char>
    decreases evs.len(),
{
    if evs.len() == 0 {
        Seq::empty()
    } else {
        argument_pieces(evs.drop_last(), n) + (if block_number(evs.last()) == n {
            piece(evs.last(), "input_json_delta"@, "partial_json"@)
        } else {
            Seq::empty()
        })
    }
}

/// The event opens a tool call under the given number.
pub open spec fn opens_call(ev: JsonV, n: nat) -> bool {
    &&& field(ev, "type"@) == Some(JsonV::Str("content_block_start"@))
    &&& field(ev, "content_block"@) matches Some(b) && field(b, "type"@) == Some(
        JsonV::Str("tool_use"@),
    )
    &&& block_number(ev) == n
}

/// The state after some events, one after the other.
pub open spec fn after_events(s: StreamV, evs: Seq<JsonV>, window: u32) -> StreamV
    decreases evs.len(),
{
    if evs.len() == 0 {
        s
    } else {
        stream_step(after_events(s, evs.drop_last(), window), evs.last(), window).0
    }
}

/// What some events report.
pub open spec fn reports_of(s: StreamV, evs: Seq<JsonV>, window: u32) -> Seq<EventV>
    decreases evs.len(),
{
    if evs.len() == 0 {
        Seq::empty()
    } else {
        with_report(
            reports_of(s, evs.drop_last(), window),
            stream_step(after_events(s, evs.drop_last(), window), evs.last(), window).1,
        )
    }
}

proof fn lemma_kinds_differ()
    ensures
        "text_delta"@ != "thinking_delta"@,
        "text_delta"@ != "input_json_delta"@,
        "thinking_delta"@ != "input_json_delta"@,
        "message_start"@ != "content_block_delta"@,
        "message_start"@ != "content_block_start"@,
        "message_start"@ != "message_delta"@,
        "message_delta"@ != "content_block_delta"@,
        "message_delta"@ != "content_block_start"@,
        "content_block_start"@ != "content_block_delta"@,
        "tool_use"@ != "thinking"@,
{
    reveal_strlit("text_delta");
    reveal_strlit("thinking_delta");
    reveal_strlit("input_json_delta");
    reveal_strlit("message_start");
    reveal_strlit("message_delta");
    reveal_strlit("content_block_delta");
    reveal_strlit("content_block_start");
    reveal_strlit("tool_use");
    reveal_strlit("thinking");
    assert("text_delta"@.len() == 10);
    assert("thinking_delta"@.len() == 14);
    assert("input_json_delta"@.len() == 16);
    assert("message_start"@.len() == 13);
    assert("message_delta"@.len() == 13);
    assert("message_start"@[8] != "message_delta"@[8]);
    assert("content_block_delta"@.len() == 19);
    assert("content_block_start"@.len() == 19);
    assert("content_block_start"@[14] != "content_block_delta"@[14]);
    assert("tool_use"@[1] != "thinking"@[1]);
}

proof fn lemma_step_says(s: StreamV, ev: JsonV, window: u32)
    ensures
        ({
            let (after, report) = stream_step(s, ev, window);
            &&& after.text == s.text + piece(ev, "text_delta"@, "text"@)
            &&& after.thinking == s.thinking + piece(ev, "thinking_delta"@, "thinking"@)
            &&& spoken(with_report(Seq::empty(), report)) == piece(ev, "text_delta"@, "text"@)
            &&& thought(with_report(Seq::empty(), report)) == piece(
                ev,
                "thinking_delta"@,
                "thinking"@,
            )
        }),
{
    lemma_kinds_differ();
    let (after, report) = stream_step(s, ev, window);
    let none = Seq::<EventV>::empty();
    assert(spoken(none) =~= Seq::empty());
    assert(thought(none) =~= Seq::empty());
    if let Some(e) = report {
        assert(none.push(e).drop_last() =~= none);
    }
    assert(after.text =~= s.text + piece(ev, "text_delta"@, "text"@));
    assert(after.thinking =~= s.thinking + piece(ev, "thinking_delta"@, "thinking"@));
    assert(spoken(with_report(none, report)) =~= piece(ev, "text_delta"@, "text"@));
    assert(thought(with_report(none, report)) =~= piece(ev, "thinking_delta"@, "thinking"@));
}

proof fn lemma_said_behind(reports: Seq<EventV>, r: Option<EventV>)
    ensures
        spoken(with_report(reports, r)) == spoken(reports) + spoken(
            with_report(Seq::empty(), r),
        ),
        thought(with_report(reports, r)) == thought(reports) + thought(
            with_report(Seq::empty(), r),
        ),
{
    let none = Seq::<EventV>::empty();
    assert(spoken(none) =~= Seq::empty());
    assert(thought(none) =~= Seq::empty());
    if let Some(e) = r {
        assert(reports.push(e).drop_last() =~= reports);
        assert(none.push(e).drop_last() =~= none);
    }
    assert(spoken(with_report(reports, r)) =~= spoken(reports) + spoken(with_report(none, r)));
    assert(thought(with_report(reports, r)) =~= thought(reports) + thought(with_report(none, r)));
}

/// The text is what the text deltas bring, one behind the other, and so is the
/// thinking; the user is told the same, piece by piece.
pub proof fn law_pieces_are_put_together(s: StreamV, evs: Seq<JsonV>, window: u32)
    ensures
        after_events(s, evs, window).text == s.text + pieces(evs, "text_delta"@, "text"@),
        after_events(s, evs, window).thinking == s.thinking + pieces(
            evs,
            "thinking_delta"@,
            "thinking"@,
        ),
        spoken(reports_of(s, evs, window)) == pieces(evs, "text_delta"@, "text"@),
        thought(reports_of(s, evs, window)) == pieces(evs, "thinking_delta"@, "thinking"@),
    decreases evs.len(),
{
    let now = after_events(s, evs, window);
    if evs.len() > 0 {
        let front = evs.drop_last();
        let before = after_events(s, front, window);
        law_pieces_are_put_together(s, front, window);
        lemma_step_says(before, evs.last(), window);
        lemma_said_behind(
            reports_of(s, front, window),
            stream_step(before, evs.last(), window).1,
        );
    }
    assert(now.text =~= s.text + pieces(evs, "text_delta"@, "text"@));
    assert(now.thinking =~= s.thinking + pieces(evs, "thinking_delta"@, "thinking"@));
    assert(spoken(reports_of(s, evs, window)) =~= pieces(evs, "text_delta"@, "text"@));
    assert(thought(reports_of(s, evs, window)) =~= pieces(evs, "thinking_delta"@, "thinking"@));
}

proof fn lemma_fed_says(s: StreamV, reports: Seq<EventV>, buffer: Seq<char>, window: u32)
    ensures
        ({
            let f = fed(s, reports, buffer, window);
            exists|x: Seq<char>, y: Seq<char>|
                #![trigger s.text + x, s.thinking + y]
                f.state.text == s.text + x && f.state.thinking == s.thinking + y && spoken(
                    f.reports,
                ) == spoken(reports) + x && thought(f.reports) == thought(reports) + y
        }),
    decreases buffer.len(),
{
    lemma_found(buffer, seq!['\n'], 0);
    let f = fed(s, reports, buffer, window);
    let none = Seq::<char>::empty();
    match parted(buffer, '\n') {
        Some((line, rest)) => {
            let (after, report, end) = line_step(s, line, window);
            let first = with_report(Seq::<EventV>::empty(), report);
            let (a, b) = (spoken(first), thought(first));
            lemma_said_behind(reports, report);
            assert(after.text == s.text + a && after.thinking == s.thinking + b) by {
                match stripped(without_trailing(line, '\r'), "data: "@) {
                    Some(data) => if let Some(ev) = parsed_json(data) {
                        lemma_step_says(s, ev, window);
                    },
                    None => {},
                }
                if after == s && report is None {
                    assert(spoken(first) =~= none && thought(first) =~= none);
                    assert(s.text + a =~= s.text && s.thinking + b =~= s.thinking);
                }
            }
            if end is Some {
                assert(f.state.text == s.text + a && f.state.thinking == s.thinking + b);
            } else {
                lemma_fed_says(after, with_report(reports, report), rest, window);
                let (x, y) = choose|x: Seq<char>, y: Seq<char>|
                    #![trigger after.text + x, after.thinking + y]
                    f.state.text == after.text + x && f.state.thinking == after.thinking + y
                        && spoken(f.reports) == spoken(with_report(reports, report)) + x && thought(
                        f.reports,
                    ) == thought(with_report(reports, report)) + y;
                assert(f.state.text =~= s.text + (a + x));
                assert(f.state.thinking =~= s.thinking + (b + y));
                assert(spoken(f.reports) =~= spoken(reports) + (a + x));
                assert(thought(f.reports) =~= thought(reports) + (b + y));
            }
        },
        None => {
            assert(f.state.text =~= s.text + none);
            assert(f.state.thinking =~= s.thinking + none);
            assert(spoken(f.reports) =~= spoken(reports) + none);
            assert(thought(f.reports) =~= thought(reports) + none);
        },
    }
}

/// Whatever comes over the wire, what the state gains in text and in thinking is
/// what was reported of them.
pub proof fn law_state_holds_what_was_reported(s: StreamV, buffer: Seq<char>, window: u32)
    ensures
        ({
            let f = fed(s, Seq::empty(), buffer, window);
            &&& f.state.text == s.text + spoken(f.reports)
            &&& f.state.thinking == s.thinking + thought(f.reports)
        }),
{
    let f = fed(s, Seq::empty(), buffer, window);
    let none = Seq::<EventV>::empty();
    lemma_fed_says(s, none, buffer, window);
    let (x, y) = choose|x: Seq<char>, y: Seq<char>|
        #![trigger s.text + x, s.thinking + y]
        f.state.text == s.text + x && f.state.thinking == s.thinking + y && spoken(f.reports)
            == spoken(none) + x && thought(f.reports) == thought(none) + y;
    assert(spoken(none) + x =~= x);
    assert(thought(none) + y =~= y);
}

/// The text of a finished turn is all that was reported as said, from the first
/// piece to the last, and a cancelled turn has all that was said so far.
pub proof fn law_turn_holds_all_that_was_said(buffer: Seq<char>, window: u32, usage: TokenUsage)
    ensures
        ({
            let fresh = StreamV {
                text: Seq::empty(),
                thinking: Seq::empty(),
                calls: Seq::empty(),
                usage,
            };
            let f = fed(fresh, Seq::empty(), buffer, window);
            let said = spoken(f.reports);
            let turn = finished_turn(f.state.thinking, f.state.text, f.state.calls, f.state.usage);
            &&& f.state.calls.len() == 0 ==> turn.message.content == seq![
                BlockV::Text { text: said },
            ]
            &&& f.state.calls.len() > 0 && said.len() > 0 ==> turn.message.content.contains(
                BlockV::Text { text: said },
            )
            &&& f.state.calls.len() > 0 && thought(f.reports).len() > 0
                ==> turn.message.content.contains(BlockV::Thinking { thinking: thought(f.reports) })
            &&& text_turn(f.state.text, f.state.usage).message.content == seq![
                BlockV::Text { text: said },
            ]
        }),
{
    let fresh = StreamV {
        text: Seq::empty(),
        thinking: Seq::empty(),
        calls: Seq::empty(),
        usage,
    };
    law_state_holds_what_was_reported(fresh, buffer, window);
    let f = fed(fresh, Seq::empty(), buffer, window);
    assert(f.state.text =~= spoken(f.reports));
    assert(f.state.thinking =~= thought(f.reports));
    law_turn_holds_what_was_delivered(
        f.state.thinking,
        f.state.text,
        f.state.calls,
        f.state.usage,
        0,
    );
    let content = finished_turn(
        f.state.thinking,
        f.state.text,
        f.state.calls,
        f.state.usage,
    ).message.content;
    if f.state.calls.len() > 0 {
        let lead = content.len() - f.state.calls.len();
        if f.state.text.len() > 0 {
            assert(content[lead - 1] == BlockV::Text { text: f.state.text });
        }
        if f.state.thinking.len() > 0 {
            assert(content[0] == BlockV::Thinking { thinking: f.state.thinking });
        }
    } else {
        assert(content =~= seq![BlockV::Text { text: f.state.text }]);
    }
}

proof fn lemma_step_keeps_order(s: StreamV, ev: JsonV, window: u32)
    requires
        in_order(s.calls),
    ensures
        in_order(stream_step(s, ev, window).0.calls),
{
    let block = inside(ev, "content_block"@);
    law_calls_stay_in_order(
        s.calls,
        PartialV {
            index: count_in(ev, "index"@),
            id: text_or_empty(block, "id"@),
            name: text_or_empty(block, "name"@),
            arguments: Seq::empty(),
        },
    );
    if let Some(c) = call_with(s.calls, count_in(ev, "index"@)) {
        let t = text_field(inside(ev, "delta"@), "partial_json"@);
        law_calls_stay_in_order(s.calls, PartialV { arguments: c.arguments + t->0, ..c });
    }
}

proof fn lemma_step_calls(s: StreamV, ev: JsonV, window: u32, n: nat)
    requires
        in_order(s.calls),
        !opens_call(ev, n),
    ensures
        ({
            let after = call_with(stream_step(s, ev, window).0.calls, n);
            let grown = if block_number(ev) == n {
                piece(ev, "input_json_delta"@, "partial_json"@)
            } else {
                Seq::empty()
            };
            match call_with(s.calls, n) {
                Some(c) => after == Some(PartialV { arguments: c.arguments + grown, ..c }),
                None => after is None,
            }
        }),
{
    lemma_kinds_differ();
    let none = Seq::<char>::empty();
    if let Some(c) = call_with(s.calls, n) {
        assert(c.arguments + none =~= c.arguments);
        assert(c.index == n);
    }
    let block = inside(ev, "content_block"@);
    let index = count_in(ev, "index"@);
    let kind = text_field(ev, "type"@);
    if kind == Some("content_block_start"@) {
        if text_field(block, "type"@) == Some("tool_use"@) {
            assert(index != n);
            law_other_calls_stay(
                s.calls,
                PartialV {
                    index,
                    id: text_or_empty(block, "id"@),
                    name: text_or_empty(block, "name"@),
                    arguments: Seq::empty(),
                },
                n,
            );
        }
    } else if kind == Some("content_block_delta"@) {
        let delta = inside(ev, "delta"@);
        if text_field(delta, "type"@) == Some("input_json_delta"@) {
            if let (Some(t), Some(c)) = (
                text_field(delta, "partial_json"@),
                call_with(s.calls, index),
            ) {
                let grown = PartialV { arguments: c.arguments + t, ..c };
                assert(c.index == index);
                law_put_call_is_found(s.calls, grown);
                if index != n {
                    law_other_calls_stay(s.calls, grown, n);
                }
            }
        }
    }
}

/// A call that was opened has its arguments from the pieces under its number, one
/// behind the other, whatever else comes in between; its id and its name stay. And a
/// number under which nothing was opened has no call.
pub proof fn law_arguments_are_put_together(s: StreamV, evs: Seq<JsonV>, window: u32, n: nat)
    requires
        in_order(s.calls),
        forall|i: int| 0 <= i < evs.len() ==> !opens_call(#[trigger] evs[i], n),
    ensures
        in_order(after_events(s, evs, window).calls),
        match call_with(s.calls, n) {
            Some(c) => call_with(after_events(s, evs, window).calls, n) == Some(
                PartialV {
                    index: c.index,
                    id: c.id,
                    name: c.name,
                    arguments: c.arguments + argument_pieces(evs, n),
                },
            ),
            None => call_with(after_events(s, evs, window).calls, n) is None,
        },
    decreases evs.len(),
{
    if evs.len() > 0 {
        let front = evs.drop_last();
        let before = after_events(s, front, window);
        assert forall|i: int| 0 <= i < front.len() implies !opens_call(#[trigger] front[i], n) by {
            assert(front[i] == evs[i]);
        }
        law_arguments_are_put_together(s, front, window, n);
        assert(!opens_call(evs[evs.len() - 1], n));
        lemma_step_keeps_order(before, evs.last(), window);
        lemma_step_calls(before, evs.last(), window, n);
        if let Some(c) = call_with(s.calls, n) {
            let last = if block_number(evs.last()) == n {
                piece(evs.last(), "input_json_delta"@, "partial_json"@)
            } else {
                Seq::empty()
            };
            assert(c.arguments + argument_pieces(front, n) + last =~= c.arguments
                + argument_pieces(evs, n));
        }
    } else if let Some(c) = call_with(s.calls, n) {
        assert(c.arguments + argument_pieces(evs, n) =~= c.arguments);
    }
}

/// Opening a call puts it among the others, with the id and the name that the event
/// gives and no arguments yet; the other calls stay, and so do text and thinking.
pub proof fn law_opened_calls_are_there(s: StreamV, ev: JsonV, window: u32, n: nat, other: nat)
    requires
        in_order(s.calls),
        opens_call(ev, n),
        other != n,
    ensures
        ({
            let (after, report) = stream_step(s, ev, window);
            let block = field(ev, "content_block"@)->0;
            &&& in_order(after.calls)
            &&& after.text == s.text && after.thinking == s.thinking && after.usage == s.usage
            &&& report is None
            &&& call_with(after.calls, n) is Some
            &&& call_with(after.calls, n)->0.index == n
            &&& call_with(after.calls, n)->0.arguments.len() == 0
            &&& field(block, "id"@) matches Some(JsonV::Str(id)) ==> call_with(
                after.calls,
                n,
            )->0.id == id
            &&& field(block, "name"@) matches Some(JsonV::Str(name)) ==> call_with(
                after.calls,
                n,
            )->0.name == name
            &&& call_with(after.calls, other) == call_with(s.calls, other)
        }),
{
    lemma_kinds_differ();
    let block = inside(ev, "content_block"@);
    let c = PartialV {
        index: count_in(ev, "index"@),
        id: text_or_empty(block, "id"@),
        name: text_or_empty(block, "name"@),
        arguments: Seq::empty(),
    };
    lemma_step_keeps_order(s, ev, window);
    law_put_call_is_found(s.calls, c);
    law_other_calls_stay(s.calls, c, other);
}

/// The prompt of a turn weighs what was sent, what was read from the cache and what
/// was written to it, together; the user is told so with the window and the part
/// that was cached. A later count takes the place of an earlier one, and a count of
/// zero, or none at all, leaves it.
pub proof fn law_usage_is_what_was_counted(
    s: StreamV,
    ev: JsonV,
    u: JsonV,
    window: u32,
    sent: nat,
    read: nat,
    written: nat,
    output: nat,
)
    requires
        whole_field(u, "input_tokens"@) == Some(sent),
        whole_field(u, "cache_read_input_tokens"@) == Some(read),
        whole_field(u, "cache_creation_input_tokens"@) == Some(written),
        whole_field(u, "output_tokens"@) == Some(output),
        sent + read + written <= u32::MAX,
        output <= u32::MAX,
    ensures
        ({
            let (after, report) = stream_step(s, ev, window);
            &&& after.text == s.text || field(ev, "type"@) == Some(
                JsonV::Str("content_block_delta"@),
            )
            &&& field(ev, "type"@) == Some(JsonV::Str("message_start"@)) && inside(
                inside(ev, "message"@),
                "usage"@,
            ) == u ==> after.usage.input == sent + read + written && after.usage.output
                == s.usage.output && report == Some(
                EventV::ContextUsage {
                    used_tokens: (sent + read + written) as u32,
                    context_window: window,
                    cached_tokens: read as u32,
                    output_tokens: s.usage.output,
                },
            )
            &&& field(ev, "type"@) == Some(JsonV::Str("message_delta"@)) && inside(ev, "usage"@)
                == u ==> after.usage.output == output && (sent > 0 ==> after.usage.input == sent
                + read + written && report == Some(
                EventV::ContextUsage {
                    used_tokens: (sent + read + written) as u32,
                    context_window: window,
                    cached_tokens: read as u32,
                    output_tokens: output as u32,
                },
            )) && (sent == 0 ==> after.usage.input == s.usage.input && report is None)
        }),
{
    lemma_kinds_differ();
}

/// A line of the stream counts only where it brings data: an event is taken, the end
/// mark ends the stream, an error ends it with what it says, and no line but an
/// event changes the state.
pub proof fn law_lines_bring_events(s: StreamV, data: Seq<char>, window: u32)
    requires
        data.len() > 0,
        data.last() != '\r',
    ensures
        ({
            let line = "data: "@ + data;
            let (after, report, end) = line_step(s, line, window);
            &&& line_step(s, line.push('\r'), window) == line_step(s, line, window)
            &&& end is Some ==> after == s && report is None
            &&& data == "[DONE]"@ ==> end == Some(EndV::Done)
            &&& data != "[DONE]"@ ==> match parsed_json(data) {
                None => after == s && report is None && end is None,
                Some(ev) => if field(ev, "type"@) == Some(JsonV::Str("error"@)) {
                    &&& end matches Some(e) && e !is Done
                    &&& text_field(inside(ev, "error"@), "message"@) matches Some(m) ==> match end->0 {
                        EndV::Retry(t) => ends(t, m),
                        EndV::Fatal(t) => ends(t, m),
                        EndV::Done => false,
                    }
                } else {
                    end is None && (after, report) == stream_step(s, ev, window)
                },
            }
        }),
{
    let line = "data: "@ + data;
    let crlf = line.push('\r');
    assert(line.last() == data.last());
    assert(without_trailing(line, '\r') == line);
    assert(crlf.drop_last() =~= line);
    assert(without_trailing(crlf, '\r') == line);
    assert(line.subrange(0, "data: "@.len() as int) =~= "data: "@);
    assert(line.skip("data: "@.len() as int) =~= data);
    if let Some(ev) = parsed_json(data) {
        if let Some(m) = text_field(inside(ev, "error"@), "message"@) {
            let full = "Anthropic API stream error: "@ + m;
            assert(full.subrange(full.len() - m.len(), full.len() as int) =~= m);
        }
    }
}

/// What is no line of data is passed over.
pub proof fn law_other_lines_are_passed_over(s: StreamV, line: Seq<char>, window: u32)
    requires
        !begins(line, "data: "@),
    ensures
        line_step(s, line, window) == (s, None::<EventV>, None::<EndV>),
{
    let cut = without_trailing(line, '\r');
    lemma_cut_is_a_front(line, '\r');
    if begins(cut, "data: "@) {
        assert(line.subrange(0, "data: "@.len() as int) =~= cut.subrange(
            0,
            "data: "@.len() as int,
        ));
    }
}

proof fn lemma_cut_is_a_front(s: Seq<char>, c: char)
    ensures
        without_trailing(s, c).len() <= s.len(),
        without_trailing(s, c) == s.take(without_trailing(s, c).len() as int),
    decreases s.len(),
{
    if s.len() > 0 && s.last() == c {
        lemma_cut_is_a_front(s.drop_last(), c);
        let n = without_trailing(s, c).len() as int;
        assert(s.drop_last().take(n) =~= s.take(n));
    } else {
        assert(s.take(s.len() as int) =~= s);
    }
}

/// The stream is read line by line: a line is taken once its end has come, before
/// anything behind it, and a line that ends the stream leaves the rest unread.
pub proof fn law_lines_are_taken_in_turn(
    s: StreamV,
    reports: Seq<EventV>,
    line: Seq<char>,
    rest: Seq<char>,
    window: u32,
)
    requires
        !line.contains('\n'),
    ensures
        ({
            let (after, report, end) = line_step(s, line, window);
            let next = match report {
                Some(e) => reports.push(e),
                None => reports,
            };
            let f = fed(s, reports, line + seq!['\n'] + rest, window);
            &&& end is Some ==> f == (Fed { state: after, reports: next, rest, end })
            &&& end is None ==> f == fed(after, next, rest, window)
            &&& fed(s, reports, line, window) == (Fed { state: s, reports, rest: line, end: None })
        }),
{
    let n = seq!['\n'];
    let all = line + n + rest;
    lemma_found(all, n, 0);
    lemma_found(line, n, 0);
    let at = line.len() as int;
    assert(all.subrange(at, at + 1) =~= n);
    assert(occurs_at(all, n, at));
    assert forall|j: int| 0 <= j < at implies !#[trigger] occurs_at(all, n, j) by {
        if occurs_at(all, n, j) {
            assert(all.subrange(j, j + 1)[0] == '\n');
            assert(line[j] == '\n');
        }
    }
    assert forall|j: int| 0 <= j implies !#[trigger] occurs_at(line, n, j) by {
        if occurs_at(line, n, j) {
            assert(line.subrange(j, j + 1)[0] == '\n');
            assert(line[j] == '\n');
        }
    }
    assert(crate::text::found_from(all, n, 0) == Some(at));
    assert(all.take(at) =~= line);
    assert(all.skip(at + 1) =~= rest);
}

/// An overloaded server and a failed network are worth another attempt, as long as
/// no quota is used up.
pub proof fn law_overload_is_tried_again(error: JsonV, message: Seq<char>)
    requires
        text_or_empty(error, "code"@) != "1308"@,
        !holds(message, "usage limit"@),
        !holds(message, "quota"@),
    ensures
        transient(error, message) <==> {
            ||| field(error, "type"@) == Some(JsonV::Str("overloaded_error"@))
            ||| field(error, "type"@) == Some(JsonV::Str("api_error"@))
            ||| field(error, "code"@) == Some(JsonV::Str("1234"@))
            ||| holds(message, "network error"@)
        },
{
    reveal_strlit("overloaded_error");
    reveal_strlit("api_error");
    reveal_strlit("1234");
    assert(Seq::<char>::empty().len() == 0);
    assert("overloaded_error"@.len() > 0 && "api_error"@.len() > 0 && "1234"@.len() > 0);
}

proof fn lemma_reports_go_on(s: StreamV, reports: Seq<EventV>, buffer: Seq<char>, window: u32)
    ensures
        ({
            let (f, g) = (fed(s, reports, buffer, window), fed(s, Seq::empty(), buffer, window));
            &&& f.state == g.state
            &&& f.rest == g.rest
            &&& f.end == g.end
            &&& f.reports == reports + g.reports
        }),
    decreases buffer.len(),
{
    let none = Seq::<EventV>::empty();
    match parted(buffer, '\n') {
        Some((line, rest)) => {
            lemma_found(buffer, seq!['\n'], 0);
            let (after, report, end) = line_step(s, line, window);
            assert(with_report(reports, report) =~= reports + with_report(none, report));
            if end is None {
                lemma_reports_go_on(after, with_report(reports, report), rest, window);
                lemma_reports_go_on(after, with_report(none, report), rest, window);
                let g = fed(after, none, rest, window).reports;
                assert(with_report(reports, report) + g =~= reports + (with_report(none, report)
                    + g));
            }
        },
        None => {
            assert(reports =~= reports + none);
        },
    }
}

/// Where the stream is cut into pieces does not matter: as long as it has not ended, what
/// comes next goes on where the piece before it broke off.
pub proof fn law_stream_may_break_anywhere(
    s: StreamV,
    a: Seq<char>,
    b: Seq<char>,
    window: u32,
)
    ensures
        ({
            let f = fed(s, Seq::empty(), a, window);
            let g = fed(f.state, Seq::empty(), f.rest + b, window);
            let whole = fed(s, Seq::empty(), a + b, window);
            f.end is None ==> whole.state == g.state && whole.rest == g.rest && whole.end == g.end
                && whole.reports == f.reports + g.reports
        }),
    decreases a.len(),
{
    let none = Seq::<EventV>::empty();
    match parted(a, '\n') {
        Some((line, rest)) => {
            law_parting_cuts_at_the_first(a, '\n');
            lemma_found(a, seq!['\n'], 0);
            let (after, report, end) = line_step(s, line, window);
            assert(a + b =~= line + seq!['\n'] + (rest + b));
            law_lines_are_taken_in_turn(s, none, line, rest + b, window);
            if end is None {
                law_stream_may_break_anywhere(after, rest, b, window);
                let one = with_report(none, report);
                lemma_reports_go_on(after, one, rest, window);
                lemma_reports_go_on(after, one, rest + b, window);
                let f = fed(after, none, rest, window);
                let g = fed(f.state, none, f.rest + b, window);
                assert(one + (f.reports + g.reports) =~= (one + f.reports) + g.reports);
            }
        },
        None => {
            let g = fed(s, none, a + b, window);
            assert(none + g.reports =~= g.reports);
        },
    }
}

/// The wait that a reply asks for is the number that it names, or the time until the date
/// that it names; a date that has passed asks for none.
pub proof fn law_asked_waits_are_as_written(header: Seq<char>, n: nat, until: Option<int>)
    ensures
        trimmed(header) == decimal(n) && n <= u64::MAX ==> asked_wait(header, until) == Some(n),
        parsed_number(trimmed(header), u64::MAX as nat) is None ==> {
            &&& until is None <==> asked_wait(header, until) is None
            &&& until is Some && until->0 >= 0 ==> asked_wait(header, until) == Some(
                until->0 as nat,
            )
            &&& until is Some && until->0 < 0 ==> asked_wait(header, until) == Some(0nat)
        },
{
    if n <= u64::MAX {
        law_numbers_are_read_back(n, n, u64::MAX as nat);
    }
}

/// An error in the stream is told with its own words; it is tried again where it is one of
/// an overload, and never where a limit of use is reached.
pub proof fn law_stream_errors_are_told(ev: JsonV, message: Seq<char>)
    requires
        field(inside(ev, "error"@), "message"@) == Some(JsonV::Str(message)),
    ensures
        error_end(ev) matches EndV::Retry(t) ==> ends(t, message),
        error_end(ev) matches EndV::Fatal(t) ==> ends(t, message),
        !(error_end(ev) is Done),
        error_end(ev) is Retry <==> transient(inside(ev, "error"@), unicode_lower(message)),
        holds(unicode_lower(message), "usage limit"@) ==> error_end(ev) is Fatal,
        holds(unicode_lower(message), "quota"@) ==> error_end(ev) is Fatal,
        field(inside(ev, "error"@), "code"@) == Some(JsonV::Str("1308"@)) ==> error_end(
            ev,
        ) is Fatal,
{
    let t = "Anthropic API stream error: "@ + message;
    assert(t.subrange(t.len() - message.len(), t.len() as int) =~= message);
}

} // verus!
