//! An exchange with a provider: sending, waiting between attempts, reading the
//! stream, and what the turn amounts to. Whoever drives it does the sending, the
//! sleeping and the reading; how often, how long and when it is over is decided
//! here.
use vstd::prelude::*;
use crate::agent::TurnResult;
use crate::ai::anthropic_stream::{
    after_end, after_status, describe_failure, end_error, end_step, failure_message,
    fed, law_stream_may_break_anywhere, spoken, status_error, status_step, AnthropicTurn, EndV, SendFailure, StatusStep, StreamEnd,
    StreamV,
};
use crate::ai::assembly::{finished_turn, text_turn, PartialV, TurnV};
use crate::ai::client::{
    delta_reports, failure_text, is_retryable, law_chunks_may_break_anywhere, next_of, read_refusal, refused, retryable,
    with_pieces, ApiFailure, FailureV, NextV, OpenAiTurn, OpenAiTurnV, SseDelta, SseDeltaV,
    SseNext, SseReader, api_error_text,
};
use crate::ai::codex::{codex_step, empty_turn, CodexTurn, CodexV};
use crate::ai::{
    after_attempt, law_backoff_is_capped, law_refusals_are_not_repeated, law_waits_double,
    next_attempt, redact_secrets, redacted, secrets_in, NextAttempt, MAX_ATTEMPTS,
};
use crate::json::{parsed_json, Json};
use crate::text::{
    begins, cat2, cat3, decimal, ends, holds, lemma_found, number, occurs_at, parted, trimmed,
};
use crate::types::{event_views, AgentEvent, BlockV, EventV, TokenUsage};

verus! {

/// What an exchange waits for.
#[derive(Clone, Copy, Debug, PartialEq, Eq, Structural)]
pub enum ExchangePhase {
    /// The reply to the request.
    Reply,
    /// The end of the wait before the next attempt.
    Pause,
    /// More of the stream.
    Stream,
    /// The word of the rules on the text of the stream.
    Rules,
    /// The body of a reply that is given up.
    Body,
    /// Nothing: the exchange is over.
    Over,
}

// ------------------------------------------------------------ chat completions

/// What has happened to an exchange over chat completions.
#[derive(Debug)]
pub enum ChatEvent {
    /// The reply is a success; its stream follows.
    Opened,
    /// The reply has this status, its line and its body.
    Refused { status: u16, line: String, body: String },
    /// No reply came, or the stream broke off.
    Failed(ApiFailure),
    Waited,
    Chunk(String),
    /// Nothing more will come.
    Ended,
    /// The rules name the one that the text breaks, if it breaks one.
    Judged(Option<String>),
    Cancelled,
}

/// What an exchange over chat completions wants done.
#[derive(Debug)]
pub enum ChatAction {
    Send,
    /// Wait this many seconds.
    Sleep(u64),
    /// Read more of the stream.
    Read,
    /// Hold this text against the rules.
    Judge(String),
    /// The exchange is over, and this is the turn.
    Done(TurnResult),
    /// The exchange is over, and this is the failure.
    Fail(ApiFailure),
}

/// What a [`ChatAction`] stands for.
pub enum ChatActionV {
    Send,
    Sleep(u64),
    Read,
    Judge(Seq<char>),
    Done(TurnV),
    Fail(FailureV),
}

impl View for ChatAction {
    type V = ChatActionV;

    open spec fn view(&self) -> ChatActionV {
        match self {
            ChatAction::Send => ChatActionV::Send,
            ChatAction::Sleep(s) => ChatActionV::Sleep(*s),
            ChatAction::Read => ChatActionV::Read,
            ChatAction::Judge(t) => ChatActionV::Judge(t@),
            ChatAction::Done(t) => ChatActionV::Done(t@),
            ChatAction::Fail(f) => ChatActionV::Fail(f@),
        }
    }
}

/// An exchange over chat completions: the attempt, the stream and what it has
/// delivered, and the delta whose text is being judged.
#[derive(Debug)]
pub struct ChatExchange {
    pub attempt: u32,
    pub phase: ExchangePhase,
    pub reader: SseReader,
    pub turn: OpenAiTurn,
    pub judged: Option<SseDelta>,
}

/// What a [`ChatExchange`] stands for.
pub struct ChatV {
    pub attempt: u32,
    pub phase: ExchangePhase,
    pub buffer: Seq<char>,
    pub ended: bool,
    pub turn: OpenAiTurnV,
    pub judged: Option<SseDeltaV>,
}

impl View for ChatExchange {
    type V = ChatV;

    open spec fn view(&self) -> ChatV {
        ChatV {
            attempt: self.attempt,
            phase: self.phase,
            buffer: self.reader.buffer@,
            ended: self.reader.ended,
            turn: self.turn@,
            judged: match self.judged {
                Some(d) => Some(d@),
                None => None,
            },
        }
    }
}

/// A step of an exchange over chat completions.
pub struct ChatStep {
    pub chat: ChatV,
    pub events: Seq<EventV>,
    pub action: ChatActionV,
}

/// The turn after the usage and the text of a delta.
pub open spec fn with_text(t: OpenAiTurnV, d: SseDeltaV) -> OpenAiTurnV {
    OpenAiTurnV {
        text: match d.text {
            Some(x) => t.text + x,
            None => t.text,
        },
        calls: t.calls,
        usage: match d.usage {
            Some(u) => TokenUsage { input: u.prompt, output: u.completion },
            None => t.usage,
        },
    }
}

/// The turn after the calls of a delta.
pub open spec fn with_calls_of(t: OpenAiTurnV, d: SseDeltaV) -> OpenAiTurnV {
    OpenAiTurnV { calls: with_pieces(t.calls, d.tool_calls), ..t }
}

/// What comes next is shorter than what there was.
pub proof fn lemma_next_shrinks(buffer: Seq<char>, ended: bool)
    ensures
        next_of(buffer, ended).1.len() <= buffer.len(),
        next_of(buffer, ended).0 is Delta ==> next_of(buffer, ended).1.len() < buffer.len(),
    decreases buffer.len(),
{
    lemma_found(buffer, seq!['\n'], 0);
    match parted(buffer, '\n') {
        Some((line, rest)) => {
            lemma_next_shrinks(rest, ended);
        },
        None => {
            if buffer.len() == 0 {
                assert(trimmed(buffer).len() == 0);
            }
        },
    }
}

/// Takes what the stream holds, delta by delta, until it holds no more, it ends,
/// it fails, or a text has to be held against the rules.
pub open spec fn pumped(c: ChatV, events: Seq<EventV>, window: u32, rules: bool) -> ChatStep
    decreases c.buffer.len(),
{
    let (next, rest) = next_of(c.buffer, c.ended);
    let after = ChatV { buffer: rest, judged: None, ..c };
    match next {
        NextV::NeedMore => ChatStep {
            chat: ChatV { phase: ExchangePhase::Stream, ..after },
            events,
            action: ChatActionV::Read,
        },
        NextV::Failed(f) => ChatStep {
            chat: ChatV { phase: ExchangePhase::Over, ..after },
            events: events.push(EventV::Error(failure_text(f))),
            action: ChatActionV::Fail(f),
        },
        NextV::Finished => ChatStep {
            chat: ChatV { phase: ExchangePhase::Over, ..after },
            events: events.push(EventV::TurnEnd),
            action: ChatActionV::Done(
                finished_turn(Seq::empty(), c.turn.text, c.turn.calls, c.turn.usage),
            ),
        },
        NextV::Delta(d) => {
            proof {
                lemma_next_shrinks(c.buffer, c.ended);
            }
            let turn = with_text(c.turn, d);
            let said = events + delta_reports(d, window);
            if rules && d.text is Some {
                ChatStep {
                    chat: ChatV { phase: ExchangePhase::Rules, turn, judged: Some(d), ..after },
                    events: said,
                    action: ChatActionV::Judge(d.text->0),
                }
            } else {
                pumped(ChatV { turn: with_calls_of(turn, d), ..after }, said, window, rules)
            }
        },
    }
}

/// An attempt failed before its stream: another one follows after a wait, or the
/// failure is reported, without the secrets.
pub open spec fn chat_failed(c: ChatV, f: FailureV, secrets: Seq<Seq<char>>) -> ChatStep {
    match after_attempt(retryable(f), c.attempt) {
        NextAttempt::Wait(secs) => ChatStep {
            chat: ChatV { phase: ExchangePhase::Pause, ..c },
            events: Seq::empty(),
            action: ChatActionV::Sleep(secs),
        },
        NextAttempt::GiveUp => ChatStep {
            chat: ChatV { phase: ExchangePhase::Over, ..c },
            events: seq![EventV::Error(redacted(failure_text(f), secrets))],
            action: ChatActionV::Fail(f),
        },
    }
}

/// The event is one that the exchange waits for.
pub open spec fn chat_awaits(c: ChatV, ev: ChatEvent) -> bool {
    match c.phase {
        ExchangePhase::Reply => ev is Opened || ev is Refused || ev is Failed || ev is Cancelled,
        ExchangePhase::Pause => ev is Waited || ev is Cancelled,
        ExchangePhase::Stream => ev is Chunk || ev is Ended || ev is Failed || ev is Cancelled,
        ExchangePhase::Rules => ev is Judged,
        _ => false,
    }
}

/// The exchange is sound: no attempt is beyond the last, one is left where it
/// pauses, and a delta is there where its text is being judged and only there.
pub open spec fn chat_sound(c: ChatV) -> bool {
    &&& 1 <= c.attempt <= MAX_ATTEMPTS
    &&& c.phase == ExchangePhase::Pause ==> c.attempt < MAX_ATTEMPTS
    &&& c.phase == ExchangePhase::Rules ==> c.judged is Some
    &&& c.phase != ExchangePhase::Rules && c.phase != ExchangePhase::Over ==> c.judged is None
}

/// A step of an exchange over chat completions. `window` is the context window
/// that is reported, `rules` tells that there are rules on the text, and
/// `secrets` are kept out of what is reported.
pub open spec fn chat_step(
    c: ChatV,
    ev: ChatEvent,
    window: u32,
    rules: bool,
    secrets: Seq<Seq<char>>,
) -> ChatStep {
    match ev {
        ChatEvent::Opened => ChatStep {
            chat: ChatV { phase: ExchangePhase::Stream, ..c },
            events: Seq::empty(),
            action: ChatActionV::Read,
        },
        ChatEvent::Refused { status, line, body } => chat_failed(
            c,
            refused(status, line@, body@, api_error_text(body@), secrets),
            secrets,
        ),
        ChatEvent::Failed(f) => if c.phase == ExchangePhase::Reply {
            chat_failed(c, f@, secrets)
        } else {
            ChatStep {
                chat: ChatV { phase: ExchangePhase::Over, ..c },
                events: seq![EventV::Error(failure_text(f@))],
                action: ChatActionV::Fail(f@),
            }
        },
        ChatEvent::Waited => ChatStep {
            chat: ChatV { phase: ExchangePhase::Reply, attempt: (c.attempt + 1) as u32, ..c },
            events: Seq::empty(),
            action: ChatActionV::Send,
        },
        ChatEvent::Chunk(text) => pumped(
            ChatV { buffer: c.buffer + text@, ..c },
            Seq::empty(),
            window,
            rules,
        ),
        ChatEvent::Ended => pumped(ChatV { ended: true, ..c }, Seq::empty(), window, rules),
        ChatEvent::Judged(rule) => match rule {
            Some(name) => ChatStep {
                chat: ChatV { phase: ExchangePhase::Over, ..c },
                events: Seq::empty(),
                action: ChatActionV::Done(
                    TurnV { tripped_rule: Some(name@), ..text_turn(c.turn.text, c.turn.usage) },
                ),
            },
            None => pumped(
                ChatV {
                    phase: ExchangePhase::Stream,
                    turn: with_calls_of(c.turn, c.judged->0),
                    judged: None,
                    ..c
                },
                Seq::empty(),
                window,
                rules,
            ),
        },
        ChatEvent::Cancelled => ChatStep {
            chat: ChatV { phase: ExchangePhase::Over, ..c },
            events: seq![EventV::Cancelled],
            action: ChatActionV::Done(text_turn(c.turn.text, c.turn.usage)),
        },
    }
}

/// The outcome of a step is `s`, but for what an exchange that is over still
/// holds.
pub open spec fn chat_came_to(
    c: ChatExchange,
    events: Seq<AgentEvent>,
    action: ChatAction,
    s: ChatStep,
) -> bool {
    &&& c.phase == s.chat.phase
    &&& c.phase != ExchangePhase::Over ==> c@ == s.chat
    &&& event_views(events) == s.events
    &&& action@ == s.action
}

fn one_event(e: AgentEvent) -> (v: Vec<AgentEvent>)
    ensures
        event_views(v@) == seq![e@],
{
    let ghost x = e@;
    let mut v: Vec<AgentEvent> = Vec::new();
    v.push(e);
    assert(event_views(v@) =~= seq![x]);
    v
}

fn nothing() -> (v: Vec<AgentEvent>)
    ensures
        event_views(v@) == Seq::<EventV>::empty(),
{
    let v: Vec<AgentEvent> = Vec::new();
    assert(event_views(v@) =~= Seq::<EventV>::empty());
    v
}

impl ChatExchange {
    /// An exchange whose first request is to be sent.
    pub fn new() -> (c: ChatExchange)
        ensures
            c@ == (ChatV {
                attempt: 1,
                phase: ExchangePhase::Reply,
                buffer: Seq::empty(),
                ended: false,
                turn: OpenAiTurnV {
                    text: Seq::empty(),
                    calls: Seq::empty(),
                    usage: TokenUsage { input: 0, output: 0 },
                },
                judged: None,
            }),
            chat_sound(c@),
    {
        ChatExchange {
            attempt: 1,
            phase: ExchangePhase::Reply,
            reader: SseReader::new(),
            turn: OpenAiTurn::new(),
            judged: None,
        }
    }

    /// Takes the turn out; the exchange is over.
    fn take_turn(&mut self) -> (t: OpenAiTurn)
        ensures
            t@ == old(self)@.turn,
            final(self).phase == ExchangePhase::Over,
            final(self).attempt == old(self).attempt,
    {
        let mut t = OpenAiTurn::new();
        std::mem::swap(&mut t, &mut self.turn);
        self.phase = ExchangePhase::Over;
        t
    }

    /// See [`chat_failed`].
    fn failed(&mut self, f: ApiFailure, settings: &Vec<Option<String>>) -> (r: (
        Vec<AgentEvent>,
        ChatAction,
    ))
        requires
            chat_sound(old(self)@),
            old(self).phase == ExchangePhase::Reply,
        ensures
            chat_sound(final(self)@),
            chat_came_to(
                *final(self),
                r.0@,
                r.1,
                chat_failed(old(self)@, f@, secrets_in(settings@)),
            ),
    {
        match next_attempt(is_retryable(&f), self.attempt) {
            NextAttempt::Wait(secs) => {
                self.phase = ExchangePhase::Pause;
                (nothing(), ChatAction::Sleep(secs))
            },
            NextAttempt::GiveUp => {
                self.phase = ExchangePhase::Over;
                let text = redact_secrets(f.message().as_str(), settings);
                (one_event(AgentEvent::Error(text)), ChatAction::Fail(f))
            },
        }
    }

    /// See [`pumped`].
    fn pump(&mut self, window: u32, rules: bool) -> (r: (Vec<AgentEvent>, ChatAction))
        requires
            chat_sound(old(self)@),
            old(self).judged is None,
        ensures
            chat_sound(final(self)@),
            chat_came_to(
                *final(self),
                r.0@,
                r.1,
                pumped(old(self)@, Seq::empty(), window, rules),
            ),
    {
        let ghost start = self@;
        let mut events = nothing();
        loop
            invariant
                1 <= self.attempt <= MAX_ATTEMPTS,
                self.attempt == start.attempt,
                self.judged is None,
                start == old(self)@,
                pumped(start, Seq::empty(), window, rules) == pumped(
                    self@,
                    event_views(events@),
                    window,
                    rules,
                ),
            decreases self.reader.buffer@.len(),
        {
            proof {
                lemma_next_shrinks(self.reader.buffer@, self.reader.ended);
            }
            let ghost before = self@;
            let ghost said = event_views(events@);
            match self.reader.next() {
                SseNext::NeedMore => {
                    self.phase = ExchangePhase::Stream;
                    return (events, ChatAction::Read);
                },
                SseNext::Failed(f) => {
                    self.phase = ExchangePhase::Over;
                    events.push(AgentEvent::Error(f.message()));
                    assert(event_views(events@) =~= said.push(EventV::Error(failure_text(f@))));
                    return (events, ChatAction::Fail(f));
                },
                SseNext::Finished => {
                    events.push(AgentEvent::TurnEnd);
                    assert(event_views(events@) =~= said.push(EventV::TurnEnd));
                    let turn = self.take_turn();
                    return (events, ChatAction::Done(turn.finish()));
                },
                SseNext::Delta(d) => {
                    let mut more = self.turn.take_text(&d, window);
                    let ghost reports = event_views(more@);
                    events.append(&mut more);
                    assert(event_views(events@) =~= said + reports);
                    if rules {
                        if let Some(t) = &d.text {
                            let text = t.clone();
                            self.phase = ExchangePhase::Rules;
                            self.judged = Some(d);
                            return (events, ChatAction::Judge(text));
                        }
                    }
                    self.turn.take_calls(&d);
                    assert(self@ == (ChatV {
                        turn: with_calls_of(with_text(before.turn, d@), d@),
                        buffer: next_of(before.buffer, before.ended).1,
                        judged: None,
                        ..before
                    }));
                },
            }
        }
    }

    /// Takes one step; see [`chat_step`]. Gives what is reported and what is to
    /// be done next.
    pub fn step(
        &mut self,
        ev: ChatEvent,
        window: u32,
        rules: bool,
        settings: &Vec<Option<String>>,
    ) -> (r: (Vec<AgentEvent>, ChatAction))
        requires
            chat_sound(old(self)@),
            chat_awaits(old(self)@, ev),
        ensures
            chat_sound(final(self)@),
            chat_came_to(
                *final(self),
                r.0@,
                r.1,
                chat_step(old(self)@, ev, window, rules, secrets_in(settings@)),
            ),
    {
        match ev {
            ChatEvent::Opened => {
                self.phase = ExchangePhase::Stream;
                (nothing(), ChatAction::Read)
            },
            ChatEvent::Refused { status, line, body } => {
                let f = read_refusal(status, line.as_str(), body.as_str(), settings);
                self.failed(f, settings)
            },
            ChatEvent::Failed(f) => {
                if self.phase == ExchangePhase::Reply {
                    return self.failed(f, settings);
                }
                self.phase = ExchangePhase::Over;
                (one_event(AgentEvent::Error(f.message())), ChatAction::Fail(f))
            },
            ChatEvent::Waited => {
                self.attempt = self.attempt + 1;
                self.phase = ExchangePhase::Reply;
                (nothing(), ChatAction::Send)
            },
            ChatEvent::Chunk(text) => {
                self.reader.push(text.as_str());
                self.pump(window, rules)
            },
            ChatEvent::Ended => {
                self.reader.end();
                self.pump(window, rules)
            },
            ChatEvent::Judged(rule) => match rule {
                Some(name) => {
                    let turn = self.take_turn();
                    (nothing(), ChatAction::Done(turn.trip(name)))
                },
                None => {
                    let mut judged: Option<SseDelta> = None;
                    std::mem::swap(&mut judged, &mut self.judged);
                    if let Some(d) = judged {
                        self.turn.take_calls(&d);
                    }
                    self.phase = ExchangePhase::Stream;
                    self.pump(window, rules)
                },
            },
            ChatEvent::Cancelled => {
                let turn = self.take_turn();
                (one_event(AgentEvent::Cancelled), ChatAction::Done(turn.cancel()))
            },
        }
    }
}

// ------------------------------------------------------------ messages

/// What has happened to an exchange over messages.
#[derive(Debug)]
pub enum MessagesEvent {
    /// The reply has this status, and asks for this wait, if it asks for one.
    Replied { status: u16, retry_after: Option<u64> },
    /// No reply came.
    NotSent(SendFailure),
    Waited,
    /// The body of a reply that is given up.
    Body(String),
    Chunk(String),
    /// Nothing more will come.
    Ended,
    /// The stream broke off.
    Broken(SendFailure),
    Cancelled,
}

/// What an exchange over messages wants done.
#[derive(Debug)]
pub enum MessagesAction {
    Send,
    /// Wait this many seconds.
    Sleep(u64),
    /// Read the body of the reply.
    ReadBody,
    /// Read more of the stream.
    Read,
    /// The exchange is over, and this is the turn.
    Done(TurnResult),
    /// The exchange is over, and this is the failure.
    Fail(String),
}

/// What a [`MessagesAction`] stands for.
pub enum MessagesActionV {
    Send,
    Sleep(u64),
    ReadBody,
    Read,
    Done(TurnV),
    Fail(Seq<char>),
}

impl View for MessagesAction {
    type V = MessagesActionV;

    open spec fn view(&self) -> MessagesActionV {
        match self {
            MessagesAction::Send => MessagesActionV::Send,
            MessagesAction::Sleep(s) => MessagesActionV::Sleep(*s),
            MessagesAction::ReadBody => MessagesActionV::ReadBody,
            MessagesAction::Read => MessagesActionV::Read,
            MessagesAction::Done(t) => MessagesActionV::Done(t@),
            MessagesAction::Fail(t) => MessagesActionV::Fail(t@),
        }
    }
}

/// An exchange over messages: the attempt, what the stream has delivered, and the
/// status of a reply that is given up, with the reason.
#[derive(Debug)]
pub struct MessagesExchange {
    pub attempt: u32,
    pub phase: ExchangePhase,
    pub turn: AnthropicTurn,
    pub status: u16,
    pub verdict: StatusStep,
}

/// What a [`MessagesExchange`] stands for.
pub struct MessagesV {
    pub attempt: u32,
    pub phase: ExchangePhase,
    pub turn: StreamV,
    pub buffer: Seq<char>,
    pub status: u16,
    pub verdict: StatusStep,
}

impl View for MessagesExchange {
    type V = MessagesV;

    open spec fn view(&self) -> MessagesV {
        MessagesV {
            attempt: self.attempt,
            phase: self.phase,
            turn: self.turn@,
            buffer: self.turn.buffer@,
            status: self.status,
            verdict: self.verdict,
        }
    }
}

/// A step of an exchange over messages.
pub struct MessagesStep {
    pub exchange: MessagesV,
    pub events: Seq<EventV>,
    pub action: MessagesActionV,
}

/// The exchange fails and says why.
pub open spec fn messages_failed(x: MessagesV, events: Seq<EventV>, text: Seq<char>) -> MessagesStep {
    MessagesStep {
        exchange: MessagesV { phase: ExchangePhase::Over, ..x },
        events: events.push(EventV::Error(text)),
        action: MessagesActionV::Fail(text),
    }
}

/// The exchange pauses, and then sends again.
pub open spec fn messages_pause(x: MessagesV, events: Seq<EventV>, secs: u64) -> MessagesStep {
    MessagesStep {
        exchange: MessagesV { phase: ExchangePhase::Pause, ..x },
        events,
        action: MessagesActionV::Sleep(secs),
    }
}

/// What a stream that is given up says of its end.
pub open spec fn end_text(end: EndV) -> Option<Seq<char>> {
    match end {
        EndV::Done => None,
        EndV::Retry(t) => Some(t + " (after 5 attempts)"@),
        EndV::Fatal(t) => Some(t),
    }
}

/// The stream of an attempt ended: another attempt follows, the exchange fails,
/// or the turn is complete.
pub open spec fn stream_over(x: MessagesV, events: Seq<EventV>, end: EndV) -> MessagesStep {
    match end_step(end, x.attempt) {
        NextAttempt::Wait(secs) => messages_pause(x, events, secs),
        NextAttempt::GiveUp => match end_text(end) {
            Some(text) => messages_failed(x, events, text),
            None => MessagesStep {
                exchange: MessagesV { phase: ExchangePhase::Over, ..x },
                events: events.push(EventV::TurnEnd),
                action: MessagesActionV::Done(
                    finished_turn(x.turn.thinking, x.turn.text, x.turn.calls, x.turn.usage),
                ),
            },
        },
    }
}

/// The text of a reply with the status `status` that is given up.
pub open spec fn status_text(
    status: u16,
    verdict: StatusStep,
    attempt: u32,
    body: Seq<char>,
) -> Seq<char> {
    if verdict == StatusStep::Exhausted {
        "Anthropic API error "@ + decimal(status as nat) + " (after "@ + decimal(attempt as nat)
            + " attempts): "@ + body
    } else {
        "Anthropic API error "@ + decimal(status as nat) + ": "@ + body
    }
}

/// A reply came: its stream is read, the exchange pauses, or the body tells why
/// the reply is given up.
pub open spec fn replied(x: MessagesV, status: u16, retry_after: Option<u64>) -> MessagesStep {
    let verdict = status_step(status, retry_after, x.attempt);
    match verdict {
        StatusStep::Stream => MessagesStep {
            exchange: MessagesV {
                phase: ExchangePhase::Stream,
                turn: StreamV {
                    text: Seq::empty(),
                    thinking: Seq::empty(),
                    calls: Seq::empty(),
                    usage: x.turn.usage,
                },
                buffer: Seq::empty(),
                ..x
            },
            events: Seq::empty(),
            action: MessagesActionV::Read,
        },
        StatusStep::Wait(secs) => messages_pause(x, Seq::empty(), secs),
        _ => MessagesStep {
            exchange: MessagesV { phase: ExchangePhase::Body, status, verdict, ..x },
            events: Seq::empty(),
            action: MessagesActionV::ReadBody,
        },
    }
}

/// The event is one that the exchange waits for.
pub open spec fn messages_await(x: MessagesV, ev: MessagesEvent) -> bool {
    match x.phase {
        ExchangePhase::Reply => ev is Replied || ev is NotSent,
        ExchangePhase::Pause => ev is Waited || ev is Cancelled,
        ExchangePhase::Body => ev is Body,
        ExchangePhase::Stream => ev is Chunk || ev is Ended || ev is Broken || ev is Cancelled,
        _ => false,
    }
}

/// The exchange is sound: no attempt is beyond the last, and one is left where it
/// pauses.
pub open spec fn messages_sound(x: MessagesV) -> bool {
    &&& 1 <= x.attempt <= MAX_ATTEMPTS
    &&& x.phase == ExchangePhase::Pause ==> x.attempt < MAX_ATTEMPTS
}

/// A step of an exchange over messages. `window` is the context window that is
/// reported, and `secrets` are kept out of what is reported.
pub open spec fn messages_step(
    x: MessagesV,
    ev: MessagesEvent,
    window: u32,
    secrets: Seq<Seq<char>>,
) -> MessagesStep {
    match ev {
        MessagesEvent::Replied { status, retry_after } => replied(x, status, retry_after),
        MessagesEvent::NotSent(f) => match after_attempt(true, x.attempt) {
            NextAttempt::Wait(secs) => messages_pause(x, Seq::empty(), secs),
            NextAttempt::GiveUp => messages_failed(x, Seq::empty(), failure_message(f)),
        },
        MessagesEvent::Waited => MessagesStep {
            exchange: MessagesV {
                phase: ExchangePhase::Reply,
                attempt: (x.attempt + 1) as u32,
                ..x
            },
            events: Seq::empty(),
            action: MessagesActionV::Send,
        },
        MessagesEvent::Body(body) => messages_failed(
            x,
            Seq::empty(),
            status_text(x.status, x.verdict, x.attempt, redacted(body@, secrets)),
        ),
        MessagesEvent::Chunk(text) => {
            let f = fed(x.turn, Seq::empty(), x.buffer + text@, window);
            let after = MessagesV { turn: f.state, buffer: f.rest, ..x };
            match f.end {
                Some(end) => stream_over(after, f.reports, end),
                None => MessagesStep {
                    exchange: after,
                    events: f.reports,
                    action: MessagesActionV::Read,
                },
            }
        },
        MessagesEvent::Ended => stream_over(x, Seq::empty(), EndV::Done),
        MessagesEvent::Broken(f) => stream_over(
            x,
            Seq::empty(),
            EndV::Retry(failure_message(f)),
        ),
        MessagesEvent::Cancelled => MessagesStep {
            exchange: MessagesV { phase: ExchangePhase::Over, ..x },
            events: seq![EventV::Cancelled],
            action: MessagesActionV::Done(text_turn(x.turn.text, x.turn.usage)),
        },
    }
}

/// The outcome of a step is `s`, but for what an exchange that is over still
/// holds.
pub open spec fn messages_came_to(
    x: MessagesExchange,
    events: Seq<AgentEvent>,
    action: MessagesAction,
    s: MessagesStep,
) -> bool {
    &&& x.phase == s.exchange.phase
    &&& x.phase != ExchangePhase::Over ==> x@ == s.exchange
    &&& event_views(events) == s.events
    &&& action@ == s.action
}

impl MessagesExchange {
    /// An exchange whose first request is to be sent.
    pub fn new() -> (x: MessagesExchange)
        ensures
            x@ == (MessagesV {
                attempt: 1,
                phase: ExchangePhase::Reply,
                turn: StreamV {
                    text: Seq::empty(),
                    thinking: Seq::empty(),
                    calls: Seq::empty(),
                    usage: TokenUsage { input: 0, output: 0 },
                },
                buffer: Seq::empty(),
                status: 0,
                verdict: StatusStep::Stream,
            }),
            messages_sound(x@),
    {
        MessagesExchange {
            attempt: 1,
            phase: ExchangePhase::Reply,
            turn: AnthropicTurn::new(),
            status: 0,
            verdict: StatusStep::Stream,
        }
    }

    /// Takes the turn out; the exchange is over.
    fn take_turn(&mut self) -> (t: AnthropicTurn)
        ensures
            t@ == old(self)@.turn,
            final(self).phase == ExchangePhase::Over,
            final(self).attempt == old(self).attempt,
    {
        let mut t = AnthropicTurn::new();
        std::mem::swap(&mut t, &mut self.turn);
        self.phase = ExchangePhase::Over;
        t
    }

    /// See [`messages_failed`].
    fn fail(&mut self, events: Vec<AgentEvent>, text: String) -> (r: (
        Vec<AgentEvent>,
        MessagesAction,
    ))
        requires
            messages_sound(old(self)@),
        ensures
            messages_sound(final(self)@),
            messages_came_to(
                *final(self),
                r.0@,
                r.1,
                messages_failed(old(self)@, event_views(events@), text@),
            ),
    {
        let ghost said = event_views(events@);
        let mut events = events;
        self.phase = ExchangePhase::Over;
        events.push(AgentEvent::Error(text.clone()));
        assert(event_views(events@) =~= said.push(EventV::Error(text@)));
        (events, MessagesAction::Fail(text))
    }

    /// See [`stream_over`].
    fn end(&mut self, events: Vec<AgentEvent>, end: StreamEnd) -> (r: (
        Vec<AgentEvent>,
        MessagesAction,
    ))
        requires
            messages_sound(old(self)@),
        ensures
            messages_sound(final(self)@),
            messages_came_to(
                *final(self),
                r.0@,
                r.1,
                stream_over(old(self)@, event_views(events@), end@),
            ),
    {
        match after_end(&end, self.attempt) {
            NextAttempt::Wait(secs) => {
                self.phase = ExchangePhase::Pause;
                (events, MessagesAction::Sleep(secs))
            },
            NextAttempt::GiveUp => match end_error(&end) {
                Some(text) => self.fail(events, text),
                None => {
                    let ghost said = event_views(events@);
                    let mut events = events;
                    events.push(AgentEvent::TurnEnd);
                    assert(event_views(events@) =~= said.push(EventV::TurnEnd));
                    let turn = self.take_turn();
                    (events, MessagesAction::Done(turn.finish()))
                },
            },
        }
    }

    /// Takes one step; see [`messages_step`]. Gives what is reported and what is
    /// to be done next.
    pub fn step(
        &mut self,
        ev: MessagesEvent,
        window: u32,
        settings: &Vec<Option<String>>,
    ) -> (r: (Vec<AgentEvent>, MessagesAction))
        requires
            messages_sound(old(self)@),
            messages_await(old(self)@, ev),
        ensures
            messages_sound(final(self)@),
            messages_came_to(
                *final(self),
                r.0@,
                r.1,
                messages_step(old(self)@, ev, window, secrets_in(settings@)),
            ),
    {
        match ev {
            MessagesEvent::Replied { status, retry_after } => {
                let verdict = after_status(status, retry_after, self.attempt);
                match verdict {
                    StatusStep::Stream => {
                        self.turn.restart();
                        self.phase = ExchangePhase::Stream;
                        (nothing(), MessagesAction::Read)
                    },
                    StatusStep::Wait(secs) => {
                        self.phase = ExchangePhase::Pause;
                        (nothing(), MessagesAction::Sleep(secs))
                    },
                    _ => {
                        self.status = status;
                        self.verdict = verdict;
                        self.phase = ExchangePhase::Body;
                        (nothing(), MessagesAction::ReadBody)
                    },
                }
            },
            MessagesEvent::NotSent(f) => match next_attempt(true, self.attempt) {
                NextAttempt::Wait(secs) => {
                    self.phase = ExchangePhase::Pause;
                    (nothing(), MessagesAction::Sleep(secs))
                },
                NextAttempt::GiveUp => self.fail(nothing(), describe_failure(&f)),
            },
            MessagesEvent::Waited => {
                self.attempt = self.attempt + 1;
                self.phase = ExchangePhase::Reply;
                (nothing(), MessagesAction::Send)
            },
            MessagesEvent::Body(body) => {
                let clean = redact_secrets(body.as_str(), settings);
                let text = status_error(self.status, self.verdict, self.attempt, clean.as_str());
                self.fail(nothing(), text)
            },
            MessagesEvent::Chunk(text) => {
                let (events, end) = self.turn.feed(text.as_str(), window);
                match end {
                    Some(e) => self.end(events, e),
                    None => (events, MessagesAction::Read),
                }
            },
            MessagesEvent::Ended => self.end(nothing(), StreamEnd::Done),
            MessagesEvent::Broken(f) => self.end(
                nothing(),
                StreamEnd::Retry(describe_failure(&f)),
            ),
            MessagesEvent::Cancelled => {
                let turn = self.take_turn();
                (one_event(AgentEvent::Cancelled), MessagesAction::Done(turn.cancel()))
            },
        }
    }
}

// ------------------------------------------------------------ the Codex CLI

/// What has happened to a run of the Codex CLI.
#[derive(Debug)]
pub enum CliEvent {
    Line(String),
    /// Nothing more will come.
    Ended,
    /// The output cannot be read, and why.
    Broken(String),
    /// No line came for this many seconds.
    Silent(u64),
    /// The CLI ended with this status.
    Exited { success: bool, status: String },
    Cancelled,
}

/// What a run of the Codex CLI wants done.
#[derive(Debug)]
pub enum CliAction {
    /// Read the next line.
    Read,
    /// Wait for the CLI to end.
    AwaitExit,
    /// The run is over, and this is the turn.
    Done(TurnResult),
    /// Stop the CLI; the run is over, and this is the turn.
    Stop(TurnResult),
    /// The run is over, and this is the failure.
    Fail(String),
    /// Stop the CLI; the run is over, and this is the failure.
    Abort(String),
}

/// What a [`CliAction`] stands for.
pub enum CliActionV {
    Read,
    AwaitExit,
    Done(TurnV),
    Stop(TurnV),
    Fail(Seq<char>),
    Abort(Seq<char>),
}

impl View for CliAction {
    type V = CliActionV;

    open spec fn view(&self) -> CliActionV {
        match self {
            CliAction::Read => CliActionV::Read,
            CliAction::AwaitExit => CliActionV::AwaitExit,
            CliAction::Done(t) => CliActionV::Done(t@),
            CliAction::Stop(t) => CliActionV::Stop(t@),
            CliAction::Fail(t) => CliActionV::Fail(t@),
            CliAction::Abort(t) => CliActionV::Abort(t@),
        }
    }
}

/// What is reported once the CLI has ended well: an answer that did not come in
/// pieces, and the end of the turn.
pub open spec fn closing(t: CodexV) -> Seq<EventV> {
    if !t.streamed_text && t.answer.len() > 0 {
        seq![EventV::TextChunk(t.answer), EventV::TurnEnd]
    } else {
        seq![EventV::TurnEnd]
    }
}

/// A step of a run of the Codex CLI: what it has written so far, what is
/// reported, and what is to be done. A line that is no JSON text is passed over.
pub open spec fn cli_step(t: CodexV, ev: CliEvent) -> (CodexV, Seq<EventV>, CliActionV) {
    match ev {
        CliEvent::Line(line) => match parsed_json(line@) {
            Some(v) => {
                let (after, report) = codex_step(t, v);
                (
                    after,
                    match report {
                        Some(e) => seq![e],
                        None => Seq::empty(),
                    },
                    CliActionV::Read,
                )
            },
            None => (t, Seq::empty(), CliActionV::Read),
        },
        CliEvent::Ended => (t, Seq::empty(), CliActionV::AwaitExit),
        CliEvent::Broken(error) => (
            t,
            Seq::empty(),
            CliActionV::Abort("read codex output: "@ + error@),
        ),
        CliEvent::Silent(secs) => (
            t,
            Seq::empty(),
            CliActionV::Abort(
                "codex stream idle for "@ + decimal(secs as nat)
                    + "s — no output lines; is the CLI wedged?"@,
            ),
        ),
        CliEvent::Exited { success, status } => if success {
            (t, closing(t), CliActionV::Done(text_turn(t.answer, t.usage)))
        } else {
            (
                t,
                Seq::empty(),
                CliActionV::Fail(
                    "Codex exited with status "@ + status@
                        + "; run `codex login status` to verify ChatGPT authentication"@,
                ),
            )
        },
        CliEvent::Cancelled => (
            t,
            seq![EventV::Cancelled],
            CliActionV::Stop(text_turn(Seq::empty(), TokenUsage { input: 0, output: 0 })),
        ),
    }
}

impl CodexTurn {
    /// Takes one step; see [`cli_step`]. Once the run is over, nothing is left of
    /// what the CLI wrote.
    pub fn step(&mut self, ev: CliEvent) -> (r: (Vec<AgentEvent>, CliAction))
        ensures
            ({
                let (after, events, action) = cli_step(old(self)@, ev);
                &&& event_views(r.0@) == events
                &&& r.1@ == action
                &&& action is Read || action is AwaitExit ==> final(self)@ == after
            }),
    {
        match ev {
            CliEvent::Line(line) => match Json::parse(line.as_str()) {
                Some(v) => match self.consume_event(&v) {
                    Some(e) => (one_event(e), CliAction::Read),
                    None => (nothing(), CliAction::Read),
                },
                None => (nothing(), CliAction::Read),
            },
            CliEvent::Ended => (nothing(), CliAction::AwaitExit),
            CliEvent::Broken(error) => (
                nothing(),
                CliAction::Abort(cat2("read codex output: ", error.as_str())),
            ),
            CliEvent::Silent(secs) => {
                let n = number(secs);
                (
                    nothing(),
                    CliAction::Abort(
                        cat3(
                            "codex stream idle for ",
                            n.as_str(),
                            "s — no output lines; is the CLI wedged?",
                        ),
                    ),
                )
            },
            CliEvent::Exited { success, status } => {
                if success {
                    let events = self.closing_events();
                    let mut turn = CodexTurn::new();
                    std::mem::swap(&mut turn, self);
                    (events, CliAction::Done(turn.finish()))
                } else {
                    (
                        nothing(),
                        CliAction::Fail(
                            cat3(
                                "Codex exited with status ",
                                status.as_str(),
                                "; run `codex login status` to verify ChatGPT authentication",
                            ),
                        ),
                    )
                }
            },
            CliEvent::Cancelled => (
                one_event(AgentEvent::Cancelled),
                CliAction::Stop(empty_turn()),
            ),
        }
    }
}

// ------------------------------------------------------------ laws

/// Each time a request is sent again the attempt is counted, and none is sent
/// beyond the last.
pub proof fn law_chat_attempts_end(
    c: ChatV,
    ev: ChatEvent,
    window: u32,
    rules: bool,
    secrets: Seq<Seq<char>>,
)
    requires
        chat_sound(c),
        chat_awaits(c, ev),
        chat_step(c, ev, window, rules, secrets).action is Send,
    ensures
        chat_step(c, ev, window, rules, secrets).chat.attempt == c.attempt + 1,
        chat_step(c, ev, window, rules, secrets).chat.attempt <= MAX_ATTEMPTS,
{
    if ev is Chunk || ev is Ended || ev is Judged {
        lemma_pumping_sends_nothing(pump_start(c, ev), Seq::empty(), window, rules);
    }
}

/// Where the taking of deltas begins after the event `ev`.
spec fn pump_start(c: ChatV, ev: ChatEvent) -> ChatV {
    match ev {
        ChatEvent::Chunk(text) => ChatV { buffer: c.buffer + text@, ..c },
        ChatEvent::Ended => ChatV { ended: true, ..c },
        _ => ChatV {
            phase: ExchangePhase::Stream,
            turn: with_calls_of(c.turn, c.judged->0),
            judged: None,
            ..c
        },
    }
}

proof fn lemma_pumping_sends_nothing(c: ChatV, events: Seq<EventV>, window: u32, rules: bool)
    ensures
        !(pumped(c, events, window, rules).action is Send),
        !(pumped(c, events, window, rules).action is Sleep),
    decreases c.buffer.len(),
{
    let (next, rest) = next_of(c.buffer, c.ended);
    if let NextV::Delta(d) = next {
        lemma_next_shrinks(c.buffer, c.ended);
        let turn = with_text(c.turn, d);
        if !(rules && d.text is Some) {
            lemma_pumping_sends_nothing(
                ChatV { turn: with_calls_of(turn, d), buffer: rest, judged: None, ..c },
                events + delta_reports(d, window),
                window,
                rules,
            );
        }
    }
}

/// Once a stream is open the request is never sent again: what has been reported
/// of it is not reported twice.
pub proof fn law_open_streams_are_not_sent_again(
    c: ChatV,
    ev: ChatEvent,
    window: u32,
    rules: bool,
    secrets: Seq<Seq<char>>,
)
    requires
        c.phase == ExchangePhase::Stream || c.phase == ExchangePhase::Rules,
        chat_awaits(c, ev),
    ensures
        !(chat_step(c, ev, window, rules, secrets).action is Send),
        !(chat_step(c, ev, window, rules, secrets).action is Sleep),
{
    if ev is Chunk || ev is Ended || ev is Judged {
        lemma_pumping_sends_nothing(pump_start(c, ev), Seq::empty(), window, rules);
    }
}

/// A turn that a rule cut short is not reported as ended, and no call in it is
/// taken.
pub proof fn law_tripped_turns_make_no_calls(
    c: ChatV,
    name: String,
    window: u32,
    rules: bool,
    secrets: Seq<Seq<char>>,
)
    ensures
        chat_step(c, ChatEvent::Judged(Some(name)), window, rules, secrets).events
            == Seq::<EventV>::empty(),
        chat_step(c, ChatEvent::Judged(Some(name)), window, rules, secrets).action
            matches ChatActionV::Done(t) && t.state is Done && t.tripped_rule == Some(name@),
{
}

/// No wait of an exchange over messages is longer than two minutes, and each
/// attempt is counted up to the last.
pub proof fn law_messages_attempts_end(
    x: MessagesV,
    ev: MessagesEvent,
    window: u32,
    secrets: Seq<Seq<char>>,
)
    requires
        messages_sound(x),
        messages_await(x, ev),
    ensures
        ({
            let s = messages_step(x, ev, window, secrets);
            &&& s.action matches MessagesActionV::Sleep(secs) ==> secs <= 120
            &&& s.action is Send ==> s.exchange.attempt == x.attempt + 1 <= MAX_ATTEMPTS
            &&& !(s.action is Send) ==> s.exchange.attempt == x.attempt
        }),
{
    law_backoff_is_capped(x.attempt as nat);
}

/// A stream that starts over starts from nothing: what an attempt delivered
/// before it failed is not in the turn of the next one.
pub proof fn law_attempts_start_from_nothing(x: MessagesV, status: u16, retry_after: Option<u64>)
    requires
        replied(x, status, retry_after).action is Read,
    ensures
        replied(x, status, retry_after).exchange.turn.text.len() == 0,
        replied(x, status, retry_after).exchange.turn.thinking.len() == 0,
        replied(x, status, retry_after).exchange.turn.calls.len() == 0,
        replied(x, status, retry_after).exchange.buffer.len() == 0,
{
}

/// What the exchange passes on is what it keeps: the text of the turn grows by what
/// is reported as said, and by nothing else, and the finished turn has all of it.
pub proof fn law_turn_keeps_what_is_passed_on(c: ChatV, window: u32, rules: bool)
    ensures
        ({
            let s = pumped(c, Seq::empty(), window, rules);
            &&& s.action !is Done && s.action !is Fail ==> s.chat.turn.text == c.turn.text + spoken(
                s.events,
            )
            &&& s.action matches ChatActionV::Done(t) ==> exists|calls: Seq<PartialV>, usage: TokenUsage|
                t == #[trigger] finished_turn(
                    Seq::empty(),
                    c.turn.text + spoken(s.events),
                    calls,
                    usage,
                )
            &&& s.action matches ChatActionV::Judge(t) ==> s.chat.judged is Some && s.chat.judged->0.text
                == Some(t) && ends(spoken(s.events), t)
        }),
{
    lemma_pumped_says(c, Seq::empty(), window, rules);
    let none = Seq::<EventV>::empty();
    let s = pumped(c, none, window, rules);
    let x = choose|x: Seq<char>| #[trigger] pumped_says(c, none, s, x);
    assert(spoken(none) + x =~= x);
}

/// The text gained `x`, and so did what was reported.
spec fn pumped_says(c: ChatV, events: Seq<EventV>, s: ChatStep, x: Seq<char>) -> bool {
    &&& spoken(s.events) == spoken(events) + x
    &&& s.action !is Done && s.action !is Fail ==> s.chat.turn.text == c.turn.text + x
    &&& s.action matches ChatActionV::Done(t) ==> exists|calls: Seq<PartialV>, usage: TokenUsage|
        t == #[trigger] finished_turn(Seq::empty(), c.turn.text + x, calls, usage)
    &&& s.action matches ChatActionV::Judge(t) ==> s.chat.judged is Some && s.chat.judged->0.text
        == Some(t) && ends(x, t)
}

proof fn lemma_reports_say(events: Seq<EventV>, d: SseDeltaV, window: u32)
    ensures
        spoken(events + delta_reports(d, window)) == spoken(events) + (match d.text {
            Some(t) => t,
            None => Seq::empty(),
        }),
{
    let all = events + delta_reports(d, window);
    let none = Seq::<char>::empty();
    match (d.usage, d.text) {
        (Some(u), Some(t)) => {
            let mid = all.drop_last();
            assert(mid.drop_last() =~= events);
            assert(mid.last() is ContextUsage);
            assert(spoken(mid) =~= spoken(events));
            assert(all.last() == EventV::TextChunk(t));
        },
        (Some(u), None) => {
            assert(all.drop_last() =~= events);
            assert(spoken(all) =~= spoken(events) + none);
        },
        (None, Some(t)) => {
            assert(all.drop_last() =~= events);
            assert(spoken(all) =~= spoken(events) + t);
        },
        (None, None) => {
            assert(all =~= events);
            assert(spoken(all) =~= spoken(events) + none);
        },
    }
}

proof fn lemma_pumped_says(c: ChatV, events: Seq<EventV>, window: u32, rules: bool)
    ensures
        exists|x: Seq<char>| #[trigger]
            pumped_says(c, events, pumped(c, events, window, rules), x),
    decreases c.buffer.len(),
{
    let (next, rest) = next_of(c.buffer, c.ended);
    let after = ChatV { buffer: rest, judged: None, ..c };
    let s = pumped(c, events, window, rules);
    let none = Seq::<char>::empty();
    assert(spoken(events) + none =~= spoken(events));
    assert(c.turn.text + none =~= c.turn.text);
    match next {
        NextV::Delta(d) => {
            lemma_next_shrinks(c.buffer, c.ended);
            let turn = with_text(c.turn, d);
            let said = events + delta_reports(d, window);
            lemma_reports_say(events, d, window);
            let t = match d.text {
                Some(t) => t,
                None => none,
            };
            assert(turn.text =~= c.turn.text + t);
            if rules && d.text is Some {
                assert(t.subrange(0, t.len() as int) =~= t);
                assert(pumped_says(c, events, s, t));
            } else {
                let onward = ChatV { turn: with_calls_of(turn, d), ..after };
                lemma_pumped_says(onward, said, window, rules);
                let x = choose|x: Seq<char>| #[trigger] pumped_says(onward, said, s, x);
                assert(spoken(events) + t + x =~= spoken(events) + (t + x));
                assert(c.turn.text + t + x =~= c.turn.text + (t + x));
                if let ChatActionV::Judge(j) = s.action {
                    let all = t + x;
                    assert(all.subrange(all.len() - j.len(), all.len() as int) =~= x.subrange(
                        x.len() - j.len(),
                        x.len() as int,
                    ));
                }
                assert(pumped_says(c, events, s, t + x));
            }
        },
        NextV::Failed(f) => {
            assert(events.push(EventV::Error(failure_text(f))).drop_last() =~= events);
            assert(spoken(s.events) =~= spoken(events) + none);
            assert(pumped_says(c, events, s, none));
        },
        NextV::Finished => {
            assert(events.push(EventV::TurnEnd).drop_last() =~= events);
            assert(spoken(s.events) =~= spoken(events) + none);
            assert(s.action == ChatActionV::Done(
                finished_turn(Seq::empty(), c.turn.text + none, c.turn.calls, c.turn.usage),
            ));
            assert(pumped_says(c, events, s, none));
        },
        NextV::NeedMore => {
            assert(pumped_says(c, events, s, none));
        },
    }
}

/// All the deltas that the stream holds, in order.
pub open spec fn deltas_in(buffer: Seq<char>, ended: bool) -> Seq<SseDeltaV>
    decreases buffer.len(),
{
    proof {
        lemma_next_shrinks(buffer, ended);
    }
    match next_of(buffer, ended).0 {
        NextV::Delta(d) => seq![d] + deltas_in(next_of(buffer, ended).1, ended),
        _ => Seq::empty(),
    }
}

/// The texts of some deltas, one behind the other.
pub open spec fn texts_of(ds: Seq<SseDeltaV>) -> Seq<char>
    decreases ds.len(),
{
    if ds.len() == 0 {
        Seq::empty()
    } else {
        (match ds[0].text {
            Some(t) => t,
            None => Seq::empty(),
        }) + texts_of(ds.drop_first())
    }
}

/// The calls of a turn with the pieces of some deltas, one delta behind the other.
pub open spec fn calls_of(calls: Seq<PartialV>, ds: Seq<SseDeltaV>) -> Seq<PartialV>
    decreases ds.len(),
{
    if ds.len() == 0 {
        calls
    } else {
        calls_of(with_pieces(calls, ds[0].tool_calls), ds.drop_first())
    }
}

/// What was counted last.
pub open spec fn counted_last(usage: TokenUsage, ds: Seq<SseDeltaV>) -> TokenUsage
    decreases ds.len(),
{
    if ds.len() == 0 {
        usage
    } else {
        counted_last(
            match ds[0].usage {
                Some(u) => TokenUsage { input: u.prompt, output: u.completion },
                None => usage,
            },
            ds.drop_first(),
        )
    }
}

/// Where no rule is held against the text, every delta of the stream is in the turn: all
/// their texts, all the pieces of their calls, and what was counted last. The stream that
/// ends well gives the turn that they make.
pub proof fn law_every_delta_is_in_the_turn(c: ChatV, events: Seq<EventV>, window: u32)
    ensures
        ({
            let s = pumped(c, events, window, false);
            let ds = deltas_in(c.buffer, c.ended);
            let text = c.turn.text + texts_of(ds);
            let calls = calls_of(c.turn.calls, ds);
            let usage = counted_last(c.turn.usage, ds);
            &&& s.action is Read || s.action is Done || s.action is Fail
            &&& s.action is Read ==> s.chat.turn.text == text && s.chat.turn.calls == calls
                && s.chat.turn.usage == usage
            &&& s.action is Done ==> s.action->Done_0 == finished_turn(
                Seq::empty(),
                text,
                calls,
                usage,
            )
        }),
    decreases c.buffer.len(),
{
    let (next, rest) = next_of(c.buffer, c.ended);
    let ds = deltas_in(c.buffer, c.ended);
    let none = Seq::<char>::empty();
    assert(c.turn.text + none =~= c.turn.text);
    if let NextV::Delta(d) = next {
        lemma_next_shrinks(c.buffer, c.ended);
        let turn = with_calls_of(with_text(c.turn, d), d);
        let onward = ChatV { buffer: rest, judged: None, turn, ..c };
        let said = events + delta_reports(d, window);
        law_every_delta_is_in_the_turn(onward, said, window);
        let more = deltas_in(rest, c.ended);
        assert(ds.drop_first() =~= more);
        assert(ds[0] == d);
        let t = match d.text {
            Some(t) => t,
            None => none,
        };
        assert(turn.text =~= c.turn.text + t);
        assert(c.turn.text + t + texts_of(more) =~= c.turn.text + (t + texts_of(more)));
    }
}

proof fn lemma_events_go_on(c: ChatV, events: Seq<EventV>, window: u32, rules: bool)
    ensures
        ({
            let (s, t) = (
                pumped(c, events, window, rules),
                pumped(c, Seq::empty(), window, rules),
            );
            &&& s.chat == t.chat
            &&& s.action == t.action
            &&& s.events == events + t.events
        }),
    decreases c.buffer.len(),
{
    let (next, rest) = next_of(c.buffer, c.ended);
    let none = Seq::<EventV>::empty();
    match next {
        NextV::Delta(d) => {
            lemma_next_shrinks(c.buffer, c.ended);
            let turn = with_text(c.turn, d);
            let own = delta_reports(d, window);
            assert(none + own =~= own);
            if !(rules && d.text is Some) {
                let after = ChatV { buffer: rest, judged: None, ..c };
                let onward = ChatV { turn: with_calls_of(turn, d), ..after };
                lemma_events_go_on(onward, events + own, window, rules);
                lemma_events_go_on(onward, none + own, window, rules);
                let t = pumped(onward, none, window, rules).events;
                assert((events + own) + t =~= events + (own + t));
            }
        },
        NextV::Failed(f) => {
            let e = EventV::Error(failure_text(f));
            assert(events.push(e) =~= events + none.push(e));
        },
        NextV::Finished => {
            assert(events.push(EventV::TurnEnd) =~= events + none.push(EventV::TurnEnd));
        },
        NextV::NeedMore => {
            assert(events =~= events + none);
        },
    }
}

/// A text that breaks no rule changes nothing: the exchange goes on as if there were no
/// rules, with the same turn, the same reports and the same outcome.
pub proof fn law_kept_rules_change_nothing(c: ChatV, window: u32, secrets: Seq<Seq<char>>)
    requires
        pumped(c, Seq::empty(), window, true).action is Judge,
        c.phase == ExchangePhase::Stream,
    ensures
        ({
            let s = pumped(c, Seq::empty(), window, true);
            let on = chat_step(s.chat, ChatEvent::Judged(None), window, false, secrets);
            let without = pumped(c, Seq::empty(), window, false);
            &&& on.action == without.action
            &&& on.chat == without.chat
            &&& s.events + on.events == without.events
        }),
    decreases c.buffer.len(),
{
    let (next, rest) = next_of(c.buffer, c.ended);
    let none = Seq::<EventV>::empty();
    if let NextV::Delta(d) = next {
        lemma_next_shrinks(c.buffer, c.ended);
        let turn = with_text(c.turn, d);
        let own = delta_reports(d, window);
        assert(none + own =~= own);
        let after = ChatV { buffer: rest, judged: None, ..c };
        let onward = ChatV { turn: with_calls_of(turn, d), ..after };
        lemma_events_go_on(onward, own, window, false);
        if d.text is None {
            lemma_events_go_on(onward, own, window, true);
            law_kept_rules_change_nothing(onward, window, secrets);
            let s = pumped(onward, none, window, true);
            let on = chat_step(s.chat, ChatEvent::Judged(None), window, false, secrets);
            assert((own + s.events) + on.events =~= own + (s.events + on.events));
        }
    }
}

/// Where the stream of a chat is cut into pieces does not matter: what comes next goes on
/// where the piece before it broke off.
pub proof fn law_chat_may_break_anywhere(
    c: ChatV,
    a: String,
    b: String,
    ab: String,
    window: u32,
    secrets: Seq<Seq<char>>,
)
    requires
        ab@ == a@ + b@,
        c.phase == ExchangePhase::Stream,
        c.judged is None,
        !c.ended,
        chat_step(c, ChatEvent::Chunk(a), window, false, secrets).action is Read,
    ensures
        ({
            let first = chat_step(c, ChatEvent::Chunk(a), window, false, secrets);
            let second = chat_step(first.chat, ChatEvent::Chunk(b), window, false, secrets);
            let whole = chat_step(c, ChatEvent::Chunk(ab), window, false, secrets);
            &&& second.chat == whole.chat
            &&& second.action == whole.action
            &&& whole.events == first.events + second.events
        }),
{
    let none = Seq::<EventV>::empty();
    let start = ChatV { buffer: c.buffer + a@, ..c };
    lemma_breaks(start, b@, window);
    assert(c.buffer + ab@ =~= (c.buffer + a@) + b@);
}

proof fn lemma_breaks(c: ChatV, b: Seq<char>, window: u32)
    requires
        c.phase == ExchangePhase::Stream,
        c.judged is None,
        !c.ended,
        pumped(c, Seq::empty(), window, false).action is Read,
    ensures
        ({
            let first = pumped(c, Seq::empty(), window, false);
            let second = pumped(
                ChatV { buffer: first.chat.buffer + b, ..first.chat },
                Seq::empty(),
                window,
                false,
            );
            let whole = pumped(ChatV { buffer: c.buffer + b, ..c }, Seq::empty(), window, false);
            &&& second.chat == whole.chat
            &&& second.action == whole.action
            &&& whole.events == first.events + second.events
        }),
    decreases c.buffer.len(),
{
    let none = Seq::<EventV>::empty();
    let (next, rest) = next_of(c.buffer, false);
    law_chunks_may_break_anywhere(c.buffer, b, false);
    let wide = ChatV { buffer: c.buffer + b, ..c };
    match next {
        NextV::Delta(d) => {
            lemma_next_shrinks(c.buffer, false);
            let own = delta_reports(d, window);
            assert(none + own =~= own);
            let turn = with_calls_of(with_text(c.turn, d), d);
            let onward = ChatV { buffer: rest, judged: None, turn, ..c };
            lemma_events_go_on(onward, own, window, false);
            let wide_on = ChatV { buffer: rest + b, judged: None, turn, ..c };
            lemma_events_go_on(wide_on, own, window, false);
            lemma_breaks(onward, b, window);
            let first = pumped(onward, none, window, false);
            let second = pumped(
                ChatV { buffer: first.chat.buffer + b, ..first.chat },
                none,
                window,
                false,
            );
            assert(own + (first.events + second.events) =~= (own + first.events) + second.events);
        },
        _ => {
            lemma_same_next(wide, ChatV { buffer: rest + b, ..c }, window);
            let s = pumped(ChatV { buffer: rest + b, ..c }, none, window, false);
            assert(none + s.events =~= s.events);
        },
    }
}

proof fn lemma_same_next(c: ChatV, d: ChatV, window: u32)
    requires
        next_of(c.buffer, c.ended) == next_of(d.buffer, d.ended),
        d == (ChatV { buffer: d.buffer, ..c }),
    ensures
        pumped(c, Seq::empty(), window, false) == pumped(d, Seq::empty(), window, false),
{
    let (next, rest) = next_of(c.buffer, c.ended);
    assert(ChatV { buffer: rest, judged: None, ..c } == ChatV { buffer: rest, judged: None, ..d });
}

/// An attempt that failed for a while is made again after a wait, as long as attempts are
/// left; else the failure is given as it is, and reported without the secrets.
pub proof fn law_failures_are_given_as_they_are(
    c: ChatV,
    f: ApiFailure,
    window: u32,
    rules: bool,
    secrets: Seq<Seq<char>>,
)
    requires
        c.phase == ExchangePhase::Reply,
    ensures
        ({
            let s = chat_step(c, ChatEvent::Failed(f), window, rules, secrets);
            &&& retryable(f@) && c.attempt < 5 ==> s.action is Sleep && s.events.len() == 0
                && s.chat.turn == c.turn
            &&& !retryable(f@) || c.attempt >= 5 ==> s.action == ChatActionV::Fail(f@) && s.events
                == seq![EventV::Error(redacted(failure_text(f@), secrets))]
        }),
{
    law_waits_double(c.attempt);
}

/// A turn that is cancelled keeps what was said until then, word for word, and makes no
/// calls; over messages it does too.
pub proof fn law_cancelled_turns_keep_the_text(
    c: ChatV,
    x: MessagesV,
    window: u32,
    rules: bool,
    secrets: Seq<Seq<char>>,
)
    ensures
        ({
            let s = chat_step(c, ChatEvent::Cancelled, window, rules, secrets);
            &&& s.events == seq![EventV::Cancelled]
            &&& s.action is Done
            &&& s.action->Done_0.message.content == seq![BlockV::Text { text: c.turn.text }]
            &&& s.action->Done_0.state is Done
            &&& s.action->Done_0.usage == c.turn.usage
        }),
        ({
            let s = messages_step(x, MessagesEvent::Cancelled, window, secrets);
            &&& s.events == seq![EventV::Cancelled]
            &&& s.action is Done
            &&& s.action->Done_0.message.content == seq![BlockV::Text { text: x.turn.text }]
            &&& s.action->Done_0.state is Done
            &&& s.action->Done_0.usage == x.turn.usage
        }),
{
}

/// Where the stream of messages is cut into pieces does not matter either.
pub proof fn law_messages_may_break_anywhere(
    x: MessagesV,
    a: String,
    b: String,
    ab: String,
    window: u32,
    secrets: Seq<Seq<char>>,
)
    requires
        ab@ == a@ + b@,
        messages_step(x, MessagesEvent::Chunk(a), window, secrets).action is Read,
    ensures
        ({
            let first = messages_step(x, MessagesEvent::Chunk(a), window, secrets);
            let second = messages_step(first.exchange, MessagesEvent::Chunk(b), window, secrets);
            let whole = messages_step(x, MessagesEvent::Chunk(ab), window, secrets);
            &&& second.action == whole.action
            &&& second.exchange == whole.exchange
            &&& second.action is Read ==> whole.events == first.events + second.events
        }),
{
    assert(x.buffer + ab@ =~= (x.buffer + a@) + b@);
    law_stream_may_break_anywhere(x.turn, x.buffer + a@, b@, window);
}

/// A stream of messages that ends well gives the turn with all that was thought, said and
/// called; one that breaks off is tried again as long as attempts are left.
pub proof fn law_messages_end_in_their_turn(
    x: MessagesV,
    f: SendFailure,
    window: u32,
    secrets: Seq<Seq<char>>,
)
    ensures
        ({
            let s = messages_step(x, MessagesEvent::Ended, window, secrets);
            &&& s.events == seq![EventV::TurnEnd]
            &&& s.action == MessagesActionV::Done(
                finished_turn(x.turn.thinking, x.turn.text, x.turn.calls, x.turn.usage),
            )
        }),
        x.attempt < 5 ==> messages_step(x, MessagesEvent::Broken(f), window, secrets).action
            is Sleep,
        x.attempt < 5 ==> messages_step(x, MessagesEvent::NotSent(f), window, secrets).action
            is Sleep,
        x.attempt >= 5 ==> messages_step(x, MessagesEvent::NotSent(f), window, secrets).action
            == MessagesActionV::Fail(failure_message(f)),
        x.attempt >= 5 ==> {
            let s = messages_step(x, MessagesEvent::Broken(f), window, secrets);
            s.action is Fail && begins(s.action->Fail_0, failure_message(f)) && s.events
                == seq![EventV::Error(s.action->Fail_0)]
        },
{
    law_waits_double(x.attempt);
    let none = Seq::<EventV>::empty();
    assert(none.push(EventV::TurnEnd) =~= seq![EventV::TurnEnd]);
    let t = failure_message(f) + " (after 5 attempts)"@;
    assert(t.subrange(0, failure_message(f).len() as int) =~= failure_message(f));
    assert(none.push(EventV::Error(t)) =~= seq![EventV::Error(t)]);
}

/// A reply that is given up is told with its status and its body, without the secrets, and
/// what is reported is what the exchange fails with.
pub proof fn law_refused_replies_are_told(
    x: MessagesV,
    body: String,
    window: u32,
    secrets: Seq<Seq<char>>,
)
    ensures
        ({
            let s = messages_step(x, MessagesEvent::Body(body), window, secrets);
            &&& s.action is Fail
            &&& ends(s.action->Fail_0, redacted(body@, secrets))
            &&& begins(
                s.action->Fail_0,
                "Anthropic API error "@ + decimal(x.status as nat),
            )
            &&& s.events == seq![EventV::Error(s.action->Fail_0)]
        }),
{
    let s = messages_step(x, MessagesEvent::Body(body), window, secrets);
    let t = s.action->Fail_0;
    let told = redacted(body@, secrets);
    let lead = "Anthropic API error "@ + decimal(x.status as nat);
    assert(t.subrange(t.len() - told.len(), t.len() as int) =~= told);
    assert(t.subrange(0, lead.len() as int) =~= lead);
    assert(s.events =~= seq![EventV::Error(t)]);
}

/// A reply decides by its status: a success is read, one worth another attempt is waited
/// for as long as the reply asks for, if that is not too long, and any other is given up.
pub proof fn law_status_decides(x: MessagesV, status: u16, retry_after: Option<u64>)
    ensures
        200 <= status < 300 ==> replied(x, status, retry_after).action is Read,
        (status == 429 || 500 <= status <= 599) && x.attempt < 5 && retry_after is None
            ==> replied(x, status, retry_after).action is Sleep,
        (status == 429 || 500 <= status <= 599) && x.attempt < 5 && retry_after is Some
            && retry_after->0 <= 120 ==> replied(x, status, retry_after).action
            == MessagesActionV::Sleep(retry_after->0),
        (status == 429 || 500 <= status <= 599) && (x.attempt >= 5 || (retry_after is Some
            && retry_after->0 > 120)) ==> replied(x, status, retry_after).action is ReadBody,
        (status < 200 || 300 <= status < 500 || status >= 600) && status != 429 ==> replied(
            x,
            status,
            retry_after,
        ).action is ReadBody,
{
    law_refusals_are_not_repeated(status);
}

/// A run of the CLI that ended well gives its answer and what it counted, and reports an
/// answer that did not come in pieces; one that did not is told with its status, and one
/// that fell silent with how long.
pub proof fn law_cli_runs_end_as_they_ended(t: CodexV, status: String, error: String, secs: u64)
    ensures
        ({
            let (after, events, action) = cli_step(t, CliEvent::Exited { success: true, status });
            &&& action is Done
            &&& action->Done_0.message.content == seq![BlockV::Text { text: t.answer }]
            &&& action->Done_0.usage == t.usage
            &&& events.last() == EventV::TurnEnd
            &&& !t.streamed_text ==> spoken(events) == t.answer
            &&& t.streamed_text ==> spoken(events).len() == 0
        }),
        ({
            let (after, events, action) = cli_step(t, CliEvent::Exited { success: false, status });
            action is Fail && holds(action->Fail_0, status@)
        }),
        ({
            let (after, events, action) = cli_step(t, CliEvent::Broken(error));
            action is Abort && ends(action->Abort_0, error@)
        }),
        ({
            let (after, events, action) = cli_step(t, CliEvent::Silent(secs));
            action is Abort && holds(action->Abort_0, decimal(secs as nat))
        }),
{
    let one = seq![EventV::TurnEnd];
    let none = Seq::<EventV>::empty();
    assert(one.drop_last() =~= none);
    assert(spoken(none) =~= Seq::empty());
    assert(spoken(one) =~= Seq::empty());
    let two = seq![EventV::TextChunk(t.answer), EventV::TurnEnd];
    let text = seq![EventV::TextChunk(t.answer)];
    assert(two.drop_last() =~= text);
    assert(text.drop_last() =~= none);
    assert(spoken(text) =~= t.answer);
    assert(spoken(two) =~= t.answer);
    if t.answer.len() == 0 {
        assert(t.answer =~= Seq::empty());
    }
    let failed = "Codex exited with status "@ + status@
        + "; run `codex login status` to verify ChatGPT authentication"@;
    let at = "Codex exited with status "@.len() as int;
    assert(failed.subrange(at, at + status@.len()) =~= status@);
    assert(occurs_at(failed, status@, at));
    let broken = "read codex output: "@ + error@;
    assert(broken.subrange(broken.len() - error@.len(), broken.len() as int) =~= error@);
    let n = decimal(secs as nat);
    let silent = "codex stream idle for "@ + n + "s — no output lines; is the CLI wedged?"@;
    let from = "codex stream idle for "@.len() as int;
    assert(silent.subrange(from, from + n.len()) =~= n);
    assert(occurs_at(silent, n, from));
}

} // verus!
