//! The run as a machine: each step takes what has just happened, and gives what
//! is to be done next. Whoever drives it takes the turns, runs the tools, asks
//! the oracle and the hooks, and compacts; in which order, how often, and when
//! the run is over is decided here.
use vstd::prelude::*;
use crate::agent::compact::{freed, pruned, DEFAULT_CONTEXT_WINDOW};
use crate::agent::policy::{nudge_if_stuck, stuck_note, stuck_on, with_note};
use crate::agent::run::{
    after_turn, begin_turn, compaction_note, compaction_notice, compaction_wanted, counted, ending,
    finish_run, in_bounds, over, over_threshold, overflow_step, prunes, recover_overflow, recovery,
    recovery_note, recovery_notice, start, turn_gate, AfterTurn, DoneWord, DoneWordV, Ending,
    EndingV, Progress, Recovery, TurnEnd, TurnGate, TurnGateV};
use crate::agent::tokens::held;
use crate::agent::turn::{chit_chat_gate, small_talk_system, unicode_lower};
use crate::agent::{AgentContext, RequestAnchor};
use crate::ai::{is_context_overflow, overflow_markers};
use crate::checks::text_view;
use crate::text::holds_any;
use crate::types::{
    event_views, text_message, tool_calls, transcript, AgentEvent, AgentState, AgentStateV, BlockV, EventV,
    Message, MessageV, NoticeLevel, Role, TodoItem, ToolCall, ToolCallV,
};

verus! {

/// What a run waits for.
#[derive(Clone, Copy, Debug, PartialEq, Eq, Structural)]
pub enum RunPhase {
    /// To be begun.
    Start,
    /// The one turn that answers small talk.
    SmallTalk,
    /// A turn of the model.
    Turn,
    /// The oracle's last word on a run that reached its number of turns.
    FinalOracle,
    /// The results of the tool calls of a turn.
    Tools,
    /// The oracle's word on what the model calls done.
    Oracle,
    /// The `stop` hooks.
    StopHooks,
    /// A compaction, after a request that was too large.
    Rescue,
    /// A compaction between two steps.
    Compact,
    /// Nothing: the run is over.
    Over,
}

/// What has happened to a run.
#[derive(Debug)]
pub enum RunEvent {
    Begin,
    /// A turn ended, and left this state.
    TurnDone(AgentState),
    /// A turn ended in an error that says this.
    TurnFailed(String),
    /// The tool calls have their results; this state follows.
    ToolsDone(AgentState),
    ToolsFailed,
    /// The oracle wants another iteration and says why, or it does not.
    OracleSaid(Option<String>),
    /// A `stop` hook wants another iteration and says why, or none does.
    HooksSaid(Option<String>),
    /// The transcript was compacted, or could not be.
    Compacted(Result<(), String>),
}

/// What a run wants done.
#[derive(Debug)]
pub enum RunAction {
    /// One turn with this system prompt and no tools.
    SmallTalk(String),
    TakeTurn,
    FinalOracle,
    RunTools(Vec<ToolCall>),
    AskOracle,
    AskStopHooks,
    Compact,
    /// The run is over.
    End,
    /// The run is over, and the error that it met stands.
    Fail,
}

/// What a [`RunEvent`] stands for.
pub enum RunEventV {
    Begin,
    TurnDone(AgentStateV),
    TurnFailed(Seq<char>),
    ToolsDone(AgentStateV),
    ToolsFailed,
    OracleSaid(Option<Seq<char>>),
    HooksSaid(Option<Seq<char>>),
    Compacted(Option<Seq<char>>),
}

impl View for RunEvent {
    type V = RunEventV;

    open spec fn view(&self) -> RunEventV {
        match self {
            RunEvent::Begin => RunEventV::Begin,
            RunEvent::TurnDone(s) => RunEventV::TurnDone(s@),
            RunEvent::TurnFailed(t) => RunEventV::TurnFailed(t@),
            RunEvent::ToolsDone(s) => RunEventV::ToolsDone(s@),
            RunEvent::ToolsFailed => RunEventV::ToolsFailed,
            RunEvent::OracleSaid(t) => RunEventV::OracleSaid(text_view(*t)),
            RunEvent::HooksSaid(t) => RunEventV::HooksSaid(text_view(*t)),
            RunEvent::Compacted(r) => RunEventV::Compacted(
                match r {
                    Ok(_) => None,
                    Err(t) => Some(t@),
                },
            ),
        }
    }
}

/// What a [`RunAction`] stands for.
pub enum RunActionV {
    SmallTalk(Seq<char>),
    TakeTurn,
    FinalOracle,
    RunTools(Seq<ToolCallV>),
    AskOracle,
    AskStopHooks,
    Compact,
    End,
    Fail,
}

impl View for RunAction {
    type V = RunActionV;

    open spec fn view(&self) -> RunActionV {
        match self {
            RunAction::SmallTalk(t) => RunActionV::SmallTalk(t@),
            RunAction::TakeTurn => RunActionV::TakeTurn,
            RunAction::FinalOracle => RunActionV::FinalOracle,
            RunAction::RunTools(calls) => RunActionV::RunTools(tool_calls(calls@)),
            RunAction::AskOracle => RunActionV::AskOracle,
            RunAction::AskStopHooks => RunActionV::AskStopHooks,
            RunAction::Compact => RunActionV::Compact,
            RunAction::End => RunActionV::End,
            RunAction::Fail => RunActionV::Fail,
        }
    }
}

/// What a step has to know besides the conversation.
#[derive(Debug)]
pub struct RunFacts {
    /// The instructions that the workspace lacks, if it has none.
    pub missing: Option<String>,
    /// Whether the transcript may be compacted between two steps.
    pub compaction_on: bool,
    /// The budget of tokens for the transcript, where one is set.
    pub budget: Option<usize>,
    /// Whether the model's own steps are checked when it is done.
    pub check_steps: bool,
    /// The model's own steps.
    pub todos: Vec<TodoItem>,
}

/// A run: how far it has come, what it waits for, and the state that it goes on
/// in after a compaction.
#[derive(Debug)]
pub struct Run {
    pub progress: Progress,
    pub phase: RunPhase,
    pub state: AgentState,
}

/// What a [`Run`] stands for.
pub struct RunV {
    pub progress: Progress,
    pub phase: RunPhase,
    pub state: AgentStateV,
}

impl View for Run {
    type V = RunV;

    open spec fn view(&self) -> RunV {
        RunV { progress: self.progress, phase: self.phase, state: self.state@ }
    }
}

/// The part of a conversation that a run looks at: the transcript with the count
/// of its last request, and the limits.
pub struct Talk {
    pub msgs: Seq<MessageV>,
    pub anchor: Option<RequestAnchor>,
    pub window: Option<usize>,
    pub keep: Option<usize>,
    pub max_steps: Option<usize>,
    pub cap: Option<u64>,
    pub spent: u64,
}

/// The part of `ctx` that a run looks at.
pub open spec fn talk(ctx: AgentContext) -> Talk {
    Talk {
        msgs: transcript(ctx.messages@),
        anchor: ctx.last_request,
        window: ctx.context_window,
        keep: ctx.compaction_keep_recent,
        max_steps: ctx.max_steps,
        cap: ctx.spend_cap,
        spent: ctx.tokens_spent,
    }
}

/// Nothing but the transcript and the count of its last request differs.
pub open spec fn rest_kept(before: AgentContext, after: AgentContext) -> bool {
    after == (AgentContext {
        messages: after.messages,
        last_request: after.last_request,
        ..before
    })
}

/// The transcript is over the threshold of compaction.
#[verifier::opaque]
pub open spec fn too_long(t: Talk, budget: Option<usize>) -> bool {
    over(t.msgs, t.anchor, t.window.unwrap_or(DEFAULT_CONTEXT_WINDOW), t.keep, budget)
}

/// A step of a run: the run and the conversation afterwards, what the user is
/// told, and what is to be done.
pub struct Step {
    pub run: RunV,
    pub talk: Talk,
    pub events: Seq<EventV>,
    pub action: RunActionV,
}

/// A notice to the user.
pub open spec fn note(text: Seq<char>) -> EventV {
    EventV::Notice { text, level: NoticeLevel::Info }
}

/// The same step, with `events` reported before its own.
pub open spec fn reported(events: Seq<EventV>, s: Step) -> Step {
    Step { events: events + s.events, ..s }
}

/// A step to the phase `phase`, in which nothing is reported.
pub open spec fn quiet(p: Progress, phase: RunPhase, t: Talk, action: RunActionV) -> Step {
    Step {
        run: RunV { progress: p, phase, state: AgentStateV::Idle },
        talk: t,
        events: Seq::empty(),
        action,
    }
}

/// The run goes on in `state`: a turn is taken where no limit stands against it,
/// tool calls are run, and what is done is put before the oracle. A run that
/// reached its number of turns still has the oracle asked, and ends.
pub open spec fn advance(p: Progress, t: Talk, state: AgentStateV) -> Step {
    match state {
        AgentStateV::Idle => {
            let p1 = counted(p);
            match turn_gate(p1.steps as nat, t.max_steps, t.cap, t.spent) {
                TurnGateV::Go => quiet(p1, RunPhase::Turn, t, RunActionV::TakeTurn),
                TurnGateV::MaxSteps(text) => reported(
                    seq![note(text)],
                    quiet(p1, RunPhase::FinalOracle, t, RunActionV::FinalOracle),
                ),
                TurnGateV::SpendCap(text) => reported(
                    seq![note(text)],
                    quiet(p1, RunPhase::Over, t, RunActionV::End),
                ),
            }
        },
        AgentStateV::ToolCalling(calls) => quiet(
            p,
            RunPhase::Tools,
            t,
            RunActionV::RunTools(calls),
        ),
        AgentStateV::Done => quiet(p, RunPhase::Oracle, t, RunActionV::AskOracle),
    }
}

/// A step is complete and left `state`: the transcript is compacted first where
/// that is due, but never while tool calls wait for their results.
pub open spec fn settle(
    p: Progress,
    t: Talk,
    state: AgentStateV,
    compaction_on: bool,
    budget: Option<usize>,
) -> Step {
    if compaction_on && !(state is ToolCalling) && too_long(t, budget) {
        Step {
            run: RunV { progress: p, phase: RunPhase::Compact, state },
            talk: t,
            events: Seq::empty(),
            action: RunActionV::Compact,
        }
    } else {
        advance(p, t, state)
    }
}

/// The conversation after a word of the machine in the user's role.
pub open spec fn told(t: Talk, text: Seq<char>) -> Talk {
    Talk { msgs: t.msgs.push(text_message(Role::User, text, true)), ..t }
}

/// The conversation after tool calls: a model that is stuck is told so.
#[verifier::opaque]
pub open spec fn unstuck(t: Talk) -> Talk {
    match stuck_on(t.msgs) {
        Some(tool) => Talk { msgs: with_note(t.msgs, stuck_note(tool)), ..t },
        None => t,
    }
}

/// A turn failed. A request that was too large is answered by a compaction, so
/// often in a row; any other error ends the run.
pub open spec fn turn_failed(p: Progress, t: Talk, error: Seq<char>) -> Step {
    let (after, again) = overflow_step(p);
    if !holds_any(unicode_lower(error), overflow_markers()) {
        quiet(p, RunPhase::Over, t, RunActionV::Fail)
    } else if again {
        quiet(after, RunPhase::Rescue, t, RunActionV::Compact)
    } else {
        quiet(after, RunPhase::Over, t, RunActionV::Fail)
    }
}

/// The transcript was to be compacted because the request was too large. Where
/// that failed or was not enough, tool results are pruned; the turn is taken
/// again unless neither helped.
pub open spec fn rescued(
    p: Progress,
    t: Talk,
    compacted: bool,
    compaction_on: bool,
    budget: Option<usize>,
) -> Step {
    let due = prunes(compacted, too_long(t, budget));
    let gone = if due {
        held(freed(t.msgs))
    } else {
        0
    };
    let t1 = Talk {
        msgs: if due {
            pruned(t.msgs)
        } else {
            t.msgs
        },
        anchor: if gone > 0 {
            None
        } else {
            t.anchor
        },
        ..t
    };
    let how = recovery(compacted, gone);
    if how == Recovery::GaveUp {
        quiet(p, RunPhase::Over, t1, RunActionV::Fail)
    } else {
        reported(
            seq![note(recovery_note(how))],
            settle(p, t1, AgentStateV::Idle, compaction_on, budget),
        )
    }
}

/// The model is done, the oracle asks for nothing more, and the `stop` hooks
/// have spoken.
pub open spec fn hooks_heard(
    p: Progress,
    t: Talk,
    word: Option<Seq<char>>,
    check_steps: bool,
    todos: Seq<TodoItem>,
    compaction_on: bool,
    budget: Option<usize>,
) -> Step {
    let (after, e) = ending(p, DoneWordV::StopHooks(word), check_steps, todos);
    match e {
        EndingV::Again { reason, notice } => reported(
            match notice {
                Some(text) => seq![note(text)],
                None => Seq::empty(),
            },
            settle(after, told(t, reason), AgentStateV::Idle, compaction_on, budget),
        ),
        EndingV::Stop => quiet(after, RunPhase::Over, t, RunActionV::End),
    }
}

/// What is reported after a compaction between two steps.
pub open spec fn compaction_events(error: Option<Seq<char>>, still_over: bool) -> Seq<EventV> {
    match compaction_note(error, still_over) {
        Some(text) => seq![note(text)],
        None => Seq::empty(),
    }
}

/// The event is one that a run in this phase waits for.
pub open spec fn awaits(phase: RunPhase, ev: RunEventV) -> bool {
    match phase {
        RunPhase::Start => ev is Begin,
        RunPhase::SmallTalk | RunPhase::Turn => ev is TurnDone || ev is TurnFailed,
        RunPhase::FinalOracle | RunPhase::Oracle => ev is OracleSaid,
        RunPhase::Tools => ev is ToolsDone || ev is ToolsFailed,
        RunPhase::StopHooks => ev is HooksSaid,
        RunPhase::Rescue | RunPhase::Compact => ev is Compacted,
        RunPhase::Over => false,
    }
}

/// A step of a run: what follows the event `ev` in the run `m` over the
/// conversation `t`.
pub open spec fn run_step(m: RunV, t: Talk, ev: RunEventV, f: RunFacts) -> Step {
    let p = m.progress;
    let on = f.compaction_on;
    match ev {
        RunEventV::Begin => match small_talk_system(t.msgs, text_view(f.missing)) {
            Some(system) => quiet(p, RunPhase::SmallTalk, t, RunActionV::SmallTalk(system)),
            None => advance(p, t, AgentStateV::Idle),
        },
        RunEventV::TurnDone(state) => if m.phase == RunPhase::SmallTalk {
            quiet(p, RunPhase::Over, t, RunActionV::End)
        } else {
            settle(Progress { overflow_recoveries: 0, ..p }, t, state, on, f.budget)
        },
        RunEventV::TurnFailed(error) => if m.phase == RunPhase::SmallTalk {
            quiet(p, RunPhase::Over, t, RunActionV::Fail)
        } else {
            turn_failed(p, t, error)
        },
        RunEventV::ToolsDone(state) => settle(p, unstuck(t), state, on, f.budget),
        RunEventV::ToolsFailed => quiet(p, RunPhase::Over, t, RunActionV::Fail),
        RunEventV::OracleSaid(word) => if m.phase == RunPhase::FinalOracle {
            quiet(p, RunPhase::Over, t, RunActionV::End)
        } else {
            match word {
                Some(reason) => settle(p, told(t, reason), AgentStateV::Idle, on, f.budget),
                None => quiet(p, RunPhase::StopHooks, t, RunActionV::AskStopHooks),
            }
        },
        RunEventV::HooksSaid(word) => hooks_heard(
            p,
            t,
            word,
            f.check_steps,
            f.todos@,
            on,
            f.budget,
        ),
        RunEventV::Compacted(error) => if m.phase == RunPhase::Rescue {
            rescued(p, t, error is None, on, f.budget)
        } else {
            reported(
                compaction_events(error, too_long(t, f.budget)),
                advance(p, t, m.state),
            )
        },
    }
}

/// The outcome of a step is `s`.
pub open spec fn stepped(
    run: Run,
    before: AgentContext,
    after: AgentContext,
    events: Seq<AgentEvent>,
    action: RunAction,
    s: Step,
) -> bool {
    &&& run@ == s.run
    &&& talk(after) == s.talk
    &&& rest_kept(before, after)
    &&& event_views(events) == s.events
    &&& action@ == s.action
}

/// A notice to the user and nothing else; see [`note`].
pub fn notice(text: String) -> (v: Vec<AgentEvent>)
    ensures
        event_views(v@) == seq![note(text@)],
{
    let ghost t = text@;
    let mut v: Vec<AgentEvent> = Vec::new();
    v.push(AgentEvent::Notice { text, level: NoticeLevel::Info });
    assert(event_views(v@) =~= seq![note(t)]);
    v
}

/// Nothing to report.
pub fn no_events() -> (v: Vec<AgentEvent>)
    ensures
        event_views(v@) == Seq::<EventV>::empty(),
{
    let v: Vec<AgentEvent> = Vec::new();
    assert(event_views(v@) =~= Seq::<EventV>::empty());
    v
}

/// The events of `first`, then those of `second`.
fn joined(first: Vec<AgentEvent>, second: Vec<AgentEvent>) -> (v: Vec<AgentEvent>)
    ensures
        event_views(v@) == event_views(first@) + event_views(second@),
{
    let ghost a = first@;
    let ghost b = second@;
    let mut v = first;
    let mut rest = second;
    v.append(&mut rest);
    assert(event_views(v@) =~= event_views(a) + event_views(b));
    v
}

impl Run {
    /// A run that has not begun.
    pub fn new() -> (r: Run)
        ensures
            r@ == (RunV {
                progress: Progress {
                    steps: 0,
                    stop_retries: 0,
                    completion_retries: 0,
                    overflow_recoveries: 0,
                },
                phase: RunPhase::Start,
                state: AgentStateV::Idle,
            }),
            in_bounds(r.progress),
    {
        Run { progress: start(), phase: RunPhase::Start, state: AgentState::Idle }
    }

    /// Moves to `phase`, with nothing to go on in.
    fn enter(&mut self, phase: RunPhase)
        ensures
            final(self)@ == (RunV {
                progress: old(self).progress,
                phase,
                state: AgentStateV::Idle,
            }),
    {
        self.phase = phase;
        self.state = AgentState::Idle;
    }

    /// Goes on in `state`; see [`advance`].
    fn advance(&mut self, ctx: &AgentContext, state: AgentState) -> (r: (
        Vec<AgentEvent>,
        RunAction,
    ))
        requires
            in_bounds(old(self).progress),
        ensures
            in_bounds(final(self).progress),
            stepped(
                *final(self),
                *ctx,
                *ctx,
                r.0@,
                r.1,
                advance(old(self).progress, talk(*ctx), state@),
            ),
    {
        match state {
            AgentState::Idle => {
                match begin_turn(
                    &mut self.progress,
                    ctx.max_steps,
                    ctx.spend_cap,
                    ctx.tokens_spent,
                ) {
                    TurnGate::Go => {
                        self.enter(RunPhase::Turn);
                        (no_events(), RunAction::TakeTurn)
                    },
                    TurnGate::MaxSteps(text) => {
                        self.enter(RunPhase::FinalOracle);
                        (notice(text), RunAction::FinalOracle)
                    },
                    TurnGate::SpendCap(text) => {
                        self.enter(RunPhase::Over);
                        (notice(text), RunAction::End)
                    },
                }
            },
            AgentState::ToolCalling(calls) => {
                self.enter(RunPhase::Tools);
                (no_events(), RunAction::RunTools(calls))
            },
            AgentState::Done => {
                self.enter(RunPhase::Oracle);
                (no_events(), RunAction::AskOracle)
            },
        }
    }

    /// Goes on in `state`, after a compaction where one is due; see [`settle`].
    fn settle(&mut self, ctx: &AgentContext, state: AgentState, f: &RunFacts) -> (r: (
        Vec<AgentEvent>,
        RunAction,
    ))
        requires
            in_bounds(old(self).progress),
        ensures
            in_bounds(final(self).progress),
            stepped(
                *final(self),
                *ctx,
                *ctx,
                r.0@,
                r.1,
                settle(old(self).progress, talk(*ctx), state@, f.compaction_on, f.budget),
            ),
    {
        reveal(too_long);
        if compaction_wanted(
            f.compaction_on,
            &state,
            &ctx.messages,
            ctx.last_request,
            ctx.context_window,
            ctx.compaction_keep_recent,
            f.budget,
        ) {
            self.phase = RunPhase::Compact;
            self.state = state;
            (no_events(), RunAction::Compact)
        } else {
            self.advance(ctx, state)
        }
    }

    /// Ends the run, well or in the error that it met.
    fn over(&mut self, action: RunAction) -> (r: (Vec<AgentEvent>, RunAction))
        ensures
            final(self)@ == (RunV {
                progress: old(self).progress,
                phase: RunPhase::Over,
                state: AgentStateV::Idle,
            }),
            event_views(r.0@) == Seq::<EventV>::empty(),
            r.1 == action,
    {
        self.enter(RunPhase::Over);
        (no_events(), action)
    }

    /// One more iteration follows, and the model is told why.
    fn again(&mut self, ctx: &mut AgentContext, reason: Message, f: &RunFacts) -> (r: (
        Vec<AgentEvent>,
        RunAction,
    ))
        requires
            in_bounds(old(self).progress),
        ensures
            in_bounds(final(self).progress),
            ({
                let t = talk(*old(ctx));
                stepped(
                    *final(self),
                    *old(ctx),
                    *final(ctx),
                    r.0@,
                    r.1,
                    settle(
                        old(self).progress,
                        Talk { msgs: t.msgs.push(reason@), ..t },
                        AgentStateV::Idle,
                        f.compaction_on,
                        f.budget,
                    ),
                )
            }),
    {
        let ghost before = transcript(ctx.messages@);
        let ghost m = reason@;
        ctx.messages.push(reason);
        assert(transcript(ctx.messages@) =~= before.push(m));
        self.settle(ctx, AgentState::Idle, f)
    }

    /// The transcript was to be compacted after a request that was too large;
    /// see [`rescued`].
    fn rescued(&mut self, ctx: &mut AgentContext, compacted: bool, f: &RunFacts) -> (r: (
        Vec<AgentEvent>,
        RunAction,
    ))
        requires
            in_bounds(old(self).progress),
        ensures
            in_bounds(final(self).progress),
            stepped(
                *final(self),
                *old(ctx),
                *final(ctx),
                r.0@,
                r.1,
                rescued(
                    old(self).progress,
                    talk(*old(ctx)),
                    compacted,
                    f.compaction_on,
                    f.budget,
                ),
            ),
    {
        reveal(too_long);
        let how = recover_overflow(
            &mut ctx.messages,
            &mut ctx.last_request,
            compacted,
            ctx.context_window,
            ctx.compaction_keep_recent,
            f.budget,
        );
        if how == Recovery::GaveUp {
            return self.over(RunAction::Fail);
        }
        let said = notice(recovery_notice(how));
        let (rest, action) = self.settle(ctx, AgentState::Idle, f);
        (joined(said, rest), action)
    }

    /// The `stop` hooks have spoken; see [`hooks_heard`].
    fn hooks_heard(&mut self, ctx: &mut AgentContext, word: Option<String>, f: &RunFacts) -> (r: (
        Vec<AgentEvent>,
        RunAction,
    ))
        requires
            in_bounds(old(self).progress),
        ensures
            in_bounds(final(self).progress),
            stepped(
                *final(self),
                *old(ctx),
                *final(ctx),
                r.0@,
                r.1,
                hooks_heard(
                    old(self).progress,
                    talk(*old(ctx)),
                    text_view(word),
                    f.check_steps,
                    f.todos@,
                    f.compaction_on,
                    f.budget,
                ),
            ),
    {
        match finish_run(&mut self.progress, DoneWord::StopHooks(word), f.check_steps, &f.todos) {
            Ending::Again { reason, notice: text } => {
                let said = match text {
                    Some(t) => notice(t.to_owned()),
                    None => no_events(),
                };
                let (rest, action) = self.again(ctx, reason, f);
                (joined(said, rest), action)
            },
            Ending::Stop => self.over(RunAction::End),
        }
    }

    /// Takes one step: what follows the event in this run over the conversation.
    /// Gives what the user is told and what is to be done next.
    pub fn step(&mut self, ctx: &mut AgentContext, ev: RunEvent, f: &RunFacts) -> (r: (
        Vec<AgentEvent>,
        RunAction,
    ))
        requires
            in_bounds(old(self).progress),
            awaits(old(self).phase, ev@),
        ensures
            in_bounds(final(self).progress),
            stepped(
                *final(self),
                *old(ctx),
                *final(ctx),
                r.0@,
                r.1,
                run_step(old(self)@, talk(*old(ctx)), ev@, *f),
            ),
    {
        match ev {
            RunEvent::Begin => {
                let missing = match &f.missing {
                    Some(name) => Some(name.as_str()),
                    None => None,
                };
                match chit_chat_gate(&ctx.messages, missing) {
                    Some(system) => {
                        self.enter(RunPhase::SmallTalk);
                        (no_events(), RunAction::SmallTalk(system))
                    },
                    None => self.advance(ctx, AgentState::Idle),
                }
            },
            RunEvent::TurnDone(state) => {
                if self.phase == RunPhase::SmallTalk {
                    return self.over(RunAction::End);
                }
                self.progress.overflow_recoveries = 0;
                self.settle(ctx, state, f)
            },
            RunEvent::TurnFailed(error) => {
                if self.phase == RunPhase::SmallTalk || !is_context_overflow(error.as_str()) {
                    return self.over(RunAction::Fail);
                }
                match after_turn(&mut self.progress, TurnEnd::Overflow) {
                    AfterTurn::Shrink => {
                        self.enter(RunPhase::Rescue);
                        (no_events(), RunAction::Compact)
                    },
                    _ => self.over(RunAction::Fail),
                }
            },
            RunEvent::ToolsDone(state) => {
                reveal(unstuck);
                nudge_if_stuck(&mut ctx.messages);
                self.settle(ctx, state, f)
            },
            RunEvent::ToolsFailed => self.over(RunAction::Fail),
            RunEvent::OracleSaid(word) => {
                if self.phase == RunPhase::FinalOracle {
                    return self.over(RunAction::End);
                }
                match word {
                    Some(reason) => self.again(ctx, Message::injected(reason), f),
                    None => {
                        self.enter(RunPhase::StopHooks);
                        (no_events(), RunAction::AskStopHooks)
                    },
                }
            },
            RunEvent::HooksSaid(word) => self.hooks_heard(ctx, word, f),
            RunEvent::Compacted(outcome) => {
                if self.phase == RunPhase::Rescue {
                    return self.rescued(ctx, outcome.is_ok(), f);
                }
                reveal(too_long);
                let still = over_threshold(
                    &ctx.messages,
                    ctx.last_request,
                    ctx.context_window.unwrap_or(DEFAULT_CONTEXT_WINDOW),
                    ctx.compaction_keep_recent,
                    f.budget,
                );
                let text = match &outcome {
                    Ok(_) => compaction_notice(None, still),
                    Err(t) => compaction_notice(Some(t.as_str()), still),
                };
                let said = match text {
                    Some(t) => notice(t),
                    None => no_events(),
                };
                let mut state = AgentState::Idle;
                std::mem::swap(&mut state, &mut self.state);
                let (rest, action) = self.advance(ctx, state);
                (joined(said, rest), action)
            },
        }
    }
}

// ------------------------------------------------------------ laws

/// No step of a run asks for a turn beyond the cap on turns, nor for one after
/// the tokens are spent.
pub proof fn law_no_turn_beyond_the_caps(m: RunV, t: Talk, ev: RunEventV, f: RunFacts)
    requires
        awaits(m.phase, ev),
    ensures
        ({
            let s = run_step(m, t, ev, f);
            s.action is TakeTurn ==> {
                &&& s.run.phase == RunPhase::Turn
                &&& s.talk.max_steps is Some ==> s.run.progress.steps <= s.talk.max_steps->0
                &&& s.talk.cap is Some ==> s.talk.spent < s.talk.cap->0
            }
        }),
{
}

/// Each turn that a step asks for is counted, and nothing else is: the count of
/// turns grows by one, up to the largest number it can hold.
pub proof fn law_turns_are_counted(m: RunV, t: Talk, ev: RunEventV, f: RunFacts)
    requires
        awaits(m.phase, ev),
        m.progress.steps < usize::MAX,
    ensures
        run_step(m, t, ev, f).action is TakeTurn ==> run_step(m, t, ev, f).run.progress.steps
            == m.progress.steps + 1,
        run_step(m, t, ev, f).run.progress.steps >= m.progress.steps,
{
}

/// The `stop` hooks are asked only once the oracle wants nothing more.
pub proof fn law_oracle_comes_before_the_hooks(m: RunV, t: Talk, ev: RunEventV, f: RunFacts)
    requires
        awaits(m.phase, ev),
        run_step(m, t, ev, f).action is AskStopHooks,
    ensures
        m.phase == RunPhase::Oracle,
        ev == RunEventV::OracleSaid(None),
{
}

/// While tool calls wait for their results nothing is compacted: what a run goes
/// on in after a compaction holds no calls, and the calls of a turn are run at
/// once.
pub proof fn law_calls_are_not_stranded(m: RunV, t: Talk, ev: RunEventV, f: RunFacts)
    requires
        awaits(m.phase, ev),
        !(m.state is ToolCalling),
    ensures
        !(run_step(m, t, ev, f).run.state is ToolCalling),
        ev matches RunEventV::TurnDone(AgentStateV::ToolCalling(c)) ==> m.phase == RunPhase::Turn
            ==> run_step(m, t, ev, f).action == RunActionV::RunTools(c),
{
}

/// A run fails only over a turn or tool calls that failed; an oracle, a hook or a
/// compaction between two steps never makes it fail.
pub proof fn law_only_turns_and_tools_fail_a_run(m: RunV, t: Talk, ev: RunEventV, f: RunFacts)
    requires
        awaits(m.phase, ev),
        run_step(m, t, ev, f).action is Fail,
    ensures
        ev is TurnFailed || ev is ToolsFailed || m.phase == RunPhase::Rescue,
        run_step(m, t, ev, f).run.phase == RunPhase::Over,
{
}

/// The counters are within their bounds, and the phase is the one that belongs to
/// what is asked for.
pub open spec fn fits(s: Step) -> bool {
    &&& in_bounds(s.run.progress)
    &&& match s.action {
        RunActionV::SmallTalk(_) => s.run.phase == RunPhase::SmallTalk,
        RunActionV::TakeTurn => s.run.phase == RunPhase::Turn,
        RunActionV::FinalOracle => s.run.phase == RunPhase::FinalOracle,
        RunActionV::RunTools(_) => s.run.phase == RunPhase::Tools,
        RunActionV::AskOracle => s.run.phase == RunPhase::Oracle,
        RunActionV::AskStopHooks => s.run.phase == RunPhase::StopHooks,
        RunActionV::Compact => s.run.phase == RunPhase::Rescue || s.run.phase == RunPhase::Compact,
        RunActionV::End | RunActionV::Fail => s.run.phase == RunPhase::Over,
    }
}

proof fn lemma_settling_fits(
    p: Progress,
    t: Talk,
    state: AgentStateV,
    on: bool,
    budget: Option<usize>,
)
    requires
        in_bounds(p),
    ensures
        fits(settle(p, t, state, on, budget)),
        fits(advance(p, t, state)),
{
}

proof fn lemma_rescue_fits(p: Progress, t: Talk, ok: bool, on: bool, budget: Option<usize>)
    requires
        in_bounds(p),
    ensures
        fits(rescued(p, t, ok, on, budget)),
{
}

/// The phase of a run tells what it last asked for, and each counter stays within
/// its bound.
pub proof fn law_the_phase_is_what_was_asked_for(m: RunV, t: Talk, ev: RunEventV, f: RunFacts)
    requires
        awaits(m.phase, ev),
        in_bounds(m.progress),
    ensures
        fits(run_step(m, t, ev, f)),
{
    match ev {
        RunEventV::TurnDone(state) => {
            lemma_settling_fits(
                Progress { overflow_recoveries: 0, ..m.progress },
                t,
                state,
                f.compaction_on,
                f.budget,
            );
        },
        RunEventV::Compacted(error) => {
            lemma_rescue_fits(m.progress, t, error is None, f.compaction_on, f.budget);
            lemma_settling_fits(m.progress, t, m.state, f.compaction_on, f.budget);
        },
        _ => {},
    }
}

/// Small talk is answered in one turn: whatever that turn does, the run is over
/// after it.
pub proof fn law_small_talk_takes_one_turn(m: RunV, t: Talk, ev: RunEventV, f: RunFacts)
    requires
        m.phase == RunPhase::SmallTalk,
        awaits(m.phase, ev),
    ensures
        run_step(m, t, ev, f).run.phase == RunPhase::Over,
        run_step(m, t, ev, f).talk == t,
{
}

/// A run only ever adds to the transcript, or prunes it where a request was too
/// large: no other step takes a message away.
pub proof fn law_only_a_rescue_prunes(m: RunV, t: Talk, ev: RunEventV, f: RunFacts)
    requires
        awaits(m.phase, ev),
        m.phase != RunPhase::Rescue,
    ensures
        run_step(m, t, ev, f).talk.msgs.len() >= t.msgs.len(),
        run_step(m, t, ev, f).talk.anchor == t.anchor,
{
    match ev {
        RunEventV::ToolsDone(state) => {
            reveal(unstuck);
            assert(unstuck(t).msgs.len() == t.msgs.len());
            lemma_settling_keeps_the_talk(m.progress, unstuck(t), state, f);
        },
        RunEventV::OracleSaid(Some(reason)) => {
            lemma_settling_keeps_the_talk(m.progress, told(t, reason), AgentStateV::Idle, f);
        },
        RunEventV::HooksSaid(word) => {
            let (after, e) = ending(
                m.progress,
                DoneWordV::StopHooks(word),
                f.check_steps,
                f.todos@,
            );
            if e is Again {
                lemma_settling_keeps_the_talk(after, told(t, e->reason), AgentStateV::Idle, f);
            }
        },
        _ => {},
    }
}

proof fn lemma_settling_keeps_the_talk(p: Progress, t: Talk, state: AgentStateV, f: RunFacts)
    ensures
        settle(p, t, state, f.compaction_on, f.budget).talk == t,
{
}

/// What the oracle or a `stop` hook asks for is told to the model, word for word, at the
/// end of the transcript; nothing else in it changes.
pub proof fn law_the_model_is_told_why(m: RunV, t: Talk, f: RunFacts, reason: Seq<char>)
    ensures
        ({
            let s = run_step(
                RunV { phase: RunPhase::Oracle, ..m },
                t,
                RunEventV::OracleSaid(Some(reason)),
                f,
            );
            &&& s.talk.msgs.drop_last() == t.msgs
            &&& s.talk.msgs.last().role == Role::User
            &&& s.talk.msgs.last().content == seq![BlockV::Text { text: reason }]
            &&& s.run.phase != RunPhase::Over || s.action is End
        }),
        m.progress.stop_retries < 5 ==> {
            let s = run_step(
                RunV { phase: RunPhase::StopHooks, ..m },
                t,
                RunEventV::HooksSaid(Some(reason)),
                f,
            );
            &&& s.talk.msgs.drop_last() == t.msgs
            &&& s.talk.msgs.last().role == Role::User
            &&& s.talk.msgs.last().content == seq![BlockV::Text { text: reason }]
            &&& s.events.len() > 0
        },
{
    let t1 = told(t, reason);
    assert(t1.msgs.drop_last() =~= t.msgs);
    lemma_settling_keeps_the_talk(m.progress, t1, AgentStateV::Idle, f);
    let after = Progress { stop_retries: (m.progress.stop_retries + 1) as usize, ..m.progress };
    lemma_settling_keeps_the_talk(after, t1, AgentStateV::Idle, f);
}

/// Where nothing has to be compacted, a turn that left tool calls has them run, one that
/// is done goes before the oracle, and one that is neither is followed by another turn
/// as long as the limits allow; the user is told where they do not.
pub proof fn law_turns_are_followed_up(m: RunV, t: Talk, f: RunFacts, calls: Seq<ToolCallV>)
    requires
        m.phase == RunPhase::Turn,
        !f.compaction_on || !too_long(t, f.budget),
    ensures
        run_step(m, t, RunEventV::TurnDone(AgentStateV::ToolCalling(calls)), f).action
            == RunActionV::RunTools(calls),
        run_step(m, t, RunEventV::TurnDone(AgentStateV::Done), f).action == RunActionV::AskOracle,
        ({
            let s = run_step(m, t, RunEventV::TurnDone(AgentStateV::Idle), f);
            let within = m.progress.steps == usize::MAX || t.max_steps is None || m.progress.steps
                < t.max_steps->0;
            &&& m.progress.steps < usize::MAX && within && (t.cap is None || t.spent < t.cap->0)
                ==> s.action == RunActionV::TakeTurn && s.events.len() == 0
            &&& m.progress.steps < usize::MAX && !within ==> s.action == RunActionV::FinalOracle
                && s.events.len() == 1
            &&& m.progress.steps < usize::MAX && within && t.cap is Some && t.spent >= t.cap->0
                ==> s.action == RunActionV::End && s.events.len() == 1
            &&& s.talk == t
        }),
{
}

/// Between two steps the transcript is compacted exactly where that is switched on and it
/// is too long, and afterwards the run goes on where it was, whatever came of it.
pub proof fn law_compaction_only_interrupts(
    m: RunV,
    t: Talk,
    f: RunFacts,
    error: Option<Seq<char>>,
)
    ensures
        m.phase == RunPhase::Turn ==> {
            let s = run_step(m, t, RunEventV::TurnDone(AgentStateV::Done), f);
            &&& s.action is Compact <==> f.compaction_on && too_long(t, f.budget)
            &&& s.action is Compact ==> s.run.state == AgentStateV::Done && s.run.phase
                == RunPhase::Compact
        },
        m.phase == RunPhase::Compact && m.state == AgentStateV::Done ==> {
            let s = run_step(m, t, RunEventV::Compacted(error), f);
            &&& s.action == RunActionV::AskOracle
            &&& s.talk == t
            &&& error is Some ==> s.events.len() == 1
        },
{
}

/// A run that meets an error other than a request that was too large fails, and leaves
/// the transcript as it is; one that meets a large request shrinks it, twice in a row.
pub proof fn law_large_requests_are_shrunk(m: RunV, t: Talk, f: RunFacts, error: Seq<char>)
    requires
        m.phase == RunPhase::Turn,
    ensures
        ({
            let s = run_step(m, t, RunEventV::TurnFailed(error), f);
            let large = holds_any(unicode_lower(error), overflow_markers());
            &&& s.talk == t
            &&& !large ==> s.action is Fail
            &&& large && m.progress.overflow_recoveries < 2 ==> s.action is Compact
                && s.run.progress.overflow_recoveries == m.progress.overflow_recoveries + 1
            &&& large && m.progress.overflow_recoveries >= 2 ==> s.action is Fail
        }),
{
}

/// A turn that succeeds wipes the count of large requests.
pub proof fn law_success_wipes_the_count(m: RunV, t: Talk, f: RunFacts, state: AgentStateV)
    requires
        m.phase == RunPhase::Turn,
    ensures
        run_step(m, t, RunEventV::TurnDone(state), f).run.progress.overflow_recoveries == 0,
{
}

/// Where the oracle wants nothing more the hooks are asked, and where they want nothing
/// more either, and no step is checked, the run ends; the transcript stays as it is.
pub proof fn law_runs_end_when_all_are_content(m: RunV, t: Talk, f: RunFacts)
    ensures
        m.phase == RunPhase::Oracle ==> run_step(m, t, RunEventV::OracleSaid(None), f).action
            == RunActionV::AskStopHooks,
        m.phase == RunPhase::StopHooks && !f.check_steps ==> run_step(
            m,
            t,
            RunEventV::HooksSaid(None),
            f,
        ).action == RunActionV::End,
        m.phase == RunPhase::StopHooks && !f.check_steps ==> run_step(
            m,
            t,
            RunEventV::HooksSaid(None),
            f,
        ).talk == t,
        m.phase == RunPhase::FinalOracle ==> run_step(m, t, RunEventV::OracleSaid(None), f).action
            == RunActionV::End,
{
}

/// A request that was too large is made again once the transcript could be compacted, and
/// the user is told; where it could not be and nothing could be pruned either, the run
/// fails.
pub proof fn law_shrunk_requests_are_made_again(m: RunV, t: Talk, f: RunFacts, error: Seq<char>)
    requires
        m.phase == RunPhase::Rescue,
    ensures
        !too_long(t, f.budget) ==> {
            let s = run_step(m, t, RunEventV::Compacted(None), f);
            &&& s.talk == t
            &&& s.events.len() >= 1
            &&& s.action is TakeTurn || s.action is FinalOracle || s.action is End
        },
        held(freed(t.msgs)) == 0 ==> run_step(
            m,
            t,
            RunEventV::Compacted(Some(error)),
            f,
        ).action is Fail,
        held(freed(t.msgs)) > 0 ==> {
            let s = run_step(m, t, RunEventV::Compacted(Some(error)), f);
            &&& s.talk.msgs == pruned(t.msgs)
            &&& s.talk.anchor is None
            &&& !(s.action is Fail)
        },
{
    let t1 = Talk { msgs: pruned(t.msgs), anchor: None, ..t };
    lemma_settling_keeps_the_talk(m.progress, t1, AgentStateV::Idle, f);
    lemma_settling_keeps_the_talk(m.progress, t, AgentStateV::Idle, f);
}

} // verus!
