//! A run of the agent: what happens next, given where it stands and what has
//! just happened. Turns, tools, the oracle, hooks and compaction are done
//! elsewhere; here is decided when each of them is due, and when the run ends.
use vstd::prelude::*;
use crate::agent::compact::{
    freed, prune_tool_results, pruned, CompactError, COMPACTION_KEEP_RECENT_DEFAULT,
    DEFAULT_CONTEXT_WINDOW,
};
use crate::agent::policy::{law_open_steps_are_named, unfinished, unfinished_steps};
use crate::agent::tokens::{
    compaction_due, context_size, context_tokens, held, should_compact,
};
use crate::agent::RequestAnchor;
use crate::checks::text_view;
use crate::text::{
    cat3, cat5, contains, decimal, holds, number, occurs_at, size_text,
};
use crate::types::{
    text_message, transcript, AgentState, Message, MessageV, Role, TodoItem, TodoStatus,
};

verus! {

/// How often a `stop` hook may keep a run from ending.
pub const STOP_HOOK_MAX: usize = 5;

/// How often the unfinished steps of the model may keep a run from ending.
pub const COMPLETION_CHECK_MAX: usize = 1;

/// How often in a row a request that was too large is answered by shrinking the
/// transcript.
pub const OVERFLOW_MAX_RECOVERIES: usize = 2;

/// How far a run has come: the turns it took, and how often it was kept from
/// ending or saved from a request that was too large.
#[derive(Clone, Copy, Debug, PartialEq, Eq, Structural)]
pub struct Progress {
    pub steps: usize,
    pub stop_retries: usize,
    pub completion_retries: usize,
    pub overflow_recoveries: usize,
}

/// No counter is beyond its bound.
pub open spec fn in_bounds(p: Progress) -> bool {
    p.stop_retries <= STOP_HOOK_MAX && p.completion_retries <= COMPLETION_CHECK_MAX
        && p.overflow_recoveries <= OVERFLOW_MAX_RECOVERIES
}

/// A run that has not begun.
pub fn start() -> (p: Progress)
    ensures
        p == (Progress {
            steps: 0,
            stop_retries: 0,
            completion_retries: 0,
            overflow_recoveries: 0,
        }),
        in_bounds(p),
{
    Progress { steps: 0, stop_retries: 0, completion_retries: 0, overflow_recoveries: 0 }
}

// ------------------------------------------------------------ before a turn

/// Whether a turn may be taken: it may, or a limit was reached and the user is
/// told so. A run that reached its number of turns still has its oracle asked.
#[derive(Debug, PartialEq)]
pub enum TurnGate {
    Go,
    MaxSteps(String),
    SpendCap(String),
}

/// What a [`TurnGate`] stands for.
pub enum TurnGateV {
    Go,
    MaxSteps(Seq<char>),
    SpendCap(Seq<char>),
}

impl View for TurnGate {
    type V = TurnGateV;

    open spec fn view(&self) -> TurnGateV {
        match self {
            TurnGate::Go => TurnGateV::Go,
            TurnGate::MaxSteps(t) => TurnGateV::MaxSteps(t@),
            TurnGate::SpendCap(t) => TurnGateV::SpendCap(t@),
        }
    }
}

/// Whether the turn number `steps` may be taken.
pub open spec fn turn_gate(
    steps: nat,
    max_steps: Option<usize>,
    spend_cap: Option<u64>,
    spent: u64,
) -> TurnGateV {
    if max_steps is Some && steps > max_steps->0 {
        TurnGateV::MaxSteps(
            "Max steps reached ("@ + decimal(max_steps->0 as nat) + ") — stopping"@,
        )
    } else if spend_cap is Some && spent >= spend_cap->0 {
        TurnGateV::SpendCap(
            "spend cap reached ("@ + decimal(spent as nat) + "/"@ + decimal(spend_cap->0 as nat)
                + " tokens) — raise the limit or reset"@,
        )
    } else {
        TurnGateV::Go
    }
}

/// The counters with one turn more; the count of turns stops at the largest
/// number it can hold.
pub open spec fn counted(p: Progress) -> Progress {
    if p.steps < usize::MAX {
        Progress { steps: (p.steps + 1) as usize, ..p }
    } else {
        p
    }
}

/// Counts a turn that is about to be taken, and says whether it may be.
pub fn begin_turn(
    p: &mut Progress,
    max_steps: Option<usize>,
    spend_cap: Option<u64>,
    spent: u64,
) -> (r: TurnGate)
    ensures
        *final(p) == counted(*old(p)),
        r@ == turn_gate(counted(*old(p)).steps as nat, max_steps, spend_cap, spent),
{
    if p.steps < usize::MAX {
        p.steps = p.steps + 1;
    }
    if let Some(cap) = max_steps {
        if p.steps > cap {
            let n = size_text(cap);
            return TurnGate::MaxSteps(cat3("Max steps reached (", n.as_str(), ") — stopping"));
        }
    }
    if let Some(cap) = spend_cap {
        if spent >= cap {
            let a = number(spent);
            let b = number(cap);
            return TurnGate::SpendCap(
                cat5(
                    "spend cap reached (",
                    a.as_str(),
                    "/",
                    b.as_str(),
                    " tokens) — raise the limit or reset",
                ),
            );
        }
    }
    TurnGate::Go
}

/// A run takes no more turns than its cap.
pub proof fn law_turns_are_capped(steps: nat, cap: usize, spend_cap: Option<u64>, spent: u64)
    requires
        turn_gate(steps, Some(cap), spend_cap, spent) is Go,
    ensures
        steps <= cap,
{
}

/// No turn is taken once the cap on tokens is reached.
pub proof fn law_spending_is_capped(
    steps: nat,
    max_steps: Option<usize>,
    cap: u64,
    spent: u64,
)
    requires
        spent >= cap,
    ensures
        turn_gate(steps, max_steps, Some(cap), spent) !is Go,
{
}

// ------------------------------------------------------------ after a turn

/// What follows a turn: the run goes on in the state that the turn left, the
/// transcript has to shrink and the turn is taken again, or the run fails.
#[derive(Debug, PartialEq)]
pub enum AfterTurn {
    GoOn(AgentState),
    Shrink,
    Fail,
}

/// How a turn ended: in a state, or in an error, which may say that the request
/// was too large.
#[derive(Debug)]
pub enum TurnEnd {
    Done(AgentState),
    Overflow,
    Error,
}

/// Whether a request that was too large is answered by shrinking the transcript
/// once more, and the counters afterwards.
pub open spec fn overflow_step(p: Progress) -> (Progress, bool) {
    if p.overflow_recoveries < OVERFLOW_MAX_RECOVERIES {
        (Progress { overflow_recoveries: (p.overflow_recoveries + 1) as usize, ..p }, true)
    } else {
        (p, false)
    }
}

/// Decides what follows a turn. A request that was too large is answered by
/// shrinking the transcript, but only so often in a row.
pub fn after_turn(p: &mut Progress, end: TurnEnd) -> (r: AfterTurn)
    requires
        in_bounds(*old(p)),
    ensures
        in_bounds(*final(p)),
        match end {
            TurnEnd::Done(state) => r == AfterTurn::GoOn(state) && *final(p) == (Progress {
                overflow_recoveries: 0,
                ..*old(p)
            }),
            TurnEnd::Overflow => {
                let (after, again) = overflow_step(*old(p));
                *final(p) == after && r == (if again {
                    AfterTurn::Shrink
                } else {
                    AfterTurn::Fail
                })
            },
            TurnEnd::Error => r == AfterTurn::Fail && *final(p) == *old(p),
        },
{
    match end {
        TurnEnd::Done(state) => {
            p.overflow_recoveries = 0;
            AfterTurn::GoOn(state)
        },
        TurnEnd::Overflow => {
            if p.overflow_recoveries < OVERFLOW_MAX_RECOVERIES {
                p.overflow_recoveries = p.overflow_recoveries + 1;
                AfterTurn::Shrink
            } else {
                AfterTurn::Fail
            }
        },
        TurnEnd::Error => AfterTurn::Fail,
    }
}

/// The counters after `n` requests in a row that were too large.
pub open spec fn overflows(p: Progress, n: nat) -> Progress
    decreases n,
{
    if n == 0 {
        p
    } else {
        overflow_step(overflows(p, (n - 1) as nat)).0
    }
}

/// However large the request stays, the transcript is shrunk at most so often in
/// a row; then the error stands, and no state that a run is in is an exception.
pub proof fn law_recoveries_are_bounded(p: Progress, n: nat)
    requires
        in_bounds(p),
    ensures
        in_bounds(overflows(p, n)),
        n >= OVERFLOW_MAX_RECOVERIES ==> !overflow_step(overflows(p, n)).1,
    decreases n,
{
    if n > 0 {
        law_recoveries_are_bounded(p, (n - 1) as nat);
        lemma_overflows(p, n);
    } else {
        lemma_overflows(p, n);
    }
}

proof fn lemma_overflows(p: Progress, n: nat)
    requires
        in_bounds(p),
    ensures
        overflows(p, n).overflow_recoveries == (if p.overflow_recoveries + n
            <= OVERFLOW_MAX_RECOVERIES {
            p.overflow_recoveries + n
        } else {
            OVERFLOW_MAX_RECOVERIES as int
        }),
        in_bounds(overflows(p, n)),
    decreases n,
{
    if n > 0 {
        lemma_overflows(p, (n - 1) as nat);
    }
}

/// The number of messages that compaction keeps, as far as there are as many.
pub open spec fn keep_of(keep_recent: Option<usize>, count: nat) -> nat {
    let asked = keep_recent.unwrap_or(COMPACTION_KEEP_RECENT_DEFAULT) as nat;
    if asked <= count {
        asked
    } else {
        count
    }
}

/// The transcript is over the threshold of compaction.
pub open spec fn over(
    msgs: Seq<MessageV>,
    anchor: Option<RequestAnchor>,
    context_window: usize,
    keep_recent: Option<usize>,
    budget: Option<usize>,
) -> bool {
    compaction_due(
        context_size(msgs, anchor),
        context_window as nat,
        msgs.len(),
        keep_of(keep_recent, msgs.len()),
        budget,
    )
}

/// Decides [`over`].
pub fn over_threshold(
    messages: &Vec<Message>,
    last_request: Option<RequestAnchor>,
    context_window: usize,
    keep_recent: Option<usize>,
    budget: Option<usize>,
) -> (b: bool)
    ensures
        b == over(transcript(messages@), last_request, context_window, keep_recent, budget),
{
    let count: usize = messages.len();
    let asked: usize = keep_recent.unwrap_or(COMPACTION_KEEP_RECENT_DEFAULT);
    let keep: usize = if asked <= count {
        asked
    } else {
        count
    };
    let tokens: usize = context_tokens(messages, last_request);
    should_compact(tokens, context_window, count, keep, budget)
}

/// How a transcript that was too large was shrunk.
#[derive(Clone, Copy, Debug, PartialEq, Eq, Structural)]
pub enum Recovery {
    Compacted,
    Pruned,
    /// Neither was possible: the error of the request stands.
    GaveUp,
}

/// After an attempt to compact, tool results are pruned: where it failed, or
/// where the transcript is still over the threshold.
pub open spec fn prunes(compacted: bool, still_over: bool) -> bool {
    !compacted || still_over
}

/// How the transcript was shrunk, given whether it could be compacted and how
/// many tokens pruning freed.
pub open spec fn recovery(compacted: bool, freed_tokens: nat) -> Recovery {
    if freed_tokens > 0 {
        Recovery::Pruned
    } else if compacted {
        Recovery::Compacted
    } else {
        Recovery::GaveUp
    }
}

/// Shrinks a transcript that was too large for the provider, after `compacted`
/// tells whether it could be compacted: prunes results where that is due, and
/// forgets the count of a request that is no longer the transcript's.
pub fn recover_overflow(
    messages: &mut Vec<Message>,
    last_request: &mut Option<RequestAnchor>,
    compacted: bool,
    context_window: Option<usize>,
    keep_recent: Option<usize>,
    budget: Option<usize>,
) -> (r: Recovery)
    ensures
        ({
            let msgs = transcript(old(messages)@);
            let due = prunes(
                compacted,
                over(
                    msgs,
                    *old(last_request),
                    context_window.unwrap_or(DEFAULT_CONTEXT_WINDOW),
                    keep_recent,
                    budget,
                ),
            );
            let gone = if due {
                held(freed(msgs))
            } else {
                0
            };
            &&& transcript(final(messages)@) == (if due {
                pruned(msgs)
            } else {
                msgs
            })
            &&& r == recovery(compacted, gone)
            &&& *final(last_request) == (if gone > 0 {
                None
            } else {
                *old(last_request)
            })
        }),
{
    let window: usize = context_window.unwrap_or(DEFAULT_CONTEXT_WINDOW);
    let gone: usize = if !compacted || over_threshold(
        messages,
        *last_request,
        window,
        keep_recent,
        budget,
    ) {
        prune_tool_results(messages)
    } else {
        0
    };
    if gone > 0 {
        *last_request = None;
        return Recovery::Pruned;
    }
    if compacted {
        Recovery::Compacted
    } else {
        Recovery::GaveUp
    }
}

/// What the user is told when a turn is taken again.
pub open spec fn recovery_note(r: Recovery) -> Seq<char> {
    "context overflow — "@ + (if r == Recovery::Pruned {
        "pruned"@
    } else {
        "compacted"@
    }) + " and retrying the turn"@
}

/// Computes [`recovery_note`].
pub fn recovery_notice(r: Recovery) -> (t: String)
    ensures
        t@ == recovery_note(r),
{
    let how = if r == Recovery::Pruned {
        "pruned"
    } else {
        "compacted"
    };
    cat3("context overflow — ", how, " and retrying the turn")
}

// ------------------------------------------------------------ at the end

/// What was asked when the model was done: the oracle wants another iteration,
/// or it does not and the `stop` hooks were asked.
#[derive(Debug)]
pub enum DoneWord {
    Oracle(String),
    StopHooks(Option<String>),
}

/// Whether a run ends: another iteration follows, and the model is told why, or
/// the run ends.
#[derive(Debug, PartialEq)]
pub enum Ending {
    Again { reason: Message, notice: Option<&'static str> },
    Stop,
}

/// What a [`Ending`] stands for.
pub enum EndingV {
    Again { reason: Seq<char>, notice: Option<Seq<char>> },
    Stop,
}

/// The ending tells the model `e.reason`, in the machine's name.
pub open spec fn ends_as(r: Ending, e: EndingV) -> bool {
    match e {
        EndingV::Again { reason, notice } => {
            r matches Ending::Again { reason: m, notice: n } && m@ == text_message(
                Role::User,
                reason,
                true,
            ) && notice == (match n {
                Some(t) => Some(t@),
                None => None,
            })
        },
        EndingV::Stop => r is Stop,
    }
}

/// What a [`DoneWord`] stands for.
pub enum DoneWordV {
    Oracle(Seq<char>),
    StopHooks(Option<Seq<char>>),
}

impl View for DoneWord {
    type V = DoneWordV;

    open spec fn view(&self) -> DoneWordV {
        match self {
            DoneWord::Oracle(t) => DoneWordV::Oracle(t@),
            DoneWord::StopHooks(t) => DoneWordV::StopHooks(text_view(*t)),
        }
    }
}

/// Whether a run ends, and the counters afterwards. The oracle is heard first,
/// then the `stop` hooks, so often; and only where neither asks for more, the
/// model's own unfinished steps, where they are checked.
pub open spec fn ending(
    p: Progress,
    word: DoneWordV,
    check_steps: bool,
    todos: Seq<TodoItem>,
) -> (Progress, EndingV) {
    match word {
        DoneWordV::Oracle(reason) => (p, EndingV::Again { reason, notice: None }),
        DoneWordV::StopHooks(Some(reason)) => if p.stop_retries < STOP_HOOK_MAX {
            (
                Progress { stop_retries: (p.stop_retries + 1) as usize, ..p },
                EndingV::Again {
                    reason,
                    notice: Some("stop hook requested another iteration"@),
                },
            )
        } else {
            (p, EndingV::Stop)
        },
        DoneWordV::StopHooks(None) => if check_steps && p.completion_retries
            < COMPLETION_CHECK_MAX && unfinished(todos) is Some {
            (
                Progress { completion_retries: (p.completion_retries + 1) as usize, ..p },
                EndingV::Again {
                    reason: unfinished(todos)->0,
                    notice: Some("completion check: the step list is not finished"@),
                },
            )
        } else {
            (p, EndingV::Stop)
        },
    }
}

/// Decides whether a run ends; see [`ending`]. `check_steps` tells that the
/// model's own steps are checked, and `todos` what they are.
pub fn finish_run(
    p: &mut Progress,
    word: DoneWord,
    check_steps: bool,
    todos: &Vec<TodoItem>,
) -> (r: Ending)
    requires
        in_bounds(*old(p)),
    ensures
        in_bounds(*final(p)),
        ({
            let (after, e) = ending(*old(p), word@, check_steps, todos@);
            *final(p) == after && ends_as(r, e)
        }),
{
    match word {
        DoneWord::Oracle(reason) => Ending::Again {
            reason: Message::injected(reason),
            notice: None,
        },
        DoneWord::StopHooks(Some(reason)) => {
            if p.stop_retries < STOP_HOOK_MAX {
                p.stop_retries = p.stop_retries + 1;
                Ending::Again {
                    reason: Message::injected(reason),
                    notice: Some("stop hook requested another iteration"),
                }
            } else {
                Ending::Stop
            }
        },
        DoneWord::StopHooks(None) => {
            if check_steps && p.completion_retries < COMPLETION_CHECK_MAX {
                if let Some(reason) = unfinished_steps(todos) {
                    p.completion_retries = p.completion_retries + 1;
                    return Ending::Again {
                        reason: Message::injected(reason),
                        notice: Some("completion check: the step list is not finished"),
                    };
                }
            }
            Ending::Stop
        },
    }
}

/// How often the `stop` hooks and the unfinished steps may still keep a run from
/// ending.
pub open spec fn patience(p: Progress) -> int {
    (STOP_HOOK_MAX - p.stop_retries) + (COMPLETION_CHECK_MAX - p.completion_retries)
}

/// Hooks and unfinished steps keep a run from ending at most so often: each time
/// they do, there is one time less left, and the count never goes below zero.
pub proof fn law_hooks_cannot_hold_a_run_forever(
    p: Progress,
    stop: Option<Seq<char>>,
    check_steps: bool,
    todos: Seq<TodoItem>,
)
    requires
        in_bounds(p),
    ensures
        ({
            let (after, e) = ending(p, DoneWordV::StopHooks(stop), check_steps, todos);
            &&& in_bounds(after)
            &&& patience(after) >= 0
            &&& e is Again ==> patience(after) == patience(p) - 1
            &&& e is Stop ==> after == p
        }),
{
}

/// A run whose step list is finished, or that never wrote one, ends quietly.
pub proof fn law_finished_lists_end_quietly(
    p: Progress,
    check_steps: bool,
    todos: Seq<TodoItem>,
)
    requires
        unfinished(todos) is None,
    ensures
        ending(p, DoneWordV::StopHooks(None), check_steps, todos) == (p, EndingV::Stop),
{
}

// ------------------------------------------------------------ compaction

/// Between two steps the transcript is compacted: it is switched on, no tool
/// calls wait for their results, and the threshold is reached.
pub fn compaction_wanted(
    compaction_on: bool,
    state: &AgentState,
    messages: &Vec<Message>,
    last_request: Option<RequestAnchor>,
    context_window: Option<usize>,
    keep_recent: Option<usize>,
    budget: Option<usize>,
) -> (b: bool)
    ensures
        b == (compaction_on && !(state@ is ToolCalling) && over(
            transcript(messages@),
            last_request,
            context_window.unwrap_or(DEFAULT_CONTEXT_WINDOW),
            keep_recent,
            budget,
        )),
{
    let waiting = match state {
        AgentState::ToolCalling(_) => true,
        _ => false,
    };
    compaction_on && !waiting && over_threshold(
        messages,
        last_request,
        context_window.unwrap_or(DEFAULT_CONTEXT_WINDOW),
        keep_recent,
        budget,
    )
}

/// What the user is told after a compaction that no run ends over: nothing where
/// it did its work, else that the context stays as it is, and why.
pub open spec fn compaction_note(error: Option<Seq<char>>, still_over: bool) -> Option<Seq<char>> {
    match error {
        None => if still_over {
            Some("context still high after compacting — continuing"@)
        } else {
            None
        },
        Some(msg) => if holds(msg, "too few messages"@) || holds(msg, "nothing new"@) {
            Some("context high but nothing left to compact — continuing"@)
        } else {
            Some(
                "compaction failed ("@ + msg + ") — continuing on the current transcript"@,
            )
        },
    }
}

/// Computes [`compaction_note`].
pub fn compaction_notice(error: Option<&str>, still_over: bool) -> (r: Option<String>)
    ensures
        text_view(r) == compaction_note(
            match error {
                Some(t) => Some(t@),
                None => None,
            },
            still_over,
        ),
{
    match error {
        None => if still_over {
            Some("context still high after compacting — continuing".to_owned())
        } else {
            None
        },
        Some(msg) => {
            if contains(msg, "too few messages") || contains(msg, "nothing new") {
                Some("context high but nothing left to compact — continuing".to_owned())
            } else {
                Some(cat3("compaction failed (", msg, ") — continuing on the current transcript"))
            }
        },
    }
}

/// What a compaction that failed says.
pub open spec fn error_text(e: CompactError) -> Seq<char> {
    match e {
        CompactError::TooFewMessages => "too few messages to compact"@,
        CompactError::NothingNew => "nothing new to compact beyond the prior summary"@,
        CompactError::EmptySummary => "empty compaction summary"@,
        CompactError::NotSmaller { summary_tokens, region_tokens } => "summary is not smaller than the region it replaces ("@
            + decimal(summary_tokens as nat) + " estimated tokens >= "@ + decimal(
            region_tokens as nat,
        ) + ")"@,
    }
}

impl CompactError {
    /// Computes [`error_text`].
    pub fn message(&self) -> (r: String)
        ensures
            r@ == error_text(*self),
    {
        match self {
            CompactError::TooFewMessages => "too few messages to compact".to_owned(),
            CompactError::NothingNew => "nothing new to compact beyond the prior summary".to_owned(),
            CompactError::EmptySummary => "empty compaction summary".to_owned(),
            CompactError::NotSmaller { summary_tokens, region_tokens } => {
                let a = size_text(*summary_tokens);
                let b = size_text(*region_tokens);
                cat5(
                    "summary is not smaller than the region it replaces (",
                    a.as_str(),
                    " estimated tokens >= ",
                    b.as_str(),
                    ")",
                )
            },
        }
    }
}

/// A turn is taken exactly where its number is within the cap on turns, and something is
/// left of the tokens; where it is not, the user is told the limit.
pub proof fn law_turns_within_the_limits_are_taken(
    steps: nat,
    max_steps: Option<usize>,
    cap: Option<u64>,
    spent: u64,
)
    ensures
        turn_gate(steps, max_steps, cap, spent) is Go <==> (max_steps is None || steps
            <= max_steps->0) && (cap is None || spent < cap->0),
        max_steps is Some && steps > max_steps->0 ==> {
            let g = turn_gate(steps, max_steps, cap, spent);
            g is MaxSteps && holds(g->MaxSteps_0, decimal(max_steps->0 as nat))
        },
        (max_steps is None || steps <= max_steps->0) && cap is Some && spent >= cap->0 ==> {
            let g = turn_gate(steps, max_steps, cap, spent);
            g is SpendCap && holds(
                g->SpendCap_0,
                decimal(spent as nat) + "/"@ + decimal(cap->0 as nat),
            )
        },
{
    if max_steps is Some {
        let n = decimal(max_steps->0 as nat);
        let all = "Max steps reached ("@ + n + ") — stopping"@;
        let at = "Max steps reached ("@.len() as int;
        assert(all.subrange(at, at + n.len()) =~= n);
        assert(occurs_at(all, n, at));
    }
    if cap is Some {
        let n = decimal(spent as nat) + "/"@ + decimal(cap->0 as nat);
        let all = "spend cap reached ("@ + decimal(spent as nat) + "/"@ + decimal(cap->0 as nat)
            + " tokens) — raise the limit or reset"@;
        let at = "spend cap reached ("@.len() as int;
        assert(all.subrange(at, at + n.len()) =~= n);
        assert(occurs_at(all, n, at));
    }
}

/// The oracle's reason is what the model is told, every time; a `stop` hook's is for the
/// first five times, and then the run ends.
pub proof fn law_reasons_reach_the_model(
    p: Progress,
    reason: Seq<char>,
    check_steps: bool,
    todos: Seq<TodoItem>,
)
    ensures
        ({
            let (after, e) = ending(p, DoneWordV::Oracle(reason), check_steps, todos);
            after == p && e is Again && e->reason == reason
        }),
        ({
            let (after, e) = ending(p, DoneWordV::StopHooks(Some(reason)), check_steps, todos);
            &&& p.stop_retries < 5 ==> e is Again && e->reason == reason && after.stop_retries
                == p.stop_retries + 1
            &&& p.stop_retries >= 5 ==> e is Stop
            &&& after.completion_retries == p.completion_retries
        }),
{
}

/// A run that is about to end with a step left open goes on once, where the steps are
/// checked, and the model is told the step; the second time it ends.
pub proof fn law_open_steps_hold_a_run_once(p: Progress, todos: Seq<TodoItem>, i: int)
    requires
        0 <= i < todos.len(),
        todos[i].status != TodoStatus::Completed,
    ensures
        ({
            let (after, e) = ending(p, DoneWordV::StopHooks(None), true, todos);
            &&& p.completion_retries == 0 ==> e is Again && holds(
                e->reason,
                "- "@ + todos[i].content@ + "\n"@,
            ) && after.completion_retries == 1
            &&& p.completion_retries >= 1 ==> e is Stop
        }),
        ending(p, DoneWordV::StopHooks(None), false, todos).1 is Stop,
{
    law_open_steps_are_named(todos, i);
}

/// A request that was too large is answered by shrinking the transcript twice in a row,
/// and no more.
pub proof fn law_two_recoveries_in_a_row(p: Progress, n: nat)
    requires
        p.overflow_recoveries == 0,
        in_bounds(p),
    ensures
        overflow_step(overflows(p, n)).1 <==> n < 2,
        overflow_step(overflows(p, n)).0.steps == p.steps,
{
    lemma_overflows(p, n);
    lemma_overflow_keeps_steps(p, n);
}

proof fn lemma_overflow_keeps_steps(p: Progress, n: nat)
    ensures
        overflows(p, n).steps == p.steps,
    decreases n,
{
    if n > 0 {
        lemma_overflow_keeps_steps(p, (n - 1) as nat);
    }
}

/// Shrinking is given up exactly where the transcript could not be compacted and nothing
/// was pruned; what was pruned is said to be.
pub proof fn law_giving_up_is_the_last_resort(compacted: bool, freed_tokens: nat)
    ensures
        recovery(compacted, freed_tokens) == Recovery::GaveUp <==> !compacted && freed_tokens == 0,
        freed_tokens > 0 <==> recovery(compacted, freed_tokens) == Recovery::Pruned,
        prunes(false, true) && prunes(false, false) && prunes(true, true) && !prunes(true, false),
{
}

/// Why a compaction failed is told, unless there was nothing to compact; one that worked
/// is told of only where the context is still too long.
pub proof fn law_failed_compactions_are_told(msg: Seq<char>, still_over: bool)
    ensures
        !holds(msg, "too few messages"@) && !holds(msg, "nothing new"@) ==> compaction_note(
            Some(msg),
            still_over,
        ) is Some && holds(compaction_note(Some(msg), still_over)->0, msg),
        compaction_note(Some(msg), still_over) is Some,
        compaction_note(None, still_over) is Some <==> still_over,
{
    let all = "compaction failed ("@ + msg + ") — continuing on the current transcript"@;
    let at = "compaction failed ("@.len() as int;
    assert(all.subrange(at, at + msg.len()) =~= msg);
    assert(occurs_at(all, msg, at));
}

/// A compaction keeps as many messages as it is asked to, or all that there are.
pub proof fn law_as_many_are_kept_as_asked(n: usize, count: nat)
    ensures
        keep_of(Some(n), count) <= count,
        n <= count ==> keep_of(Some(n), count) == n,
        n > count ==> keep_of(Some(n), count) == count,
{
}

/// A summary that is refused for its size is told with both sizes.
pub proof fn law_refused_summaries_tell_the_sizes(summary_tokens: usize, region_tokens: usize)
    ensures
        holds(
            error_text(CompactError::NotSmaller { summary_tokens, region_tokens }),
            decimal(summary_tokens as nat) + " estimated tokens >= "@ + decimal(
                region_tokens as nat,
            ),
        ),
{
    let all = error_text(CompactError::NotSmaller { summary_tokens, region_tokens });
    let n = decimal(summary_tokens as nat) + " estimated tokens >= "@ + decimal(
        region_tokens as nat,
    );
    let at = "summary is not smaller than the region it replaces ("@.len() as int;
    assert(all.subrange(at, at + n.len()) =~= n);
    assert(occurs_at(all, n, at));
}

} // verus!
