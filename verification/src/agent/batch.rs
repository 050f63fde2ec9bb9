//! The tool calls of a turn as a machine: each call is screened in its turn, the
//! calls that may run are put into lanes, and their results go into the
//! transcript. Whoever drives it asks the user, the hooks and the classifier, and
//! runs the tools and the checks; what becomes of each call is decided here.
use vstd::prelude::*;
use vstd::multiset::Multiset;
use crate::agent::lanes::{
    lane_calls, lane_count, lane_of, law_every_call_is_in_its_lane, plan_lanes, targets,
};
use crate::agent::machine::no_events;
use crate::agent::policy::{
    after_hooks, append_note, before_hooks, classified, decide_after_hooks, decide_before_hooks,
    decide_classified, with_note, Gate, GateFacts, GateV, TEST_EDIT_NOTE,
};
use crate::agent::tools::{
    after_batch, answer_call, asks_permission, clear_call, cleared, contract_refusal, end_event,
    finish_batch, first_look, last_prompt, last_user_prompt, mutates, mutates_workspace,
    permission_prompt, reply_parts, screen_call, screened, start_event, Clearance, ClearanceV,
    FirstLook, Screened, ScreenedV,
};
use crate::agent::{Prompt, PromptReply};
use crate::checks::text_view;
use crate::permissions::{Decision, DecisionV, PreAction, PreActionV, PreVerdict};
use crate::text::{same, texts};
use crate::types::{
    event_views, result_message, tool_calls, transcript, AgentEvent, BlockV, ContentBlock, EventV,
    Message, MessageV, Role, ToolCall, ToolCallV,
};

verus! {

/// What is to be known of a call before it is screened.
#[derive(Debug)]
pub struct CallFacts {
    /// The sections that the task contract misses.
    pub missing: Vec<String>,
    pub gate: GateFacts,
    /// The call as the rules and the user see it.
    pub inner: String,
    /// The rule that would allow its like.
    pub glob: String,
    /// Somebody can be asked.
    pub attended: bool,
}

/// Where an approved call works: the file that it modifies, if it modifies one,
/// and whether its command is known to read only.
#[derive(Debug)]
pub struct Place {
    pub path: Option<String>,
    pub read_only: bool,
}

/// What a batch waits for.
#[derive(Debug)]
pub enum BatchPhase {
    /// What is to be known of the next call.
    Look,
    /// The user's answer to the model's own question.
    Question,
    /// The `pre_tool_use` hooks.
    Hooks,
    /// The classifier.
    Classify,
    /// The user's word on the call, which then runs so.
    Permission(PreAction),
    /// The places of the approved calls.
    Places,
    /// The results of the approved calls, of which these files are modified.
    Results(Vec<String>),
    /// The checks of the modified files.
    Checks,
    /// Nothing: the batch is complete.
    Over,
}

/// What a [`BatchPhase`] stands for.
pub enum BatchPhaseV {
    Look,
    Question,
    Hooks,
    Classify,
    Permission(PreActionV),
    Places,
    Results(Seq<Seq<char>>),
    Checks,
    Over,
}

impl View for BatchPhase {
    type V = BatchPhaseV;

    open spec fn view(&self) -> BatchPhaseV {
        match self {
            BatchPhase::Look => BatchPhaseV::Look,
            BatchPhase::Question => BatchPhaseV::Question,
            BatchPhase::Hooks => BatchPhaseV::Hooks,
            BatchPhase::Classify => BatchPhaseV::Classify,
            BatchPhase::Permission(a) => BatchPhaseV::Permission(a@),
            BatchPhase::Places => BatchPhaseV::Places,
            BatchPhase::Results(edited) => BatchPhaseV::Results(texts(edited@)),
            BatchPhase::Checks => BatchPhaseV::Checks,
            BatchPhase::Over => BatchPhaseV::Over,
        }
    }
}

/// What has happened to a batch.
#[derive(Debug)]
pub enum BatchEvent {
    Facts(CallFacts),
    /// The model's question has this answer.
    Answered { text: String, is_error: bool },
    HooksSaid(PreVerdict),
    /// The classifier's decision, with the command it would rather see; nothing
    /// where it failed.
    Classified(Option<(Decision, Option<String>)>),
    Replied(PromptReply),
    Places(Vec<Place>),
    /// The results of the approved calls, one for each, as they came in; whether
    /// the model is told that it wrote to a test file; and whether there are
    /// checks for modified files.
    Ran { results: Vec<Message>, note_tests: bool, checks: bool },
    /// What the checks report, if they report anything.
    Checked(Option<String>),
}

/// What a batch wants done.
#[derive(Debug)]
pub enum BatchAction {
    /// Tell what is to be known of the first call that waits.
    Look,
    /// Ask the user what the call asks.
    AskUser,
    AskHooks,
    Classify,
    /// Ask the user whether the call may run.
    AskPermission(Prompt),
    /// Tell where the approved calls work.
    Locate,
    /// Run these lanes side by side, and the calls of each in order. Before that
    /// the workspace is saved under the label, where there is one.
    Run { label: Option<String>, lanes: Vec<Vec<ToolCall>> },
    /// Check these files.
    Check(Vec<String>),
    /// The batch is complete.
    Finish,
}

/// What a [`BatchAction`] stands for.
pub enum BatchActionV {
    Look,
    AskUser,
    AskHooks,
    Classify,
    AskPermission { inner: Seq<char>, glob: Seq<char> },
    Locate,
    Run { label: Option<Seq<char>>, lanes: Seq<Seq<ToolCallV>> },
    Check(Seq<Seq<char>>),
    Finish,
}

/// What some lanes stand for.
pub open spec fn lane_views(lanes: Seq<Vec<ToolCall>>) -> Seq<Seq<ToolCallV>> {
    lanes.map_values(|l: Vec<ToolCall>| tool_calls(l@))
}

/// The action is the one that `v` describes.
pub open spec fn acts(a: BatchAction, v: BatchActionV) -> bool {
    match v {
        BatchActionV::Look => a is Look,
        BatchActionV::AskUser => a is AskUser,
        BatchActionV::AskHooks => a is AskHooks,
        BatchActionV::Classify => a is Classify,
        BatchActionV::AskPermission { inner, glob } => a matches BatchAction::AskPermission(p)
            && asks_permission(p, inner, glob),
        BatchActionV::Locate => a is Locate,
        BatchActionV::Run { label, lanes } => a matches BatchAction::Run { label: l, lanes: ls }
            && text_view(l) == label && lane_views(ls@) == lanes,
        BatchActionV::Check(files) => a matches BatchAction::Check(f) && texts(f@) == files,
        BatchActionV::Finish => a is Finish,
    }
}

/// The tool calls of a turn: those that wait, the first of which is being
/// screened; those that may run, until their results are in; what is known of the
/// one being screened; and what the batch waits for.
#[derive(Debug)]
pub struct Batch {
    pub waiting: Vec<ToolCall>,
    pub approved: Vec<ToolCall>,
    pub facts: Option<CallFacts>,
    pub phase: BatchPhase,
}

/// What a [`Batch`] stands for.
pub struct BatchV {
    pub waiting: Seq<ToolCallV>,
    pub approved: Seq<ToolCallV>,
    pub facts: Option<CallFacts>,
    pub phase: BatchPhaseV,
}

impl View for Batch {
    type V = BatchV;

    open spec fn view(&self) -> BatchV {
        BatchV {
            waiting: tool_calls(self.waiting@),
            approved: tool_calls(self.approved@),
            facts: self.facts,
            phase: self.phase@,
        }
    }
}

/// A step of a batch: the batch and the transcript afterwards, what is reported,
/// the rule that is kept from now on, and what is to be done.
pub struct BatchStep {
    pub batch: BatchV,
    pub msgs: Seq<MessageV>,
    pub events: Seq<EventV>,
    pub rule: Option<Seq<char>>,
    pub action: BatchActionV,
}

/// A step after which the batch waits in the phase `phase` and all else is as it
/// was.
pub open spec fn waits(
    b: BatchV,
    msgs: Seq<MessageV>,
    facts: Option<CallFacts>,
    phase: BatchPhaseV,
    action: BatchActionV,
) -> BatchStep {
    BatchStep {
        batch: BatchV { facts, phase, ..b },
        msgs,
        events: Seq::empty(),
        rule: None,
        action,
    }
}

/// No call is being screened: the next one is looked at, the approved calls are
/// located, or, where there are none, the batch is complete.
pub open spec fn turned(waiting: Seq<ToolCallV>, approved: Seq<ToolCallV>) -> (
    BatchPhaseV,
    BatchActionV,
) {
    if waiting.len() > 0 {
        (BatchPhaseV::Look, BatchActionV::Look)
    } else if approved.len() > 0 {
        (BatchPhaseV::Places, BatchActionV::Locate)
    } else {
        (BatchPhaseV::Over, BatchActionV::Finish)
    }
}

/// The call being screened is disposed of: it is approved, or it is answered,
/// which is reported and put into the transcript.
pub open spec fn disposed(
    b: BatchV,
    msgs: Seq<MessageV>,
    s: ScreenedV,
    rule: Option<Seq<char>>,
) -> BatchStep {
    let waiting = b.waiting.drop_first();
    match s {
        ScreenedV::Run(call) => {
            let approved = b.approved.push(call);
            let (phase, action) = turned(waiting, approved);
            BatchStep {
                batch: BatchV { waiting, approved, facts: None, phase },
                msgs,
                events: Seq::empty(),
                rule,
                action,
            }
        },
        ScreenedV::Answered { call, shown, told, is_error } => {
            let (phase, action) = turned(waiting, b.approved);
            BatchStep {
                batch: BatchV { waiting, approved: b.approved, facts: None, phase },
                msgs: msgs.push(result_message(call.id, told, is_error)),
                events: seq![start_event(call), end_event(call, shown, is_error)],
                rule,
                action,
            }
        },
    }
}

/// The rule that a clearance asks to keep.
pub open spec fn kept_rule(c: ClearanceV) -> Option<Seq<char>> {
    match c {
        ClearanceV::RunAlways(rule) => Some(rule),
        _ => None,
    }
}

/// The call has its clearance.
pub open spec fn settled(
    b: BatchV,
    msgs: Seq<MessageV>,
    action: PreActionV,
    c: ClearanceV,
) -> BatchStep {
    disposed(b, msgs, screened(b.waiting[0], action, c), kept_rule(c))
}

/// The rules came this far with the call: the user is asked where they say so
/// and somebody is there; else the call is cleared or blocked.
pub open spec fn gated(b: BatchV, msgs: Seq<MessageV>, f: CallFacts, g: GateV) -> BatchStep {
    match g {
        GateV::AskHooks => waits(b, msgs, Some(f), BatchPhaseV::Hooks, BatchActionV::AskHooks),
        GateV::Classify => waits(b, msgs, Some(f), BatchPhaseV::Classify, BatchActionV::Classify),
        GateV::Decided(d, a) => if d is Ask && f.attended {
            waits(
                b,
                msgs,
                Some(f),
                BatchPhaseV::Permission(a),
                BatchActionV::AskPermission { inner: f.inner@, glob: f.glob@ },
            )
        } else {
            settled(b, msgs, a, cleared(d, f.inner@, f.glob@, None))
        },
    }
}

/// The first look at a call: `ask_user` is the model's own question, a call that
/// changes the workspace needs a complete task contract, and the rules decide
/// about any other.
pub open spec fn looked(b: BatchV, msgs: Seq<MessageV>, f: CallFacts) -> BatchStep {
    let call = b.waiting[0];
    let refusal = contract_refusal(texts(f.missing@));
    if call.name == "ask_user"@ {
        waits(b, msgs, Some(f), BatchPhaseV::Question, BatchActionV::AskUser)
    } else if mutates(f.gate.mutation_target is Some, call.name, f.gate.read_only) && refusal
        is Some {
        disposed(
            b,
            msgs,
            ScreenedV::Answered {
                call,
                shown: "blocked: incomplete task contract"@,
                told: refusal->0,
                is_error: true,
            },
            None,
        )
    } else {
        gated(b, msgs, f, before_hooks(call.name, f.gate))
    }
}

/// The paths of some places.
pub open spec fn place_paths(places: Seq<Place>) -> Seq<Option<Seq<char>>> {
    places.map_values(|p: Place| text_view(p.path))
}

/// The files that the calls in these places modify, in the order of the calls.
pub open spec fn edited_files(paths: Seq<Option<Seq<char>>>) -> Seq<Seq<char>>
    decreases paths.len(),
{
    if paths.len() == 0 {
        Seq::empty()
    } else {
        let before = edited_files(paths.drop_last());
        match paths.last() {
            Some(p) => before.push(p),
            None => before,
        }
    }
}

/// Some call changes the workspace.
pub open spec fn some_mutates(calls: Seq<ToolCallV>, places: Seq<Place>) -> bool {
    exists|i: int|
        0 <= i < calls.len() && mutates(
            places[i].path is Some,
            (#[trigger] calls[i]).name,
            places[i].read_only,
        )
}

/// The lanes of some calls with these paths.
pub open spec fn lanes_of(calls: Seq<ToolCallV>, paths: Seq<Option<Seq<char>>>) -> Seq<
    Seq<ToolCallV>,
> {
    Seq::new(
        lane_count(paths, paths.len() as int) as nat,
        |k: int| lane_calls(calls, paths, paths.len() as int, k),
    )
}

/// The approved calls are located: they run in their lanes, and where one of
/// them changes the workspace, that is saved before under the user's last
/// prompt.
pub open spec fn located(b: BatchV, msgs: Seq<MessageV>, places: Seq<Place>) -> BatchStep {
    let paths = place_paths(places);
    BatchStep {
        batch: BatchV {
            waiting: Seq::empty(),
            facts: None,
            phase: BatchPhaseV::Results(edited_files(paths)),
            ..b
        },
        msgs,
        events: Seq::empty(),
        rule: None,
        action: BatchActionV::Run {
            label: if some_mutates(b.approved, places) {
                Some(last_prompt(msgs))
            } else {
                None
            },
            lanes: lanes_of(b.approved, paths),
        },
    }
}

/// The results are in: they go into the transcript, and the modified files are
/// checked where there are checks.
pub open spec fn ran(
    b: BatchV,
    msgs: Seq<MessageV>,
    edited: Seq<Seq<char>>,
    results: Seq<MessageV>,
    note_tests: bool,
    checks: bool,
) -> BatchStep {
    let after = after_batch(msgs, results, note_tests, None);
    let done = BatchV { approved: Seq::empty(), ..b };
    if edited.len() > 0 && checks {
        waits(done, after, None, BatchPhaseV::Checks, BatchActionV::Check(edited))
    } else {
        waits(done, after, None, BatchPhaseV::Over, BatchActionV::Finish)
    }
}

/// The call that a message is the result of; `None` where it is no result.
pub open spec fn answered_id(m: MessageV) -> Option<Seq<char>> {
    if m.role == Role::Tool && !m.injected && m.content.len() == 1 {
        match m.content[0] {
            BlockV::ToolResult { tool_use_id, .. } => Some(tool_use_id),
            _ => None,
        }
    } else {
        None
    }
}

/// The calls that some messages are the results of, each as often as it has one.
pub open spec fn told(msgs: Seq<MessageV>) -> Multiset<Option<Seq<char>>> {
    msgs.map_values(|m: MessageV| answered_id(m)).to_multiset()
}

/// What [`told`] says of one result for each of the calls.
pub open spec fn owed(calls: Seq<ToolCallV>) -> Multiset<Option<Seq<char>>> {
    calls.map_values(|c: ToolCallV| Some(c.id)).to_multiset()
}

/// The event is one that the batch waits for.
pub open spec fn expects(b: BatchV, ev: BatchEvent) -> bool {
    match b.phase {
        BatchPhaseV::Look => ev is Facts && b.waiting.len() > 0,
        BatchPhaseV::Question => ev is Answered && b.waiting.len() > 0,
        BatchPhaseV::Hooks => ev is HooksSaid && b.waiting.len() > 0 && b.facts is Some,
        BatchPhaseV::Classify => ev is Classified && b.waiting.len() > 0 && b.facts is Some,
        BatchPhaseV::Permission(_) => ev is Replied && b.waiting.len() > 0 && b.facts is Some,
        BatchPhaseV::Places => ev matches BatchEvent::Places(places) && places@.len()
            == b.approved.len(),
        BatchPhaseV::Results(_) => ev matches BatchEvent::Ran { results, .. } && told(
            transcript(results@),
        ) == owed(b.approved),
        BatchPhaseV::Checks => ev is Checked,
        BatchPhaseV::Over => false,
    }
}

/// The batch can go on: while a call is being screened, it is there, and what is
/// known of it with it; while results are awaited, their calls are there; and in
/// the end no call is left.
pub open spec fn in_order(b: BatchV) -> bool {
    match b.phase {
        BatchPhaseV::Look | BatchPhaseV::Question => b.waiting.len() > 0,
        BatchPhaseV::Hooks | BatchPhaseV::Classify | BatchPhaseV::Permission(_) => b.waiting.len()
            > 0 && b.facts is Some,
        BatchPhaseV::Places | BatchPhaseV::Results(_) => b.waiting.len() == 0 && b.approved.len()
            > 0,
        BatchPhaseV::Checks | BatchPhaseV::Over => b.waiting.len() == 0 && b.approved.len() == 0,
    }
}

/// A step of a batch: what follows the event `ev`.
pub open spec fn batch_step(b: BatchV, msgs: Seq<MessageV>, ev: BatchEvent) -> BatchStep {
    match ev {
        BatchEvent::Facts(f) => looked(b, msgs, f),
        BatchEvent::Answered { text, is_error } => disposed(
            b,
            msgs,
            ScreenedV::Answered { call: b.waiting[0], shown: text@, told: text@, is_error },
            None,
        ),
        BatchEvent::HooksSaid(verdict) => {
            let f = b.facts->0;
            gated(
                b,
                msgs,
                f,
                after_hooks(
                    b.waiting[0].name,
                    f.gate.destructive,
                    f.gate.read_only,
                    f.gate.environment,
                    verdict@,
                ),
            )
        },
        BatchEvent::Classified(answer) => {
            let (d, a) = classified(answer_view(answer));
            gated(b, msgs, b.facts->0, GateV::Decided(d, a))
        },
        BatchEvent::Replied(reply) => {
            let f = b.facts->0;
            settled(
                b,
                msgs,
                b.phase->Permission_0,
                cleared(DecisionV::Ask, f.inner@, f.glob@, reply_parts(Some(reply))),
            )
        },
        BatchEvent::Places(places) => located(b, msgs, places@),
        BatchEvent::Ran { results, note_tests, checks } => ran(
            b,
            msgs,
            b.phase->Results_0,
            transcript(results@),
            note_tests,
            checks,
        ),
        BatchEvent::Checked(report) => waits(
            b,
            match report {
                Some(t) => with_note(msgs, t@),
                None => msgs,
            },
            None,
            BatchPhaseV::Over,
            BatchActionV::Finish,
        ),
    }
}

/// What an answer of the classifier stands for.
pub open spec fn answer_view(answer: Option<(Decision, Option<String>)>) -> Option<
    (DecisionV, Option<Seq<char>>),
> {
    match answer {
        Some((d, Some(command))) => Some((d@, Some(command@))),
        Some((d, None)) => Some((d@, None)),
        None => None,
    }
}

/// What a step gives: what is reported, the rule to keep, and what is to be done.
#[derive(Debug)]
pub struct BatchOutcome {
    pub events: Vec<AgentEvent>,
    pub rule: Option<String>,
    pub action: BatchAction,
}

/// The outcome of a step is `s`.
pub open spec fn came_out(b: Batch, messages: Seq<Message>, o: BatchOutcome, s: BatchStep) -> bool {
    &&& b@ == s.batch
    &&& transcript(messages) == s.msgs
    &&& event_views(o.events@) == s.events
    &&& text_view(o.rule) == s.rule
    &&& acts(o.action, s.action)
}

fn quietly(action: BatchAction) -> (o: BatchOutcome)
    ensures
        event_views(o.events@) == Seq::<EventV>::empty(),
        o.rule is None,
        o.action == action,
{
    BatchOutcome { events: no_events(), rule: None, action }
}

fn paths_of(places: &Vec<Place>) -> (r: Vec<Option<String>>)
    ensures
        targets(r@) == place_paths(places@),
        r@.len() == places@.len(),
{
    let ghost all = place_paths(places@);
    let mut r: Vec<Option<String>> = Vec::new();
    let mut i: usize = 0;
    assert(targets(r@) =~= all.take(0));
    while i < places.len()
        invariant
            i <= places@.len(),
            all == place_paths(places@),
            targets(r@) == all.take(i as int),
            r@.len() == i,
        decreases places@.len() - i,
    {
        let path = match &places[i].path {
            Some(p) => Some(p.clone()),
            None => None,
        };
        assert(text_view(path) == all[i as int]);
        let ghost before = targets(r@);
        r.push(path);
        assert(targets(r@) =~= before.push(all[i as int]));
        assert(all.take(i as int).push(all[i as int]) =~= all.take(i + 1));
        i += 1;
    }
    assert(all.take(i as int) =~= all);
    r
}

fn edited_of(paths: &Vec<Option<String>>) -> (r: Vec<String>)
    ensures
        texts(r@) == edited_files(targets(paths@)),
{
    let ghost all = targets(paths@);
    let mut r: Vec<String> = Vec::new();
    let mut i: usize = 0;
    assert(all.take(0) =~= Seq::empty());
    assert(texts(r@) =~= Seq::empty());
    while i < paths.len()
        invariant
            i <= paths@.len(),
            all == targets(paths@),
            texts(r@) == edited_files(all.take(i as int)),
        decreases paths@.len() - i,
    {
        assert(all.take(i + 1).drop_last() =~= all.take(i as int));
        if let Some(p) = &paths[i] {
            assert(all[i as int] == Some(p@));
            let ghost before = texts(r@);
            r.push(p.clone());
            assert(texts(r@) =~= before.push(p@));
        } else {
            assert(all[i as int] is None);
        }
        i += 1;
    }
    assert(all.take(i as int) =~= all);
    r
}

fn any_mutates(calls: &Vec<ToolCall>, places: &Vec<Place>) -> (b: bool)
    requires
        calls@.len() == places@.len(),
    ensures
        b == some_mutates(tool_calls(calls@), places@),
{
    let ghost all = tool_calls(calls@);
    let mut i: usize = 0;
    while i < calls.len()
        invariant
            i <= calls@.len() == places@.len(),
            all == tool_calls(calls@),
            forall|k: int|
                0 <= k < i ==> !mutates(
                    places@[k].path is Some,
                    (#[trigger] all[k]).name,
                    places@[k].read_only,
                ),
        decreases calls@.len() - i,
    {
        assert(all[i as int] == calls@[i as int]@);
        if mutates_workspace(
            places[i].path.is_some(),
            calls[i].name.as_str(),
            places[i].read_only,
        ) {
            return true;
        }
        i += 1;
    }
    false
}

fn id_answered(m: &Message) -> (r: Option<String>)
    ensures
        text_view(r) == answered_id(m@),
{
    let tool = match m.role {
        Role::Tool => true,
        _ => false,
    };
    if tool && !m.injected && m.content.len() == 1 {
        assert(m@.content[0] == m.content@[0]@);
        match &m.content[0] {
            ContentBlock::ToolResult { tool_use_id, .. } => Some(tool_use_id.clone()),
            _ => None,
        }
    } else {
        None
    }
}

/// Some ids as [`told`] has them.
spec fn some_ids(ids: Seq<Seq<char>>) -> Seq<Option<Seq<char>>> {
    ids.map_values(|t: Seq<char>| Some(t))
}

fn ids_of(calls: &Vec<ToolCall>) -> (r: Vec<String>)
    ensures
        some_ids(texts(r@)).to_multiset() == owed(tool_calls(calls@)),
{
    let ghost all = tool_calls(calls@).map_values(|c: ToolCallV| Some(c.id));
    let mut r: Vec<String> = Vec::new();
    let mut i: usize = 0;
    while i < calls.len()
        invariant
            i <= calls@.len(),
            all == tool_calls(calls@).map_values(|c: ToolCallV| Some(c.id)),
            some_ids(texts(r@)) =~= all.take(i as int),
        decreases calls@.len() - i,
    {
        assert(tool_calls(calls@)[i as int] == calls@[i as int]@);
        let ghost before = texts(r@);
        r.push(calls[i].id.clone());
        assert(texts(r@) =~= before.push(calls@[i as int].id@));
        assert(some_ids(texts(r@)) =~= some_ids(before).push(all[i as int]));
        assert(all.take(i + 1) =~= all.take(i as int).push(all[i as int]));
        i += 1;
    }
    assert(all.take(i as int) =~= all);
    r
}

/// Whether the messages are one result for each of the calls, in any order.
pub fn all_answered(calls: &Vec<ToolCall>, results: &Vec<Message>) -> (b: bool)
    ensures
        b == (told(transcript(results@)) == owed(tool_calls(calls@))),
{
    broadcast use {
        vstd::seq_lib::group_to_multiset_ensures,
        vstd::multiset::group_multiset_axioms,
    };

    let ghost wanted = owed(tool_calls(calls@));
    let ghost ts = transcript(results@).map_values(|m: MessageV| answered_id(m));
    let mut left = ids_of(calls);
    let mut i: usize = 0;
    assert(ts.take(0) =~= Seq::empty());
    assert(ts.take(0).to_multiset() =~= Multiset::empty());
    while i < results.len()
        invariant
            i <= results@.len(),
            ts == transcript(results@).map_values(|m: MessageV| answered_id(m)),
            wanted == owed(tool_calls(calls@)),
            some_ids(texts(left@)).to_multiset().add(ts.take(i as int).to_multiset()) =~= wanted,
        decreases results@.len() - i,
    {
        broadcast use {
            vstd::seq_lib::group_to_multiset_ensures,
            vstd::multiset::group_multiset_axioms,
        };

        assert(transcript(results@)[i as int] == results@[i as int]@);
        let ghost front = ts.take(i as int);
        let ghost rest = ts.skip(i as int);
        let ghost ls = some_ids(texts(left@));
        let id = id_answered(&results[i]);
        assert(ts[i as int] == text_view(id));
        let at = match &id {
            Some(t) => find_text(&left, t.as_str()),
            None => None,
        };
        match at {
            Some(k) => {
                let ghost ids = texts(left@);
                assert(ls[k as int] == ts[i as int]);
                left.remove(k);
                assert(texts(left@) =~= ids.remove(k as int));
                assert(some_ids(texts(left@)) =~= ls.remove(k as int));
                assert(ts.take(i + 1) =~= front.push(ts[i as int]));
                assert(ls.to_multiset().count(ls[k as int]) > 0);
                assert(ls.remove(k as int).to_multiset().add(front.push(ts[i as int]).to_multiset())
                    =~= wanted);
            },
            None => {
                proof {
                    assert(!ls.contains(ts[i as int])) by {
                        if ls.contains(ts[i as int]) {
                            let k = choose|k: int| 0 <= k < ls.len() && ls[k] == ts[i as int];
                            assert(ls[k] == Some(texts(left@)[k]));
                            assert(texts(left@)[k] == left@[k]@);
                        }
                    }
                    assert(ts =~= front + rest);
                    vstd::seq_lib::lemma_multiset_commutative(front, rest);
                    assert(rest[0] == ts[i as int]);
                    assert(rest.contains(ts[i as int]));
                    assert(rest.to_multiset().count(ts[i as int]) > 0);
                    assert(ls.to_multiset().count(ts[i as int]) == 0);
                    assert(ts.to_multiset().count(ts[i as int]) > wanted.count(ts[i as int]));
                }
                return false;
            },
        }
        i += 1;
    }
    assert(ts.take(i as int) =~= ts);
    let none = left.len() == 0;
    proof {
        let ls = some_ids(texts(left@));
        if none {
            assert(ls =~= Seq::empty());
            assert(ls.to_multiset() =~= Multiset::empty());
            assert(ts.to_multiset() =~= wanted);
        } else {
            assert(ls.contains(ls[0]));
            assert(ls.to_multiset().count(ls[0]) > 0);
            assert(ts.to_multiset().count(ls[0]) < wanted.count(ls[0]));
        }
    }
    none
}

fn find_text(list: &Vec<String>, t: &str) -> (r: Option<usize>)
    ensures
        match r {
            Some(k) => k < list@.len() && list@[k as int]@ == t@,
            None => forall|k: int| 0 <= k < list@.len() ==> (#[trigger] list@[k])@ != t@,
        },
{
    let mut k: usize = 0;
    while k < list.len()
        invariant
            k <= list@.len(),
            forall|j: int| 0 <= j < k ==> (#[trigger] list@[j])@ != t@,
        decreases list@.len() - k,
    {
        if same(list[k].as_str(), t) {
            return Some(k);
        }
        k += 1;
    }
    None
}

impl Batch {
    /// The batch of the calls of a turn, and what is to be done first.
    pub fn new(calls: Vec<ToolCall>) -> (r: (Batch, BatchAction))
        ensures
            ({
                let (phase, action) = turned(tool_calls(calls@), Seq::empty());
                &&& r.0@ == (BatchV {
                    waiting: tool_calls(calls@),
                    approved: Seq::empty(),
                    facts: None,
                    phase,
                })
                &&& acts(r.1, action)
            }),
            in_order(r.0@),
    {
        let mut b = Batch {
            waiting: calls,
            approved: Vec::new(),
            facts: None,
            phase: BatchPhase::Over,
        };
        assert(tool_calls(b.approved@) =~= Seq::empty());
        let action = b.turn();
        (b, action)
    }

    /// Turns to the next call, or to what follows the last one.
    fn turn(&mut self) -> (action: BatchAction)
        ensures
            ({
                let (phase, v) = turned(old(self)@.waiting, old(self)@.approved);
                &&& final(self)@ == (BatchV { facts: None, phase, ..old(self)@ })
                &&& acts(action, v)
            }),
    {
        self.facts = None;
        if self.waiting.len() > 0 {
            self.phase = BatchPhase::Look;
            BatchAction::Look
        } else if self.approved.len() > 0 {
            self.phase = BatchPhase::Places;
            BatchAction::Locate
        } else {
            self.phase = BatchPhase::Over;
            BatchAction::Finish
        }
    }

    /// Takes the call being screened out of those that wait.
    fn take(&mut self) -> (call: ToolCall)
        requires
            old(self).waiting@.len() > 0,
        ensures
            call@ == old(self)@.waiting[0],
            final(self)@ == (BatchV { waiting: old(self)@.waiting.drop_first(), ..old(self)@ }),
    {
        let ghost before = tool_calls(self.waiting@);
        let call = self.waiting.remove(0);
        assert(tool_calls(self.waiting@) =~= before.drop_first());
        call
    }

    /// Answers a call that was taken out, without running it.
    fn answer(
        &mut self,
        messages: &mut Vec<Message>,
        call: &ToolCall,
        shown: &str,
        told: String,
        is_error: bool,
        rule: Option<String>,
    ) -> (o: BatchOutcome)
        ensures
            ({
                let (phase, v) = turned(old(self)@.waiting, old(self)@.approved);
                &&& final(self)@ == (BatchV { facts: None, phase, ..old(self)@ })
                &&& acts(o.action, v)
            }),
            transcript(final(messages)@) == transcript(old(messages)@).push(
                result_message(call.id@, told@, is_error),
            ),
            event_views(o.events@) == seq![
                start_event(call@),
                end_event(call@, shown@, is_error),
            ],
            o.rule == rule,
    {
        let ghost before = transcript(messages@);
        let (begun, ended, message) = answer_call(call, shown, told, is_error);
        let mut events: Vec<AgentEvent> = Vec::new();
        events.push(begun);
        events.push(ended);
        assert(event_views(events@) =~= seq![
            start_event(call@),
            end_event(call@, shown@, is_error),
        ]);
        let ghost m = message@;
        messages.push(message);
        assert(transcript(messages@) =~= before.push(m));
        let action = self.turn();
        BatchOutcome { events, rule, action }
    }

    /// Disposes of the call being screened; see [`settled`].
    fn settle(
        &mut self,
        messages: &mut Vec<Message>,
        action: PreAction,
        clearance: Clearance,
    ) -> (o: BatchOutcome)
        requires
            old(self).waiting@.len() > 0,
        ensures
            came_out(
                *final(self),
                final(messages)@,
                o,
                settled(old(self)@, transcript(old(messages)@), action@, clearance@),
            ),
    {
        let rule = match &clearance {
            Clearance::RunAlways(rule) => Some(rule.clone()),
            _ => None,
        };
        let call = self.take();
        match screen_call(call, action, clearance) {
            Screened::Run(call) => {
                let ghost before = tool_calls(self.approved@);
                let ghost c = call@;
                self.approved.push(call);
                assert(tool_calls(self.approved@) =~= before.push(c));
                let action = self.turn();
                BatchOutcome { events: no_events(), rule, action }
            },
            Screened::Answered { call, shown, told, is_error } => self.answer(
                messages,
                &call,
                shown.as_str(),
                told,
                is_error,
                rule,
            ),
        }
    }

    /// Goes on with the call as far as the rules came; see [`gated`].
    fn gate(&mut self, messages: &mut Vec<Message>, facts: CallFacts, gate: Gate) -> (o:
        BatchOutcome)
        requires
            old(self).waiting@.len() > 0,
        ensures
            came_out(
                *final(self),
                final(messages)@,
                o,
                gated(old(self)@, transcript(old(messages)@), facts, gate@),
            ),
    {
        match gate {
            Gate::AskHooks => {
                self.phase = BatchPhase::Hooks;
                self.facts = Some(facts);
                quietly(BatchAction::AskHooks)
            },
            Gate::Classify => {
                self.phase = BatchPhase::Classify;
                self.facts = Some(facts);
                quietly(BatchAction::Classify)
            },
            Gate::Decided(decision, action) => {
                let asks = match &decision {
                    Decision::Ask => true,
                    _ => false,
                };
                if asks && facts.attended {
                    let prompt = permission_prompt(facts.inner.as_str(), facts.glob.as_str());
                    self.phase = BatchPhase::Permission(action);
                    self.facts = Some(facts);
                    return quietly(BatchAction::AskPermission(prompt));
                }
                let clearance = clear_call(
                    decision,
                    facts.inner.as_str(),
                    facts.glob.as_str(),
                    None,
                );
                self.settle(messages, action, clearance)
            },
        }
    }

    /// Looks at the call being screened for the first time; see [`looked`].
    fn look(&mut self, messages: &mut Vec<Message>, facts: CallFacts) -> (o: BatchOutcome)
        requires
            old(self).waiting@.len() > 0,
        ensures
            came_out(
                *final(self),
                final(messages)@,
                o,
                looked(old(self)@, transcript(old(messages)@), facts),
            ),
    {
        assert(self@.waiting[0] == self.waiting@[0]@);
        let changes = mutates_workspace(
            facts.gate.mutation_target.is_some(),
            self.waiting[0].name.as_str(),
            facts.gate.read_only,
        );
        match first_look(&self.waiting[0], changes, &facts.missing) {
            FirstLook::AskUser => {
                self.phase = BatchPhase::Question;
                self.facts = Some(facts);
                quietly(BatchAction::AskUser)
            },
            FirstLook::Blocked(reason) => {
                let call = self.take();
                self.answer(
                    messages,
                    &call,
                    "blocked: incomplete task contract",
                    reason,
                    true,
                    None,
                )
            },
            FirstLook::Decide => {
                let gate = decide_before_hooks(self.waiting[0].name.as_str(), &facts.gate);
                self.gate(messages, facts, gate)
            },
        }
    }

    /// Sends the approved calls on their way; see [`located`].
    fn locate(&mut self, messages: &Vec<Message>, places: Vec<Place>) -> (o: BatchOutcome)
        requires
            old(self).approved@.len() == places@.len(),
        ensures
            came_out(
                *final(self),
                messages@,
                o,
                located(old(self)@, transcript(messages@), places@),
            ),
    {
        let ghost ps = place_paths(places@);
        let paths = paths_of(&places);
        let lanes = plan_lanes(&self.approved, &paths);
        let label = if any_mutates(&self.approved, &places) {
            Some(last_user_prompt(messages))
        } else {
            None
        };
        assert(lane_views(lanes@) =~= lanes_of(tool_calls(self.approved@), ps));
        let edited = edited_of(&paths);
        self.waiting = Vec::new();
        self.facts = None;
        self.phase = BatchPhase::Results(edited);
        assert(tool_calls(self.waiting@) =~= Seq::empty());
        quietly(BatchAction::Run { label, lanes })
    }

    /// Takes one step: what follows the event. Answers of calls that do not run,
    /// and the results of those that do, go into the transcript.
    pub fn step(&mut self, messages: &mut Vec<Message>, ev: BatchEvent) -> (o: BatchOutcome)
        requires
            in_order(old(self)@),
            expects(old(self)@, ev),
        ensures
            in_order(final(self)@),
            came_out(
                *final(self),
                final(messages)@,
                o,
                batch_step(old(self)@, transcript(old(messages)@), ev),
            ),
    {
        match ev {
            BatchEvent::Facts(facts) => self.look(messages, facts),
            BatchEvent::Answered { text, is_error } => {
                let call = self.take();
                let shown = text.clone();
                self.answer(messages, &call, shown.as_str(), text, is_error, None)
            },
            BatchEvent::HooksSaid(verdict) => {
                assert(self@.waiting[0] == self.waiting@[0]@);
                let mut kept: Option<CallFacts> = None;
                std::mem::swap(&mut kept, &mut self.facts);
                match kept {
                    Some(facts) => {
                        let gate = decide_after_hooks(
                            self.waiting[0].name.as_str(),
                            &facts.gate,
                            verdict,
                        );
                        self.gate(messages, facts, gate)
                    },
                    None => quietly(BatchAction::Finish),
                }
            },
            BatchEvent::Classified(answer) => {
                let mut kept: Option<CallFacts> = None;
                std::mem::swap(&mut kept, &mut self.facts);
                match kept {
                    Some(facts) => {
                        let (decision, action) = decide_classified(answer);
                        self.gate(messages, facts, Gate::Decided(decision, action))
                    },
                    None => quietly(BatchAction::Finish),
                }
            },
            BatchEvent::Replied(reply) => {
                let mut kept: Option<CallFacts> = None;
                std::mem::swap(&mut kept, &mut self.facts);
                let mut phase = BatchPhase::Over;
                std::mem::swap(&mut phase, &mut self.phase);
                match (kept, phase) {
                    (Some(facts), BatchPhase::Permission(action)) => {
                        let clearance = clear_call(
                            Decision::Ask,
                            facts.inner.as_str(),
                            facts.glob.as_str(),
                            Some(reply),
                        );
                        self.settle(messages, action, clearance)
                    },
                    _ => quietly(BatchAction::Finish),
                }
            },
            BatchEvent::Places(places) => self.locate(messages, places),
            BatchEvent::Ran { results, note_tests, checks } => {
                let mut phase = BatchPhase::Over;
                std::mem::swap(&mut phase, &mut self.phase);
                finish_batch(messages, results, note_tests, None);
                self.facts = None;
                self.approved = Vec::new();
                assert(tool_calls(self.approved@) =~= Seq::empty());
                match phase {
                    BatchPhase::Results(edited) => {
                        if edited.len() > 0 && checks {
                            self.phase = BatchPhase::Checks;
                            return quietly(BatchAction::Check(edited));
                        }
                        quietly(BatchAction::Finish)
                    },
                    _ => quietly(BatchAction::Finish),
                }
            },
            BatchEvent::Checked(report) => {
                if let Some(t) = &report {
                    append_note(messages, t.as_str());
                }
                self.facts = None;
                self.phase = BatchPhase::Over;
                quietly(BatchAction::Finish)
            },
        }
    }
}

// ------------------------------------------------------------ laws

proof fn lemma_told_push(msgs: Seq<MessageV>, m: MessageV)
    ensures
        told(msgs.push(m)) == told(msgs).insert(answered_id(m)),
{
    broadcast use vstd::seq_lib::group_to_multiset_ensures;

    let f = |m: MessageV| answered_id(m);
    assert(msgs.push(m).map_values(f) =~= msgs.map_values(f).push(answered_id(m)));
}

proof fn lemma_told_add(msgs: Seq<MessageV>, more: Seq<MessageV>)
    ensures
        told(msgs + more) == told(msgs).add(told(more)),
{
    let f = |m: MessageV| answered_id(m);
    assert((msgs + more).map_values(f) =~= msgs.map_values(f) + more.map_values(f));
    vstd::seq_lib::lemma_multiset_commutative(msgs.map_values(f), more.map_values(f));
}

proof fn lemma_told_note(msgs: Seq<MessageV>, note: Seq<char>)
    ensures
        told(with_note(msgs, note)) == told(msgs),
        with_note(msgs, note).len() == msgs.len(),
        msgs.len() > 0 ==> with_note(msgs, note).drop_last() == msgs.drop_last(),
{
    let f = |m: MessageV| answered_id(m);
    assert(with_note(msgs, note).map_values(f) =~= msgs.map_values(f));
    if msgs.len() > 0 {
        assert(with_note(msgs, note).drop_last() =~= msgs.drop_last());
    }
}

proof fn lemma_owed_push(calls: Seq<ToolCallV>, c: ToolCallV)
    ensures
        owed(calls.push(c)) == owed(calls).insert(Some(c.id)),
{
    broadcast use vstd::seq_lib::group_to_multiset_ensures;

    let f = |c: ToolCallV| Some(c.id);
    assert(calls.push(c).map_values(f) =~= calls.map_values(f).push(Some(c.id)));
}

proof fn lemma_owed_first(calls: Seq<ToolCallV>)
    requires
        calls.len() > 0,
    ensures
        owed(calls) == owed(calls.drop_first()).insert(Some(calls[0].id)),
{
    broadcast use {
        vstd::seq_lib::group_to_multiset_ensures,
        vstd::multiset::group_multiset_axioms,
    };

    let f = |c: ToolCallV| Some(c.id);
    let ids = calls.map_values(f);
    assert(calls.drop_first().map_values(f) =~= ids.remove(0));
    assert(ids.contains(ids[0]));
    assert(ids.to_multiset().count(ids[0]) > 0);
    assert(ids.to_multiset() =~= ids.remove(0).to_multiset().insert(ids[0]));
}

proof fn lemma_owed_none()
    ensures
        owed(Seq::empty()) == Multiset::<Option<Seq<char>>>::empty(),
{
    broadcast use {
        vstd::seq_lib::group_to_multiset_ensures,
        vstd::multiset::group_multiset_axioms,
    };

    let f = |c: ToolCallV| Some(c.id);
    assert(Seq::<ToolCallV>::empty().map_values(f) =~= Seq::empty());
    assert(Seq::<Option<Seq<char>>>::empty().to_multiset() =~= Multiset::empty());
}

/// What a batch owes an answer, with what the transcript has answered.
pub open spec fn accounts(b: BatchV, msgs: Seq<MessageV>) -> Multiset<Option<Seq<char>>> {
    told(msgs).add(owed(b.waiting)).add(owed(b.approved))
}

/// No step of a batch loses a call or answers one twice: the ids of the calls that
/// are still owed a result, together with those that the transcript holds a result
/// of, stay the same.
pub proof fn law_no_call_is_answered_twice(b: BatchV, msgs: Seq<MessageV>, ev: BatchEvent)
    requires
        in_order(b),
        expects(b, ev),
    ensures
        ({
            let s = batch_step(b, msgs, ev);
            accounts(s.batch, s.msgs) == accounts(b, msgs)
        }),
{
    broadcast use vstd::multiset::group_multiset_axioms;

    let s = batch_step(b, msgs, ev);
    lemma_owed_none();
    match ev {
        BatchEvent::Places(_) => {
            assert(b.waiting =~= Seq::empty());
        },
        BatchEvent::Ran { results, .. } => {
            assert(b.waiting =~= Seq::empty());
            let rs = transcript(results@);
            lemma_told_add(msgs, rs);
            lemma_told_note(msgs + rs, TEST_EDIT_NOTE@);
            assert(accounts(s.batch, s.msgs) =~= accounts(b, msgs));
        },
        BatchEvent::Checked(report) => {
            if let Some(t) = report {
                lemma_told_note(msgs, t@);
            }
        },
        _ => {
            let first = b.waiting[0];
            lemma_owed_first(b.waiting);
            if s.batch.waiting == b.waiting {
                assert(s.msgs == msgs && s.batch.approved == b.approved);
            } else {
                assert(s.batch.waiting == b.waiting.drop_first());
                if s.msgs == msgs {
                    let c = s.batch.approved.last();
                    assert(s.batch.approved == b.approved.push(c) && c.id == first.id);
                    lemma_owed_push(b.approved, c);
                } else {
                    let m = s.msgs.last();
                    assert(s.msgs == msgs.push(m) && answered_id(m) == Some(first.id));
                    lemma_told_push(msgs, m);
                }
                assert(accounts(s.batch, s.msgs) =~= accounts(b, msgs));
            }
        },
    }
}

/// The batch and the transcript after some events.
pub open spec fn after_events(b: BatchV, msgs: Seq<MessageV>, evs: Seq<BatchEvent>) -> (
    BatchV,
    Seq<MessageV>,
)
    decreases evs.len(),
{
    if evs.len() == 0 {
        (b, msgs)
    } else {
        let (c, ms) = after_events(b, msgs, evs.drop_last());
        let s = batch_step(c, ms, evs.last());
        (s.batch, s.msgs)
    }
}

/// Each of the events is one that the batch waits for when it comes.
pub open spec fn all_expected(b: BatchV, msgs: Seq<MessageV>, evs: Seq<BatchEvent>) -> bool
    decreases evs.len(),
{
    evs.len() > 0 ==> all_expected(b, msgs, evs.drop_last()) && expects(
        after_events(b, msgs, evs.drop_last()).0,
        evs.last(),
    )
}

/// A batch of these calls, before anything has happened to it.
pub open spec fn fresh(calls: Seq<ToolCallV>) -> BatchV {
    BatchV {
        waiting: calls,
        approved: Seq::empty(),
        facts: None,
        phase: turned(calls, Seq::empty()).0,
    }
}

proof fn lemma_batch_so_far(calls: Seq<ToolCallV>, msgs: Seq<MessageV>, evs: Seq<BatchEvent>)
    requires
        all_expected(fresh(calls), msgs, evs),
    ensures
        ({
            let (b, ms) = after_events(fresh(calls), msgs, evs);
            &&& in_order(b)
            &&& accounts(b, ms) == told(msgs).add(owed(calls))
            &&& ms.len() >= msgs.len() && ms.take(msgs.len() as int) == msgs
            &&& ms.len() + b.waiting.len() + b.approved.len() == msgs.len() + calls.len()
            &&& b.phase is Checks ==> ms.len() > msgs.len()
        }),
    decreases evs.len(),
{
    broadcast use vstd::multiset::group_multiset_axioms;

    lemma_owed_none();
    if evs.len() == 0 {
        assert(msgs.take(msgs.len() as int) =~= msgs);
        assert(accounts(fresh(calls), msgs) =~= told(msgs).add(owed(calls)));
    } else {
        lemma_batch_so_far(calls, msgs, evs.drop_last());
        let (b, ms) = after_events(fresh(calls), msgs, evs.drop_last());
        let ev = evs.last();
        let s = batch_step(b, ms, ev);
        law_no_call_is_answered_twice(b, ms, ev);
        let n = msgs.len() as int;
        match ev {
            BatchEvent::Places(_) => {},
            BatchEvent::Ran { results, .. } => {
                let rs = transcript(results@);
                let all = ms + rs;
                lemma_told_note(all, TEST_EDIT_NOTE@);
                lemma_same_number(rs, b.approved);
                assert(all.drop_last().take(n) =~= ms.take(n));
                assert(s.msgs.take(n) =~= s.msgs.drop_last().take(n));
            },
            BatchEvent::Checked(report) => {
                if let Some(t) = report {
                    lemma_told_note(ms, t@);
                    assert(s.msgs.take(n) =~= s.msgs.drop_last().take(n));
                    assert(ms.take(n) =~= ms.drop_last().take(n));
                }
            },
            _ => {
                if s.msgs != ms {
                    assert(s.msgs.take(n) =~= ms.take(n));
                }
            },
        }
    }
}

proof fn lemma_same_number(results: Seq<MessageV>, calls: Seq<ToolCallV>)
    requires
        told(results) == owed(calls),
    ensures
        results.len() == calls.len(),
{
    broadcast use vstd::seq_lib::group_to_multiset_ensures;

    let ids = results.map_values(|m: MessageV| answered_id(m));
    let wanted = calls.map_values(|c: ToolCallV| Some(c.id));
    assert(ids.to_multiset().len() == ids.len());
    assert(wanted.to_multiset().len() == wanted.len());
}

/// A batch that is complete has answered every call exactly once, whether it ran,
/// was asked, was answered by a hook or was blocked: the transcript is what it was,
/// with as many messages behind it as there were calls, and these are one result
/// for each of the calls.
pub proof fn law_every_call_is_answered_once(
    calls: Seq<ToolCallV>,
    msgs: Seq<MessageV>,
    evs: Seq<BatchEvent>,
)
    requires
        all_expected(fresh(calls), msgs, evs),
        after_events(fresh(calls), msgs, evs).0.phase is Over,
    ensures
        ({
            let after = after_events(fresh(calls), msgs, evs).1;
            &&& after.len() == msgs.len() + calls.len()
            &&& after.take(msgs.len() as int) == msgs
            &&& told(after.skip(msgs.len() as int)) == owed(calls)
        }),
{
    broadcast use vstd::multiset::group_multiset_axioms;

    lemma_batch_so_far(calls, msgs, evs);
    let (b, after) = after_events(fresh(calls), msgs, evs);
    let n = msgs.len() as int;
    assert(b.waiting =~= Seq::empty() && b.approved =~= Seq::empty());
    lemma_owed_none();
    assert(after =~= msgs + after.skip(n));
    lemma_told_add(msgs, after.skip(n));
    assert forall|id: Option<Seq<char>>|
        told(after.skip(n)).count(id) == #[trigger] owed(calls).count(id) by {
        assert(accounts(b, after).count(id) == told(msgs).add(owed(calls)).count(id));
    }
    assert(told(after.skip(n)) =~= owed(calls));
}

/// At most one call is approved at a time, and it is the one that was being
/// screened: it keeps its name and its identity.
pub proof fn law_only_the_screened_call_is_approved(
    b: BatchV,
    msgs: Seq<MessageV>,
    ev: BatchEvent,
)
    requires
        in_order(b),
        expects(b, ev),
        b.waiting.len() > 0,
    ensures
        ({
            let after = batch_step(b, msgs, ev).batch.approved;
            after == b.approved || (after.len() == b.approved.len() + 1 && after.drop_last()
                == b.approved && after.last().id == b.waiting[0].id && after.last().name
                == b.waiting[0].name)
        }),
{
    let after = batch_step(b, msgs, ev).batch.approved;
    if after.len() == b.approved.len() + 1 {
        assert(after.drop_last() =~= b.approved);
    }
}

/// In a review-only run no call that would modify a file is approved, nor put
/// before the user: it is answered at once.
pub proof fn law_review_only_approves_no_write(b: BatchV, msgs: Seq<MessageV>, f: CallFacts)
    requires
        b.waiting.len() > 0,
        f.gate.review_only,
        f.gate.mutation_target is Some,
        b.waiting[0].name != "ask_user"@,
    ensures
        looked(b, msgs, f).batch.approved == b.approved,
        looked(b, msgs, f).batch.waiting == b.waiting.drop_first(),
        looked(b, msgs, f).msgs.len() == msgs.len() + 1,
{
}

/// Where nobody can be asked, a call that the rules would ask about is not
/// approved.
pub proof fn law_unattended_asks_are_not_approved(
    b: BatchV,
    msgs: Seq<MessageV>,
    f: CallFacts,
    action: PreActionV,
)
    requires
        b.waiting.len() > 0,
        !f.attended,
    ensures
        gated(b, msgs, f, GateV::Decided(DecisionV::Ask, action)).batch.approved == b.approved,
        gated(b, msgs, f, GateV::Decided(DecisionV::Ask, action)).msgs.len() == msgs.len() + 1,
{
}

/// A rule is kept only on the user's word.
pub proof fn law_rules_come_from_the_user(b: BatchV, msgs: Seq<MessageV>, ev: BatchEvent)
    requires
        in_order(b),
        expects(b, ev),
        batch_step(b, msgs, ev).rule is Some,
    ensures
        ev matches BatchEvent::Replied(reply) && reply.index == Some(1usize),
{
}

/// Nothing runs before every call is screened.
pub proof fn law_nothing_runs_before_all_is_screened(
    b: BatchV,
    msgs: Seq<MessageV>,
    ev: BatchEvent,
)
    requires
        in_order(b),
        expects(b, ev),
        batch_step(b, msgs, ev).action is Run,
    ensures
        b.waiting.len() == 0,
        b.phase is Places,
{
}

/// Every file that an approved call modifies is checked, in the order of the calls,
/// and no other.
pub proof fn law_modified_files_are_checked(paths: Seq<Option<Seq<char>>>, p: Seq<char>)
    ensures
        edited_files(paths).contains(p) <==> paths.contains(Some(p)),
        edited_files(paths).len() <= paths.len(),
        (forall|i: int| 0 <= i < paths.len() ==> (#[trigger] paths[i]) is Some) ==> edited_files(
            paths,
        ) == paths.map_values(|x: Option<Seq<char>>| x->0),
    decreases paths.len(),
{
    let plain = paths.map_values(|x: Option<Seq<char>>| x->0);
    if paths.len() > 0 {
        let front = paths.drop_last();
        let (before, after) = (edited_files(front), edited_files(paths));
        law_modified_files_are_checked(front, p);
        if after.contains(p) {
            let k = choose|k: int| 0 <= k < after.len() && after[k] == p;
            if k < before.len() {
                assert(before[k] == p);
                let j = choose|j: int| 0 <= j < front.len() && front[j] == Some(p);
                assert(paths[j] == Some(p));
            } else {
                assert(paths[paths.len() - 1] == Some(p));
            }
        }
        if paths.contains(Some(p)) {
            let j = choose|j: int| 0 <= j < paths.len() && paths[j] == Some(p);
            if j < front.len() {
                assert(front[j] == Some(p));
                let k = choose|k: int| 0 <= k < before.len() && before[k] == p;
                assert(after[k] == p);
            } else {
                assert(after[after.len() - 1] == p);
            }
        }
        if forall|i: int| 0 <= i < paths.len() ==> (#[trigger] paths[i]) is Some {
            assert forall|i: int| 0 <= i < front.len() implies (#[trigger] front[i]) is Some by {
                assert(front[i] == paths[i]);
            }
            assert(paths[paths.len() - 1] is Some);
            assert(plain =~= front.map_values(|x: Option<Seq<char>>| x->0).push(paths.last()->0));
        }
    } else {
        assert(edited_files(paths) =~= plain);
    }
}

/// A call that the rules allow is approved as the model wrote it, and nothing is said
/// of it yet.
pub proof fn law_allowed_calls_are_approved(b: BatchV, msgs: Seq<MessageV>, f: CallFacts)
    requires
        b.waiting.len() > 0,
    ensures
        ({
            let s = gated(b, msgs, f, GateV::Decided(DecisionV::Allow, PreActionV::AsIs));
            &&& s.batch.approved == b.approved.push(b.waiting[0])
            &&& s.batch.waiting == b.waiting.drop_first()
            &&& s.msgs == msgs
            &&& s.events.len() == 0
            &&& s.rule is None
        }),
{
}

/// The user's word on a call is carried out: allowed once or always, it is approved
/// as it was written, and the rule is kept where they said always; else it is
/// answered, under its id, as an error.
pub proof fn law_users_word_is_carried_out(b: BatchV, msgs: Seq<MessageV>, reply: PromptReply)
    requires
        in_order(b),
        b.phase == BatchPhaseV::Permission(PreActionV::AsIs),
    ensures
        ({
            let s = batch_step(b, msgs, BatchEvent::Replied(reply));
            let last = s.msgs.last();
            &&& reply.index == Some(0usize) || reply.index == Some(1usize) ==> s.batch.approved
                == b.approved.push(b.waiting[0]) && s.msgs == msgs
            &&& reply.index == Some(0usize) ==> s.rule is None
            &&& reply.index == Some(1usize) && reply.text is None ==> s.rule == Some(
                b.facts->0.glob@,
            )
            &&& reply.index != Some(0usize) && reply.index != Some(1usize) ==> {
                &&& s.batch.approved == b.approved
                &&& s.msgs.len() == msgs.len() + 1
                &&& s.msgs.drop_last() == msgs
                &&& answered_id(last) == Some(b.waiting[0].id)
                &&& last.content[0]->is_error
            }
        }),
{
    let s = batch_step(b, msgs, BatchEvent::Replied(reply));
    if reply.index != Some(0usize) && reply.index != Some(1usize) {
        assert(s.msgs.drop_last() =~= msgs);
    }
}

/// The answer to the model's own question is its result, word for word.
pub proof fn law_answers_reach_the_model(
    b: BatchV,
    msgs: Seq<MessageV>,
    text: String,
    is_error: bool,
)
    requires
        b.waiting.len() > 0,
    ensures
        ({
            let s = batch_step(b, msgs, BatchEvent::Answered { text, is_error });
            let block = s.msgs.last().content[0];
            &&& s.msgs.len() == msgs.len() + 1
            &&& s.msgs.drop_last() == msgs
            &&& s.batch.approved == b.approved
            &&& answered_id(s.msgs.last()) == Some(b.waiting[0].id)
            &&& block->ToolResult_content == text@
            &&& block->is_error == is_error
        }),
{
    let s = batch_step(b, msgs, BatchEvent::Answered { text, is_error });
    assert(s.msgs.drop_last() =~= msgs);
}

/// All that was approved is run, in lanes, and the files that it modifies are
/// remembered for the checks; the workspace is saved before exactly where something
/// can change it, under what the user asked for last.
pub proof fn law_approved_calls_are_run(b: BatchV, msgs: Seq<MessageV>, places: Seq<Place>, i: int)
    requires
        places.len() == b.approved.len(),
        0 <= i < places.len(),
    ensures
        ({
            let s = located(b, msgs, places);
            &&& s.action is Run
            &&& exists|k: int|
                0 <= k < s.action->lanes.len() && (#[trigger] s.action->lanes[k]).contains(
                    b.approved[i],
                )
            &&& places[i].path matches Some(p) ==> s.batch.phase->Results_0.contains(p@)
            &&& places[i].path is Some ==> s.action->label == Some(last_prompt(msgs))
            &&& b.approved[i].name == "bash"@ && !places[i].read_only ==> s.action->label == Some(
                last_prompt(msgs),
            )
            &&& (forall|k: int|
                0 <= k < places.len() ==> (#[trigger] places[k]).path is None && (places[k].read_only
                    || b.approved[k].name != "bash"@)) ==> s.action->label is None
            &&& s.msgs == msgs
        }),
{
    let s = located(b, msgs, places);
    let paths = place_paths(places);
    let n = paths.len() as int;
    law_every_call_is_in_its_lane(b.approved, paths, n, i);
    let k = lane_of(paths, i);
    assert(s.action->lanes[k].contains(b.approved[i]));
    assert(paths[i] == text_view(places[i].path));
    if let Some(p) = places[i].path {
        law_modified_files_are_checked(paths, p@);
        assert(paths[i] == Some(p@));
    }
    if mutates(places[i].path is Some, b.approved[i].name, places[i].read_only) {
        assert(some_mutates(b.approved, places));
    }
    if forall|k: int|
        0 <= k < places.len() ==> (#[trigger] places[k]).path is None && (places[k].read_only
            || b.approved[k].name != "bash"@) {
        if some_mutates(b.approved, places) {
            let j = choose|j: int|
                0 <= j < b.approved.len() && mutates(
                    places[j].path is Some,
                    (#[trigger] b.approved[j]).name,
                    places[j].read_only,
                );
            assert(places[j].path is None);
        }
    }
}

/// What the checks report is told to the model at the end of the last result, and
/// modified files are checked wherever there are checks.
pub proof fn law_checks_are_run_and_told(
    b: BatchV,
    msgs: Seq<MessageV>,
    edited: Seq<Seq<char>>,
    results: Seq<MessageV>,
    note_tests: bool,
    report: String,
)
    ensures
        edited.len() > 0 ==> ran(b, msgs, edited, results, note_tests, true).action
            == BatchActionV::Check(edited),
        edited.len() == 0 ==> ran(b, msgs, edited, results, note_tests, true).action
            == BatchActionV::Finish,
        batch_step(b, msgs, BatchEvent::Checked(None)).msgs == msgs,
        batch_step(b, msgs, BatchEvent::Checked(Some(report))).msgs == with_note(msgs, report@),
{
}

} // verus!
