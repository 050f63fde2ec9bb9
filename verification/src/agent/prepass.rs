//! A pass before the run that only reads: so many turns and batches of tool
//! calls, and what the model said last is its report.
use vstd::prelude::*;
use crate::agent::turn::{last_report, last_said, LOCALIZE_SYSTEM};
use crate::agent::AgentContext;
use crate::checks::{text_view, Hooks};
use crate::types::{
    text_message, tool_calls, transcript, AgentState, AgentStateV, Message, Role, ToolCall,
    ToolCallV,
};

verus! {

/// A pass that only reads: its own conversation, and how many steps are left.
#[derive(Debug)]
pub struct Prepass {
    pub ctx: AgentContext,
    pub left: usize,
}

/// What a pass wants done.
#[derive(Debug)]
pub enum PrepassAction {
    TakeTurn,
    RunTools(Vec<ToolCall>),
    /// The pass is over, and this is its report, if it has one.
    Report(Option<String>),
}

/// What a [`PrepassAction`] stands for.
pub enum PrepassActionV {
    TakeTurn,
    RunTools(Seq<ToolCallV>),
    Report(Option<Seq<char>>),
}

impl View for PrepassAction {
    type V = PrepassActionV;

    open spec fn view(&self) -> PrepassActionV {
        match self {
            PrepassAction::TakeTurn => PrepassActionV::TakeTurn,
            PrepassAction::RunTools(calls) => PrepassActionV::RunTools(tool_calls(calls@)),
            PrepassAction::Report(t) => PrepassActionV::Report(text_view(*t)),
        }
    }
}

/// What a pass does in `state` with `left` steps left; `said` is what the model
/// said last.
pub open spec fn prepass_step(left: nat, state: AgentStateV, said: Option<Seq<char>>) -> (
    nat,
    PrepassActionV,
) {
    if left == 0 {
        (0, PrepassActionV::Report(said))
    } else {
        match state {
            AgentStateV::Done => (left, PrepassActionV::Report(said)),
            AgentStateV::Idle => ((left - 1) as nat, PrepassActionV::TakeTurn),
            AgentStateV::ToolCalling(calls) => (
                (left - 1) as nat,
                PrepassActionV::RunTools(calls),
            ),
        }
    }
}

/// No limit, no hook and nothing of another run applies to the conversation.
pub open spec fn stands_alone(c: AgentContext) -> bool {
    &&& c.context_window is None
    &&& c.compaction_keep_recent is None
    &&& c.max_steps is None
    &&& c.spend_cap is None
    &&& c.tokens_spent == 0
    &&& c.compacted_files@.len() == 0
    &&& c.last_request is None
    &&& c.hooks.presets@.len() == 0
    &&& c.hooks.unknown_presets@.len() == 0
    &&& c.hooks.pre@.len() == 0
    &&& c.hooks.post@.len() == 0
    &&& c.hooks.tusk@.len() == 0
    &&& c.hooks.stop@.len() == 0
    &&& forall|cmd: Seq<char>| #[trigger]
        c.hooks.post.ledger.known(cmd) == Set::<Seq<char>>::empty()
}

impl Prepass {
    /// A pass on `task` under the prompt `system`, with at most `max_turns` steps.
    /// No limit, no hook and nothing of the run to come applies to it.
    pub fn new(model: &str, task: &str, system: &str, max_turns: usize) -> (p: Prepass)
        ensures
            p.left == max_turns,
            p.ctx.model@ == model@,
            text_view(p.ctx.system_prompt) == Some(system@),
            transcript(p.ctx.messages@) == seq![text_message(Role::User, task@, false)],
            stands_alone(p.ctx),
    {
        let mut messages: Vec<Message> = Vec::new();
        messages.push(Message::user(task.to_owned()));
        assert(transcript(messages@) =~= seq![text_message(Role::User, task@, false)]);
        let ctx = AgentContext {
            model: model.to_owned(),
            system_prompt: Some(system.to_owned()),
            messages,
            context_window: None,
            compaction_keep_recent: None,
            hooks: Hooks::none(),
            max_steps: None,
            spend_cap: None,
            tokens_spent: 0,
            compacted_files: Vec::new(),
            last_request: None,
        };
        Prepass { ctx, left: max_turns }
    }

    /// What is done next in `state`; see [`prepass_step`].
    pub fn next(&mut self, state: AgentState) -> (r: PrepassAction)
        ensures
            (final(self).left as nat, r@) == prepass_step(
                old(self).left as nat,
                state@,
                last_said(transcript(old(self).ctx.messages@)),
            ),
            final(self).ctx == old(self).ctx,
    {
        if self.left == 0 {
            return PrepassAction::Report(last_report(&self.ctx.messages));
        }
        match state {
            AgentState::Done => PrepassAction::Report(last_report(&self.ctx.messages)),
            AgentState::Idle => {
                self.left = self.left - 1;
                PrepassAction::TakeTurn
            },
            AgentState::ToolCalling(calls) => {
                self.left = self.left - 1;
                PrepassAction::RunTools(calls)
            },
        }
    }
}

/// The pass that finds where a change has to happen.
pub fn localize(model: &str, task: &str, max_turns: usize) -> (p: Prepass)
    ensures
        p.left == max_turns,
        p.ctx.model@ == model@,
        text_view(p.ctx.system_prompt) == Some(LOCALIZE_SYSTEM@),
        transcript(p.ctx.messages@) == seq![text_message(Role::User, task@, false)],
        stands_alone(p.ctx),
{
    Prepass::new(model, task, LOCALIZE_SYSTEM, max_turns)
}

/// A pass is bounded: every step but the report leaves one less.
pub proof fn law_a_pass_ends(left: nat, state: AgentStateV, said: Option<Seq<char>>)
    ensures
        ({
            let (after, action) = prepass_step(left, state, said);
            action is Report || after + 1 == left
        }),
        left == 0 ==> prepass_step(left, state, said).1 == PrepassActionV::Report(said),
{
}

/// A pass with steps left does what the model asks for, and reports when the model is
/// done or nothing is left; the report is what the model said last.
pub proof fn law_a_pass_follows_the_model(left: nat, calls: Seq<ToolCallV>, said: Option<Seq<char>>)
    requires
        left > 0,
    ensures
        prepass_step(left, AgentStateV::Idle, said).1 == PrepassActionV::TakeTurn,
        prepass_step(left, AgentStateV::ToolCalling(calls), said).1 == PrepassActionV::RunTools(
            calls,
        ),
        prepass_step(left, AgentStateV::Done, said).1 == PrepassActionV::Report(said),
        prepass_step(0, AgentStateV::Idle, said).1 == PrepassActionV::Report(said),
{
}

} // verus!
