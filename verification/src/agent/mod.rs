//! The agent: what it asks of the user, what a turn of the model gives, and the
//! policy, compaction and bookkeeping around its turns.
use vstd::prelude::*;
use crate::agent::compact::{
    accept_summary, opens_on_summary, record_touched, request_messages, summary_pair,
    summary_refused, summary_request, touched, touched_files, CompactError, CompactionPlan,
    DEFAULT_CONTEXT_WINDOW,
};
use crate::agent::lanes::targets;
use crate::agent::tokens::{estimate_context_tokens, estimated_tokens, held};
use crate::checks::{text_view, Hooks};
use crate::paths::{in_dir, join_path};
use crate::text::{
    ascending, decimal, law_numbers_are_read_back, parse_number, parsed_number, texts, trim, trimmed,
};
use crate::types::{transcript, AgentEvent, AgentState, Message, TokenUsage};

pub mod answer;
pub mod ask;
pub mod batch;
pub mod compact;
pub mod grounding;
pub mod lanes;
pub mod machine;
pub mod policy;
pub mod prepass;
pub mod run;
pub mod tokens;
pub mod tools;
pub mod turn;

verus! {

/// A decision asked of the user: whether a tool call may run, or a question
/// that the model raised.
#[derive(Debug)]
pub struct Prompt {
    /// The title of the dialog, or the question.
    pub title: String,
    /// What is to be run, or the context of the question.
    pub detail: Option<String>,
    /// The options, in the order in which they are shown.
    pub options: Vec<String>,
    /// Whether the user may type an answer of their own.
    pub allow_free_text: bool,
    pub kind: PromptKind,
}

/// What a [`Prompt`] decides.
#[derive(Debug)]
pub enum PromptKind {
    /// A tool call. The glob is the rule that "always" would add.
    Permission { suggested_glob: String },
    /// A question of the model.
    Question,
    /// Several questions, answered together.
    QuestionRound { questions: Vec<PromptQuestion> },
}

/// One question of a round.
#[derive(Debug)]
pub struct PromptQuestion {
    pub id: String,
    pub title: String,
    pub detail: Option<String>,
    pub options: Vec<String>,
    pub allow_free_text: bool,
}

/// The answer to one question of a round.
#[derive(Debug)]
pub struct PromptAnswer {
    pub index: Option<usize>,
    pub text: Option<String>,
}

/// The user's answer to a [`Prompt`].
#[derive(Debug)]
pub struct PromptReply {
    /// The option chosen; `None` where only text was given.
    pub index: Option<usize>,
    /// The text typed: an answer, feedback to a denial, or an edited rule.
    pub text: Option<String>,
    /// The answers to a round, in the order of its questions.
    pub answers: Vec<PromptAnswer>,
}

/// What a turn of the model gave.
#[derive(Debug)]
pub struct TurnResult {
    pub assistant_message: Message,
    pub state: AgentState,
    /// The tokens that the provider counted; zero where it counted none.
    pub usage: TokenUsage,
    /// The rule that cut the stream short, if one did.
    pub tripped_rule: Option<String>,
}

/// What a request weighed when the provider counted it, and how long the
/// transcript was then.
#[derive(Clone, Copy, Debug, PartialEq, Eq, Structural)]
pub struct RequestAnchor {
    /// Tokens of the whole request, as the provider counted them.
    pub input_tokens: usize,
    /// Messages in the transcript when the request was sent.
    pub messages_len: usize,
}

/// A conversation with the agent: its transcript, its limits, and what is kept
/// along with it.
#[derive(Debug)]
pub struct AgentContext {
    pub model: String,
    pub system_prompt: Option<String>,
    pub messages: Vec<Message>,
    /// The tokens that fit one request; `None` where that is not known.
    pub context_window: Option<usize>,
    /// How many recent messages compaction keeps.
    pub compaction_keep_recent: Option<usize>,
    pub hooks: Hooks,
    /// How many turns a run may take; `None` for any number.
    pub max_steps: Option<usize>,
    /// How many tokens may be spent; `None` for any number.
    pub spend_cap: Option<u64>,
    /// The tokens spent, counted where there is a cap.
    pub tokens_spent: u64,
    /// The files that compacted calls modified.
    pub compacted_files: Vec<String>,
    /// The size of the last request, as the provider counted it.
    pub last_request: Option<RequestAnchor>,
}

impl AgentContext {
    /// Asks for a summary of the region `plan`: records the files of the workspace
    /// that its calls modify, and builds the request. `paths` tells which file each
    /// of these calls modifies, and `home` where the trust root lies.
    pub fn ask_for_summary(
        &mut self,
        plan: CompactionPlan,
        paths: &Vec<Option<String>>,
        home: Option<&str>,
        verbatim: bool,
    ) -> (r: Vec<Message>)
        requires
            plan.start < plan.end <= old(self).messages@.len(),
            plan.prior_summary == opens_on_summary(transcript(old(self).messages@)),
        ensures
            ({
                let root = match home {
                    Some(h) => Some(in_dir(h@, ".sirbone"@)),
                    None => None,
                };
                let files = texts(final(self).compacted_files@);
                &&& ascending(files)
                &&& forall|x: Seq<char>|
                    #[trigger] files.contains(x) <==> (texts(old(self).compacted_files@).contains(x)
                        || touched_files(targets(paths@), root).contains(x))
                &&& transcript(r@) == request_messages(
                    transcript(old(self).messages@),
                    plan,
                    verbatim,
                    text_view(old(self).system_prompt),
                    files,
                )
            }),
            *final(self) == (AgentContext {
                compacted_files: final(self).compacted_files,
                ..*old(self)
            }),
    {
        let files = match home {
            Some(h) => {
                let root = join_path(h, ".sirbone");
                touched(paths, Some(root.as_str()))
            },
            None => touched(paths, None),
        };
        record_touched(&mut self.compacted_files, &files);
        summary_request(
            &self.messages,
            plan,
            verbatim,
            &self.system_prompt,
            &self.compacted_files,
        )
    }

    /// Puts a summary in the place of the compacted messages, and reports the
    /// new transcript and its size. The count of the last request and what the
    /// checks reported refer to messages that are gone, and are forgotten. A
    /// summary that is refused changes nothing.
    pub fn apply_summary(&mut self, plan: CompactionPlan, summary: &str) -> (r: Result<
        Vec<AgentEvent>,
        CompactError,
    >)
        requires
            plan.start < plan.end <= old(self).messages@.len(),
        ensures
            match summary_refused(transcript(old(self).messages@), plan, summary@) {
                Some(e) => r == Err::<Vec<AgentEvent>, CompactError>(e) && *final(self) == *old(
                    self,
                ),
                None => {
                    let kept = summary_pair(plan.end as nat, summary@) + transcript(
                        old(self).messages@,
                    ).skip(plan.end as int);
                    &&& transcript(final(self).messages@) == kept
                    &&& *final(self) == (AgentContext {
                        messages: final(self).messages,
                        last_request: None,
                        hooks: Hooks { post: final(self).hooks.post, ..old(self).hooks },
                        ..*old(self)
                    })
                    &&& forall|cmd: Seq<char>|
                        #[trigger] final(self).hooks.post.ledger.known(cmd) == Set::<
                            Seq<char>,
                        >::empty()
                    &&& r matches Ok(events) && events@.len() == 2 && (events@[0] matches
                        AgentEvent::Compacted { messages } && transcript(messages@) == kept) && (
                    events@[1] matches AgentEvent::ContextUsage {
                        used_tokens,
                        context_window,
                        cached_tokens,
                        output_tokens,
                    } && used_tokens == held(estimated_tokens(kept)) as u32 && context_window
                        == old(self).context_window.unwrap_or(DEFAULT_CONTEXT_WINDOW) as u32
                        && cached_tokens == 0 && output_tokens == 0)
                },
            },
            final(self).hooks.post@ == old(self).hooks.post@,
    {
        match accept_summary(&mut self.messages, plan, summary) {
            Err(e) => Err(e),
            Ok(()) => {
                self.last_request = None;
                self.hooks.post.forget_reported();
                let mut copy: Vec<Message> = Vec::new();
                let mut i: usize = 0;
                while i < self.messages.len()
                    invariant
                        i <= self.messages@.len(),
                        copy@.len() == i,
                        forall|k: int| 0 <= k < i ==> (#[trigger] copy@[k])@ == self.messages@[k]@,
                    decreases self.messages@.len() - i,
                {
                    copy.push(self.messages[i].clone());
                    i += 1;
                }
                assert(transcript(copy@) =~= transcript(self.messages@));
                let window: usize = self.context_window.unwrap_or(DEFAULT_CONTEXT_WINDOW);
                let used: usize = estimate_context_tokens(&self.messages);
                let mut events: Vec<AgentEvent> = Vec::new();
                events.push(AgentEvent::Compacted { messages: copy });
                events.push(
                    AgentEvent::ContextUsage {
                        used_tokens: #[verifier::truncate] (used as u32),
                        context_window: #[verifier::truncate] (window as u32),
                        cached_tokens: 0,
                        output_tokens: 0,
                    },
                );
                Ok(events)
            },
        }
    }
}

/// The cap on turns that a setting asks for; anything but a number asks for
/// none.
pub open spec fn asked_steps(setting: Option<Seq<char>>) -> Option<nat> {
    match setting {
        Some(t) => parsed_number(trimmed(t), usize::MAX as nat),
        None => None,
    }
}

/// Reads the cap on turns from the value of `SIRBONE_MAX_STEPS`.
pub fn env_max_steps(setting: Option<&str>) -> (r: Option<usize>)
    ensures
        match r {
            Some(n) => setting is Some && asked_steps(Some(setting->0@)) == Some(n as nat),
            None => setting is None || asked_steps(Some(setting->0@)) is None,
        },
{
    match setting {
        Some(t) => match parse_number(trim(t).as_str(), usize::MAX as u64) {
            Some(n) => Some(n as usize),
            None => None,
        },
        None => None,
    }
}

/// The cap on turns is the number that is written; anything else asks for none.
pub proof fn law_cap_on_turns_is_as_written(t: Seq<char>, n: nat)
    requires
        trimmed(t) == decimal(n),
        n <= usize::MAX,
    ensures
        asked_steps(Some(t)) == Some(n),
        asked_steps(None) is None,
{
    law_numbers_are_read_back(n, n, usize::MAX as nat);
}

} // verus!
