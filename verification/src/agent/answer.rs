//! A turn from its start to its reply: the request, what it cost, the restarts
//! that rules on the stream force, and what the conversation keeps of it.
use vstd::prelude::*;
use crate::agent::machine::{no_events, note, talk, Talk};
use crate::agent::turn::{
    account_turn, after_stream, anchor_after, anchored, restarts, spent_after, turn_cost,
    turn_lead, turn_prefix, StreamStep,
};
use crate::agent::{AgentContext, TurnResult};
use crate::ai::assembly::TurnV;
use crate::ai::setting_view;
use crate::checks::text_view;
use crate::text::{holds, occurs_at, texts};
use crate::types::{
    event_views, text_message, transcript, AgentEvent, AgentState, AgentStateV, EventV, Message,
    MessageV, NoticeLevel, Role,
};

verus! {

/// A turn of the model: what stands before the transcript in its requests, and
/// the rules that have cut it short so far.
#[derive(Debug)]
pub struct Turn {
    pub lead: Vec<Message>,
    pub spent: Vec<String>,
}

/// What a [`Turn`] stands for.
pub struct OpenTurnV {
    pub lead: Seq<MessageV>,
    pub spent: Seq<Seq<char>>,
}

impl View for Turn {
    type V = OpenTurnV;

    open spec fn view(&self) -> OpenTurnV {
        OpenTurnV { lead: transcript(self.lead@), spent: texts(self.spent@) }
    }
}

/// What follows an answer of the model.
#[derive(Debug)]
pub enum TurnStep {
    /// A rule cut the answer short: the request is sent once more, with these
    /// rules put aside, or all of them.
    Again { put_aside: Vec<String>, put_all_aside: bool },
    /// The turn is over and left this state; rules that were put aside are put
    /// back.
    Done { state: AgentState, put_back: bool },
}

/// What a [`TurnStep`] stands for.
pub enum TurnStepV {
    Again { put_aside: Seq<Seq<char>>, put_all_aside: bool },
    Done { state: AgentStateV, put_back: bool },
}

impl View for TurnStep {
    type V = TurnStepV;

    open spec fn view(&self) -> TurnStepV {
        match self {
            TurnStep::Again { put_aside, put_all_aside } => TurnStepV::Again {
                put_aside: texts(put_aside@),
                put_all_aside: *put_all_aside,
            },
            TurnStep::Done { state, put_back } => TurnStepV::Done {
                state: state@,
                put_back: *put_back,
            },
        }
    }
}

/// The turn and the conversation after an answer, what is reported, and what
/// follows.
pub struct AnswerStep {
    pub turn: OpenTurnV,
    pub talk: Talk,
    pub events: Seq<EventV>,
    pub step: TurnStepV,
}

/// What is spent after an answer: an answer that was cut short is paid for too.
pub open spec fn paid(t: OpenTurnV, k: Talk, a: TurnV) -> nat {
    if k.cap is Some {
        spent_after(k.spent, turn_cost(a.usage, t.lead + k.msgs, a.message))
    } else {
        k.spent as nat
    }
}

/// The word to the model about a rule that cut its answer short.
pub open spec fn rule_reminder(name: Seq<char>, message: Option<Seq<char>>) -> MessageV {
    text_message(
        Role::User,
        "<system-reminder>\n"@ + (match message {
            Some(m) => m,
            None => name,
        }) + "\n</system-reminder>"@,
        true,
    )
}

/// What follows an answer of the model. `message` is what the rule that cut it
/// short has to say, and `max_trips` how often rules may do so in one turn.
pub open spec fn answered(
    t: OpenTurnV,
    k: Talk,
    a: TurnV,
    message: Option<Seq<char>>,
    max_trips: nat,
) -> AnswerStep {
    let k1 = Talk { spent: paid(t, k, a) as u64, ..k };
    let billed = if k.cap is Some {
        seq![EventV::SpendUsage { spent: k1.spent, cap: k.cap->0 }]
    } else {
        Seq::empty()
    };
    if restarts(t.spent.len(), a.tripped_rule is Some, max_trips) {
        let name = a.tripped_rule->0;
        let spent = t.spent.push(name);
        AnswerStep {
            turn: OpenTurnV { spent, ..t },
            talk: Talk { msgs: k.msgs.push(rule_reminder(name, message)), ..k1 },
            events: billed.push(
                note("stream rule `"@ + name + "` tripped — restarting the turn"@),
            ),
            step: TurnStepV::Again { put_aside: spent, put_all_aside: spent.len() >= max_trips },
        }
    } else {
        AnswerStep {
            turn: t,
            talk: Talk {
                msgs: k.msgs.push(a.message),
                anchor: anchored(a.usage, k.msgs.len() as usize, k.anchor),
                ..k1
            },
            events: billed,
            step: TurnStepV::Done { state: a.state, put_back: t.spent.len() > 0 },
        }
    }
}

/// Nothing but the transcript, the count of its last request and what is spent
/// differs.
pub open spec fn only_talk_differs(before: AgentContext, after: AgentContext) -> bool {
    after == (AgentContext {
        messages: after.messages,
        last_request: after.last_request,
        tokens_spent: after.tokens_spent,
        ..before
    })
}

impl Turn {
    /// Starts a turn: the system prompt and the notes will stand before the
    /// transcript.
    pub fn begin(ctx: &AgentContext, notes: &str, plan_mode: bool) -> (r: (Turn, AgentEvent))
        ensures
            r.0@ == (OpenTurnV {
                lead: turn_lead(text_view(ctx.system_prompt), notes@, plan_mode),
                spent: Seq::empty(),
            }),
            r.1 == AgentEvent::TurnStart,
    {
        let turn = Turn {
            lead: turn_prefix(&ctx.system_prompt, notes, plan_mode),
            spent: Vec::new(),
        };
        assert(texts(turn.spent@) =~= Seq::empty());
        (turn, AgentEvent::TurnStart)
    }

    /// The messages of a request.
    pub fn request(&self, messages: &Vec<Message>) -> (r: Vec<Message>)
        ensures
            transcript(r@) == self@.lead + transcript(messages@),
    {
        let ghost a = transcript(self.lead@);
        let ghost b = transcript(messages@);
        let mut r: Vec<Message> = Vec::new();
        let mut i: usize = 0;
        while i < self.lead.len()
            invariant
                i <= self.lead@.len(),
                a == transcript(self.lead@),
                r@.len() == i,
                forall|k: int| 0 <= k < i ==> (#[trigger] r@[k])@ == a[k],
            decreases self.lead@.len() - i,
        {
            assert(a[i as int] == self.lead@[i as int]@);
            r.push(self.lead[i].clone());
            i += 1;
        }
        let mut j: usize = 0;
        while j < messages.len()
            invariant
                j <= messages@.len(),
                a == transcript(self.lead@),
                b == transcript(messages@),
                r@.len() == a.len() + j,
                forall|k: int| 0 <= k < r@.len() ==> (#[trigger] r@[k])@ == (a + b)[k],
            decreases messages@.len() - j,
        {
            assert(b[j as int] == messages@[j as int]@);
            r.push(messages[j].clone());
            j += 1;
        }
        assert(transcript(r@) =~= a + b);
        r
    }

    /// Takes an answer of the model; see [`answered`].
    pub fn take_answer(
        &mut self,
        ctx: &mut AgentContext,
        result: TurnResult,
        message: Option<&str>,
        max_trips: usize,
    ) -> (r: (Vec<AgentEvent>, TurnStep))
        ensures
            ({
                let s = answered(
                    old(self)@,
                    talk(*old(ctx)),
                    result@,
                    setting_view(message),
                    max_trips as nat,
                );
                &&& final(self)@ == s.turn
                &&& talk(*final(ctx)) == s.talk
                &&& only_talk_differs(*old(ctx), *final(ctx))
                &&& event_views(r.0@) == s.events
                &&& r.1@ == s.step
            }),
    {
        let ghost k = talk(*ctx);
        let ghost t = self@;
        let ghost a = result@;
        let mut events = no_events();
        if let Some(cap) = ctx.spend_cap {
            let sent = self.request(&ctx.messages);
            let spent: u64 = account_turn(
                ctx.tokens_spent,
                Some(cap),
                result.usage,
                &sent,
                &result.assistant_message,
            );
            ctx.tokens_spent = spent;
            events.push(AgentEvent::SpendUsage { spent, cap });
            assert(event_views(events@) =~= seq![EventV::SpendUsage { spent, cap }]);
        }
        let ghost billed = event_views(events@);
        match after_stream(&mut self.spent, &result.tripped_rule, message, max_trips) {
            StreamStep::Restart { put_aside, put_all_aside, notice, reminder } => {
                let ghost n = notice@;
                let ghost m = reminder@;
                events.push(AgentEvent::Notice { text: notice, level: NoticeLevel::Info });
                assert(event_views(events@) =~= billed.push(note(n)));
                ctx.messages.push(reminder);
                assert(transcript(ctx.messages@) =~= k.msgs.push(m));
                (events, TurnStep::Again { put_aside, put_all_aside })
            },
            StreamStep::Take => {
                ctx.last_request = anchor_after(
                    result.usage,
                    ctx.messages.len(),
                    ctx.last_request,
                );
                ctx.messages.push(result.assistant_message);
                assert(transcript(ctx.messages@) =~= k.msgs.push(a.message));
                let put_back = self.spent.len() > 0;
                (events, TurnStep::Done { state: result.state, put_back })
            },
        }
    }
}

// ------------------------------------------------------------ laws

/// An answer adds exactly one message to the transcript: the reply, or the
/// reminder of the rule that cut it short; a partial reply never gets in.
pub proof fn law_an_answer_adds_one_message(
    t: OpenTurnV,
    k: Talk,
    a: TurnV,
    message: Option<Seq<char>>,
    max_trips: nat,
)
    ensures
        ({
            let s = answered(t, k, a, message, max_trips);
            &&& s.talk.msgs.drop_last() == k.msgs
            &&& s.step is Done ==> s.talk.msgs.last() == a.message
            &&& s.step is Again ==> s.talk.msgs.last() == rule_reminder(a.tripped_rule->0, message)
        }),
{
    let s = answered(t, k, a, message, max_trips);
    assert(s.talk.msgs.drop_last() =~= k.msgs);
}

/// A turn starts over at most so often: each restart puts one rule more aside,
/// and once `max_trips` have tripped the next answer is taken as it is.
pub proof fn law_a_turn_ends(
    t: OpenTurnV,
    k: Talk,
    a: TurnV,
    message: Option<Seq<char>>,
    max_trips: nat,
)
    ensures
        ({
            let s = answered(t, k, a, message, max_trips);
            &&& s.step is Again ==> s.turn.spent.len() == t.spent.len() + 1 <= max_trips
            &&& t.spent.len() >= max_trips ==> s.step is Done
            &&& a.tripped_rule is None ==> s.step is Done
        }),
{
}

/// Where there is a cap, every answer is paid for, also one that was cut short;
/// what is spent never goes down.
pub proof fn law_every_answer_is_paid_for(
    t: OpenTurnV,
    k: Talk,
    a: TurnV,
    message: Option<Seq<char>>,
    max_trips: nat,
)
    ensures
        answered(t, k, a, message, max_trips).talk.spent == paid(t, k, a),
        answered(t, k, a, message, max_trips).talk.spent >= k.spent,
{
}

/// The model is told the word of the rule that cut its answer short, or the name of the
/// rule where it has none; the user is told the name.
pub proof fn law_tripped_rules_are_told(
    t: OpenTurnV,
    k: Talk,
    a: TurnV,
    message: Option<Seq<char>>,
    max_trips: nat,
)
    requires
        a.tripped_rule is Some,
        t.spent.len() < max_trips,
    ensures
        ({
            let s = answered(t, k, a, message, max_trips);
            let b = s.talk.msgs.last().content;
            &&& s.step is Again
            &&& s.step->put_aside.contains(a.tripped_rule->0)
            &&& s.step->put_all_aside <==> t.spent.len() + 1 == max_trips
            &&& b.len() == 1
            &&& b[0] is Text
            &&& holds(
                b[0]->text,
                match message {
                    Some(m) => m,
                    None => a.tripped_rule->0,
                },
            )
            &&& s.events.last() is Notice
            &&& holds(s.events.last()->Notice_text, a.tripped_rule->0)
        }),
{
    let name = a.tripped_rule->0;
    let said = match message {
        Some(m) => m,
        None => name,
    };
    let s = answered(t, k, a, message, max_trips);
    let spent = t.spent.push(name);
    assert(spent[spent.len() - 1] == name);
    let all = "<system-reminder>\n"@ + said + "\n</system-reminder>"@;
    let at = "<system-reminder>\n"@.len() as int;
    assert(all.subrange(at, at + said.len()) =~= said);
    assert(occurs_at(all, said, at));
    let line = "stream rule `"@ + name + "` tripped — restarting the turn"@;
    let from = "stream rule `"@.len() as int;
    assert(line.subrange(from, from + name.len()) =~= name);
    assert(occurs_at(line, name, from));
}

/// An answer that no rule cut short is taken as it is: the reply goes into the transcript,
/// the run goes on in its state, and the request is measured by what the provider counted.
pub proof fn law_whole_answers_are_taken(
    t: OpenTurnV,
    k: Talk,
    a: TurnV,
    message: Option<Seq<char>>,
    max_trips: nat,
)
    requires
        a.tripped_rule is None,
        k.msgs.len() <= usize::MAX,
    ensures
        ({
            let s = answered(t, k, a, message, max_trips);
            &&& s.talk.msgs == k.msgs.push(a.message)
            &&& s.step is Done
            &&& s.step->state == a.state
            &&& s.step->put_back <==> t.spent.len() > 0
            &&& a.usage.input > 0 ==> s.talk.anchor is Some && s.talk.anchor->0.input_tokens
                == a.usage.input as usize && s.talk.anchor->0.messages_len == k.msgs.len()
            &&& a.usage.input == 0 ==> s.talk.anchor == k.anchor
            &&& k.cap is Some && a.usage.input + a.usage.output > 0 && k.spent + a.usage.input
                + a.usage.output <= u64::MAX ==> s.talk.spent == k.spent + a.usage.input
                + a.usage.output
            &&& k.cap is None ==> s.talk.spent == k.spent
        }),
{
}

} // verus!
