//! A batch of tool calls: which of them run, what the model is told of those
//! that do not, and what becomes of the results.
use vstd::prelude::*;
use crate::agent::policy::{
    append_note, is_test_path, law_notes_are_added_to_the_result,
    law_notes_ride_in_the_last_message, note_test_edits, test_path, with_note, TEST_EDIT_NOTE,
};
use crate::agent::{Prompt, PromptKind, PromptReply};
use crate::ai::setting_view;
use crate::checks::{apply_filters, filtered, text_view, TuskOutcome, TuskOutcomeV};
use crate::json::{
    field, field_views, lemma_field_is_set, lemma_json_views, lemma_other_field_stays, obj, set_field, text_field,
    with_field, Json, JsonV,
};
use crate::permissions::{Decision, DecisionV, PreAction, PreActionV};
use crate::text::{
    begins, cat2, cat3, ends, holds, join, joined, law_joined_parts_stand_in_order, occurs_at, put,
    same, texts, trim, trimmed,
};
use crate::types::{
    extract_text, result_message, text_of_blocks, transcript, AgentEvent, EventV, Message, MessageV, Role,
    ToolCall, ToolCallV,
};

verus! {

/// What is said to the model after a call was refused.
pub const DENY_GUIDANCE: &'static str = "You may pursue the goal another reasonable \
     way that respects the intent behind this denial — do not work around \
     it (e.g. by doing the same thing through a different tool). If this \
     capability is essential, stop, explain what you were trying to do \
     and why, and let the user decide.";

// ------------------------------------------------------------ before a call runs

/// The call can change the workspace: it modifies a file, or it is a command
/// that is not known to read only.
pub open spec fn mutates(target: bool, name: Seq<char>, read_only: bool) -> bool {
    target || (name == "bash"@ && !read_only)
}

/// Decides [`mutates`]. `target` tells that the call modifies a file, and
/// `read_only` that its command is known to read only.
pub fn mutates_workspace(target: bool, name: &str, read_only: bool) -> (b: bool)
    ensures
        b == mutates(target, name@, read_only),
{
    target || (same(name, "bash") && !read_only)
}

/// The command of a call, or the empty text.
pub fn command_of(arguments: &Json) -> (r: String)
    ensures
        r@ == (match text_field(arguments@, "command"@) {
            Some(t) => t,
            None => Seq::empty(),
        }),
{
    match arguments.str_at("command") {
        Some(t) => t.to_owned(),
        None => String::new(),
    }
}

/// Why a call that changes the workspace is blocked, if it is: the task contract
/// misses these sections.
pub open spec fn contract_refusal(missing: Seq<Seq<char>>) -> Option<Seq<char>> {
    if missing.len() == 0 {
        None
    } else {
        Some(
            "Workspace mutation blocked: the persistent task contract is incomplete ("@ + joined(
                missing,
                ", "@,
            ) + "). Update it with the `note` tool, then retry."@,
        )
    }
}

/// Computes [`contract_refusal`].
pub fn contract_block(missing: &Vec<String>) -> (r: Option<String>)
    ensures
        text_view(r) == contract_refusal(texts(missing@)),
{
    if missing.len() == 0 {
        return None;
    }
    let list = join(missing, ", ");
    Some(
        cat3(
            "Workspace mutation blocked: the persistent task contract is incomplete (",
            list.as_str(),
            "). Update it with the `note` tool, then retry.",
        ),
    )
}

/// Fields with those of a patch laid over them, one by one.
pub open spec fn overlaid(
    fields: Seq<(Seq<char>, JsonV)>,
    patch: Seq<(Seq<char>, JsonV)>,
) -> Seq<(Seq<char>, JsonV)>
    decreases patch.len(),
{
    if patch.len() == 0 {
        fields
    } else {
        with_field(overlaid(fields, patch.drop_last()), patch.last().0, patch.last().1)
    }
}

/// The arguments of a call with a patch laid over them; anything but two objects
/// leaves them as they are.
pub open spec fn patched(arguments: JsonV, patch: JsonV) -> JsonV {
    match (arguments, patch) {
        (JsonV::Object(fields), JsonV::Object(more)) => JsonV::Object(overlaid(fields, more)),
        _ => arguments,
    }
}

/// Lays a patch over the arguments of a call; see [`patched`]. What the patch
/// does not name stays.
pub fn merge_patch(arguments: Json, patch: &Json) -> (r: Json)
    ensures
        r@ == patched(arguments@, patch@),
{
    let ghost before = arguments@;
    proof {
        lemma_json_views(arguments);
        lemma_json_views(*patch);
    }
    match (arguments, patch) {
        (Json::Object(mut fields), Json::Object(more)) => {
            let ghost fs = field_views(fields@);
            let ghost ms = field_views(more@);
            let mut i: usize = 0;
            assert(ms.take(0) =~= Seq::empty());
            while i < more.len()
                invariant
                    i <= more@.len(),
                    ms == field_views(more@),
                    field_views(fields@) == overlaid(fs, ms.take(i as int)),
                decreases more@.len() - i,
            {
                assert(ms.take(i + 1).drop_last() =~= ms.take(i as int));
                assert(ms[i as int] == (more@[i as int].0@, more@[i as int].1@));
                set_field(&mut fields, more[i].0.clone(), more[i].1.clone());
                i += 1;
            }
            assert(ms.take(i as int) =~= ms);
            obj(fields)
        },
        (other, _) => other,
    }
}

/// The prompt asks whether the call that `inner` shows may run, and offers `glob`
/// as the rule to keep.
pub open spec fn asks_permission(p: Prompt, inner: Seq<char>, glob: Seq<char>) -> bool {
    &&& p.title@ == "permission required"@
    &&& text_view(p.detail) == Some(inner)
    &&& texts(p.options@) == seq!["Allow once"@, "Allow always"@, "Deny"@]
    &&& p.allow_free_text
    &&& p.kind matches PromptKind::Permission { suggested_glob } && suggested_glob@ == glob
}

/// The question whether a call may run.
pub fn permission_prompt(inner: &str, glob: &str) -> (p: Prompt)
    ensures
        asks_permission(p, inner@, glob@),
{
    let mut options: Vec<String> = Vec::new();
    options.push("Allow once".to_owned());
    options.push("Allow always".to_owned());
    options.push("Deny".to_owned());
    assert(texts(options@) =~= seq!["Allow once"@, "Allow always"@, "Deny"@]);
    Prompt {
        title: "permission required".to_owned(),
        detail: Some(inner.to_owned()),
        options,
        allow_free_text: true,
        kind: PromptKind::Permission { suggested_glob: glob.to_owned() },
    }
}

/// Whether a call runs: it does, it does and from now on a rule allows its
/// like, or it does not and the model is told why.
#[derive(Debug, PartialEq)]
pub enum Clearance {
    Run,
    RunAlways(String),
    Blocked(String),
}

/// What a [`Clearance`] stands for.
pub enum ClearanceV {
    Run,
    RunAlways(Seq<char>),
    Blocked(Seq<char>),
}

impl View for Clearance {
    type V = ClearanceV;

    open spec fn view(&self) -> ClearanceV {
        match self {
            Clearance::Run => ClearanceV::Run,
            Clearance::RunAlways(rule) => ClearanceV::RunAlways(rule@),
            Clearance::Blocked(reason) => ClearanceV::Blocked(reason@),
        }
    }
}

/// A text that says something.
pub open spec fn said(t: Option<Seq<char>>) -> Option<Seq<char>> {
    match t {
        Some(x) => if trimmed(x).len() == 0 {
            None
        } else {
            Some(x)
        },
        None => None,
    }
}

/// What the user's answer to a permission prompt amounts to: the first option
/// runs the call, the second runs it and keeps a rule, and anything else blocks
/// it.
pub open spec fn user_clears(
    index: Option<usize>,
    text: Option<Seq<char>>,
    inner: Seq<char>,
    glob: Seq<char>,
) -> ClearanceV {
    if index == Some(0usize) {
        ClearanceV::Run
    } else if index == Some(1usize) {
        ClearanceV::RunAlways(
            match said(text) {
                Some(rule) => rule,
                None => glob,
            },
        )
    } else {
        ClearanceV::Blocked(
            "Command blocked (denied by the user): "@ + inner + "."@ + (match said(text) {
                Some(feedback) => " User feedback: "@ + feedback + "."@,
                None => Seq::empty(),
            }) + " "@ + DENY_GUIDANCE@,
        )
    }
}

/// What a decision amounts to; `reply` is the user's answer where the decision
/// is to ask and there is somebody to ask.
pub open spec fn cleared(
    decision: DecisionV,
    inner: Seq<char>,
    glob: Seq<char>,
    reply: Option<(Option<usize>, Option<Seq<char>>)>,
) -> ClearanceV {
    match decision {
        DecisionV::Allow => ClearanceV::Run,
        DecisionV::Deny(reason) => ClearanceV::Blocked(
            "Command blocked: "@ + reason + ". "@ + DENY_GUIDANCE@,
        ),
        DecisionV::Ask => match reply {
            Some((index, text)) => user_clears(index, text, inner, glob),
            None => ClearanceV::Blocked(
                "Command blocked (auto-denied: destructive commands need user confirmation, which is unavailable in this non-interactive session — do NOT retry it or a variant of it): "@
                    + inner + ". "@ + DENY_GUIDANCE@,
            ),
        },
    }
}

fn keep_said(t: Option<String>) -> (r: Option<String>)
    ensures
        text_view(r) == said(text_view(t)),
{
    match t {
        Some(x) => {
            if trim(x.as_str()).as_str().is_empty() {
                None
            } else {
                Some(x)
            }
        },
        None => None,
    }
}

/// The parts of a reply that decide about a call.
pub open spec fn reply_parts(reply: Option<PromptReply>) -> Option<
    (Option<usize>, Option<Seq<char>>),
> {
    match reply {
        Some(r) => Some((r.index, text_view(r.text))),
        None => None,
    }
}

/// Turns a decision, and the user's answer where one was asked for, into what
/// happens to the call; see [`cleared`].
pub fn clear_call(decision: Decision, inner: &str, glob: &str, reply: Option<PromptReply>) -> (r:
    Clearance)
    ensures
        r@ == cleared(decision@, inner@, glob@, reply_parts(reply)),
{
    match decision {
        Decision::Allow => Clearance::Run,
        Decision::Deny(reason) => {
            let mut t = cat3("Command blocked: ", reason.as_str(), ". ");
            put(&mut t, DENY_GUIDANCE);
            Clearance::Blocked(t)
        },
        Decision::Ask => match reply {
            Some(reply) => {
                let text = keep_said(reply.text);
                if reply.index == Some(0usize) {
                    Clearance::Run
                } else if reply.index == Some(1usize) {
                    match text {
                        Some(rule) => Clearance::RunAlways(rule),
                        None => Clearance::RunAlways(glob.to_owned()),
                    }
                } else {
                    let feedback = match text {
                        Some(s) => cat3(" User feedback: ", s.as_str(), "."),
                        None => String::new(),
                    };
                    let mut t = cat3("Command blocked (denied by the user): ", inner, ".");
                    put(&mut t, feedback.as_str());
                    put(&mut t, " ");
                    put(&mut t, DENY_GUIDANCE);
                    Clearance::Blocked(t)
                }
            },
            None => {
                let mut t = cat3(
                    "Command blocked (auto-denied: destructive commands need user confirmation, which is unavailable in this non-interactive session — do NOT retry it or a variant of it): ",
                    inner,
                    ". ",
                );
                put(&mut t, DENY_GUIDANCE);
                Clearance::Blocked(t)
            },
        },
    }
}

/// A call that asks for confirmation never runs where nobody can give it.
pub proof fn law_nobody_to_ask_blocks(inner: Seq<char>, glob: Seq<char>)
    ensures
        cleared(DecisionV::Ask, inner, glob, None) is Blocked,
{
}

/// A denied call never runs, whatever the user would say.
pub proof fn law_denied_calls_never_run(
    reason: Seq<char>,
    inner: Seq<char>,
    glob: Seq<char>,
    reply: Option<(Option<usize>, Option<Seq<char>>)>,
)
    ensures
        cleared(DecisionV::Deny(reason), inner, glob, reply) is Blocked,
{
}

/// Only the first two options let a call run; free text alone denies it.
pub proof fn law_silence_is_no_consent(
    index: Option<usize>,
    text: Option<Seq<char>>,
    inner: Seq<char>,
    glob: Seq<char>,
)
    ensures
        cleared(DecisionV::Ask, inner, glob, Some((index, text))) is Blocked <==> !(index == Some(
            0usize,
        ) || index == Some(1usize)),
{
}

// ------------------------------------------------------------ screening

/// What is done with a call first: the user is asked the model's own question,
/// the call is blocked for want of a task contract, or the rules are asked.
#[derive(Debug, PartialEq)]
pub enum FirstLook {
    AskUser,
    Blocked(String),
    Decide,
}

/// The first look at a call: `ask_user` is a question, and a call that changes
/// the workspace needs a complete contract.
pub fn first_look(call: &ToolCall, changes: bool, missing: &Vec<String>) -> (r: FirstLook)
    ensures
        match r {
            FirstLook::AskUser => call.name@ == "ask_user"@,
            FirstLook::Blocked(reason) => call.name@ != "ask_user"@ && changes
                && contract_refusal(texts(missing@)) == Some(reason@),
            FirstLook::Decide => call.name@ != "ask_user"@ && !(changes && missing@.len() > 0),
        },
{
    if same(call.name.as_str(), "ask_user") {
        return FirstLook::AskUser;
    }
    if changes {
        if let Some(reason) = contract_block(missing) {
            return FirstLook::Blocked(reason);
        }
    }
    FirstLook::Decide
}

/// What the screening made of a call: it runs, or it is answered without
/// running. The call is the one with the rewritten arguments.
#[derive(Debug, PartialEq)]
pub enum Screened {
    Run(ToolCall),
    Answered { call: ToolCall, shown: String, told: String, is_error: bool },
}

/// What a [`Screened`] stands for.
pub enum ScreenedV {
    Run(ToolCallV),
    Answered { call: ToolCallV, shown: Seq<char>, told: Seq<char>, is_error: bool },
}

impl View for Screened {
    type V = ScreenedV;

    open spec fn view(&self) -> ScreenedV {
        match self {
            Screened::Run(call) => ScreenedV::Run(call@),
            Screened::Answered { call, shown, told, is_error } => ScreenedV::Answered {
                call: call@,
                shown: shown@,
                told: told@,
                is_error: *is_error,
            },
        }
    }
}

/// The call with the arguments that the policy gives it.
pub open spec fn rewritten(call: ToolCallV, action: PreActionV) -> ToolCallV {
    match action {
        PreActionV::Rewrite(patch) => ToolCallV { arguments: patched(call.arguments, patch), ..call },
        _ => call,
    }
}

/// What the screening makes of a call: blocked, it is answered with the reason;
/// answered by a hook, with the hook's word; else it runs.
pub open spec fn screened(call: ToolCallV, action: PreActionV, clearance: ClearanceV) -> ScreenedV {
    let call = rewritten(call, action);
    match clearance {
        ClearanceV::Blocked(reason) => ScreenedV::Answered {
            call,
            shown: "blocked"@,
            told: reason,
            is_error: true,
        },
        _ => match action {
            PreActionV::Short(result) => ScreenedV::Answered {
                call,
                shown: result,
                told: result,
                is_error: false,
            },
            _ => ScreenedV::Run(call),
        },
    }
}

/// Screens a call; see [`screened`].
pub fn screen_call(call: ToolCall, action: PreAction, clearance: Clearance) -> (r: Screened)
    ensures
        r@ == screened(call@, action@, clearance@),
{
    let call = match &action {
        PreAction::Rewrite(patch) => ToolCall {
            id: call.id,
            name: call.name,
            arguments: merge_patch(call.arguments, patch),
        },
        _ => call,
    };
    match clearance {
        Clearance::Blocked(reason) => Screened::Answered {
            call,
            shown: "blocked".to_owned(),
            told: reason,
            is_error: true,
        },
        _ => match action {
            PreAction::Short(result) => Screened::Answered {
                call,
                shown: result.clone(),
                told: result,
                is_error: false,
            },
            _ => Screened::Run(call),
        },
    }
}

/// A call that a hook answers itself never runs.
pub proof fn law_answered_calls_never_run(
    call: ToolCallV,
    result: Seq<char>,
    clearance: ClearanceV,
)
    ensures
        screened(call, PreActionV::Short(result), clearance) is Answered,
{
}

/// A rewrite keeps the call's identity, and every argument that the patch does
/// not name.
pub proof fn law_rewrite_keeps_the_rest(
    fields: Seq<(Seq<char>, JsonV)>,
    patch: Seq<(Seq<char>, JsonV)>,
    key: Seq<char>,
)
    requires
        forall|i: int| 0 <= i < patch.len() ==> (#[trigger] patch[i]).0 != key,
    ensures
        field(JsonV::Object(overlaid(fields, patch)), key) == field(JsonV::Object(fields), key),
    decreases patch.len(),
{
    if patch.len() > 0 {
        assert forall|i: int| 0 <= i < patch.drop_last().len() implies (#[trigger] patch.drop_last()[i]).0
            != key by {
            assert(patch[i].0 != key);
        }
        law_rewrite_keeps_the_rest(fields, patch.drop_last(), key);
        assert(patch[patch.len() - 1].0 != key);
        lemma_other_field_stays(
            overlaid(fields, patch.drop_last()),
            patch.last().0,
            patch.last().1,
            key,
        );
    }
}

// ------------------------------------------------------------ without running

/// What is reported of a call when it is about to run.
pub open spec fn start_event(call: ToolCallV) -> EventV {
    EventV::ToolCallStart { id: call.id, name: call.name, input: call.arguments }
}

/// What is reported of a call that has its result.
pub open spec fn end_event(call: ToolCallV, result: Seq<char>, is_error: bool) -> EventV {
    EventV::ToolCallEnd { id: call.id, name: call.name, result, is_error }
}

/// Computes [`start_event`].
pub fn call_started(call: &ToolCall) -> (e: AgentEvent)
    ensures
        e@ == start_event(call@),
{
    AgentEvent::ToolCallStart {
        id: call.id.clone(),
        name: call.name.clone(),
        input: call.arguments.clone(),
    }
}

/// Computes [`end_event`].
pub fn call_ended(call: &ToolCall, result: String, is_error: bool) -> (e: AgentEvent)
    ensures
        e@ == end_event(call@, result@, is_error),
{
    AgentEvent::ToolCallEnd { id: call.id.clone(), name: call.name.clone(), result, is_error }
}

/// A call that is answered without running: the two events that are reported of
/// it, with `shown` as its result, and the message with what the model is told.
pub fn answer_call(call: &ToolCall, shown: &str, told: String, is_error: bool) -> (r: (
    AgentEvent,
    AgentEvent,
    Message,
))
    ensures
        r.0@ == start_event(call@),
        r.1@ == end_event(call@, shown@, is_error),
        r.2@ == result_message(call.id@, told@, is_error),
{
    (
        call_started(call),
        call_ended(call, shown.to_owned(), is_error),
        Message::tool_result(call.id.as_str(), told, is_error),
    )
}

// ------------------------------------------------------------ after the calls

/// What a tool left, as a result: its output, or its error and that it is one.
pub open spec fn tool_outcome(output: Result<Seq<char>, Seq<char>>) -> (Seq<char>, bool) {
    match output {
        Ok(t) => (t, false),
        Err(e) => ("Error: "@ + e, true),
    }
}

/// Computes [`tool_outcome`].
pub fn outcome_of(output: Result<String, String>) -> (r: (String, bool))
    ensures
        (r.0@, r.1) == tool_outcome(
            match output {
                Ok(t) => Ok(t@),
                Err(e) => Err(e@),
            },
        ),
{
    match output {
        Ok(t) => (t, false),
        Err(e) => (cat2("Error: ", e.as_str()), true),
    }
}

/// A call wrote to a test file: its result is no error, and the file that it
/// modifies is one of a test.
pub open spec fn wrote_test(target: Option<Seq<char>>, is_error: bool) -> bool {
    !is_error && (target matches Some(path) && test_path(path))
}

/// What a call that ran leaves: the event that is reported of it, the message
/// with its result, and whether it wrote to a test file. The result is what the
/// filters made of `content`; `target` is the file that the call modifies.
pub fn finish_call(
    call: &ToolCall,
    content: String,
    is_error: bool,
    outcome: TuskOutcome,
    target: Option<&str>,
) -> (r: (AgentEvent, Message, bool))
    ensures
        ({
            let (text, failed) = filtered(outcome@, content@, is_error);
            &&& r.0@ == end_event(call@, text, failed)
            &&& r.1@ == result_message(call.id@, text, failed)
            &&& r.2 == wrote_test(setting_view(target), failed)
        }),
{
    let (text, failed) = apply_filters(outcome, content, is_error);
    let wrote = match target {
        Some(path) => !failed && is_test_path(path),
        None => false,
    };
    (
        call_ended(call, text.clone(), failed),
        Message::tool_result(call.id.as_str(), text, failed),
        wrote,
    )
}

/// A result that a filter withholds is never taken for a write that landed.
pub proof fn law_withheld_results_count_as_errors(
    target: Option<Seq<char>>,
    reason: Seq<char>,
    content: Seq<char>,
    is_error: bool,
)
    ensures
        !wrote_test(target, filtered(TuskOutcomeV::Withheld(reason), content, is_error).1),
{
}

/// The transcript after a batch: the results of its lanes behind what was there,
/// and in the last of them a word on test files that were written, and the
/// report of the checks.
pub open spec fn after_batch(
    msgs: Seq<MessageV>,
    results: Seq<MessageV>,
    test_written: bool,
    report: Option<Seq<char>>,
) -> Seq<MessageV> {
    let all = msgs + results;
    let noted = if test_written {
        with_note(all, TEST_EDIT_NOTE@)
    } else {
        all
    };
    match report {
        Some(r) => with_note(noted, r),
        None => noted,
    }
}

/// Adds the results of a batch to the transcript, and the notes that ride in
/// them; see [`after_batch`].
pub fn finish_batch(
    messages: &mut Vec<Message>,
    results: Vec<Message>,
    test_written: bool,
    report: Option<&str>,
)
    ensures
        transcript(final(messages)@) == after_batch(
            transcript(old(messages)@),
            transcript(results@),
            test_written,
            match report {
                Some(t) => Some(t@),
                None => None,
            },
        ),
{
    let ghost before = transcript(messages@);
    let ghost more = transcript(results@);
    let mut results = results;
    messages.append(&mut results);
    assert(transcript(messages@) =~= before + more);
    if test_written {
        note_test_edits(messages);
    }
    if let Some(t) = report {
        append_note(messages, t);
    }
}

/// What the user asked for last: the text of the last message in their role, or
/// the empty text.
pub open spec fn last_prompt(msgs: Seq<MessageV>) -> Seq<char>
    decreases msgs.len(),
{
    if msgs.len() == 0 {
        Seq::empty()
    } else if msgs.last().role == Role::User {
        text_of_blocks(msgs.last().content)
    } else {
        last_prompt(msgs.drop_last())
    }
}

/// Computes [`last_prompt`].
pub fn last_user_prompt(messages: &Vec<Message>) -> (r: String)
    ensures
        r@ == last_prompt(transcript(messages@)),
{
    let ghost msgs = transcript(messages@);
    let mut i: usize = messages.len();
    assert(msgs.take(i as int) =~= msgs);
    while i > 0
        invariant
            i <= messages@.len(),
            msgs == transcript(messages@),
            last_prompt(msgs) == last_prompt(msgs.take(i as int)),
        decreases i,
    {
        assert(msgs[i - 1] == messages@[i - 1]@);
        assert(msgs.take(i as int).drop_last() =~= msgs.take(i - 1));
        if messages[i - 1].role == Role::User {
            return extract_text(&messages[i - 1].content);
        }
        i -= 1;
    }
    String::new()
}

// ------------------------------------------------------------ what becomes of a call

proof fn lemma_is_told(all: Seq<char>, front: Seq<char>, n: Seq<char>, back: Seq<char>)
    requires
        all == front + n + back,
    ensures
        holds(all, n),
{
    let at = front.len() as int;
    assert(all.subrange(at, at + n.len()) =~= n);
    assert(occurs_at(all, n, at));
}

/// What the patch names has the value that the patch gives it.
pub proof fn law_patched_arguments_count(
    fields: Seq<(Seq<char>, JsonV)>,
    patch: Seq<(Seq<char>, JsonV)>,
    i: int,
)
    requires
        0 <= i < patch.len(),
        forall|j: int| i < j < patch.len() ==> (#[trigger] patch[j]).0 != patch[i].0,
    ensures
        field(patched(JsonV::Object(fields), JsonV::Object(patch)), patch[i].0) == Some(patch[i].1),
    decreases patch.len(),
{
    let front = patch.drop_last();
    let before = overlaid(fields, front);
    if i == patch.len() - 1 {
        lemma_field_is_set(before, patch.last().0, patch.last().1);
    } else {
        assert forall|j: int| i < j < front.len() implies (#[trigger] front[j]).0 != front[i].0 by {
            assert(front[j] == patch[j]);
        }
        law_patched_arguments_count(fields, front, i);
        assert(patch[patch.len() - 1].0 != patch[i].0);
        lemma_other_field_stays(before, patch.last().0, patch.last().1, patch[i].0);
    }
}

/// A call that is cleared runs as it is, under its own id and name, with its own
/// arguments unless they were rewritten; a call that is blocked is answered with the
/// reason, as an error; and one that a hook answers, with the hook's word.
pub proof fn law_cleared_calls_run_as_they_are(
    call: ToolCallV,
    patch: JsonV,
    rule: Seq<char>,
    reason: Seq<char>,
    action: PreActionV,
)
    ensures
        screened(call, PreActionV::AsIs, ClearanceV::Run) == ScreenedV::Run(call),
        screened(call, PreActionV::AsIs, ClearanceV::RunAlways(rule)) == ScreenedV::Run(call),
        screened(call, PreActionV::Rewrite(patch), ClearanceV::Run) == ScreenedV::Run(
            ToolCallV { id: call.id, name: call.name, arguments: patched(call.arguments, patch) },
        ),
        ({
            let s = screened(call, action, ClearanceV::Blocked(reason));
            &&& s is Answered
            &&& s->told == reason
            &&& s->is_error
            &&& s->call.id == call.id
            &&& s->call.name == call.name
        }),
        ({
            let s = screened(call, PreActionV::Short(reason), ClearanceV::Run);
            &&& s is Answered
            &&& s->told == reason
            &&& s->shown == reason
            &&& !s->is_error
            &&& s->call.id == call.id
        }),
{
}

/// An allowed call runs, and so does one that the user allows; where they allow it
/// for good, the rule is the one they wrote, or the one that was offered. A denial
/// tells the reason, a refusal of the user the call and what they said of it, and
/// where nobody can be asked the call is named.
pub proof fn law_decisions_are_carried_out(
    reason: Seq<char>,
    inner: Seq<char>,
    glob: Seq<char>,
    text: Seq<char>,
    reply: Option<(Option<usize>, Option<Seq<char>>)>,
)
    ensures
        cleared(DecisionV::Allow, inner, glob, reply) == ClearanceV::Run,
        cleared(DecisionV::Ask, inner, glob, Some((Some(0usize), Some(text)))) == ClearanceV::Run,
        cleared(DecisionV::Ask, inner, glob, Some((Some(1usize), None))) == ClearanceV::RunAlways(
            glob,
        ),
        trimmed(text).len() > 0 ==> cleared(
            DecisionV::Ask,
            inner,
            glob,
            Some((Some(1usize), Some(text))),
        ) == ClearanceV::RunAlways(text),
        ({
            let c = cleared(DecisionV::Deny(reason), inner, glob, reply);
            c is Blocked && holds(c->Blocked_0, reason)
        }),
        ({
            let c = cleared(DecisionV::Ask, inner, glob, Some((Some(2usize), Some(text))));
            c is Blocked && holds(c->Blocked_0, inner) && (trimmed(text).len() > 0 ==> holds(
                c->Blocked_0,
                text,
            ))
        }),
        ({
            let c = cleared(DecisionV::Ask, inner, glob, None);
            c is Blocked && holds(c->Blocked_0, inner)
        }),
{
    let a = cleared(DecisionV::Deny(reason), inner, glob, reply)->Blocked_0;
    assert(a =~= "Command blocked: "@ + reason + (". "@ + DENY_GUIDANCE@));
    lemma_is_told(a, "Command blocked: "@, reason, ". "@ + DENY_GUIDANCE@);
    let b = cleared(DecisionV::Ask, inner, glob, Some((Some(2usize), Some(text))))->Blocked_0;
    let lead = "Command blocked (denied by the user): "@;
    let fed = match said(Some(text)) {
        Some(feedback) => " User feedback: "@ + feedback + "."@,
        None => Seq::empty(),
    };
    let back = " "@ + DENY_GUIDANCE@;
    assert(b =~= lead + inner + ("."@ + fed + back));
    lemma_is_told(b, lead, inner, "."@ + fed + back);
    if trimmed(text).len() > 0 {
        let front = lead + inner + "."@ + " User feedback: "@;
        assert(b =~= front + text + ("."@ + back));
        lemma_is_told(b, front, text, "."@ + back);
    }
    let c = cleared(DecisionV::Ask, inner, glob, None)->Blocked_0;
    let long = "Command blocked (auto-denied: destructive commands need user confirmation, which is unavailable in this non-interactive session — do NOT retry it or a variant of it): "@;
    assert(c =~= long + inner + (". "@ + DENY_GUIDANCE@));
    lemma_is_told(c, long, inner, ". "@ + DENY_GUIDANCE@);
}

/// Whatever the task contract misses is named to the model, and a contract that
/// misses nothing blocks nothing.
pub proof fn law_missing_sections_are_named(missing: Seq<Seq<char>>, i: int)
    ensures
        missing.len() == 0 <==> contract_refusal(missing) is None,
        0 <= i < missing.len() ==> holds(contract_refusal(missing)->0, missing[i]),
{
    if 0 <= i < missing.len() {
        law_joined_parts_stand_in_order(missing, ", "@, i);
        let list = joined(missing, ", "@);
        let all = contract_refusal(missing)->0;
        let lead = "Workspace mutation blocked: the persistent task contract is incomplete ("@;
        let at = if i == 0 {
            0
        } else {
            (joined(missing.take(i), ", "@).len() + ", "@.len()) as int
        };
        let from = lead.len() + at;
        assert(all.subrange(from, from + missing[i].len()) =~= list.subrange(
            at,
            at + missing[i].len(),
        ));
        assert(occurs_at(all, missing[i], from));
    }
}

/// What a tool printed is its result, and what it failed with is told as an error.
pub proof fn law_outcomes_are_told(text: Seq<char>)
    ensures
        tool_outcome(Ok(text)) == (text, false),
        tool_outcome(Err(text)).1,
        ends(tool_outcome(Err(text)).0, text),
{
    let all = "Error: "@ + text;
    assert(all.subrange(all.len() - text.len(), all.len() as int) =~= text);
}

/// The results of a batch stand behind what was there, each in its place and under
/// the id of its call: nothing of them is lost, and all but the last are untouched.
/// In the last one, what it held comes first, and the notes follow.
pub proof fn law_results_are_kept(
    msgs: Seq<MessageV>,
    results: Seq<MessageV>,
    test_written: bool,
    report: Option<Seq<char>>,
)
    requires
        results.len() > 0,
        results.last().content.len() > 0,
        results.last().content.last() is ToolResult,
    ensures
        ({
            let after = after_batch(msgs, results, test_written, report);
            let (had, now) = (results.last().content.last(), after.last().content.last());
            &&& after.len() == msgs.len() + results.len()
            &&& after.drop_last() == (msgs + results).drop_last()
            &&& after.last().role == results.last().role
            &&& now is ToolResult
            &&& now->tool_use_id == had->tool_use_id
            &&& now->is_error == had->is_error
            &&& begins(now->ToolResult_content, had->ToolResult_content)
            &&& report matches Some(r) ==> ends(now->ToolResult_content, r)
            &&& !test_written && report is None ==> after == msgs + results
            &&& test_written && report is None ==> ends(now->ToolResult_content, TEST_EDIT_NOTE@)
        }),
{
    let all = msgs + results;
    assert(all.last() == results.last());
    let noted = if test_written {
        with_note(all, TEST_EDIT_NOTE@)
    } else {
        all
    };
    law_notes_are_added_to_the_result(all, TEST_EDIT_NOTE@);
    law_notes_ride_in_the_last_message(all, TEST_EDIT_NOTE@);
    assert(noted.len() == all.len());
    assert(noted.drop_last() =~= all.drop_last());
    let first = all.last().content.last()->ToolResult_content;
    let second = noted.last().content.last()->ToolResult_content;
    if !test_written {
        assert(first.subrange(0, first.len() as int) =~= first);
    }
    if let Some(r) = report {
        let after = with_note(noted, r);
        law_notes_are_added_to_the_result(noted, r);
        law_notes_ride_in_the_last_message(noted, r);
        assert(after.drop_last() =~= noted.drop_last());
        let third = after.last().content.last()->ToolResult_content;
        assert(third.subrange(0, first.len() as int) =~= third.subrange(
            0,
            second.len() as int,
        ).subrange(0, first.len() as int));
    }
}

/// The last prompt is what the user said last, whatever was said since by others.
pub proof fn law_last_prompt_is_the_users_last_word(
    msgs: Seq<MessageV>,
    m: MessageV,
    more: Seq<MessageV>,
)
    requires
        m.role == Role::User,
        forall|i: int| 0 <= i < more.len() ==> (#[trigger] more[i]).role != Role::User,
    ensures
        last_prompt(msgs.push(m) + more) == text_of_blocks(m.content),
    decreases more.len(),
{
    let all = msgs.push(m) + more;
    if more.len() == 0 {
        assert(all =~= msgs.push(m));
    } else {
        let front = more.drop_last();
        assert forall|i: int| 0 <= i < front.len() implies (#[trigger] front[i]).role
            != Role::User by {
            assert(front[i] == more[i]);
        }
        law_last_prompt_is_the_users_last_word(msgs, m, front);
        assert(all.drop_last() =~= msgs.push(m) + front);
        assert(more[more.len() - 1].role != Role::User);
        assert(all.last() == more.last());
    }
}

/// A prompt for a permission shows what is to be run, offers to allow it once or always or
/// to deny it, in this order, and takes a word of the user's own.
pub proof fn law_permission_prompts_show_the_call(p: Prompt, inner: Seq<char>, glob: Seq<char>)
    requires
        asks_permission(p, inner, glob),
    ensures
        p.detail is Some && p.detail->0@ == inner,
        p.options@.len() == 3,
        p.options@[0]@ == "Allow once"@,
        p.options@[1]@ == "Allow always"@,
        p.options@[2]@ == "Deny"@,
        p.allow_free_text,
        p.kind is Permission && p.kind->suggested_glob@ == glob,
{
    let o = texts(p.options@);
    assert(o.len() == 3);
    assert(o[0] == p.options@[0]@ && o[1] == p.options@[1]@ && o[2] == p.options@[2]@);
}

/// What the user sees of a call is the call itself: its id, its tool and its input when it
/// starts, and its id, its tool, the result and whether it failed when it ends.
pub proof fn law_events_show_the_call(call: ToolCallV, result: Seq<char>, is_error: bool)
    ensures
        ({
            let e = start_event(call);
            &&& e is ToolCallStart
            &&& e->ToolCallStart_id == call.id
            &&& e->ToolCallStart_name == call.name
            &&& e->input == call.arguments
        }),
        ({
            let e = end_event(call, result, is_error);
            &&& e is ToolCallEnd
            &&& e->ToolCallEnd_id == call.id
            &&& e->ToolCallEnd_name == call.name
            &&& e->result == result
            &&& e->is_error == is_error
        }),
{
}

} // verus!
