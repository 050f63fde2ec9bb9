//! Compaction: which messages a summary replaces, what is asked of the
//! summarizer, and what becomes of its answer. And pruning: bulky tool results
//! give way to a marker where a summary cannot help.
use vstd::prelude::*;
use crate::agent::lanes::targets;
use crate::agent::tokens::{
    estimate_context_tokens, estimate_range, estimated_tokens, held, keep_budget, kept_budget,
    CHARS_PER_TOKEN_ESTIMATE,
};
use crate::ai::setting_view;
use crate::json::{rendered_json, settled_json, Json, JsonV};
use crate::paths::{is_under, lies_under};
use crate::text::{
    ascending, begins, byte_len, cat2, cat3, cat4, cat5, cat7, contains, decimal, ends, first_chars,
    holds, head, insert_ascending, lemma_utf8_at_least_chars, lines, lines_of, occurs_at, put,
    size_text, starts_with, texts, trim, trimmed, utf8_len,
};
use crate::types::{
    blocks, opens_on_result, text_message, transcript, turn_start, BlockV, ContentBlock, Message,
    MessageV, Role,
};

verus! {

/// How many recent messages compaction keeps unless told otherwise.
pub const COMPACTION_KEEP_RECENT_DEFAULT: usize = 6;

/// The context window that is taken where none is known.
pub const DEFAULT_CONTEXT_WINDOW: usize = 128_000;

/// Below this many tokens the frame around a summary, and not the summary,
/// decides which of the two is larger; nothing is refused there.
pub const MIN_MEANINGFUL_REGION: usize = 128;

/// Why a transcript was not compacted.
#[derive(Clone, Copy, Debug, PartialEq, Eq, Structural)]
pub enum CompactError {
    /// Fewer than two messages stand before those that are kept.
    TooFewMessages,
    /// Nothing but an earlier summary stands before those that are kept.
    NothingNew,
    /// The summarizer said nothing.
    EmptySummary,
    /// The summary weighs no less than what it would replace.
    NotSmaller { summary_tokens: usize, region_tokens: usize },
}

// ------------------------------------------------------------ the boundary

/// The estimated tokens of the last `k` messages.
pub open spec fn tail_tokens(msgs: Seq<MessageV>, k: int) -> nat {
    estimated_tokens(msgs.subrange(msgs.len() - k, msgs.len() as int))
}

/// How many of the newest messages are kept: as many as asked for, while they
/// fit the budget, but two in any case.
pub open spec fn kept_from(msgs: Seq<MessageV>, requested: int, budget: nat, k: int) -> int
    decreases requested - k,
{
    if k >= requested || (k >= 2 && tail_tokens(msgs, k + 1) > budget) {
        k
    } else {
        kept_from(msgs, requested, budget, k + 1)
    }
}

/// The first index at or before `i` whose message does not open on a tool
/// result; zero if there is none.
pub open spec fn off_results(msgs: Seq<MessageV>, i: int) -> int
    decreases i,
{
    if i > 0 && opens_on_result(msgs[i]) {
        off_results(msgs, i - 1)
    } else {
        i
    }
}

/// The last index at or before `i` at which a human turn starts; zero if there
/// is none.
pub open spec fn turn_of(msgs: Seq<MessageV>, i: int) -> int
    decreases i,
{
    if i <= 0 || turn_start(msgs[i]) {
        i
    } else {
        turn_of(msgs, i - 1)
    }
}

/// How many messages are asked to be kept.
pub open spec fn requested_keep(msgs: Seq<MessageV>, keep_recent: Option<usize>) -> int {
    let asked = match keep_recent {
        Some(k) => k as int,
        None => COMPACTION_KEEP_RECENT_DEFAULT as int,
    };
    if asked <= msgs.len() {
        asked
    } else {
        msgs.len() as int
    }
}

/// The index of the first message that is kept. It is the start of the turn
/// that the kept messages begin in, if that turn fits the budget too and
/// leaves at least two messages to compact; else the kept messages begin
/// where their number says, moved back so as not to open on a tool result.
pub open spec fn boundary(msgs: Seq<MessageV>, keep_recent: Option<usize>, budget: nat) -> int {
    let keep = kept_from(msgs, requested_keep(msgs, keep_recent), budget, 0);
    let cut = off_results(msgs, msgs.len() - keep);
    let turn = turn_of(msgs, cut);
    if turn >= 2 && tail_tokens(msgs, keep) + estimated_tokens(msgs.subrange(turn, cut))
        <= budget {
        turn
    } else {
        cut
    }
}

/// The first message is the summary of an earlier compaction.
pub open spec fn opens_on_summary(msgs: Seq<MessageV>) -> bool {
    &&& msgs.len() > 0
    &&& msgs[0].content.len() > 0
    &&& msgs[0].content[0] matches BlockV::Text { text } && begins(
        text,
        "[Previous conversation summary"@,
    )
}

/// The index of the first message that the summarizer reads: behind an earlier
/// summary and the model's word on it.
pub open spec fn region_start(msgs: Seq<MessageV>) -> int {
    if opens_on_summary(msgs) {
        if msgs.len() > 1 && msgs[1].role == Role::Assistant {
            2
        } else {
            1
        }
    } else {
        0
    }
}

/// The messages `start..end` are to be compacted, the others from `end` on kept.
#[derive(Clone, Copy, Debug, PartialEq, Eq, Structural)]
pub struct CompactionPlan {
    pub start: usize,
    pub end: usize,
    pub prior_summary: bool,
}

/// What is compacted of a transcript, or why nothing is.
pub open spec fn planned(
    msgs: Seq<MessageV>,
    keep_recent: Option<usize>,
    budget: nat,
) -> Result<(int, int, bool), CompactError> {
    let end = boundary(msgs, keep_recent, budget);
    let start = region_start(msgs);
    if end < 2 {
        Err(CompactError::TooFewMessages)
    } else if end <= start {
        Err(CompactError::NothingNew)
    } else {
        Ok((start, end, opens_on_summary(msgs)))
    }
}

/// Estimates add up along a transcript.
pub proof fn lemma_estimate_splits(msgs: Seq<MessageV>, a: int, b: int, c: int)
    requires
        0 <= a <= b <= c <= msgs.len(),
    ensures
        estimated_tokens(msgs.subrange(a, c)) == estimated_tokens(msgs.subrange(a, b))
            + estimated_tokens(msgs.subrange(b, c)),
    decreases c - b,
{
    if b < c {
        lemma_estimate_splits(msgs, a, b, c - 1);
        assert(msgs.subrange(a, c).drop_last() =~= msgs.subrange(a, c - 1));
        assert(msgs.subrange(b, c).drop_last() =~= msgs.subrange(b, c - 1));
    } else {
        assert(msgs.subrange(b, c) =~= Seq::empty());
    }
}

proof fn lemma_kept_range(msgs: Seq<MessageV>, requested: int, budget: nat, k: int)
    requires
        0 <= k <= requested <= msgs.len(),
    ensures
        k <= kept_from(msgs, requested, budget, k) <= requested,
        requested > 0 ==> kept_from(msgs, requested, budget, k) > 0 || k > 0,
    decreases requested - k,
{
    if !(k >= requested || (k >= 2 && tail_tokens(msgs, k + 1) > budget)) {
        lemma_kept_range(msgs, requested, budget, k + 1);
    }
}

proof fn lemma_off_results(msgs: Seq<MessageV>, i: int)
    requires
        0 <= i < msgs.len(),
    ensures
        0 <= off_results(msgs, i) <= i,
        off_results(msgs, i) > 0 ==> !opens_on_result(msgs[off_results(msgs, i)]),
    decreases i,
{
    if i > 0 && opens_on_result(msgs[i]) {
        lemma_off_results(msgs, i - 1);
    }
}

proof fn lemma_turn_of(msgs: Seq<MessageV>, i: int)
    requires
        0 <= i < msgs.len(),
    ensures
        0 <= turn_of(msgs, i) <= i,
        turn_of(msgs, i) > 0 ==> turn_start(msgs[turn_of(msgs, i)]),
    decreases i,
{
    if !(i <= 0 || turn_start(msgs[i])) {
        lemma_turn_of(msgs, i - 1);
    }
}

/// Plans a compaction; see [`planned`]. The transcript has a message and at
/// least one is to be kept.
pub fn plan_compaction(
    messages: &Vec<Message>,
    keep_recent: Option<usize>,
    context_window: Option<usize>,
    compact_budget: Option<usize>,
) -> (r: Result<CompactionPlan, CompactError>)
    requires
        messages@.len() > 0,
        keep_recent != Some(0usize),
    ensures
        match r {
            Ok(p) => planned(
                transcript(messages@),
                keep_recent,
                kept_budget(
                    context_window.unwrap_or(DEFAULT_CONTEXT_WINDOW) as nat,
                    compact_budget,
                ),
            ) == Ok::<(int, int, bool), CompactError>(
                (p.start as int, p.end as int, p.prior_summary),
            ),
            Err(e) => planned(
                transcript(messages@),
                keep_recent,
                kept_budget(
                    context_window.unwrap_or(DEFAULT_CONTEXT_WINDOW) as nat,
                    compact_budget,
                ),
            ) == Err::<(int, int, bool), CompactError>(e),
        },
        r matches Ok(p) ==> p.start < p.end < messages@.len() && p.end >= 2,
{
    let ghost msgs = transcript(messages@);
    let window: usize = context_window.unwrap_or(DEFAULT_CONTEXT_WINDOW);
    let budget: usize = keep_budget(window, compact_budget);
    let size: usize = messages.len();
    let asked: usize = keep_recent.unwrap_or(COMPACTION_KEEP_RECENT_DEFAULT);
    let requested: usize = if asked <= size {
        asked
    } else {
        size
    };
    let mut keep: usize = 0;
    proof {
        lemma_kept_range(msgs, requested as int, budget as nat, 0);
    }
    while keep < requested && (keep < 2 || estimate_range(messages, size - keep - 1, size)
        <= budget)
        invariant
            keep <= requested <= size == messages@.len(),
            msgs == transcript(messages@),
            budget < usize::MAX,
            kept_from(msgs, requested as int, budget as nat, 0) == kept_from(
                msgs,
                requested as int,
                budget as nat,
                keep as int,
            ),
        decreases requested - keep,
    {
        keep += 1;
    }
    let mut cut: usize = size - keep;
    let ghost first_cut = cut as int;
    while cut > 0 && messages[cut].opens_on_result()
        invariant
            cut <= first_cut < size == messages@.len(),
            msgs == transcript(messages@),
            off_results(msgs, first_cut) == off_results(msgs, cut as int),
        decreases cut,
    {
        assert(msgs[cut as int] == messages@[cut as int]@);
        cut -= 1;
    }
    assert(cut > 0 ==> msgs[cut as int] == messages@[cut as int]@);
    let mut turn: usize = cut;
    while turn > 0 && !messages[turn].is_turn_start()
        invariant
            turn <= cut < size == messages@.len(),
            msgs == transcript(messages@),
            turn_of(msgs, cut as int) == turn_of(msgs, turn as int),
        decreases turn,
    {
        assert(msgs[turn as int] == messages@[turn as int]@);
        turn -= 1;
    }
    assert(turn > 0 ==> msgs[turn as int] == messages@[turn as int]@);
    let used: usize = estimate_range(messages, size - keep, size);
    let extra: usize = estimate_range(messages, turn, cut);
    let end: usize = if turn >= 2 && used <= budget && extra <= budget - used {
        turn
    } else {
        cut
    };
    if end < 2 {
        return Err(CompactError::TooFewMessages);
    }
    assert(msgs[0] == messages@[0]@);
    assert(msgs[1] == messages@[1]@);
    let prior = match messages[0].content.first() {
        Some(ContentBlock::Text { text }) => starts_with(
            text.as_str(),
            "[Previous conversation summary",
        ),
        _ => false,
    };
    assert(prior == opens_on_summary(msgs)) by {
        if messages@[0].content@.len() > 0 {
            assert(msgs[0].content[0] == messages@[0].content@[0]@);
        }
    }
    let acknowledged = match messages[1].role {
        Role::Assistant => true,
        _ => false,
    };
    let start: usize = if prior {
        if acknowledged {
            2
        } else {
            1
        }
    } else {
        0
    };
    if end <= start {
        return Err(CompactError::NothingNew);
    }
    Ok(CompactionPlan { start, end, prior_summary: prior })
}

/// The kept messages never open on a tool result: its call would be summarized
/// away, and a result without its call is refused by the providers.
pub proof fn law_kept_window_opens_on_no_result(
    msgs: Seq<MessageV>,
    keep_recent: Option<usize>,
    budget: nat,
)
    requires
        msgs.len() > 0,
        keep_recent != Some(0usize),
        planned(msgs, keep_recent, budget) is Ok,
    ensures
        !opens_on_result(msgs[boundary(msgs, keep_recent, budget)]),
{
    let requested = requested_keep(msgs, keep_recent);
    lemma_kept_range(msgs, requested, budget, 0);
    let keep = kept_from(msgs, requested, budget, 0);
    lemma_off_results(msgs, msgs.len() - keep);
    lemma_turn_of(msgs, off_results(msgs, msgs.len() - keep));
}

/// At least the newest message is always kept, and something is compacted: the
/// region is never empty and never the whole transcript.
pub proof fn law_region_is_proper(msgs: Seq<MessageV>, keep_recent: Option<usize>, budget: nat)
    requires
        msgs.len() > 0,
        keep_recent != Some(0usize),
    ensures
        planned(msgs, keep_recent, budget) matches Ok((start, end, _)) ==> 0 <= start < end
            < msgs.len(),
{
    let requested = requested_keep(msgs, keep_recent);
    lemma_kept_range(msgs, requested, budget, 0);
    let keep = kept_from(msgs, requested, budget, 0);
    lemma_off_results(msgs, msgs.len() - keep);
    lemma_turn_of(msgs, off_results(msgs, msgs.len() - keep));
}

// ------------------------------------------------------------ what is asked

/// What the summarizer is told to do.
pub const SUMMARY_INSTRUCTIONS: &'static str = "You are a conversation summarizer. The conversation will be replaced by \
     your summary, so anything you omit is lost. Produce a structured summary:\n\
     1. **Files modified**: list every file path that was edited/written/created.\n\
     2. **Key changes**: what was changed and why (one bullet per change).\n\
     3. **Decisions**: any architectural or design decisions made, with rationale.\n\
     4. **User requests and constraints**: every request the user made, in order, \
     including corrections and changes of direction. Preserve security-relevant \
     instructions (files or data to avoid, operations not to perform, \
     credential/secret handling rules) VERBATIM — they must keep applying.\n\
     5. **Errors and fixes**: errors hit and how they were resolved, especially \
     where the user said to do something differently.\n\
     6. **Failed approaches**: what was tried and didn't work, and why — so it \
     isn't retried.\n\
     7. **Current task state**: what was being worked on and what's left.\n\
     8. **Next step**: only if directly in line with the most recent request; \
     quote the relevant recent message verbatim so the task isn't reinterpreted. \
     If the last task concluded, say so instead.\n\
     Be concise. Omit pleasantries and tool invocation boilerplate.\n\
     Some state outlives this transcript and stays readable afterwards: \
     files written with `note`, and the spill files that truncation markers \
     point at (`full output: <path>`). Carry any path still worth reopening \
     into the summary — the path is enough, never copy the contents.";

/// The line above the list of modified files.
pub const FILES_HEADER: &'static str = "Files modified during this conversation (extracted from tool calls — \
     use this as the authoritative list for section 1):";

/// The name of a role.
pub open spec fn role_name(role: Role) -> Seq<char> {
    match role {
        Role::System => "System"@,
        Role::User => "User"@,
        Role::Assistant => "Assistant"@,
        Role::Tool => "Tool"@,
    }
}

/// One block as the summarizer reads it: text whole, a call by its name and the
/// first of its input, a result by its first characters; thoughts and images
/// not at all.
pub open spec fn block_line(role: Role, b: BlockV) -> Seq<char> {
    match b {
        BlockV::Text { text } => "["@ + role_name(role) + "]: "@ + text + "\n"@,
        BlockV::ToolUse { id, name, input } => "["@ + role_name(role) + " tool_use]: "@ + name
            + "("@ + first_chars(rendered_json(settled_json(input)), 200) + ")\n"@,
        BlockV::ToolResult { tool_use_id, content, is_error } => (if is_error {
            "[Tool error]: "@
        } else {
            "[Tool result]: "@
        }) + (if utf8_len(content) > 300 {
            first_chars(content, 300) + "…"@
        } else {
            first_chars(content, 300)
        }) + "\n"@,
        _ => Seq::empty(),
    }
}

/// The blocks of one message as the summarizer reads them.
pub open spec fn block_lines(role: Role, s: Seq<BlockV>) -> Seq<char>
    decreases s.len(),
{
    if s.len() == 0 {
        Seq::empty()
    } else {
        block_lines(role, s.drop_last()) + block_line(role, s.last())
    }
}

/// Some messages as the summarizer reads them.
pub open spec fn message_lines(s: Seq<MessageV>) -> Seq<char>
    decreases s.len(),
{
    if s.len() == 0 {
        Seq::empty()
    } else {
        message_lines(s.drop_last()) + block_lines(s.last().role, s.last().content)
    }
}

/// What the summarizer reads: an earlier summary, if there is one, and the
/// messages since.
pub open spec fn conversation_text(msgs: Seq<MessageV>, start: int, end: int, prior: bool) -> Seq<
    char,
> {
    (if prior {
        msgs[0].content[0]->text + "\n\n--- New messages since last summary ---\n\n"@
    } else {
        Seq::empty()
    }) + message_lines(msgs.subrange(start, end))
}

fn put_block(out: &mut String, role: Role, b: &ContentBlock)
    ensures
        final(out)@ == old(out)@ + block_line(role, b@),
{
    let who = match role {
        Role::System => "System",
        Role::User => "User",
        Role::Assistant => "Assistant",
        Role::Tool => "Tool",
    };
    let line = match b {
        ContentBlock::Text { text } => cat5("[", who, "]: ", text.as_str(), "\n"),
        ContentBlock::ToolUse { name, input, .. } => {
            let rendered = input.render();
            let brief = head(rendered.as_str(), 200);
            let mut l = cat5("[", who, " tool_use]: ", name.as_str(), "(");
            put(&mut l, brief.as_str());
            put(&mut l, ")\n");
            l
        },
        ContentBlock::ToolResult { content, is_error, .. } => {
            let kind = if *is_error {
                "[Tool error]: "
            } else {
                "[Tool result]: "
            };
            let mut shown = head(content.as_str(), 300);
            if byte_len(content.as_str()) > 300 {
                put(&mut shown, "…");
            }
            cat3(kind, shown.as_str(), "\n")
        },
        _ => String::new(),
    };
    put(out, line.as_str());
}

/// Computes [`conversation_text`].
pub fn conversation(messages: &Vec<Message>, plan: CompactionPlan) -> (r: String)
    requires
        plan.start < plan.end <= messages@.len(),
        plan.prior_summary == opens_on_summary(transcript(messages@)),
    ensures
        r@ == conversation_text(
            transcript(messages@),
            plan.start as int,
            plan.end as int,
            plan.prior_summary,
        ),
{
    let ghost msgs = transcript(messages@);
    let mut out = String::new();
    if plan.prior_summary {
        assert(msgs[0] == messages@[0]@);
        assert(msgs[0].content[0] == messages@[0].content@[0]@);
        if let ContentBlock::Text { text } = &messages[0].content[0] {
            put(&mut out, text.as_str());
        }
        put(&mut out, "\n\n--- New messages since last summary ---\n\n");
    }
    let ghost lead = out@;
    assert(plan.prior_summary ==> lead =~= msgs[0].content[0]->text
        + "\n\n--- New messages since last summary ---\n\n"@);
    let mut i: usize = plan.start;
    assert(msgs.subrange(plan.start as int, plan.start as int) =~= Seq::empty());
    assert(lead + message_lines(msgs.subrange(plan.start as int, plan.start as int)) =~= lead);
    while i < plan.end
        invariant
            plan.start <= i <= plan.end <= messages@.len(),
            msgs == transcript(messages@),
            out@ == lead + message_lines(msgs.subrange(plan.start as int, i as int)),
        decreases plan.end - i,
    {
        let role = messages[i].role;
        let content = &messages[i].content;
        let ghost before = out@;
        let ghost bs = blocks(content@);
        let mut k: usize = 0;
        assert(bs.take(0) =~= Seq::empty());
        assert(before + block_lines(role, bs.take(0)) =~= before);
        while k < content.len()
            invariant
                k <= content@.len(),
                bs == blocks(content@),
                out@ == before + block_lines(role, bs.take(k as int)),
            decreases content@.len() - k,
        {
            assert(bs.take(k + 1).drop_last() =~= bs.take(k as int));
            assert(bs[k as int] == content@[k as int]@);
            let ghost so_far = block_lines(role, bs.take(k as int));
            put_block(&mut out, role, &content[k]);
            assert(before + so_far + block_line(role, bs[k as int]) =~= before + (so_far
                + block_line(role, bs[k as int])));
            k += 1;
        }
        assert(bs.take(k as int) =~= bs);
        assert(msgs[i as int] == messages@[i as int]@);
        let ghost so_far = msgs.subrange(plan.start as int, i as int);
        assert(msgs.subrange(plan.start as int, i + 1).drop_last() =~= so_far);
        assert(lead + message_lines(so_far) + block_lines(role, bs) =~= lead + (message_lines(
            so_far,
        ) + block_lines(role, bs)));
        i += 1;
    }
    out
}

/// The calls among some blocks, each with its name and its input.
pub open spec fn uses_in(s: Seq<BlockV>) -> Seq<(Seq<char>, JsonV)>
    decreases s.len(),
{
    if s.len() == 0 {
        Seq::empty()
    } else {
        let before = uses_in(s.drop_last());
        match s.last() {
            BlockV::ToolUse { id: _, name, input } => before.push((name, input)),
            _ => before,
        }
    }
}

/// The calls in some messages.
pub open spec fn uses_in_all(s: Seq<MessageV>) -> Seq<(Seq<char>, JsonV)>
    decreases s.len(),
{
    if s.len() == 0 {
        Seq::empty()
    } else {
        uses_in_all(s.drop_last()) + uses_in(s.last().content)
    }
}

/// What some calls stand for.
pub open spec fn use_views(v: Seq<(String, Json)>) -> Seq<(Seq<char>, JsonV)> {
    v.map_values(|c: (String, Json)| (c.0@, c.1@))
}

/// The calls in the region that is compacted, in order.
pub fn region_calls(messages: &Vec<Message>, plan: CompactionPlan) -> (r: Vec<(String, Json)>)
    requires
        plan.start <= plan.end <= messages@.len(),
    ensures
        use_views(r@) == uses_in_all(
            transcript(messages@).subrange(plan.start as int, plan.end as int),
        ),
{
    let ghost msgs = transcript(messages@);
    let mut out: Vec<(String, Json)> = Vec::new();
    let mut i: usize = plan.start;
    assert(msgs.subrange(plan.start as int, plan.start as int) =~= Seq::empty());
    assert(use_views(out@) =~= Seq::empty());
    while i < plan.end
        invariant
            plan.start <= i <= plan.end <= messages@.len(),
            msgs == transcript(messages@),
            use_views(out@) == uses_in_all(msgs.subrange(plan.start as int, i as int)),
        decreases plan.end - i,
    {
        let content = &messages[i].content;
        let ghost bs = blocks(content@);
        let ghost front = use_views(out@);
        let mut k: usize = 0;
        assert(bs.take(0) =~= Seq::empty());
        assert(front + uses_in(bs.take(0)) =~= front);
        while k < content.len()
            invariant
                k <= content@.len(),
                bs == blocks(content@),
                use_views(out@) == front + uses_in(bs.take(k as int)),
            decreases content@.len() - k,
        {
            assert(bs.take(k + 1).drop_last() =~= bs.take(k as int));
            assert(bs[k as int] == content@[k as int]@);
            let ghost before = use_views(out@);
            if let ContentBlock::ToolUse { id: _, name, input } = &content[k] {
                out.push((name.clone(), input.clone()));
                assert(use_views(out@) =~= before.push((name@, input@)));
                assert(before.push((name@, input@)) =~= front + uses_in(bs.take(k as int)).push(
                    (name@, input@),
                ));
            }
            k += 1;
        }
        assert(bs.take(k as int) =~= bs);
        assert(msgs[i as int] == messages@[i as int]@);
        assert(msgs.subrange(plan.start as int, i + 1).drop_last() =~= msgs.subrange(
            plan.start as int,
            i as int,
        ));
        i += 1;
    }
    out
}

/// The file is one of the workspace: it does not lie under the trust root.
pub open spec fn workspace_file(path: Seq<char>, root: Option<Seq<char>>) -> bool {
    !(root matches Some(dir) && lies_under(path, dir))
}

/// The files of the workspace that some calls modify.
pub open spec fn touched_files(paths: Seq<Option<Seq<char>>>, root: Option<Seq<char>>) -> Seq<
    Seq<char>,
>
    decreases paths.len(),
{
    if paths.len() == 0 {
        Seq::empty()
    } else {
        let before = touched_files(paths.drop_last(), root);
        match paths.last() {
            Some(p) => if workspace_file(p, root) {
                before.push(p)
            } else {
                before
            },
            None => before,
        }
    }
}

/// Computes [`touched_files`]. `paths` tells of each call which file it modifies,
/// and `root` is the directory of the trust root, where it is known.
pub fn touched(paths: &Vec<Option<String>>, root: Option<&str>) -> (r: Vec<String>)
    ensures
        texts(r@) == touched_files(targets(paths@), setting_view(root)),
{
    let ghost all = targets(paths@);
    let ghost dir = setting_view(root);
    let mut r: Vec<String> = Vec::new();
    let mut i: usize = 0;
    assert(all.take(0) =~= Seq::empty());
    assert(texts(r@) =~= Seq::empty());
    while i < paths.len()
        invariant
            i <= paths@.len(),
            all == targets(paths@),
            dir == setting_view(root),
            texts(r@) == touched_files(all.take(i as int), dir),
        decreases paths@.len() - i,
    {
        assert(all.take(i + 1).drop_last() =~= all.take(i as int));
        if let Some(p) = &paths[i] {
            assert(all[i as int] == Some(p@));
            let trusted = match root {
                Some(d) => is_under(p.as_str(), d),
                None => false,
            };
            if !trusted {
                let ghost before = texts(r@);
                r.push(p.clone());
                assert(texts(r@) =~= before.push(p@));
            }
        } else {
            assert(all[i as int] is None);
        }
        i += 1;
    }
    assert(all.take(i as int) =~= all);
    r
}

/// Adds the files that the compacted calls modified to those that earlier
/// compactions recorded: each once, in order.
pub fn record_touched(compacted_files: &mut Vec<String>, touched: &Vec<String>)
    ensures
        ascending(texts(final(compacted_files)@)),
        forall|x: Seq<char>|
            #[trigger] texts(final(compacted_files)@).contains(x) <==> (texts(old(compacted_files)@).contains(
                x,
            ) || texts(touched@).contains(x)),
{
    let mut all: Vec<String> = Vec::new();
    let ghost earlier = texts(compacted_files@);
    let ghost now = texts(touched@);
    let mut i: usize = 0;
    while i < touched.len()
        invariant
            i <= touched@.len(),
            now == texts(touched@),
            ascending(texts(all@)),
            forall|x: Seq<char>|
                #[trigger] texts(all@).contains(x) <==> now.take(i as int).contains(x),
        decreases touched@.len() - i,
    {
        let ghost before = texts(all@);
        let t = touched[i].clone();
        assert(now[i as int] == t@);
        insert_ascending(&mut all, t);
        proof {
            assert forall|x: Seq<char>|
                #[trigger] texts(all@).contains(x) <==> now.take(i + 1).contains(x) by {
                assert(before.contains(x) <==> now.take(i as int).contains(x));
                lemma_take_contains(now, i as int, x);
            }
        }
        i += 1;
    }
    assert(now.take(i as int) =~= now);
    let mut k: usize = 0;
    while k < compacted_files.len()
        invariant
            k <= compacted_files@.len(),
            earlier == texts(compacted_files@),
            ascending(texts(all@)),
            forall|x: Seq<char>|
                #[trigger] texts(all@).contains(x) <==> (earlier.take(k as int).contains(x) || now.contains(x)),
        decreases compacted_files@.len() - k,
    {
        let ghost before = texts(all@);
        let t = compacted_files[k].clone();
        assert(earlier[k as int] == t@);
        insert_ascending(&mut all, t);
        proof {
            assert forall|x: Seq<char>|
                #[trigger] texts(all@).contains(x) <==> (earlier.take(k + 1).contains(x)
                    || now.contains(x)) by {
                assert(before.contains(x) <==> (earlier.take(k as int).contains(x) || now.contains(
                    x,
                )));
                lemma_take_contains(earlier, k as int, x);
            }
        }
        k += 1;
    }
    assert(earlier.take(k as int) =~= earlier);
    *compacted_files = all;
}

proof fn lemma_take_contains(s: Seq<Seq<char>>, i: int, x: Seq<char>)
    requires
        0 <= i < s.len(),
    ensures
        s.take(i + 1).contains(x) <==> (s.take(i).contains(x) || x == s[i]),
{
    let a = s.take(i);
    let b = s.take(i + 1);
    assert(b =~= a.push(s[i]));
    if a.contains(x) {
        let k = choose|k: int| 0 <= k < a.len() && a[k] == x;
        assert(b[k] == x);
    }
    if x == s[i] {
        assert(b[i] == x);
    }
    if b.contains(x) {
        let k = choose|k: int| 0 <= k < b.len() && b[k] == x;
        if k < i {
            assert(a[k] == x);
        }
    }
}

/// The list of modified files, one line each.
pub open spec fn files_list(files: Seq<Seq<char>>) -> Seq<char>
    decreases files.len(),
{
    if files.len() == 0 {
        Seq::empty()
    } else {
        files_list(files.drop_last()) + "- "@ + files.last() + "\n"@
    }
}

fn list_files(files: &Vec<String>) -> (r: String)
    ensures
        r@ == files_list(texts(files@)),
{
    let ghost fs = texts(files@);
    let mut out = String::new();
    let mut i: usize = 0;
    assert(fs.take(0) =~= Seq::empty());
    while i < files.len()
        invariant
            i <= files@.len(),
            fs == texts(files@),
            out@ == files_list(fs.take(i as int)),
        decreases files@.len() - i,
    {
        assert(fs.take(i + 1).drop_last() =~= fs.take(i as int));
        assert(fs[i as int] == files@[i as int]@);
        put(&mut out, "- ");
        put(&mut out, files[i].as_str());
        put(&mut out, "\n");
        i += 1;
    }
    assert(fs.take(i as int) =~= fs);
    out
}

/// The last message of a summary request.
pub open spec fn closing_text(
    verbatim: bool,
    conversation: Seq<char>,
    files: Seq<Seq<char>>,
) -> Seq<char> {
    let asked = SUMMARY_INSTRUCTIONS@
        + "\nDo not call any tool: reply with the summary text only."@;
    if verbatim {
        if files.len() == 0 {
            asked
        } else {
            asked + "\n\n"@ + FILES_HEADER@ + "\n"@ + files_list(files)
        }
    } else {
        if files.len() == 0 {
            conversation
        } else {
            FILES_HEADER@ + "\n"@ + files_list(files) + "\n"@ + conversation
        }
    }
}

/// The messages sent to the summarizer. Verbatim, they are the conversation's
/// own system prompt, the transcript up to the end of the region as it stands
/// and the instructions; else the instructions and the region as text.
pub open spec fn request_messages(
    msgs: Seq<MessageV>,
    plan: CompactionPlan,
    verbatim: bool,
    system_prompt: Option<Seq<char>>,
    files: Seq<Seq<char>>,
) -> Seq<MessageV> {
    let system = if verbatim && system_prompt is Some {
        system_prompt->0
    } else {
        SUMMARY_INSTRUCTIONS@
    };
    let closing = closing_text(
        verbatim,
        conversation_text(msgs, plan.start as int, plan.end as int, plan.prior_summary),
        files,
    );
    seq![text_message(Role::System, system, false)] + (if verbatim {
        msgs.take(plan.end as int)
    } else {
        Seq::empty()
    }) + seq![text_message(Role::User, closing, false)]
}

/// Builds the request to the summarizer; see [`request_messages`].
pub fn summary_request(
    messages: &Vec<Message>,
    plan: CompactionPlan,
    verbatim: bool,
    system_prompt: &Option<String>,
    files: &Vec<String>,
) -> (r: Vec<Message>)
    requires
        plan.start < plan.end <= messages@.len(),
        plan.prior_summary == opens_on_summary(transcript(messages@)),
    ensures
        transcript(r@) == request_messages(
            transcript(messages@),
            plan,
            verbatim,
            match system_prompt {
                Some(t) => Some(t@),
                None => None,
            },
            texts(files@),
        ),
{
    let ghost msgs = transcript(messages@);
    let system = match system_prompt {
        Some(t) if verbatim => t.clone(),
        _ => SUMMARY_INSTRUCTIONS.to_owned(),
    };
    let listed = list_files(files);
    let told = conversation(messages, plan);
    let mut closing = String::new();
    if verbatim {
        put(&mut closing, SUMMARY_INSTRUCTIONS);
        put(&mut closing, "\nDo not call any tool: reply with the summary text only.");
        if files.len() > 0 {
            put(&mut closing, "\n\n");
            put(&mut closing, FILES_HEADER);
            put(&mut closing, "\n");
            put(&mut closing, listed.as_str());
        }
    } else {
        if files.len() > 0 {
            put(&mut closing, FILES_HEADER);
            put(&mut closing, "\n");
            put(&mut closing, listed.as_str());
            put(&mut closing, "\n");
        }
        put(&mut closing, told.as_str());
    }
    assert(closing@ =~= closing_text(verbatim, told@, texts(files@)));
    let mut out: Vec<Message> = Vec::new();
    let ghost first = text_message(Role::System, system@, false);
    let ghost last = text_message(Role::User, closing@, false);
    out.push(Message::system(system));
    if verbatim {
        let mut i: usize = 0;
        while i < plan.end
            invariant
                i <= plan.end <= messages@.len(),
                msgs == transcript(messages@),
                out@.len() == i + 1,
                out@[0]@ == first,
                forall|k: int| 0 <= k < i ==> (#[trigger] out@[k + 1])@ == msgs[k],
            decreases plan.end - i,
        {
            assert(msgs[i as int] == messages@[i as int]@);
            out.push(messages[i].clone());
            i += 1;
        }
    }
    out.push(Message::user(closing));
    proof {
        let want = request_messages(
            msgs,
            plan,
            verbatim,
            match system_prompt {
                Some(t) => Some(t@),
                None => None,
            },
            texts(files@),
        );
        let got = transcript(out@);
        assert(got.len() == want.len());
        assert forall|k: int| 0 <= k < got.len() implies got[k] == want[k] by {
            if verbatim && 0 < k < got.len() - 1 {
                assert(out@[(k - 1) + 1]@ == msgs[k - 1]);
            }
        }
        assert(got =~= want);
    }
    out
}

// ------------------------------------------------------------ the answer

/// The two messages that stand for a compacted region of `count` messages.
pub open spec fn summary_pair(count: nat, summary: Seq<char>) -> Seq<MessageV> {
    seq![
        text_message(
            Role::User,
            "[Previous conversation summary — "@ + decimal(count) + " messages compacted]\n"@
                + summary,
            true,
        ),
        text_message(
            Role::Assistant,
            "Understood. I have the context from the summary. Continuing where we left off."@,
            false,
        ),
    ]
}

/// Why a summary is refused, if it is: it is empty, or it weighs no less than
/// the region it would replace, where that region is large enough to tell.
pub open spec fn summary_refused(
    msgs: Seq<MessageV>,
    plan: CompactionPlan,
    summary: Seq<char>,
) -> Option<CompactError> {
    let region = held(estimated_tokens(msgs.subrange(plan.start as int, plan.end as int)));
    let pair = held(estimated_tokens(summary_pair(plan.end as nat, summary)));
    if summary.len() == 0 {
        Some(CompactError::EmptySummary)
    } else if region >= MIN_MEANINGFUL_REGION && pair >= region {
        Some(
            CompactError::NotSmaller {
                summary_tokens: pair as usize,
                region_tokens: region as usize,
            },
        )
    } else {
        None
    }
}

/// Puts a summary in the place of the messages before the boundary, and keeps
/// the others as they are; a summary that is refused leaves the transcript as
/// it is.
pub fn accept_summary(messages: &mut Vec<Message>, plan: CompactionPlan, summary: &str) -> (r:
    Result<(), CompactError>)
    requires
        plan.start < plan.end <= old(messages)@.len(),
    ensures
        match summary_refused(transcript(old(messages)@), plan, summary@) {
            Some(e) => r == Err::<(), CompactError>(e) && *final(messages) == *old(messages),
            None => r is Ok && transcript(final(messages)@) == summary_pair(
                plan.end as nat,
                summary@,
            ) + transcript(old(messages)@).skip(plan.end as int),
        },
{
    let ghost msgs = transcript(messages@);
    if summary.is_empty() {
        return Err(CompactError::EmptySummary);
    }
    let count = size_text(plan.end);
    let head = Message::injected(
        cat4(
            "[Previous conversation summary — ",
            count.as_str(),
            " messages compacted]\n",
            summary,
        ),
    );
    let ack = Message::assistant(
        "Understood. I have the context from the summary. Continuing where we left off.".to_owned(),
    );
    let mut out: Vec<Message> = Vec::new();
    out.push(head);
    out.push(ack);
    assert(transcript(out@) =~= summary_pair(plan.end as nat, summary@));
    let region_tokens: usize = estimate_range(messages, plan.start, plan.end);
    let summary_tokens: usize = estimate_context_tokens(&out);
    if region_tokens >= MIN_MEANINGFUL_REGION && summary_tokens >= region_tokens {
        return Err(CompactError::NotSmaller { summary_tokens, region_tokens });
    }
    let mut recent = messages.split_off(plan.end);
    let ghost kept = transcript(recent@);
    assert(kept =~= msgs.skip(plan.end as int));
    let ghost pair = transcript(out@);
    out.append(&mut recent);
    assert(transcript(out@) =~= pair + kept);
    *messages = out;
    Ok(())
}

/// A summary that is accepted keeps the newest messages as they were, behind
/// two others; what it replaced is larger, where that can be told.
pub proof fn law_accepted_summary_shrinks(
    msgs: Seq<MessageV>,
    plan: CompactionPlan,
    summary: Seq<char>,
)
    requires
        plan.start < plan.end <= msgs.len(),
        summary_refused(msgs, plan, summary) is None,
        estimated_tokens(msgs.subrange(plan.start as int, plan.end as int))
            >= MIN_MEANINGFUL_REGION,
    ensures
        held(estimated_tokens(summary_pair(plan.end as nat, summary))) < held(
            estimated_tokens(msgs.subrange(plan.start as int, plan.end as int)),
        ),
{
}

// ------------------------------------------------------------ pruning

/// The smallest tool result, in bytes, that is worth pruning.
pub const PRUNE_MIN_CHARS: usize = 2_000;

/// The first line that names where the full output can be read.
pub open spec fn recovery_line(lines: Seq<Seq<char>>) -> Option<Seq<char>>
    decreases lines.len(),
{
    if lines.len() == 0 {
        None
    } else if holds(lines[0], "full output: "@) {
        Some(lines[0])
    } else {
        recovery_line(lines.drop_first())
    }
}

/// What the marker says of the way back to the output.
pub open spec fn recovery_note(content: Seq<char>) -> Seq<char> {
    match recovery_line(lines_of(content)) {
        Some(l) => " — "@ + trimmed(l),
        None => Seq::empty(),
    }
}

/// The marker that stands for a pruned result.
pub open spec fn prune_marker(content: Seq<char>, is_error: bool) -> Seq<char> {
    "[pruned to fit the context: "@ + decimal(utf8_len(content)) + " chars of tool "@ + (if is_error {
        "error output"@
    } else {
        "output"@
    }) + " dropped"@ + recovery_note(content) + "]"@
}

/// The block is a tool result that is worth pruning and was not pruned yet. One
/// whose marker would be longer than what it stands for is not worth it.
pub open spec fn prunable(b: BlockV) -> bool {
    b matches BlockV::ToolResult { tool_use_id, content, is_error } && utf8_len(content)
        >= PRUNE_MIN_CHARS && !begins(content, "[pruned"@) && utf8_len(
        prune_marker(content, is_error),
    ) <= utf8_len(content)
}

/// A block after pruning.
pub open spec fn pruned_block(b: BlockV) -> BlockV {
    match b {
        BlockV::ToolResult { tool_use_id, content, is_error } => if prunable(b) {
            BlockV::ToolResult { tool_use_id, content: prune_marker(content, is_error), is_error }
        } else {
            b
        },
        _ => b,
    }
}

/// The tokens that pruning a block frees.
pub open spec fn freed_by_block(b: BlockV) -> nat {
    match b {
        BlockV::ToolResult { tool_use_id, content, is_error } => if prunable(b) {
            ((utf8_len(content) - utf8_len(prune_marker(content, is_error))) / 3) as nat
        } else {
            0
        },
        _ => 0,
    }
}

/// A message after pruning.
pub open spec fn pruned_message(m: MessageV) -> MessageV {
    MessageV { content: m.content.map_values(|b: BlockV| pruned_block(b)), ..m }
}

/// The tokens that pruning some blocks frees.
pub open spec fn freed_by_blocks(s: Seq<BlockV>) -> nat
    decreases s.len(),
{
    if s.len() == 0 {
        0
    } else {
        freed_by_blocks(s.drop_last()) + freed_by_block(s.last())
    }
}

/// The tokens that pruning some messages frees.
pub open spec fn freed_by(s: Seq<MessageV>) -> nat
    decreases s.len(),
{
    if s.len() == 0 {
        0
    } else {
        freed_by(s.drop_last()) + freed_by_blocks(s.last().content)
    }
}

/// A transcript after pruning: every message but the newest, or the newest as
/// well where the others have nothing to give.
pub open spec fn pruned(msgs: Seq<MessageV>) -> Seq<MessageV> {
    let older = if msgs.len() > 0 {
        msgs.len() - 1
    } else {
        0
    };
    let spare = freed_by(msgs.take(older)) > 0;
    Seq::new(
        msgs.len(),
        |i: int|
            if i < older || !spare {
                pruned_message(msgs[i])
            } else {
                msgs[i]
            },
    )
}

/// The tokens that [`pruned`] frees.
pub open spec fn freed(msgs: Seq<MessageV>) -> nat {
    let older = if msgs.len() > 0 {
        msgs.len() - 1
    } else {
        0
    };
    if freed_by(msgs.take(older)) > 0 {
        freed_by(msgs.take(older))
    } else {
        freed_by(msgs.skip(older))
    }
}

fn recovery_of(content: &str) -> (r: String)
    ensures
        r@ == recovery_note(content@),
{
    let all = lines(content);
    let ghost ls = lines_of(content@);
    let mut i: usize = 0;
    assert(ls.skip(0) =~= ls);
    while i < all.len()
        invariant
            i <= all@.len(),
            ls == texts(all@),
            recovery_line(ls) == recovery_line(ls.skip(i as int)),
            ls == lines_of(content@),
        decreases all@.len() - i,
    {
        assert(ls[i as int] == all@[i as int]@);
        assert(ls.skip(i as int).drop_first() =~= ls.skip(i + 1));
        if contains(all[i].as_str(), "full output: ") {
            let l = trim(all[i].as_str());
            return cat2(" — ", l.as_str());
        }
        i += 1;
    }
    String::new()
}

fn marker_for(content: &str, is_error: bool) -> (r: String)
    ensures
        r@ == prune_marker(content@, is_error),
{
    let n = size_text(byte_len(content));
    let kind = if is_error {
        "error output"
    } else {
        "output"
    };
    let note = recovery_of(content);
    cat7(
        "[pruned to fit the context: ",
        n.as_str(),
        " chars of tool ",
        kind,
        " dropped",
        note.as_str(),
        "]",
    )
}

fn prune_block(b: &mut ContentBlock) -> (n: usize)
    ensures
        final(b)@ == pruned_block(old(b)@),
        n == freed_by_block(old(b)@),
{
    match b {
        ContentBlock::ToolResult { content, is_error, .. } => {
            if byte_len(content.as_str()) < PRUNE_MIN_CHARS || starts_with(
                content.as_str(),
                "[pruned",
            ) {
                return 0;
            }
            let marker = marker_for(content.as_str(), *is_error);
            let (had, left) = (byte_len(content.as_str()), byte_len(marker.as_str()));
            if left > had {
                return 0;
            }
            let gone: usize = had - left;
            *content = marker;
            gone / CHARS_PER_TOKEN_ESTIMATE
        },
        _ => 0,
    }
}

fn prune_blocks(v: &mut Vec<ContentBlock>) -> (n: usize)
    ensures
        blocks(final(v)@) == blocks(old(v)@).map_values(|b: BlockV| pruned_block(b)),
        n == held(freed_by_blocks(blocks(old(v)@))),
{
    let ghost bs = blocks(v@);
    let mut n: usize = 0;
    let mut i: usize = 0;
    assert(bs.take(0) =~= Seq::empty());
    while i < v.len()
        invariant
            i <= v@.len() == bs.len(),
            forall|k: int| 0 <= k < i ==> (#[trigger] v@[k])@ == pruned_block(bs[k]),
            forall|k: int| i <= k < bs.len() ==> (#[trigger] v@[k])@ == bs[k],
            n == held(freed_by_blocks(bs.take(i as int))),
        decreases v@.len() - i,
    {
        assert(bs.take(i + 1).drop_last() =~= bs.take(i as int));
        let f = prune_block(&mut v[i]);
        n = n.saturating_add(f);
        i += 1;
    }
    assert(bs.take(i as int) =~= bs);
    assert(blocks(v@) =~= bs.map_values(|b: BlockV| pruned_block(b)));
    n
}

fn prune_range(messages: &mut Vec<Message>, from: usize, to: usize) -> (n: usize)
    requires
        from <= to <= old(messages)@.len(),
    ensures
        n == held(freed_by(transcript(old(messages)@).subrange(from as int, to as int))),
        final(messages)@.len() == old(messages)@.len(),
        forall|k: int|
            0 <= k < old(messages)@.len() ==> (#[trigger] transcript(final(messages)@)[k]) == (if from
                <= k < to {
                pruned_message(transcript(old(messages)@)[k])
            } else {
                transcript(old(messages)@)[k]
            }),
{
    let ghost msgs = transcript(messages@);
    let mut n: usize = 0;
    let mut i: usize = from;
    assert(msgs.subrange(from as int, from as int) =~= Seq::empty());
    while i < to
        invariant
            from <= i <= to <= messages@.len() == msgs.len(),
            forall|k: int| from <= k < i ==> (#[trigger] messages@[k])@ == pruned_message(msgs[k]),
            forall|k: int|
                0 <= k < msgs.len() && !(from <= k < i) ==> (#[trigger] messages@[k])@ == msgs[k],
            n == held(freed_by(msgs.subrange(from as int, i as int))),
        decreases to - i,
    {
        assert(msgs.subrange(from as int, i + 1).drop_last() =~= msgs.subrange(
            from as int,
            i as int,
        ));
        assert(messages@[i as int]@ == msgs[i as int]);
        let f = prune_blocks(&mut messages[i].content);
        n = n.saturating_add(f);
        assert(messages@[i as int]@ == pruned_message(msgs[i as int]));
        i += 1;
    }
    n
}

proof fn lemma_marker_is_marked(content: Seq<char>, is_error: bool)
    ensures
        begins(prune_marker(content, is_error), "[pruned"@),
{
    reveal_strlit("[pruned");
    reveal_strlit("[pruned to fit the context: ");
    let m = prune_marker(content, is_error);
    assert(m.subrange(0, 7) =~= "[pruned"@);
}

proof fn lemma_pruned_stays(m: MessageV)
    ensures
        pruned_message(pruned_message(m)) == pruned_message(m),
        freed_by_blocks(pruned_message(m).content) == 0,
{
    let p = pruned_message(m);
    assert forall|k: int| 0 <= k < p.content.len() implies !prunable(#[trigger] p.content[k]) by {
        assert(p.content[k] == pruned_block(m.content[k]));
        match m.content[k] {
            BlockV::ToolResult { tool_use_id, content, is_error } => {
                lemma_marker_is_marked(content, is_error);
            },
            _ => {},
        }
    }
    assert(p.content.map_values(|b: BlockV| pruned_block(b)) =~= p.content);
    lemma_nothing_freed(p.content);
}

proof fn lemma_nothing_freed(s: Seq<BlockV>)
    requires
        forall|k: int| 0 <= k < s.len() ==> !prunable(#[trigger] s[k]),
    ensures
        freed_by_blocks(s) == 0,
    decreases s.len(),
{
    if s.len() > 0 {
        assert forall|k: int| 0 <= k < s.drop_last().len() implies !prunable(
            #[trigger] s.drop_last()[k],
        ) by {
            assert(!prunable(s[k]));
        }
        lemma_nothing_freed(s.drop_last());
        assert(!prunable(s[s.len() - 1]));
    }
}

proof fn lemma_pruned_messages_free_nothing(s: Seq<MessageV>)
    requires
        forall|k: int| 0 <= k < s.len() ==> freed_by_blocks((#[trigger] s[k]).content) == 0,
    ensures
        freed_by(s) == 0,
    decreases s.len(),
{
    if s.len() > 0 {
        assert(freed_by_blocks(s[s.len() - 1].content) == 0);
        assert forall|k: int| 0 <= k < s.drop_last().len() implies freed_by_blocks(
            (#[trigger] s.drop_last()[k]).content,
        ) == 0 by {
            assert(freed_by_blocks(s[k].content) == 0);
        }
        lemma_pruned_messages_free_nothing(s.drop_last());
    }
}

/// Replaces bulky tool results by a marker that says how to get them back, and
/// returns the estimated tokens that this frees; see [`pruned`]. Only results
/// are touched, and the newest message only where nothing older can be.
pub fn prune_tool_results(messages: &mut Vec<Message>) -> (n: usize)
    ensures
        transcript(final(messages)@) == pruned(transcript(old(messages)@)),
        n == held(freed(transcript(old(messages)@))),
{
    let ghost msgs = transcript(messages@);
    let size: usize = messages.len();
    let older: usize = size.saturating_sub(1);
    let first = prune_range(messages, 0, older);
    assert(msgs.subrange(0, older as int) =~= msgs.take(older as int));
    if first > 0 {
        assert(transcript(messages@) =~= pruned(msgs));
        return first;
    }
    let ghost mid = transcript(messages@);
    let last = prune_range(messages, older, size);
    assert(mid.subrange(older as int, size as int) =~= msgs.skip(older as int));
    assert(transcript(messages@) =~= pruned(msgs));
    last
}

/// Pruning touches nothing but tool results: every other block stays as it is,
/// and so do the roles, the order and the number of messages.
pub proof fn law_pruning_touches_results_only(msgs: Seq<MessageV>, i: int, k: int)
    requires
        0 <= i < msgs.len(),
        0 <= k < msgs[i].content.len(),
        !(msgs[i].content[k] is ToolResult),
    ensures
        pruned(msgs).len() == msgs.len(),
        pruned(msgs)[i].role == msgs[i].role,
        pruned(msgs)[i].injected == msgs[i].injected,
        pruned(msgs)[i].content.len() == msgs[i].content.len(),
        pruned(msgs)[i].content[k] == msgs[i].content[k],
{
}

/// A small result is never touched.
pub proof fn law_small_results_stay(msgs: Seq<MessageV>, i: int, k: int)
    requires
        0 <= i < msgs.len(),
        0 <= k < msgs[i].content.len(),
        msgs[i].content[k] matches BlockV::ToolResult { tool_use_id, content, is_error } && utf8_len(
            content,
        ) < PRUNE_MIN_CHARS,
    ensures
        pruned(msgs)[i].content[k] == msgs[i].content[k],
{
}

/// No result gets longer by pruning, and what is counted as freed is no more than
/// what it held.
pub proof fn law_pruning_never_grows(msgs: Seq<MessageV>, i: int, k: int)
    requires
        0 <= i < msgs.len(),
        0 <= k < msgs[i].content.len(),
        msgs[i].content[k] is ToolResult,
    ensures
        ({
            let before = msgs[i].content[k];
            let after = pruned(msgs)[i].content[k];
            &&& after is ToolResult
            &&& after->tool_use_id == before->tool_use_id
            &&& after->is_error == before->is_error
            &&& utf8_len(after->ToolResult_content) <= utf8_len(before->ToolResult_content)
            &&& 3 * freed_by_block(before) <= utf8_len(before->ToolResult_content)
        }),
{
}

/// The newest message is spared as long as an older one gives something back.
pub proof fn law_newest_is_spared(msgs: Seq<MessageV>)
    requires
        msgs.len() > 0,
        freed_by(msgs.drop_last()) > 0,
    ensures
        pruned(msgs).last() == msgs.last(),
{
    assert(msgs.drop_last() =~= msgs.take(msgs.len() - 1));
}

/// Where the newest message has nothing to prune, a second pass finds nothing
/// left to free and changes nothing.
pub proof fn law_second_pass_frees_nothing(msgs: Seq<MessageV>)
    requires
        msgs.len() > 0,
        pruned_message(msgs.last()) == msgs.last(),
    ensures
        freed(pruned(msgs)) == 0,
        pruned(pruned(msgs)) == pruned(msgs),
{
    let p = pruned(msgs);
    let older = msgs.len() - 1;
    assert forall|k: int| 0 <= k < p.len() implies freed_by_blocks((#[trigger] p[k]).content) == 0
        && pruned_message(p[k]) == p[k] by {
        lemma_pruned_stays(msgs[k]);
    }
    assert forall|k: int| 0 <= k < p.take(older).len() implies freed_by_blocks(
        (#[trigger] p.take(older)[k]).content,
    ) == 0 by {
        assert(freed_by_blocks(p[k].content) == 0);
    }
    assert forall|k: int| 0 <= k < p.skip(older).len() implies freed_by_blocks(
        (#[trigger] p.skip(older)[k]).content,
    ) == 0 by {
        assert(freed_by_blocks(p[k + older].content) == 0);
    }
    lemma_pruned_messages_free_nothing(p.take(older));
    lemma_pruned_messages_free_nothing(p.skip(older));
    assert(pruned(p) =~= p);
}

/// After two passes nothing is left, whatever the newest message holds.
pub proof fn law_third_pass_frees_nothing(msgs: Seq<MessageV>)
    requires
        msgs.len() > 0,
    ensures
        freed(pruned(pruned(msgs))) == 0,
        pruned(pruned(pruned(msgs))) == pruned(pruned(msgs)),
{
    let p = pruned(msgs);
    let older = msgs.len() - 1;
    if freed_by(msgs.take(older)) > 0 {
        assert forall|k: int| 0 <= k < p.take(older).len() implies freed_by_blocks(
            (#[trigger] p.take(older)[k]).content,
        ) == 0 by {
            lemma_pruned_stays(msgs[k]);
        }
        lemma_pruned_messages_free_nothing(p.take(older));
        lemma_pruned_stays(p.last());
        assert(pruned(p).last() == pruned_message(p.last()));
        law_second_pass_frees_nothing(pruned(p));
        assert forall|k: int| 0 <= k < pruned(p).len() implies pruned(pruned(p))[k] == pruned(p)[k]
            && freed_by_blocks((#[trigger] pruned(p)[k]).content) == 0 by {
            lemma_pruned_stays(p[k]);
        }
        let q = pruned(p);
        assert forall|k: int| 0 <= k < q.take(older).len() implies freed_by_blocks(
            (#[trigger] q.take(older)[k]).content,
        ) == 0 by {
            assert(freed_by_blocks(q[k].content) == 0);
        }
        assert forall|k: int| 0 <= k < q.skip(older).len() implies freed_by_blocks(
            (#[trigger] q.skip(older)[k]).content,
        ) == 0 by {
            assert(freed_by_blocks(q[k + older].content) == 0);
        }
        lemma_pruned_messages_free_nothing(q.take(older));
        lemma_pruned_messages_free_nothing(q.skip(older));
        assert(pruned(q) =~= q);
    } else {
        lemma_pruned_stays(msgs.last());
        assert(p.last() == pruned_message(msgs.last()));
        law_second_pass_frees_nothing(p);
        assert forall|k: int| 0 <= k < p.len() implies pruned_message(#[trigger] p[k]) == p[k]
            && freed_by_blocks(p[k].content) == 0 by {
            lemma_pruned_stays(msgs[k]);
        }
        assert(pruned(p) =~= p);
    }
}

// ------------------------------------------------------------ what a summary sees

proof fn lemma_block_lines_add_up(role: Role, a: Seq<BlockV>, b: Seq<BlockV>)
    ensures
        block_lines(role, a + b) == block_lines(role, a) + block_lines(role, b),
    decreases b.len(),
{
    if b.len() > 0 {
        lemma_block_lines_add_up(role, a, b.drop_last());
        assert((a + b).drop_last() =~= a + b.drop_last());
        assert((a + b).last() == b.last());
        assert(block_lines(role, a + b) =~= block_lines(role, a) + block_lines(role, b));
    } else {
        assert(a + b =~= a);
        assert(block_lines(role, a + b) =~= block_lines(role, a) + block_lines(role, b));
    }
}

proof fn lemma_message_lines_add_up(a: Seq<MessageV>, b: Seq<MessageV>)
    ensures
        message_lines(a + b) == message_lines(a) + message_lines(b),
    decreases b.len(),
{
    if b.len() > 0 {
        lemma_message_lines_add_up(a, b.drop_last());
        assert((a + b).drop_last() =~= a + b.drop_last());
        assert((a + b).last() == b.last());
        assert(message_lines(a + b) =~= message_lines(a) + message_lines(b));
    } else {
        assert(a + b =~= a);
        assert(message_lines(a + b) =~= message_lines(a) + message_lines(b));
    }
}

/// Where the line of a block begins in what the summarizer reads of `s`.
spec fn line_start(s: Seq<MessageV>, i: int, k: int) -> int {
    (message_lines(s.take(i)).len() + block_lines(s[i].role, s[i].content.take(k)).len()) as int
}

proof fn lemma_line_stands(s: Seq<MessageV>, i: int, k: int)
    requires
        0 <= i < s.len(),
        0 <= k < s[i].content.len(),
    ensures
        occurs_at(message_lines(s), block_line(s[i].role, s[i].content[k]), line_start(s, i, k)),
{
    let (role, content) = (s[i].role, s[i].content);
    let line = block_line(role, content[k]);
    let (before, behind) = (message_lines(s.take(i)), message_lines(s.skip(i + 1)));
    lemma_message_lines_add_up(s.take(i + 1), s.skip(i + 1));
    assert(s.take(i + 1) + s.skip(i + 1) =~= s);
    assert(s.take(i + 1).drop_last() =~= s.take(i));
    assert(message_lines(s.take(i + 1)) == before + block_lines(role, content));
    lemma_block_lines_add_up(role, content.take(k + 1), content.skip(k + 1));
    assert(content.take(k + 1) + content.skip(k + 1) =~= content);
    assert(content.take(k + 1).drop_last() =~= content.take(k));
    let near = block_lines(role, content.take(k));
    let rest = block_lines(role, content.skip(k + 1));
    assert(message_lines(s) =~= before + near + line + rest + behind);
    let at = line_start(s, i, k);
    assert(message_lines(s).subrange(at, at + line.len()) =~= line);
}

proof fn lemma_lines_in_order(s: Seq<MessageV>, i: int, k: int, j: int, l: int)
    requires
        0 <= i < s.len(),
        0 <= k < s[i].content.len(),
        0 <= j < s.len(),
        0 <= l < s[j].content.len(),
        i < j || (i == j && k < l),
    ensures
        line_start(s, i, k) + block_line(s[i].role, s[i].content[k]).len() <= line_start(s, j, l),
{
    let (role, content) = (s[i].role, s[i].content);
    assert(content.take(k + 1).drop_last() =~= content.take(k));
    assert(line_start(s, i, k) + block_line(role, content[k]).len() == message_lines(
        s.take(i),
    ).len() + block_lines(role, content.take(k + 1)).len());
    if i == j {
        lemma_block_lines_add_up(role, content.take(k + 1), content.subrange(k + 1, l));
        assert(content.take(k + 1) + content.subrange(k + 1, l) =~= content.take(l));
    } else {
        lemma_block_lines_add_up(role, content.take(k + 1), content.skip(k + 1));
        assert(content.take(k + 1) + content.skip(k + 1) =~= content);
        assert(s.take(i + 1).drop_last() =~= s.take(i));
        lemma_message_lines_add_up(s.take(i + 1), s.subrange(i + 1, j));
        assert(s.take(i + 1) + s.subrange(i + 1, j) =~= s.take(j));
    }
}

proof fn lemma_stands_behind(lead: Seq<char>, h: Seq<char>, n: Seq<char>, at: int)
    requires
        occurs_at(h, n, at),
    ensures
        occurs_at(lead + h, n, lead.len() + at),
{
    assert((lead + h).subrange(lead.len() + at, lead.len() + at + n.len()) =~= h.subrange(
        at,
        at + n.len(),
    ));
}

proof fn lemma_stands_within(h: Seq<char>, line: Seq<char>, n: Seq<char>, at: int, off: int)
    requires
        occurs_at(h, line, at),
        occurs_at(line, n, off),
    ensures
        occurs_at(h, n, at + off),
{
    let cut = h.subrange(at, at + line.len());
    assert(cut.subrange(off, off + n.len()) =~= h.subrange(at + off, at + off + n.len()));
}

/// What stands before the messages in what the summarizer reads.
spec fn lead_of(msgs: Seq<MessageV>, prior: bool) -> Seq<char> {
    if prior {
        msgs[0].content[0]->text + "\n\n--- New messages since last summary ---\n\n"@
    } else {
        Seq::empty()
    }
}

/// What is read out before the words of a role.
pub open spec fn speaker(role: Role) -> Seq<char> {
    match role {
        Role::System => "[System]: "@,
        Role::User => "[User]: "@,
        Role::Assistant => "[Assistant]: "@,
        Role::Tool => "[Tool]: "@,
    }
}

proof fn lemma_text_line(role: Role, text: Seq<char>)
    ensures
        block_line(role, BlockV::Text { text }) == speaker(role) + text + "\n"@,
{
    reveal_strlit("[");
    reveal_strlit("]: ");
    reveal_strlit("System");
    reveal_strlit("User");
    reveal_strlit("Assistant");
    reveal_strlit("Tool");
    reveal_strlit("[System]: ");
    reveal_strlit("[User]: ");
    reveal_strlit("[Assistant]: ");
    reveal_strlit("[Tool]: ");
    assert("["@ + role_name(role) + "]: "@ =~= speaker(role));
}

/// Nothing that was said is lost on the summarizer: whatever text stands in the
/// messages that a summary replaces, the summarizer reads the whole of it, on a line
/// of its own behind the name of who said it.
pub proof fn law_every_text_is_read_out(
    msgs: Seq<MessageV>,
    start: int,
    end: int,
    prior: bool,
    i: int,
    k: int,
)
    requires
        0 <= start <= i < end <= msgs.len(),
        0 <= k < msgs[i].content.len(),
        msgs[i].content[k] is Text,
    ensures
        holds(
            conversation_text(msgs, start, end, prior),
            speaker(msgs[i].role) + msgs[i].content[k]->text + "\n"@,
        ),
{
    let s = msgs.subrange(start, end);
    let lead = lead_of(msgs, prior);
    assert(s[i - start] == msgs[i]);
    lemma_line_stands(s, i - start, k);
    lemma_text_line(msgs[i].role, msgs[i].content[k]->text);
    let line = block_line(msgs[i].role, msgs[i].content[k]);
    lemma_stands_behind(lead, message_lines(s), line, line_start(s, i - start, k));
}

/// The texts are read out in the order of the transcript, the one wholly before the
/// other.
pub proof fn law_texts_are_read_in_order(
    msgs: Seq<MessageV>,
    start: int,
    end: int,
    prior: bool,
    i: int,
    k: int,
    j: int,
    l: int,
)
    requires
        0 <= start <= i < end <= msgs.len(),
        start <= j < end,
        0 <= k < msgs[i].content.len(),
        0 <= l < msgs[j].content.len(),
        msgs[i].content[k] is Text,
        msgs[j].content[l] is Text,
        i < j || (i == j && k < l),
    ensures
        ({
            let told = conversation_text(msgs, start, end, prior);
            let first = speaker(msgs[i].role) + msgs[i].content[k]->text + "\n"@;
            let second = speaker(msgs[j].role) + msgs[j].content[l]->text + "\n"@;
            exists|a: int, b: int|
                #[trigger] occurs_at(told, first, a) && #[trigger] occurs_at(told, second, b) && a
                    + first.len() <= b
        }),
{
    let s = msgs.subrange(start, end);
    let lead = lead_of(msgs, prior);
    let told = conversation_text(msgs, start, end, prior);
    let (x, y) = (i - start, j - start);
    assert(s[x] == msgs[i] && s[y] == msgs[j]);
    lemma_line_stands(s, x, k);
    lemma_line_stands(s, y, l);
    lemma_lines_in_order(s, x, k, y, l);
    lemma_text_line(msgs[i].role, msgs[i].content[k]->text);
    lemma_text_line(msgs[j].role, msgs[j].content[l]->text);
    let first = block_line(msgs[i].role, msgs[i].content[k]);
    let second = block_line(msgs[j].role, msgs[j].content[l]);
    lemma_stands_behind(lead, message_lines(s), first, line_start(s, x, k));
    lemma_stands_behind(lead, message_lines(s), second, line_start(s, y, l));
    assert(occurs_at(told, first, lead.len() + line_start(s, x, k)));
    assert(occurs_at(told, second, lead.len() + line_start(s, y, l)));
}

/// Every call is read out by its name, with the input up to 200 characters of it.
pub proof fn law_every_call_is_read_out(
    msgs: Seq<MessageV>,
    start: int,
    end: int,
    prior: bool,
    i: int,
    k: int,
    shown: nat,
)
    requires
        0 <= start <= i < end <= msgs.len(),
        0 <= k < msgs[i].content.len(),
        msgs[i].content[k] is ToolUse,
        shown <= 200,
        shown <= rendered_json(settled_json(msgs[i].content[k]->input)).len(),
    ensures
        holds(
            conversation_text(msgs, start, end, prior),
            " tool_use]: "@ + msgs[i].content[k]->name + "("@ + rendered_json(
                settled_json(msgs[i].content[k]->input),
            ).take(shown as int),
        ),
{
    let s = msgs.subrange(start, end);
    let lead = lead_of(msgs, prior);
    assert(s[i - start] == msgs[i]);
    lemma_line_stands(s, i - start, k);
    let line = block_line(msgs[i].role, msgs[i].content[k]);
    let at = line_start(s, i - start, k);
    let rendered = rendered_json(settled_json(msgs[i].content[k]->input));
    let wanted = " tool_use]: "@ + msgs[i].content[k]->name + "("@ + rendered.take(shown as int);
    let who = "["@ + role_name(msgs[i].role);
    assert(line.subrange(who.len() as int, (who.len() + wanted.len()) as int) =~= wanted);
    lemma_stands_within(message_lines(s), line, wanted, at, who.len() as int);
    lemma_stands_behind(lead, message_lines(s), wanted, at + who.len());
}

/// Every result is read out, the failed ones as such: up to 300 characters of it,
/// and the whole of one that has no more bytes than that.
pub proof fn law_every_result_is_read_out(
    msgs: Seq<MessageV>,
    start: int,
    end: int,
    prior: bool,
    i: int,
    k: int,
    shown: nat,
)
    requires
        0 <= start <= i < end <= msgs.len(),
        0 <= k < msgs[i].content.len(),
        msgs[i].content[k] is ToolResult,
        shown <= 300,
        shown <= msgs[i].content[k]->ToolResult_content.len(),
    ensures
        ({
            let told = conversation_text(msgs, start, end, prior);
            let content = msgs[i].content[k]->ToolResult_content;
            let heading = if msgs[i].content[k]->is_error {
                "[Tool error]: "@
            } else {
                "[Tool result]: "@
            };
            &&& holds(told, heading + content.take(shown as int))
            &&& utf8_len(content) <= 300 ==> holds(told, heading + content + "\n"@)
        }),
{
    let s = msgs.subrange(start, end);
    let lead = lead_of(msgs, prior);
    assert(s[i - start] == msgs[i]);
    lemma_line_stands(s, i - start, k);
    let line = block_line(msgs[i].role, msgs[i].content[k]);
    let at = line_start(s, i - start, k);
    let content = msgs[i].content[k]->ToolResult_content;
    let heading = if msgs[i].content[k]->is_error {
        "[Tool error]: "@
    } else {
        "[Tool result]: "@
    };
    let wanted = heading + content.take(shown as int);
    assert(line.subrange(0, wanted.len() as int) =~= wanted);
    lemma_stands_within(message_lines(s), line, wanted, at, 0);
    lemma_stands_behind(lead, message_lines(s), wanted, at);
    if utf8_len(content) <= 300 {
        lemma_utf8_at_least_chars(content);
        assert(first_chars(content, 300) =~= content);
        lemma_stands_behind(lead, message_lines(s), line, at);
    }
}

/// An earlier summary is handed on whole, before anything else.
pub proof fn law_prior_summary_is_handed_on(msgs: Seq<MessageV>, start: int, end: int)
    requires
        opens_on_summary(msgs),
    ensures
        begins(conversation_text(msgs, start, end, true), msgs[0].content[0]->text),
{
    let text = msgs[0].content[0]->text;
    assert(conversation_text(msgs, start, end, true).subrange(0, text.len() as int) =~= text);
}

/// What is read out of a stretch of messages is what is read out of its parts, one
/// after the other, and of nothing it is nothing.
pub proof fn law_reading_adds_up(msgs: Seq<MessageV>, a: int, b: int, c: int)
    requires
        0 <= a <= b <= c <= msgs.len(),
    ensures
        conversation_text(msgs, a, c, false) == conversation_text(msgs, a, b, false)
            + conversation_text(msgs, b, c, false),
        conversation_text(msgs, a, a, false).len() == 0,
{
    lemma_message_lines_add_up(msgs.subrange(a, b), msgs.subrange(b, c));
    assert(msgs.subrange(a, b) + msgs.subrange(b, c) =~= msgs.subrange(a, c));
    assert(msgs.subrange(a, a) =~= Seq::empty());
    assert(conversation_text(msgs, a, c, false) =~= conversation_text(msgs, a, b, false)
        + conversation_text(msgs, b, c, false));
}

proof fn lemma_files_are_listed(files: Seq<Seq<char>>, f: int)
    requires
        0 <= f < files.len(),
    ensures
        holds(files_list(files), "- "@ + files[f] + "\n"@),
    decreases files.len(),
{
    let all = files_list(files);
    let wanted = "- "@ + files[f] + "\n"@;
    let front = files_list(files.drop_last());
    if f == files.len() - 1 {
        let at = front.len() as int;
        assert(all.subrange(at, at + wanted.len()) =~= wanted);
        assert(occurs_at(all, wanted, at));
    } else {
        lemma_files_are_listed(files.drop_last(), f);
        let at = choose|at: int| occurs_at(front, wanted, at);
        assert(all.subrange(at, at + wanted.len()) =~= front.subrange(at, at + wanted.len()));
        assert(occurs_at(all, wanted, at));
    }
}

proof fn lemma_holds_around(front: Seq<char>, middle: Seq<char>, back: Seq<char>, n: Seq<char>)
    requires
        holds(middle, n),
    ensures
        holds(front + middle + back, n),
{
    let at = choose|at: int| occurs_at(middle, n, at);
    let all = front + middle + back;
    let from = front.len() + at;
    assert(all.subrange(from, from + n.len()) =~= middle.subrange(at, at + n.len()));
    assert(occurs_at(all, n, from));
}

/// The request to the summarizer leaves out nothing. The conversation as text ends
/// its last message; verbatim, the messages stand in it as they are. Either way the
/// instructions and every file that was modified are told.
pub proof fn law_request_tells_everything(
    msgs: Seq<MessageV>,
    plan: CompactionPlan,
    verbatim: bool,
    system_prompt: Option<Seq<char>>,
    files: Seq<Seq<char>>,
    f: int,
)
    requires
        plan.start < plan.end <= msgs.len(),
    ensures
        ({
            let asked = request_messages(msgs, plan, verbatim, system_prompt, files);
            let last = asked.last();
            &&& asked.len() >= 2
            &&& asked[0].role == Role::System
            &&& last.role == Role::User
            &&& last.content.len() == 1
            &&& last.content[0] is Text
            &&& verbatim ==> asked.subrange(1, asked.len() - 1) == msgs.take(plan.end as int)
                && holds(last.content[0]->text, SUMMARY_INSTRUCTIONS@)
            &&& verbatim && system_prompt is Some ==> asked[0].content == seq![
                BlockV::Text { text: system_prompt->0 },
            ]
            &&& !verbatim ==> asked.len() == 2 && asked[0].content == seq![
                BlockV::Text { text: SUMMARY_INSTRUCTIONS@ },
            ] && ends(
                last.content[0]->text,
                conversation_text(msgs, plan.start as int, plan.end as int, plan.prior_summary),
            )
            &&& 0 <= f < files.len() ==> holds(last.content[0]->text, "- "@ + files[f] + "\n"@)
        }),
{
    let told = conversation_text(msgs, plan.start as int, plan.end as int, plan.prior_summary);
    let asked = request_messages(msgs, plan, verbatim, system_prompt, files);
    let text = asked.last().content[0]->text;
    let orders = "\nDo not call any tool: reply with the summary text only."@;
    assert(text == closing_text(verbatim, told, files));
    if verbatim {
        assert(asked.subrange(1, asked.len() - 1) =~= msgs.take(plan.end as int));
        assert(text.subrange(0, SUMMARY_INSTRUCTIONS@.len() as int) =~= SUMMARY_INSTRUCTIONS@);
        assert(occurs_at(text, SUMMARY_INSTRUCTIONS@, 0));
    } else {
        assert(text.subrange(text.len() - told.len(), text.len() as int) =~= told);
    }
    if 0 <= f < files.len() {
        lemma_files_are_listed(files, f);
        let wanted = "- "@ + files[f] + "\n"@;
        if verbatim {
            let front = SUMMARY_INSTRUCTIONS@ + orders + "\n\n"@ + FILES_HEADER@ + "\n"@;
            lemma_holds_around(front, files_list(files), Seq::empty(), wanted);
            assert(front + files_list(files) + Seq::<char>::empty() =~= text);
        } else {
            let front = FILES_HEADER@ + "\n"@;
            lemma_holds_around(front, files_list(files), "\n"@ + told, wanted);
            assert(front + files_list(files) + ("\n"@ + told) =~= text);
        }
    }
}

/// What a summary leaves behind is found again: the first message ends in the
/// summary, is marked as the machine's, and the next compaction takes it for an
/// earlier summary and hands it on.
pub proof fn law_summary_is_found_again(
    count: nat,
    summary: Seq<char>,
    rest: Seq<MessageV>,
    end: int,
)
    ensures
        ({
            let next = summary_pair(count, summary) + rest;
            &&& next.len() == rest.len() + 2
            &&& next.skip(2) == rest
            &&& next[0].role == Role::User && next[0].injected
            &&& next[0].content.len() == 1 && next[0].content[0] is Text
            &&& ends(next[0].content[0]->text, summary)
            &&& next[1].role == Role::Assistant
            &&& opens_on_summary(next)
            &&& region_start(next) == 2
            &&& holds(conversation_text(next, 2, end, true), summary)
        }),
{
    let next = summary_pair(count, summary) + rest;
    assert(next.skip(2) =~= rest);
    let text = next[0].content[0]->text;
    let from = text.len() - summary.len();
    assert(text.subrange(from, text.len() as int) =~= summary);
    reveal_strlit("[Previous conversation summary");
    reveal_strlit("[Previous conversation summary — ");
    let mark = "[Previous conversation summary"@;
    assert(text.subrange(0, mark.len() as int) =~= mark);
    let told = conversation_text(next, 2, end, true);
    assert(told.subrange(from, from + summary.len()) =~= summary);
    assert(occurs_at(told, summary, from));
}

/// Fewer messages are kept than asked for only where they weigh too much; two are
/// kept even then.
pub proof fn law_newest_messages_are_kept(
    msgs: Seq<MessageV>,
    keep_recent: Option<usize>,
    budget: nat,
    k: int,
)
    requires
        msgs.len() > 0,
        keep_recent != Some(0usize),
        0 < k <= msgs.len(),
        k <= (match keep_recent {
            Some(n) => n as int,
            None => 6,
        }),
        k <= 2 || estimated_tokens(msgs.skip(msgs.len() - k)) <= budget,
    ensures
        planned(msgs, keep_recent, budget) matches Ok((_, end, _)) ==> end <= msgs.len() - k,
{
    let requested = requested_keep(msgs, keep_recent);
    lemma_kept_range(msgs, requested, budget, 0);
    lemma_kept_as_many(msgs, requested, budget, 0, k);
    let keep = kept_from(msgs, requested, budget, 0);
    lemma_off_results(msgs, msgs.len() - keep);
    lemma_turn_of(msgs, off_results(msgs, msgs.len() - keep));
}

proof fn lemma_kept_as_many(msgs: Seq<MessageV>, requested: int, budget: nat, from: int, k: int)
    requires
        0 <= from <= k <= requested <= msgs.len(),
        k <= 2 || estimated_tokens(msgs.skip(msgs.len() - k)) <= budget,
    ensures
        kept_from(msgs, requested, budget, from) >= k,
    decreases requested - from,
{
    if from < k {
        if from >= 2 {
            let (n, m) = (msgs.len() as int, from + 1);
            lemma_estimate_splits(msgs, n - k, n - m, n);
            assert(msgs.subrange(n - k, n) =~= msgs.skip(n - k));
            assert(tail_tokens(msgs, m) <= budget);
        }
        lemma_kept_as_many(msgs, requested, budget, from + 1, k);
    } else {
        lemma_kept_range(msgs, requested, budget, from);
    }
}

proof fn lemma_passed_over(msgs: Seq<MessageV>, i: int, x: int)
    requires
        0 <= i < msgs.len(),
        off_results(msgs, i) < x <= i,
    ensures
        opens_on_result(msgs[x]),
    decreases i,
{
    if i > 0 && opens_on_result(msgs[i]) && x < i {
        lemma_passed_over(msgs, i - 1, x);
    }
}

/// More messages are kept than asked for only to keep results with their calls, or
/// a turn whole. For the second, what is kept fits the budget, but for the messages
/// that were kept with their calls.
pub proof fn law_more_is_kept_for_a_reason(
    msgs: Seq<MessageV>,
    keep_recent: Option<usize>,
    budget: nat,
)
    requires
        msgs.len() > 0,
        keep_recent != Some(0usize),
    ensures
        ({
            let asked = match keep_recent {
                Some(n) => n as int,
                None => 6,
            };
            planned(msgs, keep_recent, budget) matches Ok((_, end, _)) ==> {
                ||| end >= msgs.len() - asked
                ||| opens_on_result(msgs[end + 1])
                ||| turn_start(msgs[end]) && exists|c: int, f: int|
                    #![trigger msgs.subrange(end, c), msgs.skip(f)]
                    end <= c <= f < msgs.len() && (forall|x: int|
                        c < x <= f ==> opens_on_result(#[trigger] msgs[x]))
                        && estimated_tokens(msgs.subrange(end, c)) + estimated_tokens(
                        msgs.skip(f),
                    ) <= budget
            }
        }),
{
    let requested = requested_keep(msgs, keep_recent);
    lemma_kept_range(msgs, requested, budget, 0);
    let keep = kept_from(msgs, requested, budget, 0);
    let first = msgs.len() - keep;
    lemma_off_results(msgs, first);
    let cut = off_results(msgs, first);
    lemma_turn_of(msgs, cut);
    let end = boundary(msgs, keep_recent, budget);
    assert forall|x: int| cut < x <= first implies opens_on_result(#[trigger] msgs[x]) by {
        lemma_passed_over(msgs, first, x);
    }
    assert(msgs.subrange(first, msgs.len() as int) =~= msgs.skip(first));
    if end == cut {
        if cut < first {
            assert(opens_on_result(msgs[cut + 1]));
        }
    } else {
        let (c, f) = (cut, first);
        assert(estimated_tokens(msgs.subrange(end, c)) + estimated_tokens(msgs.skip(f)) <= budget);
    }
}

/// A file that a compacted call modifies is remembered exactly where it lies outside the
/// trust root.
pub proof fn law_modified_files_are_remembered(
    paths: Seq<Option<Seq<char>>>,
    root: Option<Seq<char>>,
    p: Seq<char>,
)
    ensures
        touched_files(paths, root).contains(p) <==> paths.contains(Some(p)) && (root is None
            || !lies_under(p, root->0)),
    decreases paths.len(),
{
    if paths.len() > 0 {
        let front = paths.drop_last();
        let (before, all) = (touched_files(front, root), touched_files(paths, root));
        law_modified_files_are_remembered(front, root, p);
        if all.contains(p) {
            let k = choose|k: int| 0 <= k < all.len() && all[k] == p;
            if k < before.len() {
                assert(before[k] == p);
                let j = choose|j: int| 0 <= j < front.len() && front[j] == Some(p);
                assert(paths[j] == Some(p));
            } else {
                assert(paths[paths.len() - 1] == Some(p));
            }
        }
        if paths.contains(Some(p)) && (root is None || !lies_under(p, root->0)) {
            let j = choose|j: int| 0 <= j < paths.len() && paths[j] == Some(p);
            if j < front.len() {
                assert(front[j] == Some(p));
                let k = choose|k: int| 0 <= k < before.len() && before[k] == p;
                assert(all[k] == p);
            } else {
                assert(all[all.len() - 1] == p);
            }
        }
    }
}

/// The calls of two parts of a transcript follow each other, and those of a message are
/// its own, in order, each with its input.
pub proof fn law_calls_are_gathered_in_order(
    a: Seq<MessageV>,
    b: Seq<MessageV>,
    x: Seq<BlockV>,
    name: Seq<char>,
    input: JsonV,
    id: Seq<char>,
    m: MessageV,
)
    ensures
        uses_in_all(a + b) == uses_in_all(a) + uses_in_all(b),
        uses_in_all(seq![m]) == uses_in(m.content),
        uses_in(x.push(BlockV::ToolUse { id, name, input })) == uses_in(x).push((name, input)),
    decreases b.len(),
{
    let one = seq![m];
    assert(one.drop_last() =~= Seq::empty());
    assert(uses_in_all(one.drop_last()) =~= Seq::empty());
    assert(uses_in_all(one) =~= uses_in(m.content));
    assert(x.push(BlockV::ToolUse { id, name, input }).drop_last() =~= x);
    if b.len() == 0 {
        assert(a + b =~= a);
        assert(uses_in_all(a) + uses_in_all(b) =~= uses_in_all(a));
    } else {
        law_calls_are_gathered_in_order(a, b.drop_last(), x, name, input, id, m);
        assert((a + b).drop_last() =~= a + b.drop_last());
        assert((a + b).last() == b.last());
        let (p, q) = (uses_in_all(a), uses_in_all(b.drop_last()));
        assert((p + q) + uses_in(b.last().content) =~= p + (q + uses_in(b.last().content)));
    }
}

proof fn lemma_file_is_listed(files: Seq<Seq<char>>, i: int)
    requires
        0 <= i < files.len(),
    ensures
        holds(files_list(files), "- "@ + files[i] + "\n"@),
    decreases files.len(),
{
    let all = files_list(files);
    let before = files_list(files.drop_last());
    let n = "- "@ + files[i] + "\n"@;
    if i == files.len() - 1 {
        let at = before.len() as int;
        assert(all.subrange(at, at + n.len()) =~= n);
        assert(occurs_at(all, n, at));
    } else {
        lemma_file_is_listed(files.drop_last(), i);
        let at = choose|at: int| occurs_at(before, n, at);
        assert(all.subrange(at, at + n.len()) =~= before.subrange(at, at + n.len()));
        assert(occurs_at(all, n, at));
    }
}

/// The request names every file that was modified, and it ends with the conversation,
/// whole, where the transcript itself is not sent.
pub proof fn law_modified_files_are_named(
    verbatim: bool,
    conversation: Seq<char>,
    files: Seq<Seq<char>>,
    i: int,
)
    ensures
        0 <= i < files.len() ==> holds(
            closing_text(verbatim, conversation, files),
            "- "@ + files[i] + "\n"@,
        ),
        !verbatim ==> ends(closing_text(verbatim, conversation, files), conversation),
        verbatim ==> begins(closing_text(verbatim, conversation, files), SUMMARY_INSTRUCTIONS@),
{
    let all = closing_text(verbatim, conversation, files);
    let asked = SUMMARY_INSTRUCTIONS@
        + "\nDo not call any tool: reply with the summary text only."@;
    if !verbatim {
        assert(all.subrange(all.len() - conversation.len(), all.len() as int) =~= conversation);
    } else {
        assert(all.subrange(0, SUMMARY_INSTRUCTIONS@.len() as int) =~= SUMMARY_INSTRUCTIONS@);
    }
    if 0 <= i < files.len() {
        lemma_file_is_listed(files, i);
        let list = files_list(files);
        let n = "- "@ + files[i] + "\n"@;
        let at = choose|at: int| occurs_at(list, n, at);
        let lead = if verbatim {
            asked + "\n\n"@ + FILES_HEADER@ + "\n"@
        } else {
            FILES_HEADER@ + "\n"@
        };
        let from = lead.len() + at;
        assert(all.subrange(from, from + n.len()) =~= list.subrange(at, at + n.len()));
        assert(occurs_at(all, n, from));
    }
}

proof fn lemma_recovery_line(lines: Seq<Seq<char>>, i: int)
    requires
        0 <= i < lines.len(),
        holds(lines[i], "full output: "@),
        forall|k: int| 0 <= k < i ==> !holds(#[trigger] lines[k], "full output: "@),
    ensures
        recovery_line(lines) == Some(lines[i]),
    decreases lines.len(),
{
    if i > 0 {
        let rest = lines.drop_first();
        assert(!holds(lines[0], "full output: "@));
        assert forall|k: int| 0 <= k < i - 1 implies !holds(
            #[trigger] rest[k],
            "full output: "@,
        ) by {
            assert(rest[k] == lines[k + 1]);
        }
        lemma_recovery_line(rest, i - 1);
    }
}

/// What stands in the place of a pruned result tells how large it was, and where the whole
/// of it can still be read if the result said so.
pub proof fn law_pruned_results_can_be_found(content: Seq<char>, is_error: bool, i: int)
    ensures
        holds(prune_marker(content, is_error), decimal(utf8_len(content)) + " chars of tool "@),
        0 <= i < lines_of(content).len() && holds(lines_of(content)[i], "full output: "@) && (
        forall|k: int| 0 <= k < i ==> !holds(#[trigger] lines_of(content)[k], "full output: "@))
            ==> holds(prune_marker(content, is_error), trimmed(lines_of(content)[i])),
{
    let all = prune_marker(content, is_error);
    let lead = "[pruned to fit the context: "@;
    let n = decimal(utf8_len(content)) + " chars of tool "@;
    let at = lead.len() as int;
    assert(all.subrange(at, at + n.len()) =~= n);
    assert(occurs_at(all, n, at));
    if 0 <= i < lines_of(content).len() && holds(lines_of(content)[i], "full output: "@) && (
    forall|k: int| 0 <= k < i ==> !holds(#[trigger] lines_of(content)[k], "full output: "@)) {
        lemma_recovery_line(lines_of(content), i);
        let l = trimmed(lines_of(content)[i]);
        let front = lead + decimal(utf8_len(content)) + " chars of tool "@ + (if is_error {
            "error output"@
        } else {
            "output"@
        }) + " dropped"@ + " — "@;
        assert(all =~= front + l + "]"@);
        let from = front.len() as int;
        assert(all.subrange(from, from + l.len()) =~= l);
        assert(occurs_at(all, l, from));
    }
}

/// What pruning frees adds up over blocks and messages.
pub proof fn law_freed_tokens_add_up(
    x: Seq<BlockV>,
    y: Seq<BlockV>,
    a: Seq<MessageV>,
    b: Seq<MessageV>,
)
    ensures
        freed_by_blocks(x + y) == freed_by_blocks(x) + freed_by_blocks(y),
        freed_by(a + b) == freed_by(a) + freed_by(b),
    decreases y.len() + b.len(),
{
    if y.len() > 0 {
        law_freed_tokens_add_up(x, y.drop_last(), a, b);
        assert((x + y).drop_last() =~= x + y.drop_last());
        assert((x + y).last() == y.last());
    } else {
        assert(x + y =~= x);
        if b.len() > 0 {
            law_freed_tokens_add_up(x, y, a, b.drop_last());
            assert((a + b).drop_last() =~= a + b.drop_last());
            assert((a + b).last() == b.last());
        } else {
            assert(a + b =~= a);
        }
    }
}

/// A pruned result frees what it held beyond the note in its place, three bytes to a
/// token; nothing else frees anything.
pub proof fn law_pruned_results_free_their_bytes(b: BlockV)
    ensures
        !(b is ToolResult) ==> freed_by_block(b) == 0,
        b is ToolResult && prunable(b) ==> {
            let gone = utf8_len(b->ToolResult_content) - utf8_len(
                prune_marker(b->ToolResult_content, b->is_error),
            );
            gone >= 0 ==> 3 * freed_by_block(b) <= gone < 3 * freed_by_block(b) + 3
        },
        !prunable(b) ==> freed_by_block(b) == 0,
{
}

} // verus!
