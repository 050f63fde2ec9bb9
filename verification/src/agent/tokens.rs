//! How large the context is, and when it has to be compacted.
use vstd::prelude::*;
use crate::agent::RequestAnchor;
use crate::json::{rendered_json, settled_json};
use crate::text::{
    byte_len, decimal, law_numbers_are_read_back, parse_number, parsed_number, utf8_len,
};
use crate::types::{blocks, transcript, BlockV, ContentBlock, Message, MessageV};

verus! {

/// How many bytes of text are counted as one token.
pub const CHARS_PER_TOKEN_ESTIMATE: usize = 3;

/// The estimated tokens of one block: the bytes of what it carries, divided.
pub open spec fn block_tokens(b: BlockV) -> nat {
    match b {
        BlockV::Text { text } => utf8_len(text) / 3,
        BlockV::Thinking { thinking } => utf8_len(thinking) / 3,
        BlockV::ToolUse { id, name, input } => utf8_len(rendered_json(settled_json(input))) / 3,
        BlockV::ToolResult { tool_use_id, content, is_error } => utf8_len(content) / 3,
        BlockV::Image { media_type, data } => utf8_len(data) / 3,
    }
}

/// The estimated tokens of some blocks.
pub open spec fn blocks_tokens(s: Seq<BlockV>) -> nat
    decreases s.len(),
{
    if s.len() == 0 {
        0
    } else {
        blocks_tokens(s.drop_last()) + block_tokens(s.last())
    }
}

/// The estimated tokens of some messages.
pub open spec fn estimated_tokens(s: Seq<MessageV>) -> nat
    decreases s.len(),
{
    if s.len() == 0 {
        0
    } else {
        estimated_tokens(s.drop_last()) + blocks_tokens(s.last().content)
    }
}

/// A count as far as the machine can hold it.
pub open spec fn held(n: nat) -> nat {
    if n <= usize::MAX {
        n
    } else {
        usize::MAX as nat
    }
}

fn count_block(b: &ContentBlock) -> (n: usize)
    ensures
        n == block_tokens(b@),
{
    let bytes: usize = match b {
        ContentBlock::Text { text } => byte_len(text.as_str()),
        ContentBlock::Thinking { thinking } => byte_len(thinking.as_str()),
        ContentBlock::ToolUse { input, .. } => {
            let text = input.render();
            byte_len(text.as_str())
        },
        ContentBlock::ToolResult { content, .. } => byte_len(content.as_str()),
        ContentBlock::Image { data, .. } => byte_len(data.as_str()),
    };
    bytes / CHARS_PER_TOKEN_ESTIMATE
}

fn count_blocks(v: &Vec<ContentBlock>) -> (n: usize)
    ensures
        n == held(blocks_tokens(blocks(v@))),
{
    let ghost bs = blocks(v@);
    let mut n: usize = 0;
    let mut i: usize = 0;
    assert(bs.take(0) =~= Seq::empty());
    while i < v.len()
        invariant
            i <= v@.len(),
            bs == blocks(v@),
            n == held(blocks_tokens(bs.take(i as int))),
        decreases v@.len() - i,
    {
        assert(bs.take(i + 1).drop_last() =~= bs.take(i as int));
        assert(bs[i as int] == v@[i as int]@);
        n = n.saturating_add(count_block(&v[i]));
        i += 1;
    }
    assert(bs.take(i as int) =~= bs);
    n
}

/// The estimated tokens of the messages `messages[from..to]`.
pub fn estimate_range(messages: &Vec<Message>, from: usize, to: usize) -> (n: usize)
    requires
        from <= to <= messages@.len(),
    ensures
        n == held(estimated_tokens(transcript(messages@).subrange(from as int, to as int))),
{
    let ghost all = transcript(messages@);
    let mut n: usize = 0;
    let mut i: usize = from;
    assert(all.subrange(from as int, from as int) =~= Seq::empty());
    while i < to
        invariant
            from <= i <= to <= messages@.len(),
            all == transcript(messages@),
            n == held(estimated_tokens(all.subrange(from as int, i as int))),
        decreases to - i,
    {
        assert(all.subrange(from as int, i + 1).drop_last() =~= all.subrange(from as int, i as int));
        assert(all[i as int] == messages@[i as int]@);
        n = n.saturating_add(count_blocks(&messages[i].content));
        i += 1;
    }
    n
}

/// The estimated tokens of a transcript.
pub fn estimate_context_tokens(messages: &Vec<Message>) -> (n: usize)
    ensures
        n == held(estimated_tokens(transcript(messages@))),
{
    let n = estimate_range(messages, 0, messages.len());
    assert(transcript(messages@).subrange(0, messages@.len() as int) =~= transcript(messages@));
    n
}

/// The size of the context: what the provider counted for the last request and
/// an estimate of what came since, or an estimate of the whole where there is
/// no count or the transcript is shorter than it was when counted.
pub open spec fn context_size(messages: Seq<MessageV>, anchor: Option<RequestAnchor>) -> nat {
    match anchor {
        Some(a) => if a.messages_len <= messages.len() {
            held(
                a.input_tokens as nat + held(
                    estimated_tokens(messages.subrange(a.messages_len as int, messages.len() as int)),
                ),
            )
        } else {
            held(estimated_tokens(messages))
        },
        None => held(estimated_tokens(messages)),
    }
}

/// Computes [`context_size`].
pub fn context_tokens(messages: &Vec<Message>, last_request: Option<RequestAnchor>) -> (n: usize)
    ensures
        n == context_size(transcript(messages@), last_request),
{
    match last_request {
        Some(anchor) if anchor.messages_len <= messages.len() => {
            let since = estimate_range(messages, anchor.messages_len, messages.len());
            anchor.input_tokens.saturating_add(since)
        },
        _ => estimate_context_tokens(messages),
    }
}

/// The budget that a setting asks for; zero and anything but a number ask for
/// none.
pub open spec fn asked_budget(setting: Option<Seq<char>>) -> Option<nat> {
    match setting {
        Some(t) => match parsed_number(t, usize::MAX as nat) {
            Some(n) => if n > 0 {
                Some(n)
            } else {
                None
            },
            None => None,
        },
        None => None,
    }
}

/// Reads the compaction budget from the value of `SIRBONE_COMPACT_BUDGET`.
pub fn compact_budget(setting: Option<&str>) -> (r: Option<usize>)
    ensures
        match r {
            Some(n) => setting is Some && asked_budget(Some(setting->0@)) == Some(n as nat),
            None => setting is None || asked_budget(Some(setting->0@)) is None,
        },
{
    match setting {
        Some(t) => match parse_number(t, usize::MAX as u64) {
            Some(n) if n > 0 => Some(n as usize),
            _ => None,
        },
        None => None,
    }
}

/// The tokens that compaction may keep: half the window, and no more than a
/// third of the budget.
pub open spec fn kept_budget(context_window: nat, budget: Option<usize>) -> nat {
    match budget {
        Some(b) => if (b / 3) as nat <= context_window / 2 {
            (b / 3) as nat
        } else {
            context_window / 2
        },
        None => context_window / 2,
    }
}

/// Computes [`kept_budget`].
pub fn keep_budget(context_window: usize, budget: Option<usize>) -> (n: usize)
    ensures
        n == kept_budget(context_window as nat, budget),
{
    let legacy: usize = context_window / 2;
    match budget {
        Some(b) => if b / 3 <= legacy {
            b / 3
        } else {
            legacy
        },
        None => legacy,
    }
}

/// The size at which compaction is due: seven eighths of the window, or the
/// budget if that is less.
pub open spec fn compaction_threshold(context_window: nat, budget: Option<usize>) -> nat {
    let backstop = (context_window - context_window / 8) as nat;
    match budget {
        Some(b) => if b as nat <= backstop {
            b as nat
        } else {
            backstop
        },
        None => backstop,
    }
}

/// Compaction is due: the threshold is reached, and at least two messages stand
/// before those that are kept.
pub open spec fn compaction_due(
    estimated: nat,
    context_window: nat,
    msg_count: nat,
    keep: nat,
    budget: Option<usize>,
) -> bool {
    msg_count >= keep + 2 && estimated >= compaction_threshold(context_window, budget)
}

/// Decides [`compaction_due`].
pub fn should_compact(
    estimated_tokens: usize,
    context_window: usize,
    msg_count: usize,
    keep: usize,
    budget: Option<usize>,
) -> (b: bool)
    ensures
        b == compaction_due(
            estimated_tokens as nat,
            context_window as nat,
            msg_count as nat,
            keep as nat,
            budget,
        ),
{
    let reserve: usize = context_window / 8;
    let backstop: usize = context_window.saturating_sub(reserve);
    let asked: usize = match budget {
        Some(b) => b,
        None => usize::MAX,
    };
    let threshold: usize = if asked <= backstop {
        asked
    } else {
        backstop
    };
    msg_count.saturating_sub(keep) >= 2 && estimated_tokens >= threshold
}

/// However large the budget, a context that fills seven eighths of the window
/// is compacted, given messages to compact: a budget never takes the backstop
/// away.
pub proof fn law_budget_keeps_the_backstop(
    estimated: nat,
    context_window: nat,
    msg_count: nat,
    keep: nat,
    budget: Option<usize>,
)
    requires
        compaction_due(estimated, context_window, msg_count, keep, None),
    ensures
        compaction_due(estimated, context_window, msg_count, keep, budget),
{
}

/// What compaction keeps lies below what triggers it, so a compacted context is
/// not due again for the kept messages alone, in a window of any size.
pub proof fn law_kept_window_lies_below_the_trigger(context_window: nat, budget: Option<usize>)
    requires
        context_window >= 2,
        budget matches Some(b) ==> b >= 1,
    ensures
        kept_budget(context_window, budget) < compaction_threshold(context_window, budget),
{
}

/// A transcript shorter than the one the provider counted is measured as if
/// nothing had been counted.
pub proof fn law_stale_anchor_is_dropped(messages: Seq<MessageV>, anchor: RequestAnchor)
    requires
        messages.len() < anchor.messages_len,
    ensures
        context_size(messages, Some(anchor)) == context_size(messages, None),
{
}

/// A current count is a floor: what the provider counted is never estimated
/// away.
pub proof fn law_count_is_a_floor(messages: Seq<MessageV>, anchor: RequestAnchor)
    requires
        anchor.messages_len <= messages.len(),
    ensures
        context_size(messages, Some(anchor)) >= anchor.input_tokens,
{
}

// ------------------------------------------------------------ laws

/// The blocks of some messages, one after the other.
pub open spec fn content_of(s: Seq<MessageV>) -> Seq<BlockV>
    decreases s.len(),
{
    if s.len() == 0 {
        Seq::empty()
    } else {
        content_of(s.drop_last()) + s.last().content
    }
}

proof fn lemma_block_estimates_add_up(a: Seq<BlockV>, b: Seq<BlockV>)
    ensures
        blocks_tokens(a + b) == blocks_tokens(a) + blocks_tokens(b),
    decreases b.len(),
{
    if b.len() > 0 {
        lemma_block_estimates_add_up(a, b.drop_last());
        assert((a + b).drop_last() =~= a + b.drop_last());
        assert((a + b).last() == b.last());
    } else {
        assert(a + b =~= a);
    }
}

/// The estimate of two transcripts in a row is the sum of theirs, and that of none
/// is zero. The count stops at the largest that the machine holds; up to it, the
/// counts add up too.
pub proof fn law_estimates_add_up(a: Seq<MessageV>, b: Seq<MessageV>)
    ensures
        estimated_tokens(Seq::empty()) == 0,
        estimated_tokens(a + b) == estimated_tokens(a) + estimated_tokens(b),
        held(estimated_tokens(Seq::empty())) == 0,
        held(estimated_tokens(a + b)) == held(
            held(estimated_tokens(a)) + held(estimated_tokens(b)),
        ),
        estimated_tokens(a + b) <= usize::MAX ==> held(estimated_tokens(a + b)) == held(
            estimated_tokens(a),
        ) + held(estimated_tokens(b)),
    decreases b.len(),
{
    if b.len() > 0 {
        law_estimates_add_up(a, b.drop_last());
        assert((a + b).drop_last() =~= a + b.drop_last());
        assert((a + b).last() == b.last());
    } else {
        assert(a + b =~= a);
    }
}

/// The estimate depends on the blocks alone: how they are spread over messages, and
/// whose messages these are, counts for nothing.
pub proof fn law_estimates_follow_the_blocks(a: Seq<MessageV>, b: Seq<MessageV>)
    requires
        content_of(a) == content_of(b),
    ensures
        estimated_tokens(a) == estimated_tokens(b),
        held(estimated_tokens(a)) == held(estimated_tokens(b)),
{
    lemma_estimate_of_blocks(a);
    lemma_estimate_of_blocks(b);
}

proof fn lemma_estimate_of_blocks(s: Seq<MessageV>)
    ensures
        estimated_tokens(s) == blocks_tokens(content_of(s)),
    decreases s.len(),
{
    if s.len() > 0 {
        lemma_estimate_of_blocks(s.drop_last());
        lemma_block_estimates_add_up(content_of(s.drop_last()), s.last().content);
    }
}

/// Every block is weighed by the bytes that it carries, three to a token, whatever its
/// kind.
pub proof fn law_blocks_are_weighed_by_their_bytes(b: BlockV)
    ensures
        ({
            let bytes = match b {
                BlockV::Text { text } => utf8_len(text),
                BlockV::Thinking { thinking } => utf8_len(thinking),
                BlockV::ToolUse { id, name, input } => utf8_len(
                    rendered_json(settled_json(input)),
                ),
                BlockV::ToolResult { tool_use_id, content, is_error } => utf8_len(content),
                BlockV::Image { media_type, data } => utf8_len(data),
            };
            3 * block_tokens(b) <= bytes < 3 * block_tokens(b) + 3
        }),
{
}

/// The weights of blocks add up.
pub proof fn law_block_weights_add_up(x: Seq<BlockV>, y: Seq<BlockV>)
    ensures
        blocks_tokens(x + y) == blocks_tokens(x) + blocks_tokens(y),
    decreases y.len(),
{
    if y.len() > 0 {
        law_block_weights_add_up(x, y.drop_last());
        assert((x + y).drop_last() =~= x + y.drop_last());
        assert((x + y).last() == y.last());
    } else {
        assert(x + y =~= x);
    }
}

/// A message is weighed by its blocks.
pub proof fn law_messages_are_weighed_by_their_blocks(m: MessageV, b: BlockV)
    ensures
        estimated_tokens(seq![m]) == blocks_tokens(m.content),
        blocks_tokens(seq![b]) == block_tokens(b),
{
    let one = seq![m];
    assert(one.drop_last() =~= Seq::empty());
    assert(estimated_tokens(one.drop_last()) == 0);
    let block = seq![b];
    assert(block.drop_last() =~= Seq::empty());
    assert(blocks_tokens(block.drop_last()) == 0);
}

/// What came since the last request is weighed on top of what the provider counted for
/// it; without a count, all of the transcript is weighed.
pub proof fn law_context_is_the_count_and_what_came_since(
    sent: Seq<MessageV>,
    since: Seq<MessageV>,
    tokens: usize,
)
    requires
        sent.len() <= usize::MAX,
        tokens + estimated_tokens(since) <= usize::MAX,
    ensures
        context_size(
            sent + since,
            Some(RequestAnchor { input_tokens: tokens, messages_len: sent.len() as usize }),
        ) == tokens + estimated_tokens(since),
        estimated_tokens(sent + since) <= usize::MAX ==> context_size(sent + since, None)
            == estimated_tokens(sent + since),
{
    assert((sent + since).subrange(sent.len() as int, (sent + since).len() as int) =~= since);
}

/// Compaction is due from seven eighths of the window on, or from the budget on where that
/// is less, as long as two messages stand before those that are kept.
pub proof fn law_compaction_is_due_at_the_limit(
    estimated: nat,
    window: nat,
    count: nat,
    keep: nat,
    budget: usize,
)
    ensures
        count < keep + 2 ==> !compaction_due(estimated, window, count, keep, Some(budget)),
        count >= keep + 2 ==> (compaction_due(estimated, window, count, keep, None) <==> 8
            * estimated >= 7 * window && estimated >= window - window / 8),
        count >= keep + 2 && estimated >= budget ==> compaction_due(
            estimated,
            window,
            count,
            keep,
            Some(budget),
        ),
        compaction_due(estimated, window, count, keep, None) ==> compaction_due(
            estimated,
            window,
            count,
            keep,
            Some(budget),
        ),
{
}

/// What is kept is never more than half the window, nor than a third of the budget.
pub proof fn law_kept_share_is_bounded(window: nat, budget: usize)
    ensures
        2 * kept_budget(window, None) <= window < 2 * kept_budget(window, None) + 2,
        2 * kept_budget(window, Some(budget)) <= window,
        3 * kept_budget(window, Some(budget)) <= budget,
        3 * (kept_budget(window, Some(budget)) + 1) > budget || 2 * (kept_budget(
            window,
            Some(budget),
        ) + 1) > window,
{
}

/// A budget is the number that is written, if it is above zero.
pub proof fn law_budget_is_as_written(n: nat)
    requires
        n <= usize::MAX,
    ensures
        asked_budget(Some(decimal(n))) == (if n > 0 {
            Some(n)
        } else {
            None
        }),
        asked_budget(None) is None,
{
    law_numbers_are_read_back(n, n, usize::MAX as nat);
}

} // verus!
