//! What the agent says to a model that repeats itself, stops early or edits
//! tests, and the order in which the rules on a tool call are asked.
use vstd::prelude::*;
use crate::json::{
    add_field, field, js, law_fields_are_found_by_name, no_fields, obj, JsonV,
};
use crate::permissions::{
    Decision, DecisionV, PreAction, PreActionV, PreVerdict, PreVerdictV,
};
use crate::text::{
    begins, cat3, cat4, contains, ends, ends_with, holds, lemma_pieces, occurs_at, put, same,
    split, split_on, starts_with, texts,
};
use crate::types::{
    blocks, transcript, BlockV, ContentBlock, Message, MessageV, Role, TodoItem, TodoStatus,
};

verus! {

/// How many identical failing calls in a row count as a loop.
pub const STUCK_THRESHOLD: usize = 3;

// ------------------------------------------------------------ repeated calls

/// The blocks of a transcript, in order.
pub open spec fn all_blocks(msgs: Seq<MessageV>) -> Seq<BlockV>
    decreases msgs.len(),
{
    if msgs.len() == 0 {
        Seq::empty()
    } else {
        all_blocks(msgs.drop_last()) + msgs.last().content
    }
}

/// The index of the last call `id` among the first `n` blocks.
pub open spec fn call_index(s: Seq<BlockV>, n: int, id: Seq<char>) -> Option<int>
    decreases n,
{
    if n <= 0 {
        None
    } else if s[n - 1] is ToolUse && s[n - 1]->ToolUse_id == id {
        Some(n - 1)
    } else {
        call_index(s, n - 1, id)
    }
}

/// The results among the first `n` blocks whose call came before them, in
/// order: where the call stands, and whether it failed.
pub open spec fn outcomes(s: Seq<BlockV>, n: int) -> Seq<(int, bool)>
    decreases n,
{
    if n <= 0 {
        Seq::empty()
    } else {
        let before = outcomes(s, n - 1);
        match s[n - 1] {
            BlockV::ToolResult { tool_use_id, content, is_error } => match call_index(
                s,
                n - 1,
                tool_use_id,
            ) {
                Some(c) => before.push((c, is_error)),
                None => before,
            },
            _ => before,
        }
    }
}

/// Two calls are of the same tool with the same arguments.
pub open spec fn same_call(a: BlockV, b: BlockV) -> bool {
    a is ToolUse && b is ToolUse && a->name == b->name && a->input == b->input
}

/// How many of the last outcomes are failures of the call `c`.
pub open spec fn streak(s: Seq<BlockV>, o: Seq<(int, bool)>, c: BlockV) -> nat
    decreases o.len(),
{
    if o.len() > 0 && o.last().1 && same_call(s[o.last().0], c) {
        1 + streak(s, o.drop_last(), c)
    } else {
        0
    }
}

/// The tool that the model is stuck on: the last call failed, and it is exactly
/// the third in a row of the same failing calls.
pub open spec fn stuck_on(msgs: Seq<MessageV>) -> Option<Seq<char>> {
    let s = all_blocks(msgs);
    let o = outcomes(s, s.len() as int);
    if o.len() > 0 && o.last().1 && streak(s, o, s[o.last().0]) == STUCK_THRESHOLD {
        Some(s[o.last().0]->name)
    } else {
        None
    }
}

/// The blocks that some references point at.
pub open spec fn pointed(v: Seq<&ContentBlock>) -> Seq<BlockV> {
    v.map_values(|b: &ContentBlock| b@)
}

fn gather<'a>(messages: &'a Vec<Message>) -> (r: Vec<&'a ContentBlock>)
    ensures
        pointed(r@) == all_blocks(transcript(messages@)),
{
    let ghost msgs = transcript(messages@);
    let mut out: Vec<&ContentBlock> = Vec::new();
    let mut i: usize = 0;
    assert(msgs.take(0) =~= Seq::empty());
    assert(pointed(out@) =~= Seq::empty());
    while i < messages.len()
        invariant
            i <= messages@.len(),
            msgs == transcript(messages@),
            pointed(out@) == all_blocks(msgs.take(i as int)),
        decreases messages@.len() - i,
    {
        let content = &messages[i].content;
        let ghost before = pointed(out@);
        let ghost bs = blocks(content@);
        let mut k: usize = 0;
        assert(before + bs.take(0) =~= before);
        while k < content.len()
            invariant
                k <= content@.len(),
                bs == blocks(content@),
                pointed(out@) == before + bs.take(k as int),
            decreases content@.len() - k,
        {
            let ghost old_out = pointed(out@);
            out.push(&content[k]);
            assert(pointed(out@) =~= old_out.push(content@[k as int]@));
            assert(bs[k as int] == content@[k as int]@);
            assert(old_out.push(bs[k as int]) =~= before + bs.take(k + 1));
            k += 1;
        }
        assert(bs.take(k as int) =~= bs);
        assert(msgs.take(i + 1).drop_last() =~= msgs.take(i as int));
        assert(msgs[i as int] == messages@[i as int]@);
        i += 1;
    }
    assert(msgs.take(i as int) =~= msgs);
    out
}

fn find_call(all: &Vec<&ContentBlock>, n: usize, id: &str) -> (r: Option<usize>)
    requires
        n <= all@.len(),
    ensures
        match r {
            Some(c) => call_index(pointed(all@), n as int, id@) == Some(c as int) && c < n
                && pointed(all@)[c as int] is ToolUse,
            None => call_index(pointed(all@), n as int, id@) is None,
        },
{
    let ghost s = pointed(all@);
    let mut i: usize = n;
    while i > 0
        invariant
            i <= n <= all@.len(),
            s == pointed(all@),
            call_index(s, n as int, id@) == call_index(s, i as int, id@),
        decreases i,
    {
        assert(s[i - 1] == all@[i - 1]@);
        match all[i - 1] {
            ContentBlock::ToolUse { id: call, .. } => {
                if same(call.as_str(), id) {
                    return Some(i - 1);
                }
            },
            _ => {},
        }
        i -= 1;
    }
    None
}

/// Two references to calls with the same tool and arguments.
fn is_same_call(a: &ContentBlock, b: &ContentBlock) -> (r: bool)
    ensures
        r == same_call(a@, b@),
{
    match (a, b) {
        (
            ContentBlock::ToolUse { name: n1, input: i1, .. },
            ContentBlock::ToolUse { name: n2, input: i2, .. },
        ) => same(n1.as_str(), n2.as_str()) && i1.equals(i2),
        _ => false,
    }
}

/// The tool that the model is stuck on; see [`stuck_on`].
pub fn stuck_tool(messages: &Vec<Message>) -> (r: Option<String>)
    ensures
        match r {
            Some(t) => stuck_on(transcript(messages@)) == Some(t@),
            None => stuck_on(transcript(messages@)) is None,
        },
{
    let all = gather(messages);
    let ghost s = pointed(all@);
    let mut seen: Vec<(usize, bool)> = Vec::new();
    let mut i: usize = 0;
    while i < all.len()
        invariant
            i <= all@.len(),
            s == pointed(all@),
            seen@.map_values(|o: (usize, bool)| (o.0 as int, o.1)) =~= outcomes(s, i as int),
            forall|k: int|
                0 <= k < seen@.len() ==> (#[trigger] seen@[k]).0 < all@.len()
                    && s[seen@[k].0 as int] is ToolUse,
        decreases all@.len() - i,
    {
        assert(s[i as int] == all@[i as int]@);
        if let ContentBlock::ToolResult { tool_use_id, is_error, .. } = all[i] {
            if let Some(c) = find_call(&all, i, tool_use_id.as_str()) {
                seen.push((c, *is_error));
            }
        }
        i += 1;
    }
    let ghost o = outcomes(s, s.len() as int);
    if seen.len() == 0 {
        return None;
    }
    let last = seen[seen.len() - 1];
    assert(o.last() == (last.0 as int, last.1));
    if !last.1 {
        return None;
    }
    let mut run: usize = 0;
    assert(o.take(o.len() as int) =~= o);
    while run < seen.len() && seen[seen.len() - 1 - run].1 && is_same_call(
        all[seen[seen.len() - 1 - run].0],
        all[last.0],
    )
        invariant
            run <= seen@.len(),
            s == pointed(all@),
            last.0 < all@.len(),
            seen@.map_values(|o: (usize, bool)| (o.0 as int, o.1)) =~= o,
            forall|k: int|
                0 <= k < seen@.len() ==> (#[trigger] seen@[k]).0 < all@.len()
                    && s[seen@[k].0 as int] is ToolUse,
            streak(s, o, s[last.0 as int]) == run + streak(
                s,
                o.take(o.len() - run),
                s[last.0 as int],
            ),
        decreases seen@.len() - run,
    {
        assert(o[o.len() - 1 - run] == (
            seen@[seen@.len() - 1 - run].0 as int,
            seen@[seen@.len() - 1 - run].1,
        ));
        assert(o.take(o.len() - run).drop_last() =~= o.take(o.len() - run - 1));
        assert(s[last.0 as int] == all@[last.0 as int]@);
        run += 1;
    }
    assert(s[last.0 as int] == all@[last.0 as int]@);
    assert(run < seen@.len() ==> o[o.len() - 1 - run] == (
        seen@[seen@.len() - 1 - run].0 as int,
        seen@[seen@.len() - 1 - run].1,
    ));
    if run == STUCK_THRESHOLD {
        match all[last.0] {
            ContentBlock::ToolUse { name, .. } => Some(name.clone()),
            _ => None,
        }
    } else {
        None
    }
}

proof fn lemma_outcomes_prefix(s: Seq<BlockV>, t: Seq<BlockV>, n: int)
    requires
        0 <= n <= s.len(),
    ensures
        outcomes(s + t, n) == outcomes(s, n),
        forall|k: int|
            0 <= k < outcomes(s, n).len() ==> 0 <= (#[trigger] outcomes(s, n)[k]).0 < n,
    decreases n,
{
    if n > 0 {
        lemma_outcomes_prefix(s, t, n - 1);
        assert((s + t)[n - 1] == s[n - 1]);
        match s[n - 1] {
            BlockV::ToolResult { tool_use_id, content, is_error } => {
                lemma_call_index_prefix(s, t, n - 1, tool_use_id);
            },
            _ => {},
        }
    }
}

proof fn lemma_call_index_prefix(s: Seq<BlockV>, t: Seq<BlockV>, n: int, id: Seq<char>)
    requires
        0 <= n <= s.len(),
    ensures
        call_index(s + t, n, id) == call_index(s, n, id),
        call_index(s, n, id) matches Some(c) ==> 0 <= c < n && s[c] is ToolUse,
    decreases n,
{
    if n > 0 {
        assert((s + t)[n - 1] == s[n - 1]);
        lemma_call_index_prefix(s, t, n - 1, id);
    }
}

proof fn lemma_streak_prefix(
    s: Seq<BlockV>,
    t: Seq<BlockV>,
    o: Seq<(int, bool)>,
    c: BlockV,
    d: BlockV,
)
    requires
        forall|k: int| 0 <= k < o.len() ==> 0 <= (#[trigger] o[k]).0 < s.len(),
        same_call(c, d),
    ensures
        streak(s + t, o, c) == streak(s, o, d),
    decreases o.len(),
{
    if o.len() > 0 {
        assert(0 <= o[o.len() - 1].0 < s.len());
        assert((s + t)[o.last().0] == s[o.last().0]);
        assert forall|k: int| 0 <= k < o.drop_last().len() implies 0 <= (#[trigger] o.drop_last()[k]).0
            < s.len() by {
            assert(0 <= o[k].0 < s.len());
        }
        lemma_streak_prefix(s, t, o.drop_last(), c, d);
    }
}

/// A streak is reported once: when the call that the model is stuck on fails
/// yet again, nothing more is said of it.
pub proof fn law_streak_is_reported_once(
    msgs: Seq<MessageV>,
    call: MessageV,
    result: MessageV,
    id: Seq<char>,
    content: Seq<char>,
    input: JsonV,
)
    requires
        stuck_on(msgs) is Some,
        ({
            let s = all_blocks(msgs);
            let o = outcomes(s, s.len() as int);
            input == s[o.last().0]->input
        }),
        call.content == seq![BlockV::ToolUse { id, name: stuck_on(msgs)->0, input }],
        result.content == seq![BlockV::ToolResult { tool_use_id: id, content, is_error: true }],
    ensures
        stuck_on(msgs.push(call).push(result)) is None,
{
    let s = all_blocks(msgs);
    let o = outcomes(s, s.len() as int);
    let t = call.content + result.content;
    let more = msgs.push(call).push(result);
    let s2 = all_blocks(more);
    assert(more.drop_last() =~= msgs.push(call));
    assert(msgs.push(call).drop_last() =~= msgs);
    assert(all_blocks(msgs.push(call)) == s + call.content);
    assert(s2 == all_blocks(msgs.push(call)) + result.content);
    assert(s2 =~= s + t);
    let n = s.len() as int;
    lemma_outcomes_prefix(s, t, n);
    assert(s2[n] == call.content[0]);
    assert(s2[n + 1] == result.content[0]);
    assert(outcomes(s2, n + 1) == outcomes(s2, n));
    assert(call_index(s2, n + 1, id) == Some(n));
    let o2 = outcomes(s2, n + 2);
    assert(o2 == o.push((n, true)));
    assert(s2.len() == n + 2);
    assert(o2.drop_last() =~= o);
    assert(s[o.last().0] is ToolUse) by {
        lemma_outcome_is_call(s, n);
    }
    lemma_streak_prefix(s, t, o, s2[n], s[o.last().0]);
    assert(streak(s2, o2, s2[n]) == 1 + streak(s2, o, s2[n]));
}

proof fn lemma_outcome_is_call(s: Seq<BlockV>, n: int)
    requires
        0 <= n <= s.len(),
    ensures
        forall|k: int|
            0 <= k < outcomes(s, n).len() ==> s[(#[trigger] outcomes(s, n)[k]).0] is ToolUse,
    decreases n,
{
    if n > 0 {
        lemma_outcome_is_call(s, n - 1);
        match s[n - 1] {
            BlockV::ToolResult { tool_use_id, content, is_error } => {
                lemma_call_index_prefix(s, Seq::empty(), n - 1, tool_use_id);
            },
            _ => {},
        }
    }
}

/// A success ends a streak: right after one nothing is reported.
pub proof fn law_success_is_never_stuck(msgs: Seq<MessageV>)
    requires
        ({
            let s = all_blocks(msgs);
            let o = outcomes(s, s.len() as int);
            o.len() > 0 && !o.last().1
        }),
    ensures
        stuck_on(msgs) is None,
{
}

// ------------------------------------------------------------ notes in results

/// The transcript with a note at the end of its last block, if that is a tool
/// result; else the transcript as it is.
pub open spec fn with_note(msgs: Seq<MessageV>, note: Seq<char>) -> Seq<MessageV> {
    if msgs.len() > 0 && msgs.last().content.len() > 0 {
        match msgs.last().content.last() {
            BlockV::ToolResult { tool_use_id, content, is_error } => msgs.update(
                msgs.len() - 1,
                MessageV {
                    content: msgs.last().content.update(
                        msgs.last().content.len() - 1,
                        BlockV::ToolResult { tool_use_id, content: content + note, is_error },
                    ),
                    ..msgs.last()
                },
            ),
            _ => msgs,
        }
    } else {
        msgs
    }
}

/// Appends a note to the last block of the transcript; see [`with_note`]. Inside
/// the result it needs no message of its own, and two messages of the user in
/// a row are refused by the providers.
pub fn append_note(messages: &mut Vec<Message>, note: &str)
    ensures
        transcript(final(messages)@) == with_note(transcript(old(messages)@), note@),
{
    let ghost msgs = transcript(messages@);
    let n: usize = messages.len();
    if n == 0 {
        return ;
    }
    assert(msgs.last() == messages@[n - 1]@);
    let k: usize = messages[n - 1].content.len();
    if k == 0 {
        return ;
    }
    assert(msgs.last().content.last() == messages@[n - 1].content@[k - 1]@);
    let new_block = match &messages[n - 1].content[k - 1] {
        ContentBlock::ToolResult { tool_use_id, content, is_error } => {
            let mut longer = content.clone();
            put(&mut longer, note);
            ContentBlock::ToolResult {
                tool_use_id: tool_use_id.clone(),
                content: longer,
                is_error: *is_error,
            }
        },
        _ => {
            return ;
        },
    };
    let ghost nb = new_block@;
    let ghost before = blocks(messages@[n - 1].content@);
    messages[n - 1].content.set(k - 1, new_block);
    assert(blocks(messages@[n - 1].content@) =~= before.update(k - 1, nb));
    assert(transcript(messages@) =~= with_note(msgs, note@));
}

/// What the model is told when it is stuck on `tool`.
pub open spec fn stuck_note(tool: Seq<char>) -> Seq<char> {
    "\n\n[system] You've issued the same `"@ + tool
        + "` call and gotten the same error 3 times in a row. Stop repeating it — re-read the error and change approach: different command or arguments, add diagnostics to test your hypothesis, or reconsider the root cause. Do not retry the identical call."@
}

/// Tells the model to change its approach where it is stuck.
pub fn nudge_if_stuck(messages: &mut Vec<Message>)
    ensures
        transcript(final(messages)@) == (match stuck_on(transcript(old(messages)@)) {
            Some(tool) => with_note(transcript(old(messages)@), stuck_note(tool)),
            None => transcript(old(messages)@),
        }),
{
    match stuck_tool(messages) {
        Some(tool) => {
            let note = cat3(
                "\n\n[system] You've issued the same `",
                tool.as_str(),
                "` call and gotten the same error 3 times in a row. Stop repeating it — re-read the error and change approach: different command or arguments, add diagnostics to test your hypothesis, or reconsider the root cause. Do not retry the identical call.",
            );
            append_note(messages, note.as_str());
        },
        None => {},
    }
}

/// What the model is told after it wrote to a test file.
pub const TEST_EDIT_NOTE: &'static str = "\n\n[system] A write to a test file landed in this batch. A test you wrote or \
     changed is not evidence that the implementation is correct — it asserts what you \
     already believe. If an existing test contradicted your change, read it as the \
     expected contract (names, signatures, exact output) and reconcile the code with \
     the test, not the test with the code. Name the tests you modified when you \
     report what you did.";

/// Tells the model that a test it changed is no evidence.
pub fn note_test_edits(messages: &mut Vec<Message>)
    ensures
        transcript(final(messages)@) == with_note(transcript(old(messages)@), TEST_EDIT_NOTE@),
{
    append_note(messages, TEST_EDIT_NOTE);
}

/// A note changes at most the last message and never the number of messages.
pub proof fn law_notes_ride_in_the_last_message(msgs: Seq<MessageV>, note: Seq<char>)
    ensures
        with_note(msgs, note).len() == msgs.len(),
        forall|i: int| 0 <= i < msgs.len() - 1 ==> with_note(msgs, note)[i] == msgs[i],
{
}

// ------------------------------------------------------------ unfinished steps

/// The lines that name the steps not completed.
pub open spec fn pending_list(todos: Seq<TodoItem>) -> Seq<char>
    decreases todos.len(),
{
    if todos.len() == 0 {
        Seq::empty()
    } else {
        let before = pending_list(todos.drop_last());
        if todos.last().status == TodoStatus::Completed {
            before
        } else {
            before + "- "@ + todos.last().content@ + "\n"@
        }
    }
}

/// Some step is not completed.
pub open spec fn some_pending(todos: Seq<TodoItem>) -> bool {
    exists|i: int| 0 <= i < todos.len() && (#[trigger] todos[i]).status != TodoStatus::Completed
}

/// What the model is told of its unfinished steps, where it has any.
pub open spec fn unfinished(todos: Seq<TodoItem>) -> Option<Seq<char>> {
    if some_pending(todos) {
        Some(
            "[system] Completion check: this run is ending, but the step list you wrote still has unfinished items:\n"@
                + pending_list(todos)
                + "Finish them, or — if the work is done, or you decided to stop — update the list with `todo` and state plainly what you did not do. Do not mark a step completed unless it is."@,
        )
    } else {
        None
    }
}

/// Computes [`unfinished`].
pub fn unfinished_steps(todos: &Vec<TodoItem>) -> (r: Option<String>)
    ensures
        match r {
            Some(t) => unfinished(todos@) == Some(t@),
            None => unfinished(todos@) is None,
        },
{
    let mut list = String::new();
    let mut any = false;
    let mut i: usize = 0;
    assert(todos@.take(0) =~= Seq::empty());
    while i < todos.len()
        invariant
            i <= todos@.len(),
            list@ == pending_list(todos@.take(i as int)),
            any == exists|k: int|
                0 <= k < i && (#[trigger] todos@[k]).status != TodoStatus::Completed,
        decreases todos@.len() - i,
    {
        assert(todos@.take(i + 1).drop_last() =~= todos@.take(i as int));
        if todos[i].status != TodoStatus::Completed {
            put(&mut list, "- ");
            put(&mut list, todos[i].content.as_str());
            put(&mut list, "\n");
            assert(todos@[i as int].status != TodoStatus::Completed);
            any = true;
        }
        i += 1;
    }
    assert(todos@.take(i as int) =~= todos@);
    if !any {
        return None;
    }
    assert(some_pending(todos@));
    Some(
        cat3(
            "[system] Completion check: this run is ending, but the step list you wrote still has unfinished items:\n",
            list.as_str(),
            "Finish them, or — if the work is done, or you decided to stop — update the list with `todo` and state plainly what you did not do. Do not mark a step completed unless it is.",
        ),
    )
}

// ------------------------------------------------------------ test files

/// A directory that holds tests.
pub open spec fn is_test_dir(seg: Seq<char>) -> bool {
    seg == "tests"@ || seg == "test"@ || seg == "spec"@ || seg == "specs"@ || seg == "__tests__"@
}

/// The last of the pieces of a path that names something; `None` where it goes
/// up, or where there is none.
pub open spec fn file_name_of(pieces: Seq<Seq<char>>) -> Option<Seq<char>>
    decreases pieces.len(),
{
    if pieces.len() == 0 {
        None
    } else if pieces.last().len() == 0 || pieces.last() == "."@ {
        file_name_of(pieces.drop_last())
    } else if pieces.last() == ".."@ {
        None
    } else {
        Some(pieces.last())
    }
}

/// A file name in one of the usual spellings of a test.
pub open spec fn is_test_name(name: Seq<char>) -> bool {
    let stem = split_on(name, '.')[0];
    begins(stem, "test_"@) || ends(stem, "_test"@) || ends(stem, "Test"@) || holds(name, ".test."@)
        || holds(name, ".spec."@)
}

/// The path is one of a test file: it leads through a directory of tests, or
/// its file name is spelled as that of a test.
pub open spec fn test_path(path: Seq<char>) -> bool {
    let pieces = split_on(path, '/');
    ||| exists|i: int| 0 <= i < pieces.len() && is_test_dir(#[trigger] pieces[i])
    ||| (file_name_of(pieces) matches Some(name) && is_test_name(name))
}

/// Computes the file name of a path, given its pieces.
pub fn last_name(pieces: &Vec<String>) -> (r: Option<String>)
    ensures
        match r {
            Some(t) => file_name_of(texts(pieces@)) == Some(t@),
            None => file_name_of(texts(pieces@)) is None,
        },
{
    let ghost ps = texts(pieces@);
    let mut i: usize = pieces.len();
    assert(ps.take(i as int) =~= ps);
    while i > 0
        invariant
            i <= pieces@.len(),
            ps == texts(pieces@),
            file_name_of(ps) == file_name_of(ps.take(i as int)),
        decreases i,
    {
        assert(ps[i - 1] == pieces@[i - 1]@);
        assert(ps.take(i as int).drop_last() =~= ps.take(i - 1));
        let p = pieces[i - 1].as_str();
        if !p.is_empty() && !same(p, ".") {
            if same(p, "..") {
                return None;
            }
            return Some(pieces[i - 1].clone());
        }
        i -= 1;
    }
    None
}

/// Decides [`test_path`].
pub fn is_test_path(path: &str) -> (b: bool)
    ensures
        b == test_path(path@),
{
    let pieces = split(path, '/');
    let ghost ps = split_on(path@, '/');
    let mut i: usize = 0;
    while i < pieces.len()
        invariant
            i <= pieces@.len(),
            ps == texts(pieces@),
            ps == split_on(path@, '/'),
            forall|k: int| 0 <= k < i ==> !is_test_dir(#[trigger] ps[k]),
        decreases pieces@.len() - i,
    {
        assert(ps[i as int] == pieces@[i as int]@);
        let p = pieces[i].as_str();
        if same(p, "tests") || same(p, "test") || same(p, "spec") || same(p, "specs") || same(
            p,
            "__tests__",
        ) {
            assert(is_test_dir(ps[i as int]));
            return true;
        }
        i += 1;
    }
    match last_name(&pieces) {
        Some(name) => {
            let parts = split(name.as_str(), '.');
            assert(split_on(name@, '.')[0] == parts@[0]@);
            let stem = parts[0].as_str();
            starts_with(stem, "test_") || ends_with(stem, "_test") || ends_with(stem, "Test")
                || contains(name.as_str(), ".test.") || contains(name.as_str(), ".spec.")
        },
        None => false,
    }
}

// ------------------------------------------------------------ may a call run

/// What the static rules say of a call, before anything is run to decide it.
#[derive(Debug)]
pub struct GateFacts {
    /// The run is one of review only.
    pub review_only: bool,
    /// Why a review-only run refuses the tool or its command.
    pub review_refusal: Option<String>,
    /// The file that the call would modify.
    pub mutation_target: Option<String>,
    /// What the user's own rules say.
    pub static_decision: Option<Decision>,
    /// What the trust in the server of an MCP tool says.
    pub mcp_decision: Option<Decision>,
    /// The file that the call would modify belongs to the trust root.
    pub protected_target: bool,
    /// The command of a `bash` call destroys.
    pub destructive: bool,
    /// The command of a `bash` call is known to read only.
    pub read_only: bool,
    /// The user described the environment that commands run in.
    pub environment: bool,
}

/// How far the rules came with a call.
#[derive(Debug, PartialEq)]
pub enum Gate {
    /// The call is decided.
    Decided(Decision, PreAction),
    /// The hooks have to be asked.
    AskHooks,
    /// The classifier has to be asked.
    Classify,
}

/// What a [`Gate`] stands for.
pub enum GateV {
    Decided(DecisionV, PreActionV),
    AskHooks,
    Classify,
}

impl View for Gate {
    type V = GateV;

    open spec fn view(&self) -> GateV {
        match self {
            Gate::Decided(d, a) => GateV::Decided(d@, a@),
            Gate::AskHooks => GateV::AskHooks,
            Gate::Classify => GateV::Classify,
        }
    }
}

/// The rules that come before the hooks, in the order of their precedence: a
/// review-only run, the user's rules, the trust in an MCP server, the guard of
/// the trust root.
pub open spec fn before_hooks(tool: Seq<char>, f: GateFacts) -> GateV {
    if f.review_only && f.review_refusal is Some {
        GateV::Decided(DecisionV::Deny(f.review_refusal->0@), PreActionV::AsIs)
    } else if f.review_only && f.mutation_target is Some {
        GateV::Decided(
            DecisionV::Deny(
                "review-only run: `"@ + tool + "` would modify "@ + f.mutation_target->0@,
            ),
            PreActionV::AsIs,
        )
    } else if f.static_decision is Some {
        GateV::Decided(f.static_decision->0@, PreActionV::AsIs)
    } else if f.mcp_decision is Some {
        GateV::Decided(f.mcp_decision->0@, PreActionV::AsIs)
    } else if f.mutation_target is Some && f.protected_target {
        GateV::Decided(DecisionV::Ask, PreActionV::AsIs)
    } else {
        GateV::AskHooks
    }
}

/// The rules from the answer of the hooks on: a hook that answers decides, then
/// a destructive command asks, and an unknown command in a described
/// environment goes to the classifier.
pub open spec fn after_hooks(
    tool: Seq<char>,
    destructive: bool,
    read_only: bool,
    environment: bool,
    verdict: PreVerdictV,
) -> GateV {
    match verdict {
        PreVerdictV::Allow => GateV::Decided(DecisionV::Allow, PreActionV::AsIs),
        PreVerdictV::Ask(_) => GateV::Decided(DecisionV::Ask, PreActionV::AsIs),
        PreVerdictV::Deny(reason) => GateV::Decided(DecisionV::Deny(reason), PreActionV::AsIs),
        PreVerdictV::AllowRewritten(patch) => GateV::Decided(
            DecisionV::Allow,
            PreActionV::Rewrite(patch),
        ),
        PreVerdictV::Short(result) => GateV::Decided(DecisionV::Allow, PreActionV::Short(result)),
        PreVerdictV::Pass => if tool == "bash"@ && destructive {
            GateV::Decided(DecisionV::Ask, PreActionV::AsIs)
        } else if tool == "bash"@ && environment && !read_only {
            GateV::Classify
        } else {
            GateV::Decided(DecisionV::Allow, PreActionV::AsIs)
        },
    }
}

fn copy_decision(d: &Decision) -> (r: Decision)
    ensures
        r@ == d@,
{
    match d {
        Decision::Allow => Decision::Allow,
        Decision::Ask => Decision::Ask,
        Decision::Deny(reason) => Decision::Deny(reason.clone()),
    }
}

/// Applies the rules that come before the hooks; see [`before_hooks`].
pub fn decide_before_hooks(tool: &str, facts: &GateFacts) -> (r: Gate)
    ensures
        r@ == before_hooks(tool@, *facts),
{
    if facts.review_only {
        if let Some(reason) = &facts.review_refusal {
            return Gate::Decided(Decision::Deny(reason.clone()), PreAction::AsIs);
        }
        if let Some(target) = &facts.mutation_target {
            return Gate::Decided(
                Decision::Deny(
                    cat4("review-only run: `", tool, "` would modify ", target.as_str()),
                ),
                PreAction::AsIs,
            );
        }
    }
    if let Some(d) = &facts.static_decision {
        return Gate::Decided(copy_decision(d), PreAction::AsIs);
    }
    if let Some(d) = &facts.mcp_decision {
        return Gate::Decided(copy_decision(d), PreAction::AsIs);
    }
    if facts.mutation_target.is_some() && facts.protected_target {
        return Gate::Decided(Decision::Ask, PreAction::AsIs);
    }
    Gate::AskHooks
}

/// Applies the rules from the answer of the hooks on; see [`after_hooks`].
pub fn decide_after_hooks(tool: &str, facts: &GateFacts, verdict: PreVerdict) -> (r: Gate)
    ensures
        r@ == after_hooks(
            tool@,
            facts.destructive,
            facts.read_only,
            facts.environment,
            verdict@,
        ),
{
    match verdict {
        PreVerdict::Allow => Gate::Decided(Decision::Allow, PreAction::AsIs),
        PreVerdict::Ask(_) => Gate::Decided(Decision::Ask, PreAction::AsIs),
        PreVerdict::Deny(reason) => Gate::Decided(Decision::Deny(reason), PreAction::AsIs),
        PreVerdict::AllowRewritten(patch) => Gate::Decided(
            Decision::Allow,
            PreAction::Rewrite(patch),
        ),
        PreVerdict::Short(result) => Gate::Decided(Decision::Allow, PreAction::Short(result)),
        PreVerdict::Pass => {
            let bash = same(tool, "bash");
            if bash && facts.destructive {
                Gate::Decided(Decision::Ask, PreAction::AsIs)
            } else if bash && facts.environment && !facts.read_only {
                Gate::Classify
            } else {
                Gate::Decided(Decision::Allow, PreAction::AsIs)
            }
        },
    }
}

/// What the classifier's answer amounts to: its decision, with the safer command
/// it may propose laid over the call; the user is asked where it failed.
pub open spec fn classified(answer: Option<(DecisionV, Option<Seq<char>>)>) -> (
    DecisionV,
    PreActionV,
) {
    match answer {
        Some((d, Some(command))) => (
            d,
            PreActionV::Rewrite(JsonV::Object(seq![("command"@, JsonV::Str(command))])),
        ),
        Some((d, None)) => (d, PreActionV::AsIs),
        None => (DecisionV::Ask, PreActionV::AsIs),
    }
}

/// Turns the classifier's answer into a decision; see [`classified`].
pub fn decide_classified(answer: Option<(Decision, Option<String>)>) -> (r: (Decision, PreAction))
    ensures
        (r.0@, r.1@) == classified(
            match answer {
                Some((d, Some(command))) => Some((d@, Some(command@))),
                Some((d, None)) => Some((d@, None)),
                None => None,
            },
        ),
{
    match answer {
        Some((d, Some(command))) => {
            let mut fields = no_fields();
            add_field(&mut fields, "command", js(command.as_str()));
            let patch = obj(fields);
            assert(patch@->Object_0 =~= seq![("command"@, JsonV::Str(command@))]);
            (d, PreAction::Rewrite(patch))
        },
        Some((d, None)) => (d, PreAction::AsIs),
        None => (Decision::Ask, PreAction::AsIs),
    }
}

/// In a review-only run no call that would modify a file is allowed, whatever
/// the user's rules say.
pub proof fn law_review_only_never_writes(tool: Seq<char>, f: GateFacts)
    requires
        f.review_only,
        f.mutation_target is Some,
    ensures
        before_hooks(tool, f) matches GateV::Decided(DecisionV::Deny(_), PreActionV::AsIs),
{
}

/// A call that modifies the trust root is not left to the hooks: unless a rule
/// of the user's decides it, the user is asked.
pub proof fn law_trust_root_asks(tool: Seq<char>, f: GateFacts)
    requires
        f.protected_target,
        f.mutation_target is Some,
        !f.review_only,
        f.static_decision is None,
        f.mcp_decision is None,
    ensures
        before_hooks(tool, f) == GateV::Decided(DecisionV::Ask, PreActionV::AsIs),
{
}

/// A hook that answers spares the classifier.
pub proof fn law_hook_spares_the_classifier(
    tool: Seq<char>,
    destructive: bool,
    read_only: bool,
    environment: bool,
    verdict: PreVerdictV,
)
    requires
        verdict !is Pass,
    ensures
        after_hooks(tool, destructive, read_only, environment, verdict) !is Classify,
{
}

/// A classifier that fails never allows.
pub proof fn law_failed_classifier_asks()
    ensures
        classified(None).0 == DecisionV::Ask,
{
}

// ------------------------------------------------------------ what the model is told

/// The transcript with one call made over and over, failing each time: each try has
/// an id and an error.
pub open spec fn failing(
    base: Seq<MessageV>,
    name: Seq<char>,
    input: JsonV,
    tries: Seq<(Seq<char>, Seq<char>)>,
) -> Seq<MessageV>
    decreases tries.len(),
{
    if tries.len() == 0 {
        base
    } else {
        failing(base, name, input, tries.drop_last()).push(
            MessageV {
                role: Role::Assistant,
                content: seq![BlockV::ToolUse { id: tries.last().0, name, input }],
                injected: false,
            },
        ).push(
            MessageV {
                role: Role::Tool,
                content: seq![
                    BlockV::ToolResult {
                        tool_use_id: tries.last().0,
                        content: tries.last().1,
                        is_error: true,
                    },
                ],
                injected: false,
            },
        )
    }
}

proof fn lemma_one_more_try(
    msgs: Seq<MessageV>,
    call: MessageV,
    result: MessageV,
    id: Seq<char>,
    name: Seq<char>,
    input: JsonV,
    text: Seq<char>,
    failed: bool,
)
    requires
        call.content == seq![BlockV::ToolUse { id, name, input }],
        result.content == seq![BlockV::ToolResult { tool_use_id: id, content: text, is_error: failed }],
    ensures
        ({
            let more = msgs.push(call).push(result);
            let (s, t) = (all_blocks(msgs), all_blocks(more));
            let c = call.content[0];
            &&& streak(t, outcomes(t, t.len() as int), c) == (if failed {
                1 + streak(s, outcomes(s, s.len() as int), c)
            } else {
                0
            })
            &&& stuck_on(more) == (if failed && streak(t, outcomes(t, t.len() as int), c) == 3 {
                Some(name)
            } else {
                None
            })
        }),
{
    let s = all_blocks(msgs);
    let o = outcomes(s, s.len() as int);
    let t = call.content + result.content;
    let more = msgs.push(call).push(result);
    let s2 = all_blocks(more);
    law_all_blocks_are_looked_at(msgs, call);
    law_all_blocks_are_looked_at(msgs.push(call), result);
    assert(s2 =~= s + t);
    let n = s.len() as int;
    lemma_outcomes_prefix(s, t, n);
    assert(s2[n] == call.content[0]);
    assert(s2[n + 1] == result.content[0]);
    assert(outcomes(s2, n + 1) == outcomes(s2, n));
    assert(call_index(s2, n + 1, id) == Some(n));
    let o2 = outcomes(s2, n + 2);
    assert(o2 == o.push((n, failed)));
    assert(o2.drop_last() =~= o);
    lemma_streak_prefix(s, t, o, s2[n], s2[n]);
}

proof fn lemma_nothing_failed(s: Seq<BlockV>, n: int)
    requires
        0 <= n <= s.len(),
        forall|i: int| 0 <= i < s.len() ==> !((#[trigger] s[i]) is ToolResult),
    ensures
        outcomes(s, n).len() == 0,
    decreases n,
{
    if n > 0 {
        lemma_nothing_failed(s, n - 1);
        assert(!(s[n - 1] is ToolResult));
    }
}

proof fn lemma_tries_count(
    base: Seq<MessageV>,
    name: Seq<char>,
    input: JsonV,
    tries: Seq<(Seq<char>, Seq<char>)>,
    c: BlockV,
)
    requires
        forall|i: int|
            0 <= i < all_blocks(base).len() ==> !((#[trigger] all_blocks(base)[i]) is ToolResult),
        c is ToolUse && c->name == name && c->input == input,
    ensures
        ({
            let s = all_blocks(failing(base, name, input, tries));
            streak(s, outcomes(s, s.len() as int), c) == tries.len()
        }),
    decreases tries.len(),
{
    if tries.len() == 0 {
        lemma_nothing_failed(all_blocks(base), all_blocks(base).len() as int);
    } else {
        let front = tries.drop_last();
        let (id, text) = tries.last();
        let msgs = failing(base, name, input, front);
        let call = MessageV {
            role: Role::Assistant,
            content: seq![BlockV::ToolUse { id, name, input }],
            injected: false,
        };
        let result = MessageV {
            role: Role::Tool,
            content: seq![BlockV::ToolResult { tool_use_id: id, content: text, is_error: true }],
            injected: false,
        };
        lemma_tries_count(base, name, input, front, call.content[0]);
        lemma_one_more_try(msgs, call, result, id, name, input, text, true);
        let s = all_blocks(msgs.push(call).push(result));
        let o = outcomes(s, s.len() as int);
        assert(failing(base, name, input, tries) == msgs.push(call).push(result));
        lemma_streak_of_same(s, o, call.content[0], c);
    }
}

proof fn lemma_streak_of_same(s: Seq<BlockV>, o: Seq<(int, bool)>, a: BlockV, b: BlockV)
    requires
        same_call(a, b),
    ensures
        streak(s, o, a) == streak(s, o, b),
    decreases o.len(),
{
    if o.len() > 0 {
        lemma_streak_of_same(s, o.drop_last(), a, b);
    }
}

/// The model is told that it is stuck when the same call, with the same input, has
/// failed three times in a row: not before, and not again after.
pub proof fn law_third_failure_is_told(
    base: Seq<MessageV>,
    name: Seq<char>,
    input: JsonV,
    tries: Seq<(Seq<char>, Seq<char>)>,
)
    requires
        forall|i: int|
            0 <= i < all_blocks(base).len() ==> !((#[trigger] all_blocks(base)[i]) is ToolResult),
        tries.len() > 0,
    ensures
        stuck_on(failing(base, name, input, tries)) == (if tries.len() == 3 {
            Some(name)
        } else {
            None
        }),
{
    let front = tries.drop_last();
    let (id, text) = tries.last();
    let msgs = failing(base, name, input, front);
    let call = MessageV {
        role: Role::Assistant,
        content: seq![BlockV::ToolUse { id, name, input }],
        injected: false,
    };
    let result = MessageV {
        role: Role::Tool,
        content: seq![BlockV::ToolResult { tool_use_id: id, content: text, is_error: true }],
        injected: false,
    };
    lemma_tries_count(base, name, input, front, call.content[0]);
    lemma_one_more_try(msgs, call, result, id, name, input, text, true);
    assert(failing(base, name, input, tries) == msgs.push(call).push(result));
}

/// Every block of a transcript is looked at, in order.
pub proof fn law_all_blocks_are_looked_at(a: Seq<MessageV>, m: MessageV)
    ensures
        all_blocks(a.push(m)) == all_blocks(a) + m.content,
        all_blocks(Seq::empty()).len() == 0,
{
    assert(a.push(m).drop_last() =~= a);
}

/// A note stands behind the last result, which is all there before it; the call that
/// it belongs to, and whether it failed, stay. Where the transcript does not end in
/// a result it stays as it is.
pub proof fn law_notes_are_added_to_the_result(msgs: Seq<MessageV>, note: Seq<char>)
    ensures
        ({
            let after = with_note(msgs, note);
            let ending = msgs.len() > 0 && msgs.last().content.len() > 0
                && msgs.last().content.last() is ToolResult;
            &&& !ending ==> after == msgs
            &&& ending ==> {
                let (old_block, new) = (msgs.last().content.last(), after.last().content.last());
                &&& after.last().role == msgs.last().role
                &&& after.last().content.drop_last() == msgs.last().content.drop_last()
                &&& new is ToolResult
                &&& new->tool_use_id == old_block->tool_use_id
                &&& new->is_error == old_block->is_error
                &&& begins(new->ToolResult_content, old_block->ToolResult_content)
                &&& ends(new->ToolResult_content, note)
                &&& new->ToolResult_content.len() == old_block->ToolResult_content.len()
                    + note.len()
            }
        }),
{
    let after = with_note(msgs, note);
    if msgs.len() > 0 && msgs.last().content.len() > 0 && msgs.last().content.last() is ToolResult {
        let text = msgs.last().content.last()->ToolResult_content;
        let all = text + note;
        assert(after.last().content.drop_last() =~= msgs.last().content.drop_last());
        assert(all.subrange(0, text.len() as int) =~= text);
        assert(all.subrange(all.len() - note.len(), all.len() as int) =~= note);
    }
}

/// Every step that is not completed is named to the model, and as long as there is
/// one it is told; where all are completed it is told nothing.
pub proof fn law_open_steps_are_named(todos: Seq<TodoItem>, i: int)
    ensures
        0 <= i < todos.len() && todos[i].status != TodoStatus::Completed ==> unfinished(
            todos,
        ) is Some && holds(unfinished(todos)->0, "- "@ + todos[i].content@ + "\n"@),
        (forall|k: int|
            0 <= k < todos.len() ==> (#[trigger] todos[k]).status == TodoStatus::Completed)
            ==> unfinished(todos) is None,
{
    if 0 <= i < todos.len() && todos[i].status != TodoStatus::Completed {
        assert(some_pending(todos));
        lemma_pending_named(todos, i);
        let wanted = "- "@ + todos[i].content@ + "\n"@;
        let list = pending_list(todos);
        let all = unfinished(todos)->0;
        let lead = "[system] Completion check: this run is ending, but the step list you wrote still has unfinished items:\n"@;
        let at = choose|at: int| occurs_at(list, wanted, at);
        let from = lead.len() + at;
        assert(all.subrange(from, from + wanted.len()) =~= list.subrange(at, at + wanted.len()));
        assert(occurs_at(all, wanted, from));
    }
}

proof fn lemma_pending_named(todos: Seq<TodoItem>, i: int)
    requires
        0 <= i < todos.len(),
        todos[i].status != TodoStatus::Completed,
    ensures
        holds(pending_list(todos), "- "@ + todos[i].content@ + "\n"@),
    decreases todos.len(),
{
    let all = pending_list(todos);
    let wanted = "- "@ + todos[i].content@ + "\n"@;
    let before = pending_list(todos.drop_last());
    if i == todos.len() - 1 {
        let at = before.len() as int;
        assert(all.subrange(at, at + wanted.len()) =~= wanted);
        assert(occurs_at(all, wanted, at));
    } else {
        lemma_pending_named(todos.drop_last(), i);
        let at = choose|at: int| occurs_at(before, wanted, at);
        assert(all.subrange(at, at + wanted.len()) =~= before.subrange(at, at + wanted.len()));
        assert(occurs_at(all, wanted, at));
    }
}

/// Outside a review, the user's own rule decides about a call, whatever it is; then
/// the trust in the server; a call that none of them decides, and that does not
/// touch the trust root, is put before the hooks.
pub proof fn law_user_rules_come_first(tool: Seq<char>, f: GateFacts)
    requires
        !f.review_only,
    ensures
        f.static_decision matches Some(d) ==> before_hooks(tool, f) == GateV::Decided(
            d@,
            PreActionV::AsIs,
        ),
        f.static_decision is None ==> (f.mcp_decision matches Some(d) ==> before_hooks(tool, f)
            == GateV::Decided(d@, PreActionV::AsIs)),
        f.static_decision is None && f.mcp_decision is None && !(f.protected_target
            && f.mutation_target is Some) ==> before_hooks(tool, f) == GateV::AskHooks,
{
}

/// A review refuses with its reason, or names the tool and the file that it would
/// have modified; what modifies nothing goes on to the user's rules.
pub proof fn law_review_says_what_it_refuses(tool: Seq<char>, f: GateFacts)
    requires
        f.review_only,
    ensures
        f.review_refusal matches Some(r) ==> before_hooks(tool, f) == GateV::Decided(
            DecisionV::Deny(r@),
            PreActionV::AsIs,
        ),
        f.review_refusal is None && f.mutation_target is Some ==> {
            let g = before_hooks(tool, f);
            g is Decided && g->Decided_0 is Deny && ends(
                g->Decided_0->Deny_0,
                f.mutation_target->0@,
            ) && holds(g->Decided_0->Deny_0, tool)
        },
        f.review_refusal is None && f.mutation_target is None ==> before_hooks(tool, f)
            == before_hooks(tool, GateFacts { review_only: false, ..f }),
{
    if f.review_refusal is None && f.mutation_target is Some {
        let path = f.mutation_target->0@;
        let all = "review-only run: `"@ + tool + "` would modify "@ + path;
        assert(all.subrange(all.len() - path.len(), all.len() as int) =~= path);
        let at = "review-only run: `"@.len() as int;
        assert(all.subrange(at, at + tool.len()) =~= tool);
        assert(occurs_at(all, tool, at));
    }
}

/// A hook's word stands: what it allows runs as it is, or with what it lays over it;
/// what it answers is answered with that; what it denies is denied for its reason.
/// Where it says nothing, a destructive command is asked about, a command that is
/// not known goes to the classifier where the environment is described, and all else
/// runs.
pub proof fn law_hooks_word_stands(
    tool: Seq<char>,
    destructive: bool,
    read_only: bool,
    environment: bool,
    verdict: PreVerdictV,
)
    ensures
        ({
            let g = after_hooks(tool, destructive, read_only, environment, verdict);
            match verdict {
                PreVerdictV::Allow => g == GateV::Decided(DecisionV::Allow, PreActionV::AsIs),
                PreVerdictV::Deny(reason) => g == GateV::Decided(
                    DecisionV::Deny(reason),
                    PreActionV::AsIs,
                ),
                PreVerdictV::Ask(_) => g == GateV::Decided(DecisionV::Ask, PreActionV::AsIs),
                PreVerdictV::AllowRewritten(patch) => g == GateV::Decided(
                    DecisionV::Allow,
                    PreActionV::Rewrite(patch),
                ),
                PreVerdictV::Short(t) => g == GateV::Decided(
                    DecisionV::Allow,
                    PreActionV::Short(t),
                ),
                PreVerdictV::Pass => {
                    &&& tool != "bash"@ ==> g == GateV::Decided(DecisionV::Allow, PreActionV::AsIs)
                    &&& tool == "bash"@ && destructive ==> g == GateV::Decided(
                        DecisionV::Ask,
                        PreActionV::AsIs,
                    )
                    &&& g == GateV::Classify <==> tool == "bash"@ && !destructive && environment
                        && !read_only
                    &&& tool == "bash"@ && !destructive && (read_only || !environment) ==> g
                        == GateV::Decided(DecisionV::Allow, PreActionV::AsIs)
                },
            }
        }),
{
}

/// What the classifier decides is what is decided, and the command that it would
/// rather see is laid over the call.
pub proof fn law_classifier_is_heard(d: DecisionV, command: Seq<char>)
    ensures
        classified(Some((d, None))) == (d, PreActionV::AsIs),
        classified(Some((d, Some(command)))).0 == d,
        ({
            let a = classified(Some((d, Some(command)))).1;
            a is Rewrite && field(a->Rewrite_0, "command"@) == Some(JsonV::Str(command))
        }),
{
    let patch = seq![("command"@, JsonV::Str(command))];
    law_fields_are_found_by_name(patch, 0, "command"@);
}

/// A path that leads through a directory of tests is one of a test file, at any
/// depth.
pub proof fn law_test_directories_are_known(path: Seq<char>, i: int)
    requires
        0 <= i < split_on(path, '/').len(),
        split_on(path, '/')[i] == "tests"@ || split_on(path, '/')[i] == "test"@ || split_on(
            path,
            '/',
        )[i] == "spec"@ || split_on(path, '/')[i] == "specs"@ || split_on(path, '/')[i]
            == "__tests__"@,
    ensures
        test_path(path),
{
    assert(is_test_dir(split_on(path, '/')[i]));
}

/// A file whose name is one that tests have is a test file, wherever it lies.
pub proof fn law_test_names_are_known(path: Seq<char>, name: Seq<char>)
    requires
        split_on(path, '/').last() == name,
        name.len() > 0,
        name != "."@,
        name != ".."@,
    ensures
        begins(split_on(name, '.')[0], "test_"@) ==> test_path(path),
        ends(split_on(name, '.')[0], "_test"@) ==> test_path(path),
        ends(split_on(name, '.')[0], "Test"@) ==> test_path(path),
        holds(name, ".test."@) ==> test_path(path),
        holds(name, ".spec."@) ==> test_path(path),
{
    lemma_pieces(path, '/');
    assert(file_name_of(split_on(path, '/')) == Some(name));
}

/// The model is told which tool it is stuck with.
pub proof fn law_stuck_note_names_the_tool(tool: Seq<char>)
    ensures
        holds(stuck_note(tool), tool),
{
    let all = stuck_note(tool);
    let at = "\n\n[system] You've issued the same `"@.len() as int;
    assert(all.subrange(at, at + tool.len()) =~= tool);
    assert(occurs_at(all, tool, at));
}

} // verus!
