//! The grounding of a text as a command: the facts are shown, and those that
//! contradict the text count.
use vstd::prelude::*;
use crate::text::{cat2, contains, decimal, ends, holds, size_text, texts, trim, trimmed};
use crate::types::{
    extract_text, text_of_blocks, transcript, Message, MessageV, Role,
};

verus! {

/// A fact contradicts the text: it names a path that is absent, or a count that
/// differs.
pub open spec fn diverges(fact: Seq<char>) -> bool {
    holds(fact, "is not a current file"@) || holds(fact, "(you wrote"@)
}

/// How many of the facts contradict the text.
pub open spec fn divergences(facts: Seq<Seq<char>>) -> nat
    decreases facts.len(),
{
    if facts.len() == 0 {
        0
    } else {
        divergences(facts.drop_last()) + (if diverges(facts.last()) {
            1nat
        } else {
            0
        })
    }
}

/// What the command says of a text.
#[derive(Debug)]
pub struct Grounded {
    /// What is printed.
    pub lines: Vec<String>,
    /// What is printed as an error, where a fact contradicts the text; the
    /// command then fails.
    pub failure: Option<String>,
}

/// The lines for some facts.
pub open spec fn fact_lines(facts: Seq<Seq<char>>) -> Seq<Seq<char>> {
    if facts.len() == 0 {
        seq!["no groundable claims found — nothing to verify"@]
    } else {
        seq!["VERIFIED FACTS (mechanical, no model in the loop):"@] + facts.map_values(
            |f: Seq<char>| "- "@ + f,
        )
    }
}

/// What the command says of a text that is blank.
pub const NOTHING_TO_CHECK: &'static str = "ground: nothing to check (empty input)";

/// Whether there is anything to check in a text.
pub fn checkable(text: &str) -> (b: bool)
    ensures
        b == (trimmed(text@).len() > 0),
{
    !trim(text).as_str().is_empty()
}

/// What the command says of the facts on a text.
pub fn run_ground(facts: &Vec<String>) -> (r: Grounded)
    ensures
        texts(r.lines@) == fact_lines(texts(facts@)),
        match r.failure {
            Some(e) => divergences(texts(facts@)) > 0 && e@ == "\n"@ + decimal(
                divergences(texts(facts@)),
            ) + " divergence(s) from the code — review before trusting the text."@,
            None => divergences(texts(facts@)) == 0,
        },
{
    let ghost fs = texts(facts@);
    assert(fs.len() == facts@.len());
    let mut lines: Vec<String> = Vec::new();
    if facts.len() == 0 {
        lines.push("no groundable claims found — nothing to verify".to_owned());
        assert(texts(lines@) =~= fact_lines(fs));
        return Grounded { lines, failure: None };
    }
    lines.push("VERIFIED FACTS (mechanical, no model in the loop):".to_owned());
    let ghost head = seq!["VERIFIED FACTS (mechanical, no model in the loop):"@];
    let ghost all = fs.map_values(|f: Seq<char>| "- "@ + f);
    let mut n: usize = 0;
    let mut i: usize = 0;
    assert(fs.take(0) =~= Seq::empty());
    assert(texts(lines@) =~= head + all.take(0));
    while i < facts.len()
        invariant
            i <= facts@.len(),
            fs == texts(facts@),
            all == fs.map_values(|f: Seq<char>| "- "@ + f),
            n == divergences(fs.take(i as int)),
            n <= i,
            texts(lines@) == head + all.take(i as int),
        decreases facts@.len() - i,
    {
        assert(fs.take(i + 1).drop_last() =~= fs.take(i as int));
        assert(fs.take(i + 1).last() == facts@[i as int]@);
        let f = facts[i].as_str();
        if contains(f, "is not a current file") || contains(f, "(you wrote") {
            n += 1;
        }
        let ghost before = texts(lines@);
        lines.push(cat2("- ", f));
        assert(texts(lines@) =~= before.push(all[i as int]));
        assert((head + all.take(i as int)).push(all[i as int]) =~= head + all.take(i + 1));
        i += 1;
    }
    assert(fs.take(i as int) =~= fs);
    assert(all.take(i as int) =~= all);
    let failure = if n > 0 {
        Some(
            crate::text::cat3(
                "\n",
                size_text(n).as_str(),
                " divergence(s) from the code — review before trusting the text.",
            ),
        )
    } else {
        None
    };
    Grounded { lines, failure }
}

/// The text of the last message of the model.
pub open spec fn last_said(msgs: Seq<MessageV>) -> Option<Seq<char>>
    decreases msgs.len(),
{
    if msgs.len() == 0 {
        None
    } else if msgs.last().role == Role::Assistant {
        let t = text_of_blocks(msgs.last().content);
        if trimmed(t).len() > 0 {
            Some(t)
        } else {
            None
        }
    } else {
        last_said(msgs.drop_last())
    }
}

/// The text of the last message of the model; none where it is blank or where
/// the model said nothing.
pub fn last_assistant_text(messages: &Vec<Message>) -> (r: Option<String>)
    ensures
        crate::checks::text_view(r) == last_said(transcript(messages@)),
{
    let ghost ms = transcript(messages@);
    let mut n: usize = messages.len();
    assert(ms.take(n as int) =~= ms);
    while n > 0
        invariant
            n <= messages@.len(),
            ms == transcript(messages@),
            last_said(ms) == last_said(ms.take(n as int)),
        decreases n,
    {
        assert(ms.take(n as int).drop_last() =~= ms.take(n - 1));
        assert(ms.take(n as int).last() == messages@[n - 1]@);
        if let Role::Assistant = messages[n - 1].role {
            let t = extract_text(&messages[n - 1].content);
            return if trim(t.as_str()).as_str().is_empty() {
                None
            } else {
                Some(t)
            };
        }
        n -= 1;
    }
    None
}

/// A fact that only says where a symbol is does not make the command fail: it
/// fails exactly where a fact contradicts the text.
pub proof fn law_only_divergences_fail(facts: Seq<Seq<char>>)
    ensures
        divergences(facts) == 0 <==> forall|i: int|
            0 <= i < facts.len() ==> !diverges(#[trigger] facts[i]),
    decreases facts.len(),
{
    if facts.len() > 0 {
        let front = facts.drop_last();
        law_only_divergences_fail(front);
        if divergences(facts) == 0 {
            assert forall|i: int| 0 <= i < facts.len() implies !diverges(#[trigger] facts[i]) by {
                if i < front.len() {
                    assert(front[i] == facts[i]);
                }
            }
        }
        if forall|i: int| 0 <= i < facts.len() ==> !diverges(#[trigger] facts[i]) {
            assert forall|i: int| 0 <= i < front.len() implies !diverges(#[trigger] front[i]) by {
                assert(front[i] == facts[i]);
            }
            assert(facts[facts.len() - 1] == facts.last());
        }
    }
}

/// Every fact is printed, in a line of its own and in order, and nothing is left out.
pub proof fn law_every_fact_is_printed(facts: Seq<Seq<char>>, i: int)
    requires
        0 <= i < facts.len(),
    ensures
        fact_lines(facts).len() == facts.len() + 1,
        ends(fact_lines(facts)[i + 1], facts[i]),
{
    let line = "- "@ + facts[i];
    assert(fact_lines(facts)[i + 1] == line);
    assert(line.subrange(line.len() - facts[i].len(), line.len() as int) =~= facts[i]);
}

/// Facts that contradict the text are counted one by one.
pub proof fn law_divergences_add_up(a: Seq<Seq<char>>, b: Seq<Seq<char>>, f: Seq<char>)
    ensures
        divergences(a + b) == divergences(a) + divergences(b),
        divergences(seq![f]) == (if holds(f, "is not a current file"@) || holds(f, "(you wrote"@) {
            1nat
        } else {
            0
        }),
    decreases b.len(),
{
    let one = seq![f];
    assert(one.drop_last() =~= Seq::empty());
    assert(divergences(one.drop_last()) == 0);
    if b.len() > 0 {
        law_divergences_add_up(a, b.drop_last(), f);
        assert((a + b).drop_last() =~= a + b.drop_last());
        assert((a + b).last() == b.last());
    } else {
        assert(a + b =~= a);
    }
}

/// The text that is checked is the model's last message, whatever others said since.
pub proof fn law_models_last_message_is_checked(
    msgs: Seq<MessageV>,
    m: MessageV,
    more: Seq<MessageV>,
)
    requires
        m.role == Role::Assistant,
        forall|i: int| 0 <= i < more.len() ==> (#[trigger] more[i]).role != Role::Assistant,
    ensures
        last_said(msgs.push(m) + more) == (if trimmed(text_of_blocks(m.content)).len() > 0 {
            Some(text_of_blocks(m.content))
        } else {
            None
        }),
    decreases more.len(),
{
    let all = msgs.push(m) + more;
    if more.len() == 0 {
        assert(all =~= msgs.push(m));
    } else {
        let front = more.drop_last();
        assert forall|i: int| 0 <= i < front.len() implies (#[trigger] front[i]).role
            != Role::Assistant by {
            assert(front[i] == more[i]);
        }
        law_models_last_message_is_checked(msgs, m, front);
        assert(all.drop_last() =~= msgs.push(m) + front);
        assert(all.last() == more[more.len() - 1]);
    }
}

} // verus!
