//! The pieces that a stream delivers, put together into a turn.
use vstd::prelude::*;
use crate::agent::TurnResult;
use crate::json::{no_fields, obj, parsed_json, Json, JsonV};
use crate::types::{
    blocks, call_block, text_message, tool_calls, AgentState, AgentStateV, BlockV, ContentBlock,
    Message, MessageV, Role, TokenUsage, ToolCall, ToolCallV,
};

verus! {

/// A tool call as far as the stream has delivered it. The arguments are JSON
/// text, in pieces.
#[derive(Debug)]
pub struct PartialCall {
    /// The number that the provider gave the call.
    pub index: u64,
    pub id: String,
    pub name: String,
    pub arguments: String,
}

/// What a [`PartialCall`] stands for.
pub struct PartialV {
    pub index: nat,
    pub id: Seq<char>,
    pub name: Seq<char>,
    pub arguments: Seq<char>,
}

impl View for PartialCall {
    type V = PartialV;

    open spec fn view(&self) -> PartialV {
        PartialV {
            index: self.index as nat,
            id: self.id@,
            name: self.name@,
            arguments: self.arguments@,
        }
    }
}

/// What some calls stand for.
pub open spec fn partials(v: Seq<PartialCall>) -> Seq<PartialV> {
    v.map_values(|c: PartialCall| c@)
}

/// The calls stand in the order of their numbers, each number once.
pub open spec fn in_order(calls: Seq<PartialV>) -> bool {
    forall|i: int, j: int|
        0 <= i < j < calls.len() ==> (#[trigger] calls[i]).index < (#[trigger] calls[j]).index
}

/// How many of the first calls have smaller numbers.
pub open spec fn place(calls: Seq<PartialV>, index: nat) -> int
    decreases calls.len(),
{
    if calls.len() > 0 && calls[0].index < index {
        1 + place(calls.drop_first(), index)
    } else {
        0
    }
}

/// The call with the given number.
pub open spec fn call_with(calls: Seq<PartialV>, index: nat) -> Option<PartialV> {
    let p = place(calls, index);
    if 0 <= p < calls.len() && calls[p].index == index {
        Some(calls[p])
    } else {
        None
    }
}

/// The calls with `c` in the place of the one with its number, or among them.
pub open spec fn with_call(calls: Seq<PartialV>, c: PartialV) -> Seq<PartialV> {
    let p = place(calls, c.index);
    if call_with(calls, c.index) is Some {
        calls.update(p, c)
    } else {
        calls.insert(p, c)
    }
}

proof fn lemma_place(calls: Seq<PartialV>, index: nat)
    ensures
        0 <= place(calls, index) <= calls.len(),
        forall|i: int| 0 <= i < place(calls, index) ==> (#[trigger] calls[i]).index < index,
        place(calls, index) < calls.len() ==> calls[place(calls, index)].index >= index,
    decreases calls.len(),
{
    if calls.len() > 0 && calls[0].index < index {
        lemma_place(calls.drop_first(), index);
        assert forall|i: int| 0 <= i < place(calls, index) implies (#[trigger] calls[i]).index
            < index by {
            if i > 0 {
                assert(calls.drop_first()[i - 1] == calls[i]);
            }
        }
    }
}

/// Finds the place of a number; see [`place`].
pub fn find_place(calls: &Vec<PartialCall>, index: u64) -> (p: usize)
    ensures
        p == place(partials(calls@), index as nat),
        p <= calls@.len(),
{
    let ghost cs = partials(calls@);
    let mut i: usize = 0;
    assert(cs.skip(0) =~= cs);
    while i < calls.len() && calls[i].index < index
        invariant
            i <= calls@.len(),
            cs == partials(calls@),
            place(cs, index as nat) == i + place(cs.skip(i as int), index as nat),
        decreases calls@.len() - i,
    {
        assert(cs[i as int] == calls@[i as int]@);
        assert(cs.skip(i as int)[0] == cs[i as int]);
        assert(cs.skip(i as int).drop_first() =~= cs.skip(i + 1));
        i += 1;
    }
    assert(i < calls@.len() ==> cs.skip(i as int)[0] == calls@[i as int]@);
    i
}

/// Puts a call among the others; see [`with_call`].
pub fn put_call(calls: &mut Vec<PartialCall>, c: PartialCall)
    ensures
        partials(final(calls)@) == with_call(partials(old(calls)@), c@),
{
    let ghost cs = partials(calls@);
    let ghost cv = c@;
    let p: usize = find_place(calls, c.index);
    if p < calls.len() && calls[p].index == c.index {
        assert(cs[p as int] == calls@[p as int]@);
        calls.set(p, c);
        assert(partials(calls@) =~= cs.update(p as int, cv));
    } else {
        assert(p < calls@.len() ==> cs[p as int] == calls@[p as int]@);
        calls.insert(p, c);
        assert(partials(calls@) =~= cs.insert(p as int, cv));
    }
}

/// Copies the call with the given number.
pub fn get_call(calls: &Vec<PartialCall>, index: u64) -> (r: Option<PartialCall>)
    ensures
        match r {
            Some(c) => call_with(partials(calls@), index as nat) == Some(c@),
            None => call_with(partials(calls@), index as nat) is None,
        },
{
    let p: usize = find_place(calls, index);
    if p < calls.len() {
        assert(partials(calls@)[p as int] == calls@[p as int]@);
        if calls[p].index == index {
            return Some(
                PartialCall {
                    index,
                    id: calls[p].id.clone(),
                    name: calls[p].name.clone(),
                    arguments: calls[p].arguments.clone(),
                },
            );
        }
    }
    None
}

/// The call that a delivered one stands for: arguments that are no JSON text
/// become an empty object.
pub open spec fn delivered(c: PartialV) -> ToolCallV {
    ToolCallV {
        id: c.id,
        name: c.name,
        arguments: match parsed_json(c.arguments) {
            Some(v) => v,
            None => JsonV::Object(Seq::empty()),
        },
    }
}

/// The calls that the delivered ones stand for.
pub open spec fn all_delivered(calls: Seq<PartialV>) -> Seq<ToolCallV> {
    calls.map_values(|c: PartialV| delivered(c))
}

/// Completes the delivered calls.
pub fn complete_calls(calls: &Vec<PartialCall>) -> (r: Vec<ToolCall>)
    ensures
        tool_calls(r@) == all_delivered(partials(calls@)),
{
    let mut out: Vec<ToolCall> = Vec::new();
    let mut i: usize = 0;
    while i < calls.len()
        invariant
            i <= calls@.len(),
            out@.len() == i,
            forall|k: int| 0 <= k < i ==> (#[trigger] out@[k])@ == delivered(calls@[k]@),
        decreases calls@.len() - i,
    {
        let arguments = match Json::parse(calls[i].arguments.as_str()) {
            Some(v) => v,
            None => obj(no_fields()),
        };
        out.push(
            ToolCall { id: calls[i].id.clone(), name: calls[i].name.clone(), arguments },
        );
        i += 1;
    }
    assert(tool_calls(out@) =~= all_delivered(partials(calls@)));
    out
}

/// What a [`TurnResult`] stands for.
pub struct TurnV {
    pub message: MessageV,
    pub state: AgentStateV,
    pub usage: TokenUsage,
    pub tripped_rule: Option<Seq<char>>,
}

impl View for TurnResult {
    type V = TurnV;

    open spec fn view(&self) -> TurnV {
        TurnV {
            message: self.assistant_message@,
            state: self.state@,
            usage: self.usage,
            tripped_rule: crate::checks::text_view(self.tripped_rule),
        }
    }
}

/// A turn that is nothing but text: the model is done.
pub open spec fn text_turn(text: Seq<char>, usage: TokenUsage) -> TurnV {
    TurnV {
        message: text_message(Role::Assistant, text, false),
        state: AgentStateV::Done,
        usage,
        tripped_rule: None,
    }
}

/// The blocks of a turn with tool calls: the thinking and the text, where there
/// is any, and the calls.
pub open spec fn turn_blocks(
    thinking: Seq<char>,
    text: Seq<char>,
    calls: Seq<ToolCallV>,
) -> Seq<BlockV> {
    (if thinking.len() > 0 {
        seq![BlockV::Thinking { thinking }]
    } else {
        Seq::empty()
    }) + (if text.len() > 0 {
        seq![BlockV::Text { text }]
    } else {
        Seq::empty()
    }) + calls.map_values(|c: ToolCallV| call_block(c))
}

/// The turn that a finished stream gives. Without tool calls the text is the
/// whole turn.
pub open spec fn finished_turn(
    thinking: Seq<char>,
    text: Seq<char>,
    calls: Seq<PartialV>,
    usage: TokenUsage,
) -> TurnV {
    if calls.len() == 0 {
        text_turn(text, usage)
    } else {
        TurnV {
            message: MessageV {
                role: Role::Assistant,
                content: turn_blocks(thinking, text, all_delivered(calls)),
                injected: false,
            },
            state: AgentStateV::ToolCalling(all_delivered(calls)),
            usage,
            tripped_rule: None,
        }
    }
}

/// A turn that is nothing but text; see [`text_turn`].
pub fn turn_of_text(text: String, usage: TokenUsage) -> (r: TurnResult)
    ensures
        r@ == text_turn(text@, usage),
{
    TurnResult {
        assistant_message: Message::assistant(text),
        state: AgentState::Done,
        usage,
        tripped_rule: None,
    }
}

/// Puts a finished stream together; see [`finished_turn`].
pub fn assemble(
    thinking: String,
    text: String,
    calls: &Vec<PartialCall>,
    usage: TokenUsage,
) -> (r: TurnResult)
    ensures
        r@ == finished_turn(thinking@, text@, partials(calls@), usage),
{
    assert(partials(calls@).len() == calls@.len());
    if calls.len() == 0 {
        return turn_of_text(text, usage);
    }
    let ghost cs = all_delivered(partials(calls@));
    let ghost tv = thinking@;
    let ghost xv = text@;
    let done = complete_calls(calls);
    let mut content: Vec<ContentBlock> = Vec::new();
    if !thinking.as_str().is_empty() {
        content.push(ContentBlock::Thinking { thinking });
    }
    if !text.as_str().is_empty() {
        content.push(ContentBlock::Text { text });
    }
    let ghost front = blocks(content@);
    assert(front =~= turn_blocks(tv, xv, Seq::empty()));
    let mut i: usize = 0;
    while i < done.len()
        invariant
            i <= done@.len(),
            cs == tool_calls(done@),
            content@.len() == front.len() + i,
            forall|k: int| 0 <= k < front.len() ==> (#[trigger] content@[k])@ == front[k],
            forall|k: int|
                front.len() <= k < front.len() + i ==> (#[trigger] content@[k])@ == call_block(
                    cs[k - front.len()],
                ),
        decreases done@.len() - i,
    {
        assert(cs[i as int] == done@[i as int]@);
        content.push(
            ContentBlock::ToolUse {
                id: done[i].id.clone(),
                name: done[i].name.clone(),
                input: done[i].arguments.clone(),
            },
        );
        i += 1;
    }
    assert(blocks(content@) =~= turn_blocks(tv, xv, cs));
    TurnResult {
        assistant_message: Message { role: Role::Assistant, content, injected: false },
        state: AgentState::ToolCalling(done),
        usage,
        tripped_rule: None,
    }
}

// ------------------------------------------------------------ laws

/// Whatever the stream delivers, the calls stay in the order of their numbers.
pub proof fn law_calls_stay_in_order(calls: Seq<PartialV>, c: PartialV)
    requires
        in_order(calls),
    ensures
        in_order(with_call(calls, c)),
{
    lemma_place(calls, c.index);
    let p = place(calls, c.index);
    let after = with_call(calls, c);
    assert forall|i: int, j: int| 0 <= i < j < after.len() implies (#[trigger] after[i]).index < (
    #[trigger] after[j]).index by {
        if call_with(calls, c.index) is Some {
            assert(calls[p].index == c.index);
            assert(calls[i].index < calls[j].index);
        } else {
            let oi = if i < p {
                i
            } else {
                i - 1
            };
            let oj = if j < p {
                j
            } else {
                j - 1
            };
            if i == p {
                assert(calls[p].index > c.index);
                if oj > p {
                    assert(calls[p].index < calls[oj].index);
                }
            } else if j == p {
                assert(calls[i].index < c.index);
            } else {
                assert(calls[oi].index < calls[oj].index);
            }
        }
    }
}

/// What was put under a number is found under it.
pub proof fn law_put_call_is_found(calls: Seq<PartialV>, c: PartialV)
    ensures
        call_with(with_call(calls, c), c.index) == Some(c),
{
    lemma_place(calls, c.index);
    let p = place(calls, c.index);
    let after = with_call(calls, c);
    assert(after[p] == c);
    assert forall|i: int| 0 <= i < p implies (#[trigger] after[i]).index < c.index by {
        assert(after[i] == calls[i]);
    }
    lemma_place_is(after, c.index, p);
}

proof fn lemma_place_is(calls: Seq<PartialV>, index: nat, p: int)
    requires
        0 <= p < calls.len(),
        calls[p].index == index,
        forall|i: int| 0 <= i < p ==> (#[trigger] calls[i]).index < index,
    ensures
        place(calls, index) == p,
    decreases calls.len(),
{
    if p > 0 {
        let rest = calls.drop_first();
        assert forall|i: int| 0 <= i < p - 1 implies (#[trigger] rest[i]).index < index by {
            assert(rest[i] == calls[i + 1]);
        }
        assert(calls[0].index < index);
        lemma_place_is(rest, index, p - 1);
    }
}

/// A finished stream gives one call for each that was delivered, in order, and
/// the turn is done exactly where there was none.
pub proof fn law_turn_keeps_every_call(
    thinking: Seq<char>,
    text: Seq<char>,
    calls: Seq<PartialV>,
    usage: TokenUsage,
)
    ensures
        finished_turn(thinking, text, calls, usage).state is Done <==> calls.len() == 0,
        finished_turn(thinking, text, calls, usage).state matches AgentStateV::ToolCalling(c)
            ==> c.len() == calls.len(),
{
}

/// Where the numbers are in order, the call under a number is the one that has it.
pub proof fn law_calls_are_found_by_number(calls: Seq<PartialV>, i: int, index: nat)
    requires
        in_order(calls),
    ensures
        0 <= i < calls.len() ==> call_with(calls, calls[i].index) == Some(calls[i]),
        (forall|k: int| 0 <= k < calls.len() ==> (#[trigger] calls[k]).index != index)
            ==> call_with(calls, index) is None,
{
    if 0 <= i < calls.len() {
        lemma_place_is(calls, calls[i].index, i);
    }
    lemma_place(calls, index);
}

/// Putting a call leaves the others as they were.
pub proof fn law_other_calls_stay(calls: Seq<PartialV>, c: PartialV, index: nat)
    requires
        in_order(calls),
        index != c.index,
    ensures
        call_with(with_call(calls, c), index) == call_with(calls, index),
{
    law_calls_stay_in_order(calls, c);
    let after = with_call(calls, c);
    let p = place(calls, c.index);
    lemma_place(calls, c.index);
    lemma_place(calls, index);
    match call_with(calls, index) {
        Some(x) => {
            let i = place(calls, index);
            let j = if call_with(calls, c.index) is Some || i < p {
                i
            } else {
                i + 1
            };
            assert(after[j] == calls[i]);
            law_calls_are_found_by_number(after, j, index);
        },
        None => {
            assert forall|k: int| 0 <= k < calls.len() implies (#[trigger] calls[k]).index
                != index by {
                if calls[k].index == index {
                    law_calls_are_found_by_number(calls, k, index);
                }
            }
            assert forall|k: int| 0 <= k < after.len() implies (#[trigger] after[k]).index
                != index by {
                if call_with(calls, c.index) is Some {
                    if k != p {
                        assert(after[k] == calls[k]);
                    }
                } else if k < p {
                    assert(after[k] == calls[k]);
                } else if k > p {
                    assert(after[k] == calls[k - 1]);
                }
            }
            law_calls_are_found_by_number(after, 0, index);
        },
    }
}

/// A finished stream loses nothing that it delivered. Without calls, the message is
/// the text. With calls, the thinking and the text stand in it where there is any,
/// and each call stands behind them under its own id and name, with the input that
/// its arguments spell, both in the message and among the calls to run.
pub proof fn law_turn_holds_what_was_delivered(
    thinking: Seq<char>,
    text: Seq<char>,
    calls: Seq<PartialV>,
    usage: TokenUsage,
    k: int,
)
    ensures
        ({
            let turn = finished_turn(thinking, text, calls, usage);
            let content = turn.message.content;
            let lead = content.len() - calls.len();
            &&& turn.message.role == Role::Assistant
            &&& !turn.message.injected
            &&& turn.usage == usage
            &&& turn.tripped_rule is None
            &&& calls.len() == 0 ==> content.len() == 1 && content[0] == BlockV::Text { text }
            &&& calls.len() > 0 ==> {
                &&& turn.state is ToolCalling
                &&& lead == (if thinking.len() > 0 {
                    1int
                } else {
                    0
                }) + (if text.len() > 0 {
                    1int
                } else {
                    0
                })
                &&& thinking.len() > 0 ==> content[0] == BlockV::Thinking { thinking }
                &&& text.len() > 0 ==> content[lead - 1] == BlockV::Text { text }
            }
            &&& 0 <= k < calls.len() ==> {
                let asked = turn.state->ToolCalling_0[k];
                let block = content[lead + k];
                &&& asked.id == calls[k].id
                &&& asked.name == calls[k].name
                &&& parsed_json(calls[k].arguments) matches Some(v) ==> asked.arguments == v
                &&& parsed_json(calls[k].arguments) is None ==> asked.arguments
                    == JsonV::Object(Seq::empty())
                &&& block is ToolUse
                &&& block->id == calls[k].id
                &&& block->name == calls[k].name
                &&& block->input == asked.arguments
            }
        }),
{
    let turn = finished_turn(thinking, text, calls, usage);
    if calls.len() > 0 {
        let content = turn.message.content;
        assert(content.len() == turn_blocks(thinking, text, all_delivered(calls)).len());
    }
}

} // verus!
