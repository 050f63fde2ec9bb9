//! One turn of the model: what is sent along with the transcript, what it costs,
//! and what happens when a rule cuts its stream short. And the small talk that
//! is answered without a turn of the full kind.
use vstd::prelude::*;
use crate::agent::tokens::{estimate_context_tokens, estimated_tokens, held};
use crate::agent::RequestAnchor;
use crate::ai::setting_view;
use crate::checks::text_view;
use crate::text::{
    begins, byte_len, cat2, cat3, cat5, char_is_space, ends, holds, is_one_of, is_space, join, joined, occurs_at, put, text_of,
    texts, to_chars, trim, trimmed, utf8_len, words,
};
use crate::types::{
    extract_text, law_text_is_all_that_was_said, text_message, text_of_blocks, transcript, BlockV,
    Message, MessageV, Role, TokenUsage,
};

verus! {

// ------------------------------------------------------------ what is sent

/// The notes as a pair of messages in front of the transcript; notes that say
/// nothing are not sent.
pub open spec fn note_pair(notes: Seq<char>, plan_mode: bool) -> Seq<MessageV> {
    if trimmed(notes).len() == 0 {
        Seq::empty()
    } else if plan_mode {
        seq![
            text_message(
                Role::User,
                "<task_contract>\n"@ + notes
                    + "\n</task_contract>\nUse this persistent contract while completing the task."@,
                true,
            ),
            text_message(Role::Assistant, "Acknowledged."@, false),
        ]
    } else {
        seq![
            text_message(
                Role::User,
                "<working_notes>\n"@ + notes
                    + "\n</working_notes>\nThese are my persistent notes; I keep them current via the `note` tool."@,
                true,
            ),
            text_message(
                Role::Assistant,
                "Acknowledged — I'll use and update these notes."@,
                false,
            ),
        ]
    }
}

/// What stands before the transcript in a request: the system prompt, if there
/// is one, and the notes.
pub open spec fn turn_lead(
    system_prompt: Option<Seq<char>>,
    notes: Seq<char>,
    plan_mode: bool,
) -> Seq<MessageV> {
    (match system_prompt {
        Some(t) => seq![text_message(Role::System, t, false)],
        None => Seq::empty(),
    }) + note_pair(notes, plan_mode)
}

/// Builds [`turn_lead`].
pub fn turn_prefix(system_prompt: &Option<String>, notes: &str, plan_mode: bool) -> (r: Vec<Message>)
    ensures
        transcript(r@) == turn_lead(text_view(*system_prompt), notes@, plan_mode),
{
    let mut out: Vec<Message> = Vec::new();
    if let Some(t) = system_prompt {
        out.push(Message::system(t.clone()));
    }
    if !trim(notes).as_str().is_empty() {
        if plan_mode {
            out.push(
                Message::injected(
                    cat3(
                        "<task_contract>\n",
                        notes,
                        "\n</task_contract>\nUse this persistent contract while completing the task.",
                    ),
                ),
            );
            out.push(Message::assistant("Acknowledged.".to_owned()));
        } else {
            out.push(
                Message::injected(
                    cat3(
                        "<working_notes>\n",
                        notes,
                        "\n</working_notes>\nThese are my persistent notes; I keep them current via the `note` tool.",
                    ),
                ),
            );
            out.push(
                Message::assistant("Acknowledged — I'll use and update these notes.".to_owned()),
            );
        }
    }
    assert(transcript(out@) =~= turn_lead(text_view(*system_prompt), notes@, plan_mode));
    out
}

// ------------------------------------------------------------ what it costs

/// The tokens that a turn costs: what the provider counted, or else an estimate
/// of what was sent and of the reply.
pub open spec fn turn_cost(usage: TokenUsage, sent: Seq<MessageV>, reply: MessageV) -> nat {
    if usage.input + usage.output == 0 {
        held(held(estimated_tokens(sent)) + held(estimated_tokens(seq![reply])))
    } else {
        (usage.input + usage.output) as nat
    }
}

/// What is spent after a turn, as far as it can be counted.
pub open spec fn spent_after(spent: u64, cost: nat) -> nat {
    if spent + cost <= u64::MAX {
        (spent + cost) as nat
    } else {
        u64::MAX as nat
    }
}

/// Adds the cost of a turn to what is spent; see [`turn_cost`]. `sent` is the
/// whole request. Nothing is counted where there is no cap.
pub fn account_turn(
    tokens_spent: u64,
    spend_cap: Option<u64>,
    usage: TokenUsage,
    sent: &Vec<Message>,
    reply: &Message,
) -> (r: u64)
    ensures
        r == (if spend_cap is Some {
            spent_after(tokens_spent, turn_cost(usage, transcript(sent@), reply@))
        } else {
            tokens_spent as nat
        }),
{
    if spend_cap.is_none() {
        return tokens_spent;
    }
    let total: u64 = usage.total();
    let cost: u64 = if total == 0 {
        let a: usize = estimate_context_tokens(sent);
        let mut one: Vec<Message> = Vec::new();
        one.push(reply.clone());
        assert(transcript(one@) =~= seq![reply@]);
        let b: usize = estimate_context_tokens(&one);
        a.saturating_add(b) as u64
    } else {
        total
    };
    tokens_spent.saturating_add(cost)
}

/// The measure of the request that was just answered; where the provider counted
/// nothing, the measure of an earlier one stays.
pub open spec fn anchored(
    usage: TokenUsage,
    messages_len: usize,
    before: Option<RequestAnchor>,
) -> Option<RequestAnchor> {
    if usage.input > 0 {
        Some(RequestAnchor { input_tokens: usage.input as usize, messages_len })
    } else {
        before
    }
}

/// Computes [`anchored`]. `messages_len` is the length of the transcript that
/// was sent, before the reply is added to it.
pub fn anchor_after(usage: TokenUsage, messages_len: usize, before: Option<RequestAnchor>) -> (r:
    Option<RequestAnchor>)
    ensures
        r == anchored(usage, messages_len, before),
{
    if usage.input > 0 {
        Some(RequestAnchor { input_tokens: usage.input as usize, messages_len })
    } else {
        before
    }
}

/// A count of zero is no count: it never replaces one.
pub proof fn law_missing_count_keeps_the_anchor(
    output: u32,
    messages_len: usize,
    before: Option<RequestAnchor>,
)
    ensures
        anchored(TokenUsage { input: 0, output }, messages_len, before) == before,
{
}

/// What is spent never goes down.
pub proof fn law_spending_never_shrinks(spent: u64, cost: nat)
    ensures
        spent_after(spent, cost) >= spent,
{
}

// ------------------------------------------------------------ stream rules

/// What follows when a stream ends: its reply is taken, or a rule cut it short
/// and the turn starts over, with the model reminded of the rule. Then either
/// the rules that tripped are put aside, or all of them.
#[derive(Debug)]
pub enum StreamStep {
    Take,
    Restart { put_aside: Vec<String>, put_all_aside: bool, notice: String, reminder: Message },
}

/// A stream that a rule cut short starts over, as long as fewer than `max_trips`
/// rules tripped in this turn.
pub open spec fn restarts(spent: nat, tripped: bool, max_trips: nat) -> bool {
    tripped && spent < max_trips
}

/// Decides what follows when a stream ends. `spent` holds the rules that tripped
/// before in this turn, `tripped` the one that cut this stream short, and
/// `message` what the rule has to say, if it has anything.
pub fn after_stream(
    spent: &mut Vec<String>,
    tripped: &Option<String>,
    message: Option<&str>,
    max_trips: usize,
) -> (r: StreamStep)
    ensures
        r is Restart <==> restarts(
            old(spent)@.len() as nat,
            tripped is Some,
            max_trips as nat,
        ),
        r is Take ==> *final(spent) == *old(spent),
        r matches StreamStep::Restart { put_aside, put_all_aside, notice, reminder } ==> {
            let name = tripped->0@;
            &&& texts(final(spent)@) == texts(old(spent)@).push(name)
            &&& texts(put_aside@) == texts(final(spent)@)
            &&& put_all_aside == (old(spent)@.len() + 1 >= max_trips)
            &&& notice@ == "stream rule `"@ + name + "` tripped — restarting the turn"@
            &&& reminder@ == text_message(
                Role::User,
                "<system-reminder>\n"@ + (match message {
                    Some(m) => m@,
                    None => name,
                }) + "\n</system-reminder>"@,
                true,
            )
        },
{
    match tripped {
        None => StreamStep::Take,
        Some(name) => {
            if spent.len() >= max_trips {
                return StreamStep::Take;
            }
            let said = match message {
                Some(m) => m.to_owned(),
                None => name.clone(),
            };
            let ghost before = texts(spent@);
            spent.push(name.clone());
            assert(texts(spent@) =~= before.push(name@));
            let mut put_aside: Vec<String> = Vec::new();
            let mut i: usize = 0;
            while i < spent.len()
                invariant
                    i <= spent@.len(),
                    put_aside@.len() == i,
                    forall|k: int| 0 <= k < i ==> (#[trigger] put_aside@[k])@ == spent@[k]@,
                decreases spent@.len() - i,
            {
                put_aside.push(spent[i].clone());
                i += 1;
            }
            assert(texts(put_aside@) =~= texts(spent@));
            StreamStep::Restart {
                put_aside,
                put_all_aside: spent.len() >= max_trips,
                notice: cat3("stream rule `", name.as_str(), "` tripped — restarting the turn"),
                reminder: Message::injected(
                    cat3("<system-reminder>\n", said.as_str(), "\n</system-reminder>"),
                ),
            }
        },
    }
}

/// A turn starts over at most `max_trips` times: each restart spends one, and
/// when all are spent there is none.
pub proof fn law_restarts_are_bounded(spent: nat, max_trips: nat)
    ensures
        restarts(spent, true, max_trips) ==> spent + 1 <= max_trips,
        spent >= max_trips ==> !restarts(spent, true, max_trips),
{
}

// ------------------------------------------------------------ small talk

/// What `str::to_lowercase` makes of a text.
pub uninterp spec fn unicode_lower(s: Seq<char>) -> Seq<char>;

/// `str::to_lowercase` gives the lower case of a text by the rules of Unicode;
/// the result depends on the text alone.
pub assume_specification[ str::to_lowercase ](s: &str) -> (r: String)
    ensures
        r@ == unicode_lower(s@),
;

/// What `char::is_alphanumeric` says of a character.
pub uninterp spec fn alphanumeric(c: char) -> bool;

/// `char::is_alphanumeric` tells letters and digits, by the rules of Unicode,
/// from other characters; the result depends on the character alone.
pub assume_specification[ char::is_alphanumeric ](c: char) -> (b: bool)
    ensures
        b == alphanumeric(c),
;

/// A letter or a digit.
pub open spec fn word_char(c: char) -> bool {
    if (c as u32) < 0x80 {
        'a' <= c <= 'z' || 'A' <= c <= 'Z' || '0' <= c <= '9'
    } else {
        alphanumeric(c)
    }
}

fn is_word_char(c: char) -> (b: bool)
    ensures
        b == word_char(c),
{
    if (c as u32) < 0x80 {
        ('a' <= c && c <= 'z') || ('A' <= c && c <= 'Z') || ('0' <= c && c <= '9')
    } else {
        c.is_alphanumeric()
    }
}

/// A word without the characters around it that are neither letters nor digits.
pub open spec fn bare_word(w: Seq<char>) -> Seq<char>
    decreases w.len(),
{
    if w.len() > 0 && !word_char(w[0]) {
        bare_word(w.drop_first())
    } else if w.len() > 0 && !word_char(w.last()) {
        bare_word(w.drop_last())
    } else {
        w
    }
}

/// The pieces of a text between its white space.
pub open spec fn spaced(s: Seq<char>) -> Seq<Seq<char>>
    decreases s.len(),
{
    if s.len() == 0 {
        seq![Seq::<char>::empty()]
    } else {
        let before = spaced(s.drop_last());
        if is_space(s.last()) {
            before.push(Seq::empty())
        } else {
            before.update(before.len() - 1, before.last().push(s.last()))
        }
    }
}

/// The bare words among some pieces.
pub open spec fn bare_words(pieces: Seq<Seq<char>>) -> Seq<Seq<char>>
    decreases pieces.len(),
{
    if pieces.len() == 0 {
        Seq::empty()
    } else {
        let before = bare_words(pieces.drop_last());
        let w = bare_word(pieces.last());
        if w.len() == 0 {
            before
        } else {
            before.push(w)
        }
    }
}

/// Greetings and questions about the agent.
pub open spec fn small_talk() -> Seq<Seq<char>> {
    seq![
        "ciao"@,
        "salve"@,
        "hey"@,
        "hi"@,
        "hello"@,
        "hola"@,
        "yo"@,
        "ehi"@,
        "ola"@,
        "buongiorno"@,
        "buonasera"@,
        "buonanotte"@,
        "grazie"@,
        "thanks"@,
        "thank you"@,
        "ty"@,
        "chi sei"@,
        "chi sei tu"@,
        "who are you"@,
        "what are you"@,
        "cosa sai fare"@,
        "cosa puoi fare"@,
        "che cosa fai"@,
        "che fai"@,
        "what can you do"@,
        "come stai"@,
        "come va"@,
        "how are you"@,
        "come ti chiami"@,
        "what is your name"@,
        "whats your name"@,
        "aiuto"@,
        "help"@,
    ]
}

/// A text in lower case is small talk: it is short, and its bare words are one
/// of the known phrases.
pub open spec fn is_phrase(lower: Seq<char>) -> bool {
    lower.len() > 0 && utf8_len(lower) <= 64 && small_talk().contains(
        joined(bare_words(spaced(lower)), " "@),
    )
}

fn strip_word(v: &Vec<char>, from: usize, to: usize) -> (r: String)
    requires
        from <= to <= v@.len(),
    ensures
        r@ == bare_word(v@.subrange(from as int, to as int)),
    decreases to - from,
{
    let ghost w = v@.subrange(from as int, to as int);
    if from < to && !is_word_char(v[from]) {
        assert(w.drop_first() =~= v@.subrange(from + 1, to as int));
        strip_word(v, from + 1, to)
    } else if from < to && !is_word_char(v[to - 1]) {
        assert(w.drop_last() =~= v@.subrange(from as int, to - 1));
        strip_word(v, from, to - 1)
    } else {
        text_of(v, from, to)
    }
}

fn bare_words_of(s: &str) -> (r: Vec<String>)
    ensures
        texts(r@) == bare_words(spaced(s@)),
{
    let v = to_chars(s);
    let mut done: Vec<String> = Vec::new();
    let mut from: usize = 0;
    let mut i: usize = 0;
    let ghost mut pieces: Seq<Seq<char>> = Seq::empty();
    assert(v@.take(0) =~= Seq::empty());
    assert(pieces.push(v@.subrange(0, 0)) =~= spaced(v@.take(0)));
    assert(texts(done@) =~= bare_words(pieces));
    while i < v.len()
        invariant
            from <= i <= v@.len(),
            v@ == s@,
            pieces.push(v@.subrange(from as int, i as int)) == spaced(v@.take(i as int)),
            texts(done@) == bare_words(pieces),
        decreases v@.len() - i,
    {
        let ghost cur = v@.subrange(from as int, i as int);
        let ghost before = spaced(v@.take(i as int));
        assert(v@.take(i + 1).drop_last() =~= v@.take(i as int));
        assert(before.last() == cur);
        if char_is_space(v[i]) {
            let w = strip_word(&v, from, i);
            let ghost old_done = texts(done@);
            let ghost wv = w@;
            if !w.as_str().is_empty() {
                done.push(w);
                assert(texts(done@) =~= old_done.push(wv));
            }
            proof {
                assert(pieces.push(cur).drop_last() =~= pieces);
                pieces = pieces.push(cur);
            }
            from = i + 1;
            assert(v@.subrange(from as int, i + 1) =~= Seq::empty());
            assert(pieces.push(v@.subrange(from as int, i + 1)) =~= before.push(Seq::empty()));
        } else {
            assert(v@.subrange(from as int, i + 1) =~= cur.push(v@[i as int]));
            assert(pieces.push(v@.subrange(from as int, i + 1)) =~= before.update(
                before.len() - 1,
                before.last().push(v@[i as int]),
            ));
        }
        i += 1;
    }
    assert(v@.take(i as int) =~= v@);
    let w = strip_word(&v, from, i);
    let ghost old_done = texts(done@);
    let ghost wv = w@;
    let ghost cur = v@.subrange(from as int, i as int);
    assert(pieces.push(cur).drop_last() =~= pieces);
    if !w.as_str().is_empty() {
        done.push(w);
        assert(texts(done@) =~= old_done.push(wv));
    }
    done
}

/// Decides [`is_phrase`].
pub fn is_greeting(lower: &str) -> (b: bool)
    ensures
        b == is_phrase(lower@),
{
    if lower.is_empty() || byte_len(lower) > 64 {
        return false;
    }
    let list = bare_words_of(lower);
    let norm = join(&list, " ");
    let phrases = vec![
        "ciao",
        "salve",
        "hey",
        "hi",
        "hello",
        "hola",
        "yo",
        "ehi",
        "ola",
        "buongiorno",
        "buonasera",
        "buonanotte",
        "grazie",
        "thanks",
        "thank you",
        "ty",
        "chi sei",
        "chi sei tu",
        "who are you",
        "what are you",
        "cosa sai fare",
        "cosa puoi fare",
        "che cosa fai",
        "che fai",
        "what can you do",
        "come stai",
        "come va",
        "how are you",
        "come ti chiami",
        "what is your name",
        "whats your name",
        "aiuto",
        "help",
    ];
    assert(words(phrases@) =~= small_talk());
    is_one_of(norm.as_str(), &phrases)
}

/// Whether a prompt is small talk, and no task: in lower case and without
/// punctuation it is one of the known phrases.
pub fn is_chit_chat(text: &str) -> (b: bool)
    ensures
        b == is_phrase(unicode_lower(trimmed(text@))),
{
    let bare = trim(text);
    let lower = bare.as_str().to_lowercase();
    is_greeting(lower.as_str())
}

/// The system prompt for small talk.
pub const MINI_SYSTEM: &'static str = "You are Sir Bone (\"sirbone\"), an AI coding agent that runs \
     shell commands, reads and edits files, and helps with software tasks. The user sent a \
     greeting or a question about you, not a task. Reply briefly and conversationally in the \
     user's language. Do not start any task, make a plan, or use any tool. If they want to \
     work on something, invite them to describe it.";

/// What it says as well where the workspace has no instructions yet; `name` is
/// the file that they would stand in.
pub open spec fn uninitialized_note(name: Seq<char>) -> Seq<char> {
    " This workspace has no "@ + name
        + "/AGENTS.md yet, so it is not initialized; if the user wants to start working here, briefly offer to create a "@
        + name + " documenting the project (purpose, layout, build/test commands)."@
}

/// The system prompt for a transcript that ends in small talk of the user's;
/// `None` for any other. `missing` names the instructions that the workspace
/// lacks.
pub open spec fn small_talk_system(msgs: Seq<MessageV>, missing: Option<Seq<char>>) -> Option<
    Seq<char>,
> {
    if msgs.len() > 0 && msgs.last().role == Role::User && is_phrase(
        unicode_lower(trimmed(text_of_blocks(msgs.last().content))),
    ) {
        Some(
            match missing {
                Some(name) => MINI_SYSTEM@ + uninitialized_note(name),
                None => MINI_SYSTEM@,
            },
        )
    } else {
        None
    }
}

/// Computes [`small_talk_system`]. A run that gets a prompt from it takes one
/// turn with that prompt and no tools, and nothing else.
pub fn chit_chat_gate(messages: &Vec<Message>, missing: Option<&str>) -> (r: Option<String>)
    ensures
        text_view(r) == small_talk_system(transcript(messages@), setting_view(missing)),
{
    let ghost msgs = transcript(messages@);
    if messages.len() == 0 {
        return None;
    }
    let last = &messages[messages.len() - 1];
    assert(msgs.last() == last@);
    if last.role != Role::User {
        return None;
    }
    let text = extract_text(&last.content);
    if !is_chit_chat(text.as_str()) {
        return None;
    }
    let mut system = MINI_SYSTEM.to_owned();
    if let Some(name) = missing {
        put(
            &mut system,
            cat5(
                " This workspace has no ",
                name,
                "/AGENTS.md yet, so it is not initialized; if the user wants to start working here, briefly offer to create a ",
                name,
                " documenting the project (purpose, layout, build/test commands).",
            ).as_str(),
        );
    }
    Some(system)
}

// ------------------------------------------------------------ plans and reports

/// The note that carries an approved plan through a run.
pub open spec fn plan_note(spec: Seq<char>) -> Seq<char> {
    "APPROVED PLAN — follow this. If you must deviate, say why in your reply before acting:\n"@
        + spec
}

/// Builds [`plan_note`].
pub fn approved_plan_note(spec: &str) -> (r: String)
    ensures
        r@ == plan_note(spec@),
{
    cat2(
        "APPROVED PLAN — follow this. If you must deviate, say why in your reply before acting:\n",
        spec,
    )
}

/// The system prompt of the pass that finds where a change has to happen.
pub const LOCALIZE_SYSTEM: &'static str = "You are a code-localization assistant. Given a task or bug \
     report, find WHERE in the codebase the change must happen. Do NOT edit anything — \
     investigate with the read-only tools (grep, glob, find, ls, read, code_map; \
     code_map gives the symbol index and call graph), then output a concise report \
     listing the exact file path(s), the relevant function/class, the approximate line \
     range, and a one-line reason for each. If unsure, give your best candidates.";

/// The last thing that the model said, if it said anything.
pub open spec fn last_said(msgs: Seq<MessageV>) -> Option<Seq<char>>
    decreases msgs.len(),
{
    if msgs.len() == 0 {
        None
    } else {
        let t = text_of_blocks(msgs.last().content);
        if msgs.last().role == Role::Assistant && trimmed(t).len() > 0 {
            Some(t)
        } else {
            last_said(msgs.drop_last())
        }
    }
}

/// Computes [`last_said`].
pub fn last_report(messages: &Vec<Message>) -> (r: Option<String>)
    ensures
        text_view(r) == last_said(transcript(messages@)),
{
    let ghost msgs = transcript(messages@);
    let mut i: usize = messages.len();
    assert(msgs.take(i as int) =~= msgs);
    while i > 0
        invariant
            i <= messages@.len(),
            msgs == transcript(messages@),
            last_said(msgs) == last_said(msgs.take(i as int)),
        decreases i,
    {
        assert(msgs[i - 1] == messages@[i - 1]@);
        assert(msgs.take(i as int).drop_last() =~= msgs.take(i - 1));
        if messages[i - 1].role == Role::Assistant {
            let t = extract_text(&messages[i - 1].content);
            if !trim(t.as_str()).as_str().is_empty() {
                return Some(t);
            }
        }
        i -= 1;
    }
    None
}

/// Notes that say something are sent whole, in the user's role, in front of the
/// transcript, with a word of the model's behind them; notes that say nothing are not
/// sent.
pub proof fn law_notes_are_sent_whole(notes: Seq<char>, plan_mode: bool)
    ensures
        ({
            let pair = note_pair(notes, plan_mode);
            &&& trimmed(notes).len() == 0 <==> pair.len() == 0
            &&& trimmed(notes).len() > 0 ==> {
                &&& pair.len() == 2
                &&& pair[0].role == Role::User
                &&& pair[1].role == Role::Assistant
                &&& holds(text_of_blocks(pair[0].content), notes)
            }
        }),
{
    if trimmed(notes).len() > 0 {
        let pair = note_pair(notes, plan_mode);
        let (front, back) = if plan_mode {
            (
                "<task_contract>\n"@,
                "\n</task_contract>\nUse this persistent contract while completing the task."@,
            )
        } else {
            (
                "<working_notes>\n"@,
                "\n</working_notes>\nThese are my persistent notes; I keep them current via the `note` tool."@,
            )
        };
        let all = front + notes + back;
        law_text_is_all_that_was_said(Seq::empty(), Seq::empty(), all);
        assert(pair[0].content =~= seq![BlockV::Text { text: all }]);
        let at = front.len() as int;
        assert(all.subrange(at, at + notes.len()) =~= notes);
        assert(occurs_at(all, notes, at));
    }
}

/// The system prompt comes first in a request, word for word, and the notes come behind
/// it.
pub proof fn law_system_prompt_comes_first(prompt: Seq<char>, notes: Seq<char>, plan_mode: bool)
    ensures
        ({
            let lead = turn_lead(Some(prompt), notes, plan_mode);
            &&& lead.len() == 1 + note_pair(notes, plan_mode).len()
            &&& lead[0].role == Role::System
            &&& lead[0].content == seq![BlockV::Text { text: prompt }]
            &&& lead.skip(1) == note_pair(notes, plan_mode)
        }),
        turn_lead(None, notes, plan_mode) == note_pair(notes, plan_mode),
{
    let lead = turn_lead(Some(prompt), notes, plan_mode);
    assert(lead.skip(1) =~= note_pair(notes, plan_mode));
    assert(turn_lead(None, notes, plan_mode) =~= note_pair(notes, plan_mode));
}

/// A turn costs what the provider counted, in and out, wherever it counted anything; and
/// the costs of turns add up.
pub proof fn law_turns_cost_what_was_counted(
    usage: TokenUsage,
    sent: Seq<MessageV>,
    reply: MessageV,
    spent: u64,
    cost: nat,
)
    ensures
        usage.input > 0 || usage.output > 0 ==> turn_cost(usage, sent, reply) == usage.input
            + usage.output,
        spent + cost <= u64::MAX ==> spent_after(spent, cost) == spent + cost,
        spent + cost > u64::MAX ==> spent_after(spent, cost) == u64::MAX,
{
}

/// The last request is measured by what the provider counted for it, and by the messages
/// that were sent.
pub proof fn law_requests_are_measured(
    usage: TokenUsage,
    messages_len: usize,
    before: Option<RequestAnchor>,
)
    requires
        usage.input > 0,
    ensures
        anchored(usage, messages_len, before) is Some,
        anchored(usage, messages_len, before)->0.input_tokens == usage.input as usize,
        anchored(usage, messages_len, before)->0.messages_len == messages_len,
{
}

/// The text `b` lies in `w` at `n`, and around it are marks alone.
pub open spec fn lies_in_marks(w: Seq<char>, b: Seq<char>, n: int) -> bool {
    &&& 0 <= n
    &&& n + b.len() <= w.len()
    &&& w.subrange(n, n + b.len()) == b
    &&& forall|k: int|
        0 <= k < w.len() && (k < n || k >= n + b.len()) ==> !word_char(#[trigger] w[k])
}

proof fn lemma_mark_in_front(w: Seq<char>, b: Seq<char>, n: int)
    requires
        w.len() > 0,
        !word_char(w[0]),
        lies_in_marks(w.drop_first(), b, n),
    ensures
        lies_in_marks(w, b, n + 1),
{
    let rest = w.drop_first();
    assert(w.subrange(n + 1, n + 1 + b.len()) =~= rest.subrange(n, n + b.len()));
    assert forall|k: int|
        0 <= k < w.len() && (k < n + 1 || k >= n + 1 + b.len()) implies !word_char(
        #[trigger] w[k],
    ) by {
        if k > 0 {
            assert(rest[k - 1] == w[k]);
        }
    }
}

proof fn lemma_mark_behind(w: Seq<char>, b: Seq<char>, n: int)
    requires
        w.len() > 0,
        !word_char(w.last()),
        lies_in_marks(w.drop_last(), b, n),
    ensures
        lies_in_marks(w, b, n),
{
    let rest = w.drop_last();
    assert(w.subrange(n, n + b.len()) =~= rest.subrange(n, n + b.len()));
    assert forall|k: int| 0 <= k < w.len() && (k < n || k >= n + b.len()) implies !word_char(
        #[trigger] w[k],
    ) by {
        if k < rest.len() {
            assert(rest[k] == w[k]);
        }
    }
}

proof fn lemma_bare_word(w: Seq<char>) -> (n: int)
    ensures
        lies_in_marks(w, bare_word(w), n),
    decreases w.len(),
{
    if w.len() > 0 && !word_char(w[0]) {
        let n = lemma_bare_word(w.drop_first());
        lemma_mark_in_front(w, bare_word(w.drop_first()), n);
        n + 1
    } else if w.len() > 0 && !word_char(w.last()) {
        let n = lemma_bare_word(w.drop_last());
        lemma_mark_behind(w, bare_word(w.drop_last()), n);
        n
    } else {
        assert(w.subrange(0, w.len() as int) =~= w);
        0
    }
}

proof fn lemma_bare_ends(w: Seq<char>)
    ensures
        bare_word(w).len() > 0 ==> word_char(bare_word(w)[0]) && word_char(bare_word(w).last()),
    decreases w.len(),
{
    if w.len() > 0 && !word_char(w[0]) {
        lemma_bare_ends(w.drop_first());
    } else if w.len() > 0 && !word_char(w.last()) {
        lemma_bare_ends(w.drop_last());
    }
}

/// A bare word begins and ends with a letter or a digit, and only what is neither was
/// taken from around it.
pub proof fn law_bare_words_lose_marks_alone(w: Seq<char>)
    ensures
        bare_word(w).len() > 0 ==> word_char(bare_word(w)[0]) && word_char(bare_word(w).last()),
        exists|n: int| lies_in_marks(w, bare_word(w), n),
{
    lemma_bare_ends(w);
    let n = lemma_bare_word(w);
    assert(lies_in_marks(w, bare_word(w), n));
}

/// Small talk is answered only where the user said it last, and the model is always told
/// who it is.
pub proof fn law_only_the_users_small_talk_counts(
    msgs: Seq<MessageV>,
    missing: Option<Seq<char>>,
)
    ensures
        small_talk_system(msgs, missing) is Some ==> msgs.len() > 0 && msgs.last().role
            == Role::User,
        small_talk_system(msgs, missing) matches Some(t) ==> begins(t, MINI_SYSTEM@),
        small_talk_system(msgs, missing) is Some && missing is Some ==> holds(
            small_talk_system(msgs, missing)->0,
            missing->0,
        ),
{
    if let Some(t) = small_talk_system(msgs, missing) {
        assert(t.subrange(0, MINI_SYSTEM@.len() as int) =~= MINI_SYSTEM@);
        if let Some(name) = missing {
            let at = (MINI_SYSTEM@.len() + " This workspace has no "@.len()) as int;
            assert(t.subrange(at, at + name.len()) =~= name);
            assert(occurs_at(t, name, at));
        }
    }
}

/// An approved plan is carried through a run word for word.
pub proof fn law_plans_are_carried_whole(spec: Seq<char>)
    ensures
        ends(plan_note(spec), spec),
{
    let all = plan_note(spec);
    assert(all.subrange(all.len() - spec.len(), all.len() as int) =~= spec);
}

/// The report of a pass is the last thing that the model said, whatever came behind it
/// that says nothing or was said by others.
pub proof fn law_report_is_the_models_last_word(
    msgs: Seq<MessageV>,
    m: MessageV,
    more: Seq<MessageV>,
)
    requires
        m.role == Role::Assistant,
        trimmed(text_of_blocks(m.content)).len() > 0,
        forall|i: int|
            0 <= i < more.len() ==> (#[trigger] more[i]).role != Role::Assistant || trimmed(
                text_of_blocks(more[i].content),
            ).len() == 0,
    ensures
        last_said(msgs.push(m) + more) == Some(text_of_blocks(m.content)),
    decreases more.len(),
{
    let all = msgs.push(m) + more;
    if more.len() == 0 {
        assert(all =~= msgs.push(m));
    } else {
        let front = more.drop_last();
        assert forall|i: int| 0 <= i < front.len() implies (#[trigger] front[i]).role
            != Role::Assistant || trimmed(text_of_blocks(front[i].content)).len() == 0 by {
            assert(front[i] == more[i]);
        }
        law_report_is_the_models_last_word(msgs, m, front);
        assert(all.drop_last() =~= msgs.push(m) + front);
        assert(all.last() == more[more.len() - 1]);
    }
}

/// A text is cut at every white space, whichever it is, and nowhere else.
pub proof fn law_words_are_cut_at_white_space(a: Seq<char>, c: char, b: Seq<char>)
    ensures
        is_space(c) ==> spaced(a + seq![c] + b) == spaced(a) + spaced(b),
        spaced(b).len() > 0,
        (forall|k: int| 0 <= k < b.len() ==> !is_space(#[trigger] b[k])) ==> spaced(b) == seq![b],
    decreases b.len(),
{
    let s = a + seq![c] + b;
    if b.len() == 0 {
        assert(s =~= a.push(c));
        assert(s.drop_last() =~= a);
        assert(b =~= Seq::empty());
        assert(spaced(b) =~= seq![Seq::<char>::empty()]);
        if is_space(c) {
            assert(spaced(s) =~= spaced(a) + spaced(b));
        }
    } else {
        let front = b.drop_last();
        law_words_are_cut_at_white_space(a, c, front);
        assert(s.drop_last() =~= a + seq![c] + front);
        assert(s.last() == b.last());
        if is_space(c) {
            assert(spaced(s) =~= spaced(a) + spaced(b));
        }
        if forall|k: int| 0 <= k < b.len() ==> !is_space(#[trigger] b[k]) {
            assert(!is_space(b[b.len() - 1]));
            assert forall|k: int| 0 <= k < front.len() implies !is_space(#[trigger] front[k]) by {
                assert(front[k] == b[k]);
            }
            assert(front.push(b.last()) =~= b);
            assert(spaced(b) =~= seq![b]);
        }
    }
}

} // verus!
