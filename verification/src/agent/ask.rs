//! The questions that the model asks the user, and what it is told of the
//! answers.
use vstd::prelude::*;
use crate::agent::{Prompt, PromptAnswer, PromptKind, PromptQuestion, PromptReply};
use crate::checks::text_view;
use crate::json::{
    add_item, arr, field, items_field, js, json_views, law_fields_are_found_by_name, no_items, num,
    object1, object4, written,
    Json, JsonV,
};
use crate::text::{cat2, decimal, ends, size_text, texts, trim, trimmed};

verus! {

/// An option of a question: its name, and the line that shows it.
#[derive(Debug)]
pub struct QuestionOption {
    pub label: String,
    pub display: String,
}

/// A question with the context that it needs and the options that it offers.
#[derive(Debug)]
pub struct Question {
    pub id: String,
    pub context: String,
    pub question: String,
    pub options: Vec<QuestionOption>,
}

/// Where an answer comes from: an option that was chosen, a text that was
/// typed, or nowhere.
#[derive(Clone, Copy, Debug, PartialEq, Eq, Structural)]
pub enum AnswerOrigin {
    User,
    FreeText,
    Dismissed,
}

/// An answer to a question.
#[derive(Debug)]
pub struct QuestionAnswer {
    pub id: String,
    pub value: String,
    pub index: Option<usize>,
    pub origin: AnswerOrigin,
}

/// What a [`QuestionAnswer`] stands for.
pub struct AnswerV {
    pub id: Seq<char>,
    pub value: Seq<char>,
    pub index: Option<usize>,
    pub origin: AnswerOrigin,
}

impl View for QuestionAnswer {
    type V = AnswerV;

    open spec fn view(&self) -> AnswerV {
        AnswerV { id: self.id@, value: self.value@, index: self.index, origin: self.origin }
    }
}

/// What some answers stand for.
pub open spec fn answers(s: Seq<QuestionAnswer>) -> Seq<AnswerV> {
    s.map_values(|a: QuestionAnswer| a@)
}

/// The lines that show the options of a question.
pub open spec fn option_lines(s: Seq<QuestionOption>) -> Seq<Seq<char>> {
    s.map_values(|o: QuestionOption| o.display@)
}

/// The context of a question, if it says anything.
pub open spec fn context_shown(context: Seq<char>) -> Option<Seq<char>> {
    if trimmed(context).len() == 0 {
        None
    } else {
        Some(context)
    }
}

/// What is said where nobody can answer.
pub const NO_USER: &'static str = "No interactive user is available in this session to answer. Proceed with \
     the most reasonable default and state the assumption you made.";

/// What is said where the question was dismissed.
pub const DISMISSED: &'static str = "The user dismissed the question without choosing. Proceed with your best judgment and state the assumption you made.";

fn show_context(context: &String) -> (r: Option<String>)
    ensures
        text_view(r) == context_shown(context@),
{
    if trim(context.as_str()).as_str().is_empty() {
        None
    } else {
        Some(context.clone())
    }
}

fn show_options(options: &Vec<QuestionOption>) -> (r: Vec<String>)
    ensures
        texts(r@) == option_lines(options@),
{
    let mut out: Vec<String> = Vec::new();
    let mut i: usize = 0;
    while i < options.len()
        invariant
            i <= options@.len(),
            out@.len() == i,
            forall|k: int| 0 <= k < i ==> (#[trigger] out@[k])@ == options@[k].display@,
        decreases options@.len() - i,
    {
        out.push(options[i].display.clone());
        i += 1;
    }
    assert(texts(out@) =~= option_lines(options@));
    out
}

/// The prompt shows one question.
pub open spec fn shows_question(p: Prompt, q: Question) -> bool {
    &&& p.title@ == q.question@
    &&& text_view(p.detail) == context_shown(q.context@)
    &&& texts(p.options@) == option_lines(q.options@)
    &&& p.allow_free_text
    &&& p.kind is Question
}

/// One question of a round shows `q`.
pub open spec fn shows_in_round(p: PromptQuestion, q: Question) -> bool {
    &&& p.id@ == q.id@
    &&& p.title@ == q.question@
    &&& text_view(p.detail) == context_shown(q.context@)
    &&& texts(p.options@) == option_lines(q.options@)
    &&& p.allow_free_text
}

/// The prompt shows a round of questions.
pub open spec fn shows_round(p: Prompt, qs: Seq<Question>) -> bool {
    &&& p.title@ == decimal(qs.len()) + " questions"@
    &&& text_view(p.detail) == Some("Answer every question, then submit the round once."@)
    &&& p.options@.len() == 0
    &&& !p.allow_free_text
    &&& p.kind matches PromptKind::QuestionRound { questions } && questions@.len() == qs.len() && (
    forall|i: int| 0 <= i < qs.len() ==> shows_in_round(#[trigger] questions@[i], qs[i]))
}

/// The prompt for some questions: the first alone where they came in the form
/// of a single one, else all of them together.
pub fn ask_prompt(questions: &Vec<Question>, single: bool) -> (p: Prompt)
    requires
        single ==> questions@.len() > 0,
    ensures
        single ==> shows_question(p, questions@[0]),
        !single ==> shows_round(p, questions@),
{
    if single {
        let q = &questions[0];
        return Prompt {
            title: q.question.clone(),
            detail: show_context(&q.context),
            options: show_options(&q.options),
            allow_free_text: true,
            kind: PromptKind::Question,
        };
    }
    let mut list: Vec<PromptQuestion> = Vec::new();
    let mut i: usize = 0;
    while i < questions.len()
        invariant
            i <= questions@.len(),
            list@.len() == i,
            forall|k: int| 0 <= k < i ==> shows_in_round(#[trigger] list@[k], questions@[k]),
        decreases questions@.len() - i,
    {
        let q = &questions[i];
        list.push(
            PromptQuestion {
                id: q.id.clone(),
                title: q.question.clone(),
                detail: show_context(&q.context),
                options: show_options(&q.options),
                allow_free_text: true,
            },
        );
        i += 1;
    }
    let count = size_text(questions.len());
    Prompt {
        title: cat2(count.as_str(), " questions"),
        detail: Some("Answer every question, then submit the round once.".to_owned()),
        options: Vec::new(),
        allow_free_text: false,
        kind: PromptKind::QuestionRound { questions: list },
    }
}

/// The answer that a reply gives to a question: the option chosen, else the
/// text typed if it says anything, else none.
pub open spec fn answered(q: Question, index: Option<usize>, text: Option<Seq<char>>) -> AnswerV {
    match index {
        Some(i) => AnswerV {
            id: q.id@,
            value: if i < q.options@.len() {
                q.options@[i as int].label@
            } else {
                Seq::empty()
            },
            index,
            origin: AnswerOrigin::User,
        },
        None => match text {
            Some(t) => if trimmed(t).len() > 0 {
                AnswerV { id: q.id@, value: t, index, origin: AnswerOrigin::FreeText }
            } else {
                AnswerV {
                    id: q.id@,
                    value: Seq::empty(),
                    index,
                    origin: AnswerOrigin::Dismissed,
                }
            },
            None => AnswerV {
                id: q.id@,
                value: Seq::empty(),
                index,
                origin: AnswerOrigin::Dismissed,
            },
        },
    }
}

/// The answers that some replies give, question by question; a question without
/// a reply is dismissed.
pub open spec fn all_answered(qs: Seq<Question>, replies: Seq<PromptAnswer>) -> Seq<AnswerV> {
    Seq::new(
        qs.len(),
        |i: int|
            if i < replies.len() {
                answered(qs[i], replies[i].index, text_view(replies[i].text))
            } else {
                answered(qs[i], None, None)
            },
    )
}

fn answer_one(q: &Question, index: Option<usize>, text: &Option<String>) -> (r: QuestionAnswer)
    ensures
        r@ == answered(*q, index, text_view(*text)),
{
    match index {
        Some(i) => {
            let value = if i < q.options.len() {
                q.options[i].label.clone()
            } else {
                String::new()
            };
            QuestionAnswer { id: q.id.clone(), value, index, origin: AnswerOrigin::User }
        },
        None => {
            if let Some(t) = text {
                if !trim(t.as_str()).as_str().is_empty() {
                    return QuestionAnswer {
                        id: q.id.clone(),
                        value: t.clone(),
                        index,
                        origin: AnswerOrigin::FreeText,
                    };
                }
            }
            QuestionAnswer {
                id: q.id.clone(),
                value: String::new(),
                index,
                origin: AnswerOrigin::Dismissed,
            }
        },
    }
}

/// The replies to the questions of a prompt: the reply itself where it was one
/// question, else the answers of the round.
pub fn replies_of(reply: PromptReply, single: bool) -> (r: Vec<PromptAnswer>)
    ensures
        single ==> r@ == seq![PromptAnswer { index: reply.index, text: reply.text }],
        !single ==> r == reply.answers,
{
    if single {
        let mut r: Vec<PromptAnswer> = Vec::new();
        r.push(PromptAnswer { index: reply.index, text: reply.text });
        assert(r@ =~= seq![PromptAnswer { index: reply.index, text: reply.text }]);
        r
    } else {
        reply.answers
    }
}

/// Computes [`all_answered`].
pub fn collect_answers(questions: &Vec<Question>, replies: &Vec<PromptAnswer>) -> (r: Vec<
    QuestionAnswer,
>)
    ensures
        answers(r@) == all_answered(questions@, replies@),
{
    let mut out: Vec<QuestionAnswer> = Vec::new();
    let mut i: usize = 0;
    while i < questions.len()
        invariant
            i <= questions@.len(),
            out@.len() == i,
            forall|k: int|
                0 <= k < i ==> (#[trigger] out@[k])@ == all_answered(questions@, replies@)[k],
        decreases questions@.len() - i,
    {
        let a = if i < replies.len() {
            answer_one(&questions[i], replies[i].index, &replies[i].text)
        } else {
            answer_one(&questions[i], None, &None)
        };
        out.push(a);
        i += 1;
    }
    assert(answers(out@) =~= all_answered(questions@, replies@));
    out
}

/// What the model is told of the answer to a single question.
pub open spec fn single_result(a: AnswerV) -> Seq<char> {
    if a.origin == AnswerOrigin::Dismissed {
        DISMISSED@
    } else {
        "The user chose: "@ + a.value
    }
}

/// Computes [`single_result`].
pub fn single_answer(a: &QuestionAnswer) -> (r: String)
    ensures
        r@ == single_result(a@),
{
    if a.origin == AnswerOrigin::Dismissed {
        DISMISSED.to_owned()
    } else {
        cat2("The user chose: ", a.value.as_str())
    }
}

/// The name of an origin.
pub open spec fn origin_name(o: AnswerOrigin) -> Seq<char> {
    match o {
        AnswerOrigin::User => "user"@,
        AnswerOrigin::FreeText => "free_text"@,
        AnswerOrigin::Dismissed => "dismissed"@,
    }
}

/// An answer as the model gets it.
pub open spec fn answer_value(a: AnswerV) -> JsonV {
    JsonV::Object(
        seq![
            ("id"@, JsonV::Str(a.id)),
            (
                "index"@,
                match a.index {
                    Some(i) => JsonV::Number(decimal(i as nat)),
                    None => JsonV::Null,
                },
            ),
            ("origin"@, JsonV::Str(origin_name(a.origin))),
            ("value"@, JsonV::Str(a.value)),
        ],
    )
}

/// The answers to a round as the model gets them.
pub open spec fn round_value(s: Seq<AnswerV>) -> JsonV {
    JsonV::Object(
        seq![("answers"@, JsonV::Array(s.map_values(|a: AnswerV| answer_value(a))))],
    )
}

fn answer_json(a: &QuestionAnswer) -> (r: Json)
    ensures
        r@ == answer_value(a@),
{
    let index = match a.index {
        Some(i) => num(i as u64),
        None => Json::Null,
    };
    assert(index@ == (match a.index {
        Some(i) => JsonV::Number(decimal(i as nat)),
        None => JsonV::Null,
    }));
    let origin = match a.origin {
        AnswerOrigin::User => "user",
        AnswerOrigin::FreeText => "free_text",
        AnswerOrigin::Dismissed => "dismissed",
    };
    assert(origin@ == origin_name(a.origin));
    let r = object4(
        "id",
        js(a.id.as_str()),
        "index",
        index,
        "origin",
        js(origin),
        "value",
        js(a.value.as_str()),
    );
    assert(r@->Object_0 =~= answer_value(a@)->Object_0);
    r
}

/// Builds [`round_value`].
pub fn round_json(list: &Vec<QuestionAnswer>) -> (r: Json)
    ensures
        r@ == round_value(answers(list@)),
{
    let ghost all = answers(list@).map_values(|a: AnswerV| answer_value(a));
    let mut items = no_items();
    let mut i: usize = 0;
    assert(all.take(0) =~= Seq::empty());
    while i < list.len()
        invariant
            i <= list@.len(),
            all == answers(list@).map_values(|a: AnswerV| answer_value(a)),
            json_views(items@) == all.take(i as int),
        decreases list@.len() - i,
    {
        assert(answers(list@)[i as int] == list@[i as int]@);
        add_item(&mut items, answer_json(&list[i]));
        assert(all.take(i as int).push(all[i as int]) =~= all.take(i + 1));
        i += 1;
    }
    assert(all.take(i as int) =~= all);
    object1("answers", arr(items))
}

/// What follows the model's question: it is told something at once, or the user
/// is asked.
#[derive(Debug)]
pub enum Asking {
    Tell { text: String, is_error: bool },
    Ask(Prompt),
}

/// Begins to ask. `round` holds the questions and whether they came in the form
/// of a single one, or why they cannot be read; `attended` tells that somebody
/// can answer.
pub fn begin_asking(round: &Result<(Vec<Question>, bool), String>, attended: bool) -> (r: Asking)
    requires
        round matches Ok((questions, single)) ==> *single ==> questions@.len() > 0,
    ensures
        match round {
            Err(e) => r matches Asking::Tell { text, is_error } && text@
                == "Invalid question round: "@ + e@ && is_error,
            Ok((questions, single)) => if attended {
                r matches Asking::Ask(p) && (if *single {
                    shows_question(p, questions@[0])
                } else {
                    shows_round(p, questions@)
                })
            } else {
                r matches Asking::Tell { text, is_error } && text@ == NO_USER@ && !is_error
            },
        },
{
    match round {
        Err(e) => Asking::Tell {
            text: cat2("Invalid question round: ", e.as_str()),
            is_error: true,
        },
        Ok((questions, single)) => {
            if attended {
                Asking::Ask(ask_prompt(questions, *single))
            } else {
                Asking::Tell { text: NO_USER.to_owned(), is_error: false }
            }
        },
    }
}

/// What the model is told once the user has answered: of a single question in
/// words, of a round as JSON text.
pub open spec fn round_result(qs: Seq<Question>, single: bool, reply: PromptReply) -> Seq<char> {
    if single {
        single_result(answered(qs[0], reply.index, text_view(reply.text)))
    } else {
        written(round_value(all_answered(qs, reply.answers@)))
    }
}

/// Computes [`round_result`].
pub fn end_asking(questions: &Vec<Question>, single: bool, reply: PromptReply) -> (r: String)
    requires
        single ==> questions@.len() > 0,
    ensures
        r@ == round_result(questions@, single, reply),
{
    let replies = replies_of(reply, single);
    let list = collect_answers(questions, &replies);
    assert(answers(list@).len() == list@.len());
    if single {
        assert(answers(list@)[0] == list@[0]@);
        single_answer(&list[0])
    } else {
        round_json(&list).render()
    }
}

/// Every question of a round gets an answer, in its place, whatever the user
/// left out.
pub proof fn law_every_question_is_answered(
    qs: Seq<Question>,
    replies: Seq<PromptAnswer>,
    i: int,
)
    requires
        0 <= i < qs.len(),
    ensures
        all_answered(qs, replies).len() == qs.len(),
        all_answered(qs, replies)[i].id == qs[i].id@,
        i >= replies.len() ==> all_answered(qs, replies)[i].origin == AnswerOrigin::Dismissed,
{
}

/// What the user chose is what the model gets: the label of the option, or the text that
/// they typed; only an empty reply counts as none.
pub proof fn law_users_choice_is_kept(q: Question, i: usize, text: Seq<char>)
    ensures
        i < q.options@.len() ==> answered(q, Some(i), Some(text)).value
            == q.options@[i as int].label@,
        i < q.options@.len() ==> answered(q, Some(i), Some(text)).index == Some(i),
        trimmed(text).len() > 0 ==> answered(q, None, Some(text)).value == text,
        trimmed(text).len() > 0 ==> answered(q, None, Some(text)).origin == AnswerOrigin::FreeText,
        trimmed(text).len() == 0 ==> answered(q, None, Some(text)).origin
            == AnswerOrigin::Dismissed,
        answered(q, None, None).origin == AnswerOrigin::Dismissed,
        answered(q, Some(i), Some(text)).origin == AnswerOrigin::User,
{
}

/// The model is told the user's answer to a single question word for word, and is told
/// where there is none.
pub proof fn law_single_answers_are_told(q: Question, i: usize, text: Seq<char>)
    ensures
        i < q.options@.len() ==> ends(
            single_result(answered(q, Some(i), Some(text))),
            q.options@[i as int].label@,
        ),
        trimmed(text).len() > 0 ==> ends(single_result(answered(q, None, Some(text))), text),
{
    if i < q.options@.len() {
        let v = q.options@[i as int].label@;
        let all = "The user chose: "@ + v;
        assert(all.subrange(all.len() - v.len(), all.len() as int) =~= v);
    }
    let all = "The user chose: "@ + text;
    assert(all.subrange(all.len() - text.len(), all.len() as int) =~= text);
}

proof fn lemma_names_apart()
    ensures
        "id"@ != "index"@,
        "id"@ != "origin"@,
        "id"@ != "value"@,
        "index"@ != "origin"@,
        "index"@ != "value"@,
        "origin"@ != "value"@,
{
    reveal_strlit("id");
    reveal_strlit("index");
    reveal_strlit("origin");
    reveal_strlit("value");
    assert("id"@.len() == 2 && "index"@.len() == 5 && "origin"@.len() == 6);
    assert("value"@.len() == 5 && "index"@[0] != "value"@[0]);
}

/// The answers to a round reach the model one for one, in the order of the questions, each
/// with the question's id and the user's choice.
pub proof fn law_round_answers_reach_the_model(s: Seq<AnswerV>, i: int)
    requires
        0 <= i < s.len(),
    ensures
        ({
            let list = items_field(round_value(s), "answers"@);
            &&& list is Some
            &&& list->0.len() == s.len()
            &&& field(list->0[i], "id"@) == Some(JsonV::Str(s[i].id))
            &&& field(list->0[i], "value"@) == Some(JsonV::Str(s[i].value))
            &&& s[i].index matches Some(n) ==> field(list->0[i], "index"@) == Some(
                JsonV::Number(decimal(n as nat)),
            )
        }),
{
    lemma_names_apart();
    law_fields_are_found_by_name(round_value(s)->Object_0, 0, "answers"@);
    let a = answer_value(s[i])->Object_0;
    law_fields_are_found_by_name(a, 0, "id"@);
    law_fields_are_found_by_name(a, 1, "id"@);
    law_fields_are_found_by_name(a, 3, "id"@);
}

/// A question is shown as the model put it, with its context where it says something, and
/// with all its options in their order.
pub proof fn law_questions_are_shown_whole(p: Prompt, q: Question, i: int)
    requires
        shows_question(p, q),
    ensures
        p.title@ == q.question@,
        trimmed(q.context@).len() > 0 ==> p.detail is Some && p.detail->0@ == q.context@,
        trimmed(q.context@).len() == 0 ==> p.detail is None,
        p.options@.len() == q.options@.len(),
        0 <= i < q.options@.len() ==> p.options@[i]@ == q.options@[i].display@,
{
    let (a, b) = (texts(p.options@), option_lines(q.options@));
    assert(a.len() == p.options@.len() && b.len() == q.options@.len());
    if 0 <= i < q.options@.len() {
        assert(a[i] == p.options@[i]@ && b[i] == q.options@[i].display@);
    }
}

/// A round shows every question that the model put, in its place, each with its own id.
pub proof fn law_rounds_are_shown_whole(p: Prompt, qs: Seq<Question>, i: int)
    requires
        shows_round(p, qs),
        0 <= i < qs.len(),
    ensures
        p.kind is QuestionRound,
        p.kind->questions@.len() == qs.len(),
        p.kind->questions@[i].id@ == qs[i].id@,
        p.kind->questions@[i].title@ == qs[i].question@,
        p.kind->questions@[i].options@.len() == qs[i].options@.len(),
{
    let shown = p.kind->questions@[i];
    assert(shows_in_round(shown, qs[i]));
    let (a, b) = (texts(shown.options@), option_lines(qs[i].options@));
    assert(a.len() == shown.options@.len() && b.len() == qs[i].options@.len());
}

} // verus!
