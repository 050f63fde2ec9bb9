//! The commands beside the agent itself: what they check, decide and print.
use vstd::prelude::*;
use crate::text::{
    cat2, cat3, cat5, decimal, ends, first_chars, head, holds, occurs_at, put_repeated, repeated,
    size_text, to_chars,
};

pub mod doctor;
pub mod env_list;
pub mod ground;
pub mod hook;
pub mod login;
pub mod session_cmds;
pub mod setup_verification;
pub mod stats;
pub mod update;

verus! {

/// The names that the vendor of a model chose: what its models are called, the
/// one that is taken unless another is named, that one's name at a router, and
/// the file in which its own tools look for instructions.
#[derive(Debug)]
pub struct VendorNames {
    pub brand: String,
    pub model: String,
    pub routed_model: String,
    pub instructions: String,
}

/// What [`VendorNames`] stand for.
pub struct NamesV {
    pub brand: Seq<char>,
    pub model: Seq<char>,
    pub routed_model: Seq<char>,
    pub instructions: Seq<char>,
}

impl View for VendorNames {
    type V = NamesV;

    open spec fn view(&self) -> NamesV {
        NamesV {
            brand: self.brand@,
            model: self.model@,
            routed_model: self.routed_model@,
            instructions: self.instructions@,
        }
    }
}

/// A token as it may be shown: nothing of a short one, the first characters of a
/// long one.
pub open spec fn masked(token: Seq<char>) -> Seq<char> {
    if token.len() <= 8 {
        repeated('•', token.len())
    } else {
        first_chars(token, 6) + "…••••"@
    }
}

/// Computes [`masked`].
pub fn mask(token: &str) -> (r: String)
    ensures
        r@ == masked(token@),
{
    let n: usize = to_chars(token).len();
    if n <= 8 {
        let mut out = String::new();
        put_repeated(&mut out, '•', n);
        assert(out@ =~= repeated('•', n as nat));
        out
    } else {
        cat2(head(token, 6).as_str(), "…••••")
    }
}

// ------------------------------------------------------------ a new project

/// What became of the link to the project's state.
#[derive(Debug)]
pub enum LinkOutcome {
    Created(String),
    Existed,
    Unsupported,
    Failed(String),
}

/// What a command prints: to the user, or as an error.
#[derive(Debug)]
pub enum Line {
    Out(String),
    Error(String),
}

/// What a [`Line`] stands for.
pub enum LineV {
    Out(Seq<char>),
    Error(Seq<char>),
}

impl View for Line {
    type V = LineV;

    open spec fn view(&self) -> LineV {
        match self {
            Line::Out(t) => LineV::Out(t@),
            Line::Error(t) => LineV::Error(t@),
        }
    }
}

/// What some lines stand for.
pub open spec fn line_views(v: Seq<Line>) -> Seq<LineV> {
    v.map_values(|l: Line| l@)
}

/// What is printed of the code map, the link and the instructions.
pub open spec fn init_lines(
    files: nat,
    edges: nat,
    link: LinkOutcome,
    exists_there: bool,
) -> Seq<LineV> {
    seq![
        LineV::Out(
            "built code map: "@ + decimal(files) + " files, "@ + decimal(edges) + " edges"@,
        ),
    ] + (match link {
        LinkOutcome::Created(l) => seq![
            LineV::Out(
                "linked "@ + l@ + " → per-project config/state (add it to .gitignore)"@,
            ),
        ],
        LinkOutcome::Failed(e) => seq![LineV::Error("could not link project config: "@ + e@)],
        _ => Seq::empty(),
    }) + (if exists_there {
        seq![LineV::Out("AGENTS.md already exists — not overwriting"@)]
    } else {
        Seq::empty()
    })
}

/// Prepares a project: what is printed, and whether its instructions are to be
/// written. Those that exist are not written over.
pub fn init_project(files: usize, edges: usize, link: &LinkOutcome, exists_there: bool) -> (r: (
    Vec<Line>,
    bool,
))
    ensures
        line_views(r.0@) == init_lines(files as nat, edges as nat, *link, exists_there),
        r.1 == !exists_there,
{
    let mut out: Vec<Line> = Vec::new();
    out.push(
        Line::Out(
            cat5(
                "built code map: ",
                size_text(files).as_str(),
                " files, ",
                size_text(edges).as_str(),
                " edges",
            ),
        ),
    );
    match link {
        LinkOutcome::Created(l) => {
            out.push(
                Line::Out(
                    cat3(
                        "linked ",
                        l.as_str(),
                        " → per-project config/state (add it to .gitignore)",
                    ),
                ),
            );
        },
        LinkOutcome::Failed(e) => {
            out.push(Line::Error(cat2("could not link project config: ", e.as_str())));
        },
        _ => {},
    }
    if exists_there {
        out.push(Line::Out("AGENTS.md already exists — not overwriting".to_owned()));
    }
    assert(line_views(out@) =~= init_lines(files as nat, edges as nat, *link, exists_there));
    (out, !exists_there)
}

/// What is said of instructions that were just written.
pub const AGENTS_TIP: &'static str = "tip: maintain AGENTS.md like a pilot's checklist — earn each line \
(add a rule only after a real failure or hard constraint), keep it short, and prune rules the model has \
outgrown. It lands in the prompt every turn.";

/// What is printed after an attempt to write the instructions.
pub fn instructions_written(path: &str, error: Option<&str>) -> (r: Vec<Line>)
    ensures
        line_views(r@) == (match error {
            Some(e) => seq![LineV::Error("could not write AGENTS.md: "@ + e@)],
            None => seq![LineV::Out("created "@ + path@), LineV::Out(AGENTS_TIP@)],
        }),
{
    let mut out: Vec<Line> = Vec::new();
    match error {
        Some(e) => {
            out.push(Line::Error(cat2("could not write AGENTS.md: ", e)));
            assert(line_views(out@) =~= seq![LineV::Error("could not write AGENTS.md: "@ + e@)]);
        },
        None => {
            out.push(Line::Out(cat2("created ", path)));
            out.push(Line::Out(AGENTS_TIP.to_owned()));
            assert(line_views(out@) =~= seq![
                LineV::Out("created "@ + path@),
                LineV::Out(AGENTS_TIP@),
            ]);
        },
    }
    out
}

// ------------------------------------------------------------ laws

/// A masked token never shows more than its first six characters, and nothing of
/// one that is short.
pub proof fn law_mask_hides_the_token(token: Seq<char>)
    ensures
        token.len() <= 8 ==> forall|i: int|
            0 <= i < masked(token).len() ==> #[trigger] masked(token)[i] == '•',
        token.len() > 8 ==> masked(token) == token.take(6) + "…••••"@,
{
}

/// What was built is told in numbers; a link that was made is named, and one that could not
/// be made is told with the reason, as an error.
pub proof fn law_preparations_are_told(
    files: nat,
    edges: nat,
    link: LinkOutcome,
    exists_there: bool,
)
    ensures
        ({
            let lines = init_lines(files, edges, link, exists_there);
            &&& lines[0] is Out
            &&& holds(lines[0]->Out_0, decimal(files) + " files, "@ + decimal(edges) + " edges"@)
            &&& link matches LinkOutcome::Failed(e) ==> lines[1] is Error && ends(
                lines[1]->Error_0,
                e@,
            )
            &&& link matches LinkOutcome::Created(l) ==> lines[1] is Out && holds(
                lines[1]->Out_0,
                l@,
            )
        }),
{
    let lines = init_lines(files, edges, link, exists_there);
    let n = decimal(files) + " files, "@ + decimal(edges) + " edges"@;
    let first = "built code map: "@ + decimal(files) + " files, "@ + decimal(edges) + " edges"@;
    let at = "built code map: "@.len() as int;
    assert(first.subrange(at, at + n.len()) =~= n);
    assert(occurs_at(first, n, at));
    match link {
        LinkOutcome::Failed(e) => {
            let t = "could not link project config: "@ + e@;
            assert(t.subrange(t.len() - e@.len(), t.len() as int) =~= e@);
        },
        LinkOutcome::Created(l) => {
            let t = "linked "@ + l@ + " → per-project config/state (add it to .gitignore)"@;
            let from = "linked "@.len() as int;
            assert(t.subrange(from, from + l@.len()) =~= l@);
            assert(occurs_at(t, l@, from));
        },
        _ => {},
    }
}

} // verus!
